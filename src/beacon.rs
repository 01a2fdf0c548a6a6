//! Minecraft's LAN beacons: the advertisement text, how a datagram is read, and the list of
//! local game servers that recent beacons announce.

use crate::overlay::port_text_value;
use crate::text::{decimal, decimal_of, string_of};
use vstd::prelude::*;
use vstd::string::*;

verus! {

/// How long, in milliseconds, a server stays listed after its last beacon.
pub const SERVER_TIMEOUT_MS: u64 = 5000;

/// The text of a beacon advertising a game named `motd` on `port`.
pub open spec fn beacon_text(motd: Seq<char>, port: u16) -> Seq<char> {
    "[MOTD]"@ + motd + "[/MOTD][AD]"@ + decimal(port as nat) + "[/AD]"@
}

/// The text of a beacon advertising a game named `motd` on `port`.
pub fn beacon_message(motd: &str, port: u16) -> (r: String)
    ensures
        r@ == beacon_text(motd@, port),
{
    let mut s = String::from_str("[MOTD]");
    s.append(motd);
    s.append("[/MOTD][AD]");
    s.append(string_of(&decimal_of(port as u64)).as_str());
    s.append("[/AD]");
    s
}

/// `pat` stands in `data` at `i`.
pub open spec fn at(data: Seq<u8>, pat: Seq<u8>, i: int) -> bool {
    0 <= i && i + pat.len() <= data.len() && data.subrange(i, i + pat.len()) == pat
}

/// The first place, from `i` on, where `pat` stands in `data`.
pub open spec fn find_from(data: Seq<u8>, pat: Seq<u8>, i: int) -> Option<int>
    decreases data.len() + 1 - i,
{
    if i < 0 || i + pat.len() > data.len() {
        None
    } else if at(data, pat, i) {
        Some(i)
    } else {
        find_from(data, pat, i + 1)
    }
}

/// The first place where `pat` stands in `data`.
pub fn find_bytes(data: &Vec<u8>, pat: &Vec<u8>) -> (r: Option<usize>)
    ensures
        match r {
            Some(i) => find_from(data@, pat@, 0) == Some(i as int),
            None => find_from(data@, pat@, 0) is None,
        },
{
    if pat.len() > data.len() {
        return None;
    }
    if pat.len() == 0 {
        assert(data@.subrange(0, 0) =~= pat@);
        return Some(0);
    }
    let n = data.len();
    let last = n - pat.len();
    let mut i: usize = 0;
    while i <= last
        invariant
            last + pat@.len() == data@.len(),
            n == data@.len(),
            pat@.len() >= 1,
            i <= last + 1,
            find_from(data@, pat@, 0) == find_from(data@, pat@, i as int),
        decreases last + 1 - i,
    {
        let mut j: usize = 0;
        let mut same = true;
        while j < pat.len()
            invariant
                last + pat@.len() == data@.len(),
                n == data@.len(),
                i <= last,
                j <= pat@.len(),
                same == forall|k: int| 0 <= k < j ==> data@[i + k] == pat@[k],
            decreases pat@.len() - j,
        {
            if data[i + j] != pat[j] {
                same = false;
            }
            j += 1;
        }
        if same {
            assert(data@.subrange(i as int, i + pat@.len()) =~= pat@);
            return Some(i);
        } else {
            assert(!at(data@, pat@, i as int)) by {
                if at(data@, pat@, i as int) {
                    let k = choose|k: int| 0 <= k < pat@.len() && data@[i + k] != pat@[k];
                    assert(data@.subrange(i as int, i + pat@.len())[k] == data@[i + k]);
                }
            }
        }
        i += 1;
    }
    None
}

/// The bytes between a marker found at `begin`, of `open` bytes, and one found at `end`,
/// where at least one byte lies between.
pub open spec fn between(data: Seq<u8>, begin: Option<int>, open: int, end: Option<int>) -> Option<
    Seq<u8>,
> {
    match (begin, end) {
        (Some(b), Some(e)) => if e >= b + open + 1 {
            Some(data.subrange(b + open, e))
        } else {
            None
        },
        _ => None,
    }
}

/// `[MOTD]` in bytes.
pub open spec fn motd_open() -> Seq<u8> {
    seq![91u8, 77, 79, 84, 68, 93]
}

/// `[/MOTD]` in bytes.
pub open spec fn motd_close() -> Seq<u8> {
    seq![91u8, 47, 77, 79, 84, 68, 93]
}

/// `[AD]` in bytes.
pub open spec fn ad_open() -> Seq<u8> {
    seq![91u8, 65, 68, 93]
}

/// `[/AD]` in bytes.
pub open spec fn ad_close() -> Seq<u8> {
    seq![91u8, 47, 65, 68, 93]
}

/// Bytes read one character each.
pub open spec fn byte_chars(b: Seq<u8>) -> Seq<char> {
    Seq::new(b.len(), |i: int| b[i] as char)
}

/// The game port that a beacon announces: the first `[MOTD]`...`[/MOTD]` names the game,
/// which must not be `excluded`, and the first `[AD]`...`[/AD]` holds the port.
pub open spec fn beacon_port(data: Seq<u8>, excluded: Seq<u8>) -> Option<u16> {
    let motd = between(data, find_from(data, motd_open(), 0), 6, find_from(data, motd_close(), 0));
    let ad = between(data, find_from(data, ad_open(), 0), 4, find_from(data, ad_close(), 0));
    match (motd, ad) {
        (Some(m), Some(a)) => if m != excluded {
            port_text_value(byte_chars(a))
        } else {
            None
        },
        _ => None,
    }
}

fn between_of(data: &Vec<u8>, open: &Vec<u8>, close: &Vec<u8>) -> (r: Option<Vec<u8>>)
    ensures
        match r {
            Some(v) => between(
                data@,
                find_from(data@, open@, 0),
                open@.len() as int,
                find_from(data@, close@, 0),
            ) == Some(v@),
            None => between(
                data@,
                find_from(data@, open@, 0),
                open@.len() as int,
                find_from(data@, close@, 0),
            ) is None,
        },
{
    proof {
        lemma_find_from(data@, open@, 0);
        lemma_find_from(data@, close@, 0);
    }
    let b = match find_bytes(data, open) {
        Some(b) => b,
        None => {
            return None;
        },
    };
    let e = match find_bytes(data, close) {
        Some(e) => e,
        None => {
            return None;
        },
    };
    let n = data.len();
    assert(b + open@.len() <= n);
    if e <= b + open.len() {
        return None;
    }
    let mut out: Vec<u8> = Vec::new();
    let mut i: usize = b + open.len();
    while i < e
        invariant
            b + open@.len() <= i <= e <= data@.len(),
            out@ == data@.subrange(b + open@.len(), i as int),
        decreases e - i,
    {
        out.push(data[i]);
        i += 1;
        assert(out@ =~= data@.subrange(b + open@.len(), i as int));
    }
    Some(out)
}

pub proof fn lemma_find_from(data: Seq<u8>, pat: Seq<u8>, i: int)
    requires
        0 <= i,
    ensures
        find_from(data, pat, i) matches Some(k) ==> i <= k && k + pat.len() <= data.len(),
    decreases data.len() + 1 - i,
{
    if i + pat.len() <= data.len() && !at(data, pat, i) {
        lemma_find_from(data, pat, i + 1);
    }
}

/// The game port that a beacon announces, where its name is not `excluded`.
pub fn parse_beacon(data: &Vec<u8>, excluded: &Vec<u8>) -> (r: Option<u16>)
    ensures
        r == beacon_port(data@, excluded@),
{
    let mo = vec![91u8, 77, 79, 84, 68, 93];
    let mc = vec![91u8, 47, 77, 79, 84, 68, 93];
    let ao = vec![91u8, 65, 68, 93];
    let ac = vec![91u8, 47, 65, 68, 93];
    assert(mo@ =~= motd_open() && mc@ =~= motd_close() && ao@ =~= ad_open() && ac@ =~= ad_close());
    let motd = match between_of(data, &mo, &mc) {
        Some(m) => m,
        None => {
            return None;
        },
    };
    if motd.len() == excluded.len() {
        let mut i: usize = 0;
        let mut same = true;
        while i < motd.len()
            invariant
                motd@.len() == excluded@.len(),
                i <= motd@.len(),
                same == forall|k: int| 0 <= k < i ==> motd@[k] == excluded@[k],
            decreases motd@.len() - i,
        {
            if motd[i] != excluded[i] {
                same = false;
            }
            i += 1;
        }
        if same {
            assert(motd@ =~= excluded@);
            return None;
        }
    }
    let ad = match between_of(data, &ao, &ac) {
        Some(a) => a,
        None => {
            return None;
        },
    };
    let mut chars: Vec<char> = Vec::new();
    let mut i: usize = 0;
    while i < ad.len()
        invariant
            i <= ad@.len(),
            chars@ == byte_chars(ad@.subrange(0, i as int)),
        decreases ad@.len() - i,
    {
        chars.push(ad[i] as char);
        i += 1;
        assert(chars@ =~= byte_chars(ad@.subrange(0, i as int)));
    }
    assert(ad@.subrange(0, ad@.len() as int) =~= ad@);
    assert(chars@.subrange(0, chars@.len() as int) =~= chars@);
    crate::overlay::parse_port(&chars, 0)
}

/// A server last announced at `t` is still listed at `now`: five seconds have not passed.
pub open spec fn server_fresh(t: u64, now: u64) -> bool {
    !(t <= now && now - t >= SERVER_TIMEOUT_MS)
}

/// The servers of `s` still listed at `now`, in order.
pub open spec fn live_servers(s: Seq<(u16, u64)>, now: u64) -> Seq<(u16, u64)>
    decreases s.len(),
{
    if s.len() == 0 {
        s
    } else if server_fresh(s.last().1, now) {
        live_servers(s.drop_last(), now).push(s.last())
    } else {
        live_servers(s.drop_last(), now)
    }
}

/// No port is listed twice.
pub open spec fn ports_distinct(s: Seq<(u16, u64)>) -> bool {
    forall|i: int, j: int| 0 <= i < j < s.len() ==> #[trigger] s[i].0 != #[trigger] s[j].0
}

pub proof fn lemma_live_servers(s: Seq<(u16, u64)>, now: u64)
    ensures
        forall|x: (u16, u64)| #[trigger] live_servers(s, now).contains(x) ==> s.contains(x),
        ports_distinct(s) ==> ports_distinct(live_servers(s, now)),
    decreases s.len(),
{
    if s.len() > 0 {
        let t = s.drop_last();
        lemma_live_servers(t, now);
        let l = live_servers(s, now);
        let lt = live_servers(t, now);
        assert forall|x: (u16, u64)| #[trigger] l.contains(x) implies s.contains(x) by {
            if lt.contains(x) {
                let j = choose|j: int| 0 <= j < t.len() && t[j] == x;
                assert(s[j] == x);
            } else {
                assert(s[s.len() - 1] == x);
            }
        }
        if ports_distinct(s) && server_fresh(s.last().1, now) {
            assert(ports_distinct(t)) by {
                assert forall|i: int, j: int| 0 <= i < j < t.len() implies #[trigger] t[i].0
                    != #[trigger] t[j].0 by {
                    assert(t[i] == s[i] && t[j] == s[j]);
                }
            }
            assert forall|i: int, j: int| 0 <= i < j < l.len() implies #[trigger] l[i].0
                != #[trigger] l[j].0 by {
                if j < lt.len() {
                    assert(l[i] == lt[i] && l[j] == lt[j]);
                } else {
                    assert(l[i] == lt[i]);
                    assert(lt.contains(lt[i]));
                    let k = choose|k: int| 0 <= k < t.len() && t[k] == lt[i];
                    assert(s[k] == t[k]);
                    assert(l[j] == s[s.len() - 1]);
                }
            }
        }
    }
}

/// Drops the servers not announced for five seconds at `now`. Returns whether any was
/// dropped. A list without a port twice stays so.
pub fn expire_servers(servers: &mut Vec<(u16, u64)>, now: u64) -> (changed: bool)
    ensures
        final(servers)@ == live_servers(old(servers)@, now),
        ports_distinct(old(servers)@) ==> ports_distinct(final(servers)@),
        changed == (final(servers)@.len() != old(servers)@.len()),
{
    let ghost s = servers@;
    let mut kept: Vec<(u16, u64)> = Vec::new();
    let mut i: usize = 0;
    while i < servers.len()
        invariant
            s == servers@,
            i <= s.len(),
            kept@ == live_servers(s.subrange(0, i as int), now),
            kept@.len() <= i,
        decreases s.len() - i,
    {
        let e = servers[i];
        assert(s.subrange(0, i + 1).drop_last() =~= s.subrange(0, i as int));
        if !(e.1 <= now && now - e.1 >= SERVER_TIMEOUT_MS) {
            kept.push(e);
        }
        i += 1;
    }
    assert(s.subrange(0, s.len() as int) =~= s);
    proof {
        lemma_live_servers(s, now);
    }
    let changed = kept.len() != servers.len();
    *servers = kept;
    changed
}

/// The first place of `port` in `s`.
pub open spec fn find_port(s: Seq<(u16, u64)>, port: u16, i: int) -> Option<int>
    decreases s.len() - i,
{
    if i < 0 || i >= s.len() {
        None
    } else if s[i].0 == port {
        Some(i)
    } else {
        find_port(s, port, i + 1)
    }
}

/// Records a beacon for `port` at `now`: a listed server moves to the end with the new
/// time; a new one is added there. Returns whether the server is new. A list without a
/// port twice stays so.
pub fn record_server(servers: &mut Vec<(u16, u64)>, port: u16, now: u64) -> (is_new: bool)
    ensures
        ports_distinct(old(servers)@) ==> ports_distinct(final(servers)@),
        match find_port(old(servers)@, port, 0) {
            Some(i) => !is_new && final(servers)@ == old(servers)@.remove(i).push((port, now)),
            None => is_new && final(servers)@ == old(servers)@.push((port, now)),
        },
{
    let ghost s = servers@;
    let mut i: usize = 0;
    while i < servers.len()
        invariant
            s == servers@,
            s == old(servers)@,
            i <= s.len(),
            find_port(s, port, 0) == find_port(s, port, i as int),
        decreases s.len() - i,
    {
        if servers[i].0 == port {
            servers.remove(i);
            servers.push((port, now));
            proof {
                let f = servers@;
                if ports_distinct(s) {
                    assert forall|a: int, b: int| 0 <= a < b < f.len() implies #[trigger] f[a].0
                        != #[trigger] f[b].0 by {
                        let oa = if a < i { a } else { a + 1 };
                        assert(f[a] == s[oa]);
                        if b < f.len() - 1 {
                            let ob = if b < i { b } else { b + 1 };
                            assert(f[b] == s[ob]);
                        } else {
                            assert(s[i as int].0 == port);
                        }
                    }
                }
            }
            return false;
        }
        i += 1;
    }
    proof {
        lemma_find_port(s, port, 0);
    }
    servers.push((port, now));
    proof {
        let f = servers@;
        if ports_distinct(s) {
            assert forall|a: int, b: int| 0 <= a < b < f.len() implies #[trigger] f[a].0
                != #[trigger] f[b].0 by {
                assert(f[a] == s[a]);
                if b < s.len() {
                    assert(f[b] == s[b]);
                }
            }
        }
    }
    true
}

pub proof fn lemma_find_port(s: Seq<(u16, u64)>, port: u16, i: int)
    requires
        0 <= i,
    ensures
        find_port(s, port, i) is None ==> forall|j: int| i <= j < s.len() ==> #[trigger] s[j].0 != port,
    decreases s.len() - i,
{
    if i < s.len() && s[i].0 != port {
        lemma_find_port(s, port, i + 1);
    }
}

/// The ports of the listed servers, in order.
pub fn server_ports(servers: &Vec<(u16, u64)>) -> (r: Vec<u16>)
    ensures
        r@ == Seq::new(servers@.len(), |i: int| servers@[i].0),
{
    let mut out: Vec<u16> = Vec::new();
    let mut i: usize = 0;
    while i < servers.len()
        invariant
            i <= servers@.len(),
            out@ == Seq::new(i as nat, |k: int| servers@[k].0),
        decreases servers@.len() - i,
    {
        out.push(servers[i].0);
        i += 1;
        assert(out@ =~= Seq::new(i as nat, |k: int| servers@[k].0));
    }
    out
}

} // verus!
