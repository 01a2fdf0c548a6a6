//! The lists of profiles that a host and a guest keep, and how they change.

use crate::profile::{make_profile, same_text, Profile, ProfileKind, ProfileView};
use vstd::prelude::*;

verus! {

/// How long, in milliseconds, a guest stays listed on the host after its last ping.
pub const GUEST_TIMEOUT_MS: u64 = 10000;

/// The profiles of a host's list, without their times.
pub open spec fn host_views(s: Seq<(u64, Profile)>) -> Seq<ProfileView> {
    Seq::new(s.len(), |i: int| s[i].1@)
}

/// The last-seen times of a host's list.
pub open spec fn host_times(s: Seq<(u64, Profile)>) -> Seq<u64> {
    Seq::new(s.len(), |i: int| s[i].0)
}

/// No two profiles share a machine id.
pub open spec fn ids_distinct(s: Seq<ProfileView>) -> bool {
    forall|i: int, j: int|
        0 <= i < s.len() && 0 <= j < s.len() && i != j ==> #[trigger] s[i].machine_id
            != #[trigger] s[j].machine_id
}

/// A host's list: the host first, guests after it, no machine id twice.
pub open spec fn host_list_wf(s: Seq<ProfileView>) -> bool {
    &&& s.len() >= 1
    &&& s[0].kind == ProfileKind::HOST
    &&& forall|i: int| 1 <= i < s.len() ==> (#[trigger] s[i]).kind == ProfileKind::GUEST
    &&& ids_distinct(s)
}

/// The first place, from `from` on, of a profile with machine id `id`.
pub open spec fn find_id(s: Seq<ProfileView>, id: Seq<char>, from: int) -> Option<int>
    decreases s.len() - from,
{
    if from < 0 || from >= s.len() {
        None
    } else if s[from].machine_id == id {
        Some(from)
    } else {
        find_id(s, id, from + 1)
    }
}

pub proof fn lemma_find_id(s: Seq<ProfileView>, id: Seq<char>, from: int)
    requires
        0 <= from,
    ensures
        find_id(s, id, from) matches Some(k) ==> from <= k < s.len() && s[k].machine_id == id
            && forall|j: int| from <= j < k ==> #[trigger] s[j].machine_id != id,
        find_id(s, id, from) is None ==> forall|j: int|
            from <= j < s.len() ==> #[trigger] s[j].machine_id != id,
    decreases s.len() - from,
{
    if from < s.len() && s[from].machine_id != id {
        lemma_find_id(s, id, from + 1);
    }
}

/// The list after a ping from `p`: the host's own id is refused (`None`); a listed guest is
/// seen again at `now` under the ping's name; an unknown machine joins as a guest.
pub open spec fn host_ping_spec(
    s: Seq<(u64, Profile)>,
    p: ProfileView,
    now: u64,
) -> Option<(Seq<ProfileView>, Seq<u64>)> {
    match find_id(host_views(s), p.machine_id, 0) {
        Some(k) => if k == 0 {
            None
        } else {
            Some(
                (
                    host_views(s).update(k, ProfileView { name: p.name, ..s[k].1@ }),
                    host_times(s).update(k, now),
                ),
            )
        },
        None => Some(
            (
                host_views(s).push(ProfileView { kind: ProfileKind::GUEST, ..p }),
                host_times(s).push(now),
            ),
        ),
    }
}

/// Records a ping from a guest at `now`. Returns `None`, and leaves the list alone, where the
/// machine id is the host's own; else whether a profile was added or renamed.
pub fn host_ping(
    profiles: &mut Vec<(u64, Profile)>,
    machine_id: String,
    name: String,
    vendor: String,
    now: u64,
) -> (r: Option<bool>)
    requires
        host_list_wf(host_views(old(profiles)@)),
    ensures
        host_list_wf(host_views(final(profiles)@)),
        ({
            let p = ProfileView {
                machine_id: machine_id@,
                name: name@,
                vendor: vendor@,
                kind: ProfileKind::GUEST,
            };
            match host_ping_spec(old(profiles)@, p, now) {
                None => r is None && *final(profiles) == *old(profiles),
                Some(next) => r == Some(next.0 != host_views(old(profiles)@)) && host_views(
                    final(profiles)@,
                ) == next.0 && host_times(final(profiles)@) == next.1,
            }
        }),
{
    let ghost s = profiles@;
    let ghost v = host_views(s);
    let mut i: usize = 0;
    while i < profiles.len()
        invariant
            s == profiles@,
            s == old(profiles)@,
            *profiles == *old(profiles),
            v == host_views(s),
            host_list_wf(v),
            i <= s.len(),
            find_id(v, machine_id@, 0) == find_id(v, machine_id@, i as int),
        decreases s.len() - i,
    {
        if profiles[i].1.has_machine_id(&machine_id) {
            assert(v[i as int] == profiles@[i as int].1@);
            assert(find_id(v, machine_id@, i as int) == Some(i as int));
            if i == 0 {
                return None;
            }
            let same = profiles[i].1.has_name(&name);
            let mut entry = profiles.remove(i);
            entry.0 = now;
            entry.1.set_name(name);
            profiles.insert(i, entry);
            proof {
                assert(host_views(profiles@) =~= v.update(
                    i as int,
                    ProfileView { name: name@, ..s[i as int].1@ },
                ));
                assert(host_times(profiles@) =~= host_times(s).update(i as int, now));
                if same {
                    assert(v.update(i as int, ProfileView { name: name@, ..s[i as int].1@ }) =~= v);
                } else {
                    assert(v.update(i as int, ProfileView { name: name@, ..s[i as int].1@ })[i as int]
                        != v[i as int]);
                }
                let w = host_views(profiles@);
                assert forall|a: int, b: int|
                    0 <= a < w.len() && 0 <= b < w.len() && a != b implies #[trigger] w[a].machine_id
                    != #[trigger] w[b].machine_id by {
                    assert(w[a].machine_id == v[a].machine_id && w[b].machine_id == v[b].machine_id);
                }
            }
            return Some(!same);
        }
        i += 1;
    }
    proof {
        lemma_find_id(v, machine_id@, 0);
    }
    let p = make_profile(machine_id, name, vendor, ProfileKind::GUEST);
    profiles.push((now, p));
    proof {
        let w = host_views(profiles@);
        assert(w =~= v.push(p@));
        assert(host_times(profiles@) =~= host_times(s).push(now));
        assert forall|a: int, b: int|
            0 <= a < w.len() && 0 <= b < w.len() && a != b implies #[trigger] w[a].machine_id
            != #[trigger] w[b].machine_id by {
            if a < v.len() && b < v.len() {
                assert(w[a] == v[a] && w[b] == v[b]);
            } else if a < v.len() {
                assert(w[a] == v[a]);
            } else {
                assert(w[b] == v[b]);
            }
        }
        assert(w.len() != v.len());
    }
    Some(true)
}

/// A guest seen at `t` is stale at `now` once ten seconds have passed.
pub open spec fn stale(t: u64, now: u64) -> bool {
    t <= now && now - t >= GUEST_TIMEOUT_MS
}

/// The entries of `s` that are not stale at `now`, in order.
pub open spec fn fresh(s: Seq<(u64, Profile)>, now: u64) -> Seq<(u64, Profile)>
    decreases s.len(),
{
    if s.len() == 0 {
        s
    } else if stale(s[0].0, now) {
        fresh(s.drop_first(), now)
    } else {
        seq![s[0]] + fresh(s.drop_first(), now)
    }
}

pub proof fn lemma_fresh_sub(s: Seq<(u64, Profile)>, now: u64)
    ensures
        fresh(s, now).len() <= s.len(),
        forall|x: (u64, Profile)| #[trigger] fresh(s, now).contains(x) ==> s.contains(x),
        ids_distinct(host_views(s)) ==> ids_distinct(host_views(fresh(s, now))),
    decreases s.len(),
{
    if s.len() > 0 {
        let t = s.drop_first();
        lemma_fresh_sub(t, now);
        let f = fresh(s, now);
        let ft = fresh(t, now);
        assert forall|x: (u64, Profile)| #[trigger] f.contains(x) implies s.contains(x) by {
            if ft.contains(x) {
                let j = choose|j: int| 0 <= j < t.len() && t[j] == x;
                assert(s[j + 1] == x);
            } else {
                assert(s[0] == x);
            }
        }
        if ids_distinct(host_views(s)) {
            assert(ids_distinct(host_views(t))) by {
                let vt = host_views(t);
                let vs = host_views(s);
                assert forall|a: int, b: int|
                    0 <= a < vt.len() && 0 <= b < vt.len() && a != b implies #[trigger] vt[a].machine_id
                    != #[trigger] vt[b].machine_id by {
                    assert(vt[a] == vs[a + 1] && vt[b] == vs[b + 1]);
                }
            }
            if !stale(s[0].0, now) {
                let vf = host_views(f);
                let vft = host_views(ft);
                assert forall|a: int, b: int|
                    0 <= a < vf.len() && 0 <= b < vf.len() && a != b implies #[trigger] vf[a].machine_id
                    != #[trigger] vf[b].machine_id by {
                    if a > 0 && b > 0 {
                        assert(vf[a] == vft[a - 1] && vf[b] == vft[b - 1]);
                    } else {
                        let o = if a == 0 { b } else { a };
                        assert(ft.contains(ft[o - 1]));
                        let j = choose|j: int| 0 <= j < t.len() && t[j] == ft[o - 1];
                        assert(host_views(s)[j + 1] == t[j].1@);
                        assert(host_views(s)[0] == s[0].1@);
                        assert(vf[o] == ft[o - 1].1@);
                        assert(vf[0] == s[0].1@);
                    }
                }
            }
        }
    }
}

/// Drops the guests not seen for ten seconds at `now`; the host stays. Returns whether any
/// guest was dropped.
pub fn expire_guests(profiles: &mut Vec<(u64, Profile)>, now: u64) -> (changed: bool)
    requires
        host_list_wf(host_views(old(profiles)@)),
    ensures
        final(profiles)@ == seq![old(profiles)@[0]] + fresh(old(profiles)@.drop_first(), now),
        changed == (final(profiles)@.len() != old(profiles)@.len()),
        host_list_wf(host_views(final(profiles)@)),
{
    let ghost s = profiles@;
    let mut changed = false;
    let mut i: usize = profiles.len();
    while i > 1
        invariant
            1 <= i <= s.len(),
            s.len() >= 1,
            profiles@ == s.subrange(0, i as int) + fresh(s.subrange(i as int, s.len() as int), now),
            changed == (profiles@.len() != s.len()),
            profiles@.len() <= s.len(),
        decreases i,
    {
        i -= 1;
        let ghost rest = s.subrange(i + 1, s.len() as int);
        assert(s.subrange(i as int, s.len() as int).drop_first() =~= rest);
        proof {
            lemma_fresh_sub(rest, now);
        }
        let t = profiles[i].0;
        if t <= now && now - t >= GUEST_TIMEOUT_MS {
            profiles.remove(i);
            changed = true;
            assert(profiles@ =~= s.subrange(0, i as int) + fresh(
                s.subrange(i as int, s.len() as int),
                now,
            ));
        } else {
            assert(profiles@ =~= s.subrange(0, i as int) + fresh(
                s.subrange(i as int, s.len() as int),
                now,
            ));
        }
        proof {
            lemma_fresh_sub(s.subrange(i as int, s.len() as int), now);
        }
    }
    assert(s.subrange(1, s.len() as int) =~= s.drop_first());
    assert(s.subrange(0, 1) =~= seq![s[0]]);
    proof {
        let t = s.drop_first();
        lemma_fresh_sub(t, now);
        let f = profiles@;
        let ft = fresh(t, now);
        let vs = host_views(s);
        let vf = host_views(f);
        assert(ids_distinct(host_views(t))) by {
            let vt = host_views(t);
            assert forall|a: int, b: int|
                0 <= a < vt.len() && 0 <= b < vt.len() && a != b implies #[trigger] vt[a].machine_id
                != #[trigger] vt[b].machine_id by {
                assert(vt[a] == vs[a + 1] && vt[b] == vs[b + 1]);
            }
        }
        assert forall|a: int| 1 <= a < vf.len() implies (#[trigger] vf[a]).kind
            == ProfileKind::GUEST by {
            assert(ft.contains(ft[a - 1]));
            let j = choose|j: int| 0 <= j < t.len() && t[j] == ft[a - 1];
            assert(vs[j + 1] == t[j].1@);
        }
        assert forall|a: int, b: int|
            0 <= a < vf.len() && 0 <= b < vf.len() && a != b implies #[trigger] vf[a].machine_id
            != #[trigger] vf[b].machine_id by {
            let vft = host_views(ft);
            if a > 0 && b > 0 {
                assert(vf[a] == vft[a - 1] && vf[b] == vft[b - 1]);
            } else {
                let o = if a == 0 { b } else { a };
                assert(ft.contains(ft[o - 1]));
                let j = choose|j: int| 0 <= j < t.len() && t[j] == ft[o - 1];
                assert(vs[j + 1] == t[j].1@);
                assert(vf[o] == ft[o - 1].1@);
            }
        }
    }
    changed
}

} // verus!

verus! {

/// A profile as the host lists it: its role is a word, `HOST` or `GUEST`.
pub struct ListedProfile {
    pub machine_id: String,
    pub name: String,
    pub vendor: String,
    pub kind: String,
}

/// A listed profile's strings as character sequences.
pub struct ListedView {
    pub machine_id: Seq<char>,
    pub name: Seq<char>,
    pub vendor: Seq<char>,
    pub kind: Seq<char>,
}

impl View for ListedProfile {
    type V = ListedView;

    open spec fn view(&self) -> ListedView {
        ListedView {
            machine_id: self.machine_id@,
            name: self.name@,
            vendor: self.vendor@,
            kind: self.kind@,
        }
    }
}

/// The views of a list of profiles.
pub open spec fn views(s: Seq<Profile>) -> Seq<ProfileView> {
    Seq::new(s.len(), |i: int| s[i]@)
}

/// The views of a list of listed profiles.
pub open spec fn listed_views(s: Seq<ListedProfile>) -> Seq<ListedView> {
    Seq::new(s.len(), |i: int| s[i]@)
}

/// A listed profile under a role.
pub open spec fn as_kind(it: ListedView, kind: ProfileKind) -> ProfileView {
    ProfileView { machine_id: it.machine_id, name: it.name, vendor: it.vendor, kind }
}

/// The host's list read in order: this machine's id is `LOCAL` (once at most), the first
/// `HOST` is the host, `GUEST`s are guests; anything else refuses the list. Also returns
/// whether a host and this machine were seen.
pub open spec fn classify_spec(items: Seq<ListedView>, local_id: Seq<char>) -> Option<
    (Seq<ProfileView>, bool, bool),
>
    decreases items.len(),
{
    if items.len() == 0 {
        Some((Seq::empty(), false, false))
    } else {
        match classify_spec(items.drop_last(), local_id) {
            None => None,
            Some(acc) => {
                let it = items.last();
                if it.machine_id == local_id {
                    if acc.2 {
                        None
                    } else {
                        Some((acc.0.push(as_kind(it, ProfileKind::LOCAL)), acc.1, true))
                    }
                } else if it.kind == "HOST"@ && !acc.1 {
                    Some((acc.0.push(as_kind(it, ProfileKind::HOST)), true, acc.2))
                } else if it.kind == "GUEST"@ {
                    Some((acc.0.push(as_kind(it, ProfileKind::GUEST)), acc.1, acc.2))
                } else {
                    None
                }
            },
        }
    }
}

/// The host's list as a guest takes it: classified, with a host, with this machine added
/// where the host did not list it, and with no machine id twice.
pub open spec fn server_list(items: Seq<ListedView>, local: ProfileView) -> Option<
    Seq<ProfileView>,
> {
    match classify_spec(items, local.machine_id) {
        None => None,
        Some(acc) => {
            let all = if acc.2 {
                acc.0
            } else {
                acc.0.push(local)
            };
            if acc.1 && ids_distinct(all) {
                Some(all)
            } else {
                None
            }
        },
    }
}

pub proof fn lemma_classify_prefix_none(items: Seq<ListedView>, n: int, local_id: Seq<char>)
    requires
        0 <= n <= items.len(),
        classify_spec(items.subrange(0, n), local_id) is None,
    ensures
        classify_spec(items, local_id) is None,
    decreases items.len() - n,
{
    if n < items.len() {
        assert(items.subrange(0, n + 1).drop_last() =~= items.subrange(0, n));
        lemma_classify_prefix_none(items, n + 1, local_id);
    } else {
        assert(items.subrange(0, n) =~= items);
    }
}

/// Whether no two profiles of `v` share a machine id.
pub fn ids_all_distinct(v: &Vec<Profile>) -> (r: bool)
    ensures
        r == ids_distinct(views(v@)),
{
    let ghost w = views(v@);
    let mut i: usize = 0;
    while i < v.len()
        invariant
            w == views(v@),
            i <= v@.len(),
            forall|a: int, b: int|
                0 <= a < i && 0 <= b < v@.len() && a != b ==> #[trigger] w[a].machine_id
                    != #[trigger] w[b].machine_id,
        decreases v@.len() - i,
    {
        let mut j: usize = 0;
        while j < v.len()
            invariant
                w == views(v@),
                i < v@.len(),
                j <= v@.len(),
                forall|a: int, b: int|
                    0 <= a < i && 0 <= b < v@.len() && a != b ==> #[trigger] w[a].machine_id
                        != #[trigger] w[b].machine_id,
                forall|b: int| 0 <= b < j && i != b ==> w[i as int].machine_id != #[trigger] w[b].machine_id,
            decreases v@.len() - j,
        {
            if i != j && v[i].same_machine(&v[j]) {
                assert(w[i as int].machine_id == w[j as int].machine_id);
                return false;
            }
            j += 1;
        }
        i += 1;
    }
    true
}

fn listed_as(it: &ListedProfile, kind: ProfileKind) -> (r: Profile)
    ensures
        r@ == as_kind(it@, kind),
{
    make_profile(it.machine_id.clone(), it.name.clone(), it.vendor.clone(), kind)
}

/// Takes the host's list as a guest whose own profile is `local`; `None` where the list is
/// refused.
pub fn server_profiles(items: &Vec<ListedProfile>, local: &Profile) -> (r: Option<Vec<Profile>>)
    ensures
        match r {
            Some(v) => server_list(listed_views(items@), local@) == Some(views(v@)),
            None => server_list(listed_views(items@), local@) is None,
        },
{
    let ghost u = listed_views(items@);
    let local_id = local.get_machine_id();
    let host_word = String::from_str("HOST");
    let guest_word = String::from_str("GUEST");
    let mut out: Vec<Profile> = Vec::new();
    let mut host = false;
    let mut seen = false;
    let mut i: usize = 0;
    while i < items.len()
        invariant
            u == listed_views(items@),
            i <= u.len(),
            host_word@ == "HOST"@,
            guest_word@ == "GUEST"@,
            classify_spec(u.subrange(0, i as int), local@.machine_id) == Some(
                (views(out@), host, seen),
            ),
        decreases u.len() - i,
    {
        let it = &items[i];
        let ghost pre = u.subrange(0, i as int);
        assert(u.subrange(0, i + 1).drop_last() =~= pre);
        assert(u.subrange(0, i + 1).last() == it@);
        let id_is_local = local.has_machine_id(&it.machine_id);
        if id_is_local {
            if seen {
                proof {
                    lemma_classify_prefix_none(u, i + 1, local@.machine_id);
                }
                return None;
            }
            out.push(listed_as(it, ProfileKind::LOCAL));
            seen = true;
        } else if same_text(&it.kind, &host_word) && !host {
            out.push(listed_as(it, ProfileKind::HOST));
            host = true;
        } else if same_text(&it.kind, &guest_word) {
            out.push(listed_as(it, ProfileKind::GUEST));
        } else {
            proof {
                lemma_classify_prefix_none(u, i + 1, local@.machine_id);
            }
            return None;
        }
        i += 1;
        assert(views(out@) =~= classify_spec(u.subrange(0, i as int), local@.machine_id).unwrap().0);
    }
    assert(u.subrange(0, u.len() as int) =~= u);
    if !host {
        return None;
    }
    if !seen {
        out.push(local.clone());
        assert(views(out@) =~= classify_spec(u, local@.machine_id).unwrap().0.push(local@));
    }
    if ids_all_distinct(&out) {
        Some(out)
    } else {
        None
    }
}

/// Whether a guest's own entry agrees with the host's list: the host must be listed as
/// host, a guest must not be listed otherwise than as guest.
pub open spec fn entry_ok(e: ProfileView, s: Seq<ProfileView>) -> bool {
    match e.kind {
        ProfileKind::LOCAL => true,
        ProfileKind::HOST => find_id(s, e.machine_id, 0) matches Some(k) && s[k].kind
            == ProfileKind::HOST,
        ProfileKind::GUEST => find_id(s, e.machine_id, 0) matches Some(k) ==> s[k].kind
            == ProfileKind::GUEST,
    }
}

/// A guest's own entries after a reconcile: this machine stays; the host and the guests
/// that the host still lists take the host's names; the other guests leave.
pub open spec fn reconcile_kept(l: Seq<ProfileView>, s: Seq<ProfileView>) -> Seq<ProfileView>
    decreases l.len(),
{
    if l.len() == 0 {
        Seq::empty()
    } else {
        let e = l.last();
        let rest = reconcile_kept(l.drop_last(), s);
        if e.kind == ProfileKind::LOCAL {
            rest.push(e)
        } else {
            match find_id(s, e.machine_id, 0) {
                Some(k) => rest.push(ProfileView { name: s[k].name, ..e }),
                None => rest,
            }
        }
    }
}

/// `id` belongs to a host or guest entry of `l`.
pub open spec fn matched_in(l: Seq<ProfileView>, id: Seq<char>) -> bool {
    exists|j: int| 0 <= j < l.len() && l[j].machine_id == id && l[j].kind != ProfileKind::LOCAL
}

/// The host's entries that a guest adds: those it had not, but for this machine.
pub open spec fn reconcile_new(s: Seq<ProfileView>, l: Seq<ProfileView>) -> Seq<ProfileView>
    decreases s.len(),
{
    if s.len() == 0 {
        Seq::empty()
    } else {
        let e = s.last();
        let rest = reconcile_new(s.drop_last(), l);
        if e.kind != ProfileKind::LOCAL && !matched_in(l, e.machine_id) {
            rest.push(e)
        } else {
            rest
        }
    }
}

/// A guest's list after taking the host's list `s`, or `None` where they disagree.
pub open spec fn reconcile_spec(l: Seq<ProfileView>, s: Seq<ProfileView>) -> Option<
    Seq<ProfileView>,
> {
    if forall|i: int| 0 <= i < l.len() ==> entry_ok(#[trigger] l[i], s) {
        Some(reconcile_kept(l, s) + reconcile_new(s, l))
    } else {
        None
    }
}

/// The first profile of `s` with machine id `id`.
pub fn find_profile(s: &Vec<Profile>, id: &String) -> (r: Option<usize>)
    ensures
        match r {
            Some(k) => find_id(views(s@), id@, 0) == Some(k as int) && k < s@.len(),
            None => find_id(views(s@), id@, 0) is None,
        },
{
    proof {
        lemma_find_id(views(s@), id@, 0);
    }
    let ghost w = views(s@);
    let mut i: usize = 0;
    while i < s.len()
        invariant
            w == views(s@),
            i <= s@.len(),
            find_id(w, id@, 0) == find_id(w, id@, i as int),
        decreases s@.len() - i,
    {
        if s[i].has_machine_id(id) {
            assert(w[i as int] == s@[i as int]@);
            return Some(i);
        }
        i += 1;
    }
    None
}

fn is_matched(l: &Vec<Profile>, id: &String) -> (r: bool)
    ensures
        r == matched_in(views(l@), id@),
{
    let ghost w = views(l@);
    let mut j: usize = 0;
    while j < l.len()
        invariant
            w == views(l@),
            j <= l@.len(),
            forall|a: int| 0 <= a < j ==> !(w[a].machine_id == id@ && #[trigger] w[a].kind
                != ProfileKind::LOCAL),
        decreases l@.len() - j,
    {
        if l[j].has_machine_id(id) && *l[j].get_kind() != ProfileKind::LOCAL {
            assert(w[j as int] == l@[j as int]@);
            return true;
        }
        assert(w[j as int] == l@[j as int]@);
        j += 1;
    }
    false
}

/// A guest's list `profiles` after taking the host's list `server`; `None` where they
/// disagree.
pub fn reconcile(profiles: &Vec<Profile>, server: &Vec<Profile>) -> (r: Option<Vec<Profile>>)
    ensures
        match r {
            Some(v) => reconcile_spec(views(profiles@), views(server@)) == Some(views(v@)),
            None => reconcile_spec(views(profiles@), views(server@)) is None,
        },
{
    let ghost l = views(profiles@);
    let ghost s = views(server@);
    let mut out: Vec<Profile> = Vec::new();
    let mut i: usize = 0;
    while i < profiles.len()
        invariant
            l == views(profiles@),
            s == views(server@),
            i <= l.len(),
            forall|a: int| 0 <= a < i ==> entry_ok(#[trigger] l[a], s),
            views(out@) == reconcile_kept(l.subrange(0, i as int), s),
        decreases l.len() - i,
    {
        let e = &profiles[i];
        assert(l[i as int] == e@);
        assert(l.subrange(0, i + 1).drop_last() =~= l.subrange(0, i as int));
        assert(l.subrange(0, i + 1).last() == e@);
        if *e.get_kind() == ProfileKind::LOCAL {
            out.push(e.clone());
        } else {
            match find_profile(server, &e.machine_id_string()) {
                Some(k) => {
                    assert(s[k as int] == server@[k as int]@);
                    if *e.get_kind() == ProfileKind::HOST && *server[k].get_kind()
                        != ProfileKind::HOST {
                        return None;
                    }
                    if *e.get_kind() == ProfileKind::GUEST && *server[k].get_kind()
                        != ProfileKind::GUEST {
                        return None;
                    }
                    out.push(e.renamed_as(&server[k]));
                },
                None => {
                    if *e.get_kind() == ProfileKind::HOST {
                        return None;
                    }
                },
            }
        }
        i += 1;
        assert(views(out@) =~= reconcile_kept(l.subrange(0, i as int), s));
    }
    assert(l.subrange(0, l.len() as int) =~= l);
    let ghost kept = views(out@);
    let mut j: usize = 0;
    while j < server.len()
        invariant
            l == views(profiles@),
            s == views(server@),
            j <= s.len(),
            kept == reconcile_kept(l, s),
            views(out@) == kept + reconcile_new(s.subrange(0, j as int), l),
        decreases s.len() - j,
    {
        let e = &server[j];
        assert(s[j as int] == e@);
        assert(s.subrange(0, j + 1).drop_last() =~= s.subrange(0, j as int));
        assert(s.subrange(0, j + 1).last() == e@);
        let ghost prev = reconcile_new(s.subrange(0, j as int), l);
        assert(reconcile_new(s.subrange(0, j + 1), l) == (if e@.kind != ProfileKind::LOCAL
            && !matched_in(l, e@.machine_id) {
            prev.push(e@)
        } else {
            prev
        }));
        let ghost before = out@;
        if *e.get_kind() != ProfileKind::LOCAL && !is_matched(profiles, &e.machine_id_string()) {
            let c = e.clone();
            out.push(c);
            assert(views(out@) =~= views(before).push(e@));
        } else {
            assert(views(out@) =~= views(before));
        }
        j += 1;
        assert(views(out@) =~= kept + reconcile_new(s.subrange(0, j as int), l));
    }
    assert(s.subrange(0, s.len() as int) =~= s);
    Some(out)
}

} // verus!

verus! {

/// A guest's list: no machine id twice, and this machine's profile `local` is in it as the
/// only `LOCAL` entry.
pub open spec fn guest_list_wf(l: Seq<ProfileView>, local: ProfileView) -> bool {
    &&& local.kind == ProfileKind::LOCAL
    &&& ids_distinct(l)
    &&& exists|i: int| 0 <= i < l.len() && l[i] == local
    &&& forall|i: int| 0 <= i < l.len() && (#[trigger] l[i]).kind == ProfileKind::LOCAL ==> l[i] == local
}

/// The host's list as a guest takes it: no machine id twice, and this machine's id only on
/// the `LOCAL` entry.
pub open spec fn server_wf(s: Seq<ProfileView>, local_id: Seq<char>) -> bool {
    &&& ids_distinct(s)
    &&& forall|k: int| 0 <= k < s.len() ==> ((#[trigger] s[k]).machine_id == local_id <==> s[k].kind == ProfileKind::LOCAL)
}

pub proof fn lemma_classify_roles(items: Seq<ListedView>, local_id: Seq<char>)
    ensures
        classify_spec(items, local_id) matches Some(acc) ==> (forall|k: int|
            0 <= k < acc.0.len() ==> ((#[trigger] acc.0[k]).machine_id == local_id <==> acc.0[k].kind
                == ProfileKind::LOCAL)) && (acc.2 <==> exists|k: int|
            0 <= k < acc.0.len() && acc.0[k].machine_id == local_id),
    decreases items.len(),
{
    if items.len() > 0 {
        lemma_classify_roles(items.drop_last(), local_id);
        if let Some(acc) = classify_spec(items, local_id) {
            let prev = classify_spec(items.drop_last(), local_id).unwrap();
            assert forall|k: int| 0 <= k < prev.0.len() implies acc.0[k] == prev.0[k] by {}
            if acc.2 && !prev.2 {
                assert(acc.0[acc.0.len() - 1].machine_id == local_id);
            }
            if !acc.2 {
                assert forall|k: int| 0 <= k < acc.0.len() implies acc.0[k].machine_id != local_id by {
                    if k < prev.0.len() {
                        assert(acc.0[k] == prev.0[k]);
                    }
                }
            }
        }
    }
}

/// The host's list, as a guest takes it, names this machine only on the `LOCAL` entry.
pub proof fn lemma_server_list_wf(items: Seq<ListedView>, local: ProfileView)
    requires
        local.kind == ProfileKind::LOCAL,
    ensures
        server_list(items, local) matches Some(s) ==> server_wf(s, local.machine_id),
{
    lemma_classify_roles(items, local.machine_id);
}

pub proof fn lemma_kept(l: Seq<ProfileView>, s: Seq<ProfileView>)
    ensures
        forall|a: int|
            0 <= a < reconcile_kept(l, s).len() ==> exists|j: int|
                0 <= j < l.len() && l[j].machine_id == (#[trigger] reconcile_kept(l, s)[a]).machine_id
                    && l[j].kind == reconcile_kept(l, s)[a].kind && (l[j].kind == ProfileKind::LOCAL
                    ==> l[j] == reconcile_kept(l, s)[a]),
        ids_distinct(l) ==> ids_distinct(reconcile_kept(l, s)),
        forall|j: int|
            0 <= j < l.len() && (#[trigger] l[j]).kind == ProfileKind::LOCAL ==> reconcile_kept(
                l,
                s,
            ).contains(l[j]),
    decreases l.len(),
{
    if l.len() > 0 {
        let lp = l.drop_last();
        lemma_kept(lp, s);
        let k = reconcile_kept(l, s);
        let kp = reconcile_kept(lp, s);
        let n = l.len() - 1;
        assert forall|a: int| 0 <= a < k.len() implies exists|j: int|
            0 <= j < l.len() && l[j].machine_id == (#[trigger] k[a]).machine_id && l[j].kind
                == k[a].kind && (l[j].kind == ProfileKind::LOCAL ==> l[j] == k[a]) by {
            if a < kp.len() {
                assert(k[a] == kp[a]);
                let j = choose|j: int|
                    0 <= j < lp.len() && lp[j].machine_id == kp[a].machine_id && lp[j].kind
                        == kp[a].kind && (lp[j].kind == ProfileKind::LOCAL ==> lp[j] == kp[a]);
                assert(l[j] == lp[j]);
            } else {
                assert(l[n].machine_id == k[a].machine_id && l[n].kind == k[a].kind);
            }
        }
        if ids_distinct(l) {
            assert(ids_distinct(lp)) by {
                assert forall|a: int, b: int|
                    0 <= a < lp.len() && 0 <= b < lp.len() && a != b implies #[trigger] lp[a].machine_id
                    != #[trigger] lp[b].machine_id by {
                    assert(lp[a] == l[a] && lp[b] == l[b]);
                }
            }
            assert forall|a: int, b: int|
                0 <= a < k.len() && 0 <= b < k.len() && a != b implies #[trigger] k[a].machine_id
                != #[trigger] k[b].machine_id by {
                if a < kp.len() && b < kp.len() {
                    assert(k[a] == kp[a] && k[b] == kp[b]);
                } else {
                    let o = if a < kp.len() { a } else { b };
                    assert(k[o] == kp[o]);
                    let j = choose|j: int|
                        0 <= j < lp.len() && lp[j].machine_id == kp[o].machine_id && lp[j].kind
                            == kp[o].kind && (lp[j].kind == ProfileKind::LOCAL ==> lp[j] == kp[o]);
                    assert(l[j] == lp[j]);
                    assert(l[j].machine_id != l[n].machine_id);
                }
            }
        }
        assert forall|j: int| 0 <= j < l.len() && (#[trigger] l[j]).kind == ProfileKind::LOCAL implies k.contains(
            l[j],
        ) by {
            if j < n {
                assert(lp[j] == l[j]);
                assert(kp.contains(lp[j]));
                let a = choose|a: int| 0 <= a < kp.len() && kp[a] == lp[j];
                assert(k[a] == kp[a]);
            } else {
                assert(k[k.len() - 1] == l[n]);
            }
        }
    }
}

pub proof fn lemma_new(s: Seq<ProfileView>, l: Seq<ProfileView>)
    ensures
        forall|a: int|
            0 <= a < reconcile_new(s, l).len() ==> (#[trigger] reconcile_new(s, l)[a]).kind
                != ProfileKind::LOCAL && !matched_in(l, reconcile_new(s, l)[a].machine_id) && s.contains(
                reconcile_new(s, l)[a],
            ),
        ids_distinct(s) ==> ids_distinct(reconcile_new(s, l)),
    decreases s.len(),
{
    if s.len() > 0 {
        let sp = s.drop_last();
        lemma_new(sp, l);
        let w = reconcile_new(s, l);
        let wp = reconcile_new(sp, l);
        let n = s.len() - 1;
        assert forall|a: int| 0 <= a < w.len() implies (#[trigger] w[a]).kind != ProfileKind::LOCAL
            && !matched_in(l, w[a].machine_id) && s.contains(w[a]) by {
            if a < wp.len() {
                assert(w[a] == wp[a]);
                let j = choose|j: int| 0 <= j < sp.len() && sp[j] == wp[a];
                assert(s[j] == sp[j]);
            } else {
                assert(w[a] == s[n]);
            }
        }
        if ids_distinct(s) {
            assert(ids_distinct(sp)) by {
                assert forall|a: int, b: int|
                    0 <= a < sp.len() && 0 <= b < sp.len() && a != b implies #[trigger] sp[a].machine_id
                    != #[trigger] sp[b].machine_id by {
                    assert(sp[a] == s[a] && sp[b] == s[b]);
                }
            }
            assert forall|a: int, b: int|
                0 <= a < w.len() && 0 <= b < w.len() && a != b implies #[trigger] w[a].machine_id
                != #[trigger] w[b].machine_id by {
                if a < wp.len() && b < wp.len() {
                    assert(w[a] == wp[a] && w[b] == wp[b]);
                } else {
                    let o = if a < wp.len() { a } else { b };
                    assert(w[o] == wp[o]);
                    assert(sp.contains(wp[o]));
                    let j = choose|j: int| 0 <= j < sp.len() && sp[j] == wp[o];
                    assert(s[j] == sp[j]);
                    assert(s[j].machine_id != s[n].machine_id);
                }
            }
        }
    }
}

/// After a reconcile that the host's list allows, a guest's list still holds this machine's
/// profile as its only `LOCAL` entry, and no machine id twice.
pub proof fn lemma_reconcile_keeps_local(
    l: Seq<ProfileView>,
    items: Seq<ListedView>,
    local: ProfileView,
)
    requires
        guest_list_wf(l, local),
    ensures
        server_list(items, local) matches Some(s) ==> (reconcile_spec(l, s) matches Some(out)
            ==> guest_list_wf(out, local)),
{
    lemma_server_list_wf(items, local);
    if let Some(s) = server_list(items, local) {
        if let Some(out) = reconcile_spec(l, s) {
            lemma_kept(l, s);
            lemma_new(s, l);
            let k = reconcile_kept(l, s);
            let w = reconcile_new(s, l);
            assert(out == k + w);
            assert forall|a: int, b: int|
                0 <= a < out.len() && 0 <= b < out.len() && a != b implies #[trigger] out[a].machine_id
                != #[trigger] out[b].machine_id by {
                if a < k.len() && b < k.len() {
                    assert(out[a] == k[a] && out[b] == k[b]);
                } else if a >= k.len() && b >= k.len() {
                    assert(out[a] == w[a - k.len()] && out[b] == w[b - k.len()]);
                } else {
                    let (x, y) = if a < k.len() { (a, b - k.len()) } else { (b, a - k.len()) };
                    assert(out[x] == k[x]);
                    assert(out[y + k.len()] == w[y]);
                    let j = choose|j: int|
                        0 <= j < l.len() && l[j].machine_id == (#[trigger] k[x]).machine_id
                            && l[j].kind == k[x].kind && (l[j].kind == ProfileKind::LOCAL ==> l[j]
                            == k[x]);
                    assert(w[y].kind != ProfileKind::LOCAL && !matched_in(l, w[y].machine_id)
                        && s.contains(w[y]));
                    if l[j].kind == ProfileKind::LOCAL {
                        assert(l[j] == local);
                        let m = choose|m: int| 0 <= m < s.len() && s[m] == w[y];
                        assert(s[m].kind != ProfileKind::LOCAL);
                    } else {
                        if k[x].machine_id == w[y].machine_id {
                            assert(matched_in(l, w[y].machine_id));
                        }
                    }
                }
            }
            let i0 = choose|i: int| 0 <= i < l.len() && l[i] == local;
            assert(k.contains(l[i0]));
            let a0 = choose|a: int| 0 <= a < k.len() && k[a] == l[i0];
            assert(out[a0] == local);
            assert forall|i: int| 0 <= i < out.len() && (#[trigger] out[i]).kind
                == ProfileKind::LOCAL implies out[i] == local by {
                if i < k.len() {
                    assert(out[i] == k[i]);
                    let j = choose|j: int|
                        0 <= j < l.len() && l[j].machine_id == (#[trigger] k[i]).machine_id
                            && l[j].kind == k[i].kind && (l[j].kind == ProfileKind::LOCAL ==> l[j]
                            == k[i]);
                } else {
                    assert(out[i] == w[i - k.len()]);
                }
            }
        }
    }
}

} // verus!

verus! {

/// The place of the first `LOCAL` entry of `v`.
pub fn find_local(v: &Vec<Profile>) -> (r: Option<usize>)
    ensures
        match r {
            Some(i) => i < v@.len() && views(v@)[i as int].kind == ProfileKind::LOCAL,
            None => forall|i: int| 0 <= i < v@.len() ==> (#[trigger] views(v@)[i]).kind
                != ProfileKind::LOCAL,
        },
{
    let mut i: usize = 0;
    while i < v.len()
        invariant
            i <= v@.len(),
            forall|j: int| 0 <= j < i ==> (#[trigger] views(v@)[j]).kind != ProfileKind::LOCAL,
        decreases v@.len() - i,
    {
        if *v[i].get_kind() == ProfileKind::LOCAL {
            return Some(i);
        }
        i += 1;
    }
    None
}

/// Whether two lists hold the same profiles in the same order.
pub fn same_views(a: &Vec<Profile>, b: &Vec<Profile>) -> (r: bool)
    ensures
        r == (views(a@) == views(b@)),
{
    if a.len() != b.len() {
        assert(views(a@).len() != views(b@).len());
        return false;
    }
    let mut i: usize = 0;
    while i < a.len()
        invariant
            a@.len() == b@.len(),
            i <= a@.len(),
            forall|j: int| 0 <= j < i ==> views(a@)[j] == views(b@)[j],
        decreases a@.len() - i,
    {
        if !a[i].same_profile(&b[i]) {
            assert(views(a@)[i as int] != views(b@)[i as int]);
            return false;
        }
        i += 1;
    }
    assert(views(a@) =~= views(b@));
    true
}

} // verus!
