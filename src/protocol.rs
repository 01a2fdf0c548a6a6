//! The side-band protocol between guests and host: length-prefixed request and response
//! frames over one TCP connection, and the table of request kinds that a host serves.

use crate::states::{AppStateContainer, HandlerError};
use vstd::prelude::*;
use vstd::string::*;
use vstd::utf8::valid_utf8;

verus! {

/// The largest request body a host accepts: 16 MiB.
pub const MAX_BODY: u32 = 16777216;

/// Status of a response refused because the host is in the wrong state.
pub const STATUS_INVALID_STATE: u8 = 32;

/// Status of a response to an unknown or failed request.
pub const STATUS_PROTOCOL: u8 = 255;

/// A reply to a request: success with a body, or a failure status with a body.
pub enum PacketResponse {
    Success { data: Vec<u8> },
    Fail { status: u8, data: Vec<u8> },
}

impl PacketResponse {
    /// A successful reply.
    pub fn ok(data: Vec<u8>) -> (r: Result<PacketResponse, HandlerError>)
        ensures
            r matches Ok(PacketResponse::Success { data: d }) && d == data,
    {
        Ok(PacketResponse::Success { data })
    }

    /// A failed reply.
    pub fn fail(status: u8, data: Vec<u8>) -> (r: Result<PacketResponse, HandlerError>)
        ensures
            r matches Ok(PacketResponse::Fail { status: s, data: d }) && s == status && d == data,
    {
        Ok(PacketResponse::Fail { status, data })
    }
}

/// The four bytes of `n`, most significant first.
pub open spec fn be32(n: nat) -> Seq<u8> {
    seq![
        (n / 16777216 % 256) as u8,
        (n / 65536 % 256) as u8,
        (n / 256 % 256) as u8,
        (n % 256) as u8,
    ]
}

/// The number of four bytes, most significant first.
pub open spec fn from_be32(b: Seq<u8>) -> nat {
    b[0] as nat * 16777216 + b[1] as nat * 65536 + b[2] as nat * 256 + b[3] as nat
}

/// A request frame: the kind's length in one byte, the kind, the body's length in four
/// bytes, the body.
pub open spec fn request_frame(kind: Seq<u8>, body: Seq<u8>) -> Seq<u8> {
    seq![kind.len() as u8] + kind + be32(body.len()) + body
}

/// A response frame: the status, the body's length in four bytes, the body.
pub open spec fn response_frame(status: u8, body: Seq<u8>) -> Seq<u8> {
    seq![status] + be32(body.len()) + body
}

/// A request kind: namespace, colon, path.
pub open spec fn kind_of(namespace: Seq<u8>, path: Seq<u8>) -> Seq<u8> {
    namespace + seq![58u8] + path
}

fn push_all(out: &mut Vec<u8>, src: &Vec<u8>)
    ensures
        final(out)@ == old(out)@ + src@,
{
    let ghost start = out@;
    let mut i: usize = 0;
    while i < src.len()
        invariant
            i <= src@.len(),
            out@ == start + src@.subrange(0, i as int),
        decreases src@.len() - i,
    {
        out.push(src[i]);
        i += 1;
        assert(out@ =~= start + src@.subrange(0, i as int));
    }
    assert(src@.subrange(0, src@.len() as int) =~= src@);
}

fn push_be32(out: &mut Vec<u8>, n: u32)
    ensures
        final(out)@ == old(out)@ + be32(n as nat),
{
    out.push((n / 16777216 % 256) as u8);
    out.push((n / 65536 % 256) as u8);
    out.push((n / 256 % 256) as u8);
    out.push((n % 256) as u8);
    assert(out@ =~= old(out)@ + be32(n as nat));
}

/// The number of four bytes, most significant first.
pub fn read_be32(b: &[u8; 4]) -> (r: u32)
    ensures
        r as nat == from_be32(b@),
{
    b[0] as u32 * 16777216 + b[1] as u32 * 65536 + b[2] as u32 * 256 + b[3] as u32
}

/// Reading back the four bytes of a number gives the number.
pub proof fn lemma_be32_round_trip(n: nat)
    requires
        n < 4294967296,
    ensures
        from_be32(be32(n)) == n,
{
    assert(from_be32(be32(n)) == n) by (nonlinear_arith)
        requires
            n < 4294967296,
            be32(n)[0] == (n / 16777216 % 256) as u8,
            be32(n)[1] == (n / 65536 % 256) as u8,
            be32(n)[2] == (n / 256 % 256) as u8,
            be32(n)[3] == (n % 256) as u8,
            from_be32(be32(n)) == be32(n)[0] as nat * 16777216 + be32(n)[1] as nat * 65536
                + be32(n)[2] as nat * 256 + be32(n)[3] as nat,
    ;
}

/// The frame of a request of kind `namespace:path` with `body`.
pub fn encode_request(namespace: &Vec<u8>, path: &Vec<u8>, body: &Vec<u8>) -> (r: Vec<u8>)
    requires
        namespace@.len() + path@.len() + 1 <= 255,
        body@.len() <= u32::MAX,
    ensures
        r@ == request_frame(kind_of(namespace@, path@), body@),
{
    let mut data: Vec<u8> = Vec::new();
    data.push((namespace.len() + path.len() + 1) as u8);
    push_all(&mut data, namespace);
    data.push(58u8);
    push_all(&mut data, path);
    push_be32(&mut data, body.len() as u32);
    push_all(&mut data, body);
    assert(data@ =~= request_frame(kind_of(namespace@, path@), body@));
    data
}

/// The frame of a response with `status` and `body`.
pub fn encode_response(status: u8, body: &Vec<u8>) -> (r: Vec<u8>)
    requires
        body@.len() <= u32::MAX,
    ensures
        r@ == response_frame(status, body@),
{
    let mut data: Vec<u8> = Vec::new();
    data.push(status);
    push_be32(&mut data, body.len() as u32);
    push_all(&mut data, body);
    assert(data@ =~= response_frame(status, body@));
    data
}

/// The length of a request body announced by four header bytes, where a host accepts it:
/// at most 16 MiB.
pub fn request_body_len(header: &[u8; 4]) -> (r: Option<u32>)
    ensures
        from_be32(header@) <= MAX_BODY ==> r == Some(from_be32(header@) as u32),
        from_be32(header@) > MAX_BODY ==> r is None,
        r matches Some(n) ==> n <= MAX_BODY,
{
    let n = read_be32(header);
    if n <= MAX_BODY {
        Some(n)
    } else {
        None
    }
}

/// A response read from its status and body.
pub fn response_of(status: u8, data: Vec<u8>) -> (r: PacketResponse)
    ensures
        status == 0 ==> r == (PacketResponse::Success { data }),
        status != 0 ==> r == (PacketResponse::Fail { status, data }),
{
    if status == 0 {
        PacketResponse::Success { data }
    } else {
        PacketResponse::Fail { status, data }
    }
}

/// The body of a reply that a caller can use: a success's body; a failure, or a closed
/// session, gives nothing.
pub fn accepted(response: Option<PacketResponse>) -> (r: Option<Vec<u8>>)
    ensures
        response matches Some(PacketResponse::Success { data }) ==> r == Some(data),
        !(response matches Some(PacketResponse::Success { .. })) ==> r is None,
{
    match response {
        Some(PacketResponse::Success { data }) => Some(data),
        _ => None,
    }
}

/// Relies on `std::str::from_utf8`: it accepts exactly the valid UTF-8 byte strings.
#[verifier::external_body]
fn is_utf8(b: &[u8]) -> (r: bool)
    ensures
        r == valid_utf8(b@),
{
    std::str::from_utf8(b).is_ok()
}

/// `kind` holds exactly one colon, at `i`.
pub open spec fn sole_colon(kind: Seq<u8>, i: int) -> bool {
    0 <= i < kind.len() && kind[i] == 58u8 && forall|j: int|
        0 <= j < kind.len() && #[trigger] kind[j] == 58u8 ==> j == i
}

/// A request kind split at its one colon into namespace and path.
pub open spec fn split_kind_spec(kind: Seq<u8>) -> Option<(Seq<u8>, Seq<u8>)> {
    if valid_utf8(kind) && exists|i: int| sole_colon(kind, i) {
        let i = choose|i: int| sole_colon(kind, i);
        Some((kind.subrange(0, i), kind.subrange(i + 1, kind.len() as int)))
    } else {
        None
    }
}

/// Splits a request kind, valid UTF-8 with exactly one colon, into namespace and path.
pub fn split_kind(kind: &Vec<u8>) -> (r: Option<(Vec<u8>, Vec<u8>)>)
    ensures
        match r {
            Some(p) => split_kind_spec(kind@) == Some((p.0@, p.1@)),
            None => split_kind_spec(kind@) is None,
        },
{
    if !is_utf8(kind.as_slice()) {
        return None;
    }
    let mut colon: Option<usize> = None;
    let mut i: usize = 0;
    while i < kind.len()
        invariant
            i <= kind@.len(),
            match colon {
                None => forall|j: int| 0 <= j < i ==> kind@[j] != 58u8,
                Some(c) => c < i && kind@[c as int] == 58u8 && (forall|j: int|
                    0 <= j < c ==> kind@[j] != 58u8) && (forall|j: int|
                    c < j < i ==> kind@[j] != 58u8),
            },
        decreases kind@.len() - i,
    {
        if kind[i] == 58u8 {
            if colon.is_some() {
                proof {
                    let c = colon.unwrap() as int;
                    assert forall|k: int| !sole_colon(kind@, k) by {
                        if sole_colon(kind@, k) {
                            assert(kind@[c] == 58u8 && kind@[i as int] == 58u8);
                        }
                    }
                }
                return None;
            }
            colon = Some(i);
        }
        i += 1;
    }
    match colon {
        None => {
            assert forall|k: int| !sole_colon(kind@, k) by {
                if sole_colon(kind@, k) {
                    assert(kind@[k] == 58u8);
                }
            }
            None
        },
        Some(c) => {
            let mut ns: Vec<u8> = Vec::new();
            let mut path: Vec<u8> = Vec::new();
            let mut j: usize = 0;
            while j < c
                invariant
                    j <= c < kind@.len(),
                    ns@ == kind@.subrange(0, j as int),
                decreases c - j,
            {
                ns.push(kind[j]);
                j += 1;
                assert(ns@ =~= kind@.subrange(0, j as int));
            }
            let mut j: usize = c + 1;
            while j < kind.len()
                invariant
                    c < j <= kind@.len(),
                    path@ == kind@.subrange(c + 1, j as int),
                decreases kind@.len() - j,
            {
                path.push(kind[j]);
                j += 1;
                assert(path@ =~= kind@.subrange(c + 1, j as int));
            }
            proof {
                assert(sole_colon(kind@, c as int));
                let k = choose|k: int| sole_colon(kind@, k);
                assert(k == c as int);
            }
            Some((ns, path))
        },
    }
}

} // verus!

verus! {

/// The request kinds that a host serves.
#[derive(Clone, Copy, Debug, PartialEq, Eq, Structural)]
pub enum Handler {
    /// `c:ping`: echoes the body.
    Ping,
    /// `c:protocols`: lists the kinds served.
    Protocols,
    /// `c:server_port`: the game's port.
    ServerPort,
    /// `c:player_ping`: a guest announces itself.
    PlayerPing,
    /// `c:player_profiles_list`: the host's list of profiles.
    PlayerProfilesList,
}

/// The path of a request kind, in namespace `c`.
pub open spec fn handler_path(h: Handler) -> Seq<u8> {
    match h {
        Handler::Ping => seq![112u8, 105, 110, 103],
        Handler::Protocols => seq![112u8, 114, 111, 116, 111, 99, 111, 108, 115],
        Handler::ServerPort => seq![115u8, 101, 114, 118, 101, 114, 95, 112, 111, 114, 116],
        Handler::PlayerPing => seq![112u8, 108, 97, 121, 101, 114, 95, 112, 105, 110, 103],
        Handler::PlayerProfilesList => seq![
            112u8, 108, 97, 121, 101, 114, 95, 112, 114, 111, 102, 105, 108, 101, 115, 95, 108,
            105, 115, 116,
        ],
    }
}

/// The namespace of every request kind: `c`.
pub open spec fn handler_namespace() -> Seq<u8> {
    seq![99u8]
}

/// The request kinds in the order a host lists them.
pub open spec fn handler_table() -> Seq<Handler> {
    seq![
        Handler::Ping,
        Handler::Protocols,
        Handler::ServerPort,
        Handler::PlayerPing,
        Handler::PlayerProfilesList,
    ]
}

/// The path of a request kind.
pub fn path_of(h: Handler) -> (r: Vec<u8>)
    ensures
        r@ == handler_path(h),
{
    let r = match h {
        Handler::Ping => vec![112u8, 105, 110, 103],
        Handler::Protocols => vec![112u8, 114, 111, 116, 111, 99, 111, 108, 115],
        Handler::ServerPort => vec![115u8, 101, 114, 118, 101, 114, 95, 112, 111, 114, 116],
        Handler::PlayerPing => vec![112u8, 108, 97, 121, 101, 114, 95, 112, 105, 110, 103],
        Handler::PlayerProfilesList => vec![
            112u8, 108, 97, 121, 101, 114, 95, 112, 114, 111, 102, 105, 108, 101, 115, 95, 108,
            105, 115, 116,
        ],
    };
    assert(r@ =~= handler_path(h));
    r
}

fn same_bytes(a: &Vec<u8>, b: &Vec<u8>) -> (r: bool)
    ensures
        r == (a@ == b@),
{
    if a.len() != b.len() {
        return false;
    }
    let mut i: usize = 0;
    while i < a.len()
        invariant
            a@.len() == b@.len(),
            i <= a@.len(),
            forall|j: int| 0 <= j < i ==> a@[j] == b@[j],
        decreases a@.len() - i,
    {
        if a[i] != b[i] {
            return false;
        }
        i += 1;
    }
    assert(a@ =~= b@);
    true
}

/// The request kind that a host serves under `namespace:path`, if any.
pub fn route(namespace: &Vec<u8>, path: &Vec<u8>) -> (r: Option<Handler>)
    ensures
        match r {
            Some(h) => namespace@ == handler_namespace() && path@ == handler_path(h),
            None => forall|h: Handler| !(namespace@ == handler_namespace() && path@ == handler_path(h)),
        },
{
    let c: Vec<u8> = vec![99u8];
    assert(c@ =~= handler_namespace());
    if !same_bytes(namespace, &c) {
        return None;
    }
    let table = [
        Handler::Ping,
        Handler::Protocols,
        Handler::ServerPort,
        Handler::PlayerPing,
        Handler::PlayerProfilesList,
    ];
    let mut i: usize = 0;
    while i < 5
        invariant
            i <= 5,
            namespace@ == handler_namespace(),
            table@ == handler_table(),
            forall|j: int| 0 <= j < i ==> path@ != handler_path(#[trigger] table@[j]),
        decreases 5 - i,
    {
        let h = table[i];
        if same_bytes(path, &path_of(h)) {
            return Some(h);
        }
        i += 1;
    }
    assert forall|h: Handler| path@ != handler_path(h) by {
        let j: int = match h {
            Handler::Ping => 0,
            Handler::Protocols => 1,
            Handler::ServerPort => 2,
            Handler::PlayerPing => 3,
            Handler::PlayerProfilesList => 4,
        };
        assert(table@[j] == h);
    }
    None
}

} // verus!

verus! {

/// The body of `c:protocols`: each kind served, as `namespace:path`, separated by NUL bytes.
pub open spec fn protocols_body() -> Seq<u8> {
    kind_of(handler_namespace(), handler_path(Handler::Ping)) + seq![0u8] + kind_of(
        handler_namespace(),
        handler_path(Handler::Protocols),
    ) + seq![0u8] + kind_of(handler_namespace(), handler_path(Handler::ServerPort)) + seq![0u8]
        + kind_of(handler_namespace(), handler_path(Handler::PlayerPing)) + seq![0u8] + kind_of(
        handler_namespace(),
        handler_path(Handler::PlayerProfilesList),
    )
}

/// `c:ping`: the reply echoes the request's body.
pub fn handle_ping(request: &Vec<u8>) -> (r: PacketResponse)
    ensures
        r matches PacketResponse::Success { data } && data@ == request@,
{
    let mut data: Vec<u8> = Vec::new();
    push_all(&mut data, request);
    PacketResponse::Success { data }
}

fn push_kind(out: &mut Vec<u8>, h: Handler)
    ensures
        final(out)@ == old(out)@ + kind_of(handler_namespace(), handler_path(h)),
{
    out.push(99u8);
    out.push(58u8);
    push_all(out, &path_of(h));
    assert(out@ =~= old(out)@ + kind_of(handler_namespace(), handler_path(h)));
}

/// `c:protocols`: the reply lists the kinds served.
pub fn handle_protocols() -> (r: PacketResponse)
    ensures
        r matches PacketResponse::Success { data } && data@ == protocols_body(),
{
    let mut data: Vec<u8> = Vec::new();
    push_kind(&mut data, Handler::Ping);
    data.push(0u8);
    push_kind(&mut data, Handler::Protocols);
    data.push(0u8);
    push_kind(&mut data, Handler::ServerPort);
    data.push(0u8);
    push_kind(&mut data, Handler::PlayerPing);
    data.push(0u8);
    push_kind(&mut data, Handler::PlayerProfilesList);
    assert(data@ =~= protocols_body());
    PacketResponse::Success { data }
}

/// The two bytes of `n`, most significant first.
pub open spec fn be16(n: nat) -> Seq<u8> {
    seq![(n / 256 % 256) as u8, (n % 256) as u8]
}

/// `c:server_port`: the game's port in two bytes while the host serves a room, else a
/// failure for the wrong state.
pub fn handle_server_port<S, E, F>(state: &AppStateContainer<S, E, F>) -> (r: PacketResponse)
    ensures
        match state.value_spec() {
            crate::states::AppState::HostOk { port, .. } => r matches PacketResponse::Success {
                data,
            } && data@ == be16(port as nat),
            _ => r matches PacketResponse::Fail { status, data } && status == STATUS_INVALID_STATE
                && data@.len() == 0,
        },
{
    match state.server_port() {
        Some(port) => {
            let mut data: Vec<u8> = Vec::new();
            data.push((port / 256) as u8);
            data.push((port % 256) as u8);
            assert(data@ =~= be16(port as nat));
            PacketResponse::Success { data }
        },
        None => PacketResponse::Fail { status: STATUS_INVALID_STATE, data: Vec::new() },
    }
}

/// The bytes of the text sent back for a request that failed: the debug print of the
/// I/O error that carries the failure's message.
pub open spec fn error_bytes(e: HandlerError) -> Seq<u8> {
    match e {
        HandlerError::NotHostOk => "Custom { kind: Other, error: \"IllegalStateException: Expecting HostOk.\" }".spec_bytes(),
        HandlerError::HostConflict => "Custom { kind: Other, error: \"IllegalStateException: Cannot modify host, machine_id may conflict.\" }".spec_bytes(),
    }
}

/// The text sent back for a request that failed: the debug print of an I/O error of kind
/// `Other` carrying the failure's message.
pub fn error_text(e: HandlerError) -> (r: &'static str)
    ensures
        r.spec_bytes() == error_bytes(e),
        e == HandlerError::NotHostOk ==> r@ == "Custom { kind: Other, error: \"IllegalStateException: Expecting HostOk.\" }"@,
        e == HandlerError::HostConflict ==> r@
            == "Custom { kind: Other, error: \"IllegalStateException: Cannot modify host, machine_id may conflict.\" }"@,
{
    match e {
        HandlerError::NotHostOk => "Custom { kind: Other, error: \"IllegalStateException: Expecting HostOk.\" }",
        HandlerError::HostConflict => "Custom { kind: Other, error: \"IllegalStateException: Cannot modify host, machine_id may conflict.\" }",
    }
}

/// The frame sent back for a handled request: the reply's status and body, or, for a
/// failed request, status 255 and the failure's text.
pub fn reply_frame(reply: Result<PacketResponse, HandlerError>) -> (r: Vec<u8>)
    requires
        reply matches Ok(PacketResponse::Success { data }) ==> data@.len() <= u32::MAX,
        reply matches Ok(PacketResponse::Fail { data, .. }) ==> data@.len() <= u32::MAX,
    ensures
        reply matches Ok(PacketResponse::Success { data }) ==> r@ == response_frame(0, data@),
        reply matches Ok(PacketResponse::Fail { status, data }) ==> r@ == response_frame(
            status,
            data@,
        ),
        reply matches Err(e) ==> r@ == response_frame(STATUS_PROTOCOL, error_bytes(e)),
{
    match reply {
        Ok(PacketResponse::Success { data }) => encode_response(0, &data),
        Ok(PacketResponse::Fail { status, data }) => encode_response(status, &data),
        Err(e) => {
            let text = error_text(e);
            let bytes = text.as_bytes_vec();
            proof {
                lemma_error_text_ascii(text);
            }
            encode_response(STATUS_PROTOCOL, &bytes)
        },
    }
}

/// The failure texts are ASCII, so their bytes fit a frame's length field.
pub proof fn lemma_error_text_ascii(s: &str)
    requires
        s@ == "Custom { kind: Other, error: \"IllegalStateException: Expecting HostOk.\" }"@ || s@
            == "Custom { kind: Other, error: \"IllegalStateException: Cannot modify host, machine_id may conflict.\" }"@,
    ensures
        s.spec_bytes().len() <= u32::MAX,
{
    reveal_strlit("Custom { kind: Other, error: \"IllegalStateException: Expecting HostOk.\" }");
    reveal_strlit("Custom { kind: Other, error: \"IllegalStateException: Cannot modify host, machine_id may conflict.\" }");
    assert(vstd::string::is_ascii(s));
    vstd::string::is_ascii_spec_bytes(s);
}

/// The text sent back for a request of a kind that is not served.
pub open spec fn not_implemented_bytes() -> Seq<u8> {
    "Requested protocol hasn't been implemented.".spec_bytes()
}

/// The frame sent back for a request of a kind that is not served: status 255 and a text.
pub fn not_implemented_frame() -> (r: Vec<u8>)
    ensures
        r@ == response_frame(STATUS_PROTOCOL, not_implemented_bytes()),
{
    let text = "Requested protocol hasn't been implemented.";
    proof {
        reveal_strlit("Requested protocol hasn't been implemented.");
        assert(vstd::string::is_ascii(text));
        vstd::string::is_ascii_spec_bytes(text);
    }
    encode_response(STATUS_PROTOCOL, &text.as_bytes_vec())
}

/// A request frame reads back as what was framed: the kind's length and the kind, the
/// body's length and the body; the kind's length fits its byte.
pub proof fn lemma_request_frame_reads_back(kind: Seq<u8>, body: Seq<u8>)
    requires
        kind.len() <= 255,
        body.len() <= MAX_BODY,
    ensures
        ({
            let f = request_frame(kind, body);
            let k = f[0] as int;
            &&& k == kind.len()
            &&& f.subrange(1, 1 + k) == kind
            &&& from_be32(f.subrange(1 + k, 5 + k)) == body.len()
            &&& f.subrange(5 + k, f.len() as int) == body
        }),
{
    let f = request_frame(kind, body);
    let k = kind.len() as int;
    assert(f.subrange(1, 1 + k) =~= kind);
    assert(f.subrange(1 + k, 5 + k) =~= be32(body.len()));
    lemma_be32_round_trip(body.len());
    assert(f.subrange(5 + k, f.len() as int) =~= body);
}

/// A response frame reads back as its status, the body's length and the body.
pub proof fn lemma_response_frame_reads_back(status: u8, body: Seq<u8>)
    requires
        body.len() <= u32::MAX,
    ensures
        ({
            let f = response_frame(status, body);
            &&& f[0] == status
            &&& from_be32(f.subrange(1, 5)) == body.len()
            &&& f.subrange(5, f.len() as int) == body
        }),
{
    let f = response_frame(status, body);
    assert(f.subrange(1, 5) =~= be32(body.len()));
    lemma_be32_round_trip(body.len());
    assert(f.subrange(5, f.len() as int) =~= body);
}

} // verus!
