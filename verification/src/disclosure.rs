//! Selective disclosure: which parts of a transcript a presentation reveals.
//!
//! A presentation shows the whole response and the shape of the request.  It
//! hides the values of the credential headers and the value of the signature
//! parameter.
use vstd::prelude::*;
use vstd::string::*;

use crate::text::{same_text, to_ascii_lower};
#[allow(unused_imports)]
use crate::hexadecimal::{hex_text, hex_text_bytes};
#[allow(unused_imports)]
use crate::request::{endpoint_path, request_header_texts, target_text, Endpoint};
#[allow(unused_imports)]
use crate::text::lowered;
#[allow(unused_imports)]
use vstd::utf8::encode_utf8;

verus! {

/// The headers whose values stay hidden, whatever the case of their names.
pub open spec fn hides_value(name: Seq<char>) -> bool {
    let lower = lowered(name);
    lower == "x-mbx-apikey"@ || lower == "authorization"@ || lower == "user-agent"@
}

/// Whether the value of a header stays hidden.
pub fn is_hidden_header(name: &str) -> (hidden: bool)
    ensures
        hidden == hides_value(name@),
{
    let lower = to_ascii_lower(name);
    same_text(lower.as_str(), "x-mbx-apikey") || same_text(lower.as_str(), "authorization")
        || same_text(lower.as_str(), "user-agent")
}

/// The bytes of `signature=`.
pub open spec fn signature_mark() -> Seq<u8> {
    seq![115u8, 105, 103, 110, 97, 116, 117, 114, 101, 61]
}

/// The value of a signature parameter starts at `at`: the parameter name stands
/// before it, after a `?` or a `&`.
pub open spec fn signature_starts(target: Seq<u8>, at: int) -> bool {
    &&& 11 <= at <= target.len()
    &&& target[at - 11] == 63 || target[at - 11] == 38
    &&& target.subrange(at - 10, at) == signature_mark()
}

/// The byte at `at` belongs to the value of a signature parameter: the value
/// runs to the next `&`.
pub open spec fn in_signature(target: Seq<u8>, at: int) -> bool
    decreases at + 1,
{
    &&& 0 <= at < target.len()
    &&& target[at] != 38
    &&& signature_starts(target, at) || in_signature(target, at - 1)
}

/// A half-open range of byte positions.
#[derive(Clone, Copy, Debug, PartialEq, Eq, Structural)]
pub struct ByteRange {
    pub from: usize,
    pub to: usize,
}

/// The maximal ranges of the first `n` bytes of a target that belong to no
/// signature, in order.
pub open spec fn public_ranges(target: Seq<u8>, n: nat) -> Seq<ByteRange>
    decreases n,
{
    if n == 0 {
        Seq::empty()
    } else {
        let before = public_ranges(target, (n - 1) as nat);
        if in_signature(target, n - 1) {
            before
        } else if before.len() > 0 && before.last().to == n - 1 {
            before.drop_last().push(ByteRange { from: before.last().from, to: n as usize })
        } else {
            before.push(ByteRange { from: (n - 1) as usize, to: n as usize })
        }
    }
}

/// Whether the value of a signature parameter starts at `at`.
fn starts_signature(target: &[u8], at: usize) -> (starts: bool)
    requires
        at <= target@.len(),
    ensures
        starts == signature_starts(target@, at as int),
{
    if at < 11 {
        return false;
    }
    if target[at - 11] != 63 && target[at - 11] != 38 {
        return false;
    }
    let starts = target[at - 10] == 115 && target[at - 9] == 105 && target[at - 8] == 103 && target[at
        - 7] == 110 && target[at - 6] == 97 && target[at - 5] == 116 && target[at - 4] == 117
        && target[at - 3] == 114 && target[at - 2] == 101 && target[at - 1] == 61;
    proof {
        let part = target@.subrange(at - 10, at as int);
        let mark = signature_mark();
        if starts {
            assert(part =~= mark);
        } else if part == mark {
            assert(part[0] == mark[0] && part[1] == mark[1] && part[2] == mark[2] && part[3]
                == mark[3] && part[4] == mark[4] && part[5] == mark[5] && part[6] == mark[6]
                && part[7] == mark[7] && part[8] == mark[8] && part[9] == mark[9]);
        }
    }
    starts
}

/// The ranges of a target that a presentation reveals.
pub fn public_target_ranges(target: &[u8]) -> (ranges: Vec<ByteRange>)
    ensures
        ranges@ == public_ranges(target@, target@.len()),
{
    let mut ranges: Vec<ByteRange> = Vec::new();
    let mut inside: bool = false;
    let mut i: usize = 0;
    while i < target.len()
        invariant
            i <= target@.len(),
            ranges@ == public_ranges(target@, i as nat),
            inside == in_signature(target@, i - 1),
        decreases target@.len() - i,
    {
        inside = target[i] != 38 && (inside || starts_signature(target, i));
        if !inside {
            let count: usize = ranges.len();
            if count > 0 && ranges[count - 1].to == i {
                let from: usize = ranges[count - 1].from;
                ranges.pop();
                ranges.push(ByteRange { from, to: i + 1 });
            } else {
                ranges.push(ByteRange { from: i, to: i + 1 });
            }
        }
        i = i + 1;
    }
    ranges
}

/// One part of a transcript that a presentation reveals.
#[derive(Clone, Copy, Debug, PartialEq, Eq, Structural)]
pub enum Reveal {
    /// A request without its data: its layout.
    RequestStructure { request: usize },
    /// A range of a request's target, counted from the start of the target.
    RequestTarget { request: usize, range: ByteRange },
    /// A header of a request with its value.
    RequestHeader { request: usize, header: usize },
    /// A header of a request without its value.
    RequestHeaderName { request: usize, header: usize },
    /// A whole response.
    Response { response: usize },
    /// A response without its data: its layout.
    ResponseStructure { response: usize },
    /// A header of a response with its value.
    ResponseHeader { response: usize, header: usize },
    /// The body of a response.
    ResponseBody { response: usize },
}

/// A request of the transcript.
pub struct RequestOutline {
    /// The bytes of the target.
    pub target: Vec<u8>,
    /// The names of the headers.
    pub header_names: Vec<String>,
}

/// A response of the transcript.
#[derive(Clone, Copy, Debug)]
pub struct ResponseOutline {
    /// The number of headers.
    pub header_count: usize,
    /// Whether there is a body.
    pub has_body: bool,
}

/// What is revealed of the first `n` headers of a request.
pub open spec fn header_reveals(names: Seq<String>, request: usize, n: nat) -> Seq<Reveal>
    decreases n,
{
    if n == 0 {
        Seq::empty()
    } else {
        header_reveals(names, request, (n - 1) as nat).push(
            if hides_value(names[n - 1]@) {
                Reveal::RequestHeaderName { request, header: (n - 1) as usize }
            } else {
                Reveal::RequestHeader { request, header: (n - 1) as usize }
            },
        )
    }
}

/// What is revealed of a target with these public ranges.
pub open spec fn target_reveals(ranges: Seq<ByteRange>, request: usize) -> Seq<Reveal> {
    ranges.map_values(|range: ByteRange| Reveal::RequestTarget { request, range })
}

/// What is revealed of a request: its layout, the target but for signatures, and
/// its headers.
pub open spec fn request_reveals(outline: RequestOutline, request: usize) -> Seq<Reveal> {
    seq![Reveal::RequestStructure { request }] + target_reveals(
        public_ranges(outline.target@, outline.target@.len()),
        request,
    ) + header_reveals(outline.header_names@, request, outline.header_names@.len())
}

/// What is revealed of the first `n` requests.
pub open spec fn requests_reveals(requests: Seq<RequestOutline>, n: nat) -> Seq<Reveal>
    decreases n,
{
    if n == 0 {
        Seq::empty()
    } else {
        requests_reveals(requests, (n - 1) as nat) + request_reveals(
            requests[n - 1],
            (n - 1) as usize,
        )
    }
}

/// What is revealed of a response: all of it at once, or its parts.
pub open spec fn response_reveals(
    outline: ResponseOutline,
    response: usize,
    whole: bool,
) -> Seq<Reveal> {
    if whole {
        seq![Reveal::Response { response }]
    } else {
        seq![Reveal::ResponseStructure { response }] + Seq::new(
            outline.header_count as nat,
            |header: int| Reveal::ResponseHeader { response, header: header as usize },
        ) + if outline.has_body {
            seq![Reveal::ResponseBody { response }]
        } else {
            Seq::empty()
        }
    }
}

/// What is revealed of the first `n` responses.
pub open spec fn responses_reveals(
    responses: Seq<ResponseOutline>,
    n: nat,
    whole: bool,
) -> Seq<Reveal>
    decreases n,
{
    if n == 0 {
        Seq::empty()
    } else {
        responses_reveals(responses, (n - 1) as nat, whole) + response_reveals(
            responses[n - 1],
            (n - 1) as usize,
            whole,
        )
    }
}

/// Everything that a presentation reveals, in order.
pub open spec fn disclosed(
    requests: Seq<RequestOutline>,
    responses: Seq<ResponseOutline>,
    whole: bool,
) -> Seq<Reveal> {
    requests_reveals(requests, requests.len()) + responses_reveals(
        responses,
        responses.len(),
        whole,
    )
}

/// Adds what is revealed of one request.
fn disclose_request(plan: &mut Vec<Reveal>, outline: &RequestOutline, request: usize)
    ensures
        final(plan)@ == old(plan)@ + request_reveals(*outline, request),
{
    let ghost start = plan@;
    plan.push(Reveal::RequestStructure { request });
    let ghost structured = plan@;
    let ranges = public_target_ranges(outline.target.as_slice());
    let mut i: usize = 0;
    while i < ranges.len()
        invariant
            i <= ranges@.len(),
            plan@ =~= structured + target_reveals(ranges@.take(i as int), request),
        decreases ranges@.len() - i,
    {
        proof {
            assert(target_reveals(ranges@.take(i + 1), request) =~= target_reveals(
                ranges@.take(i as int),
                request,
            ).push(Reveal::RequestTarget { request, range: ranges@[i as int] }));
        }
        plan.push(Reveal::RequestTarget { request, range: ranges[i] });
        i = i + 1;
    }
    proof {
        assert(ranges@.take(ranges@.len() as int) =~= ranges@);
    }
    let ghost targeted = plan@;
    let mut j: usize = 0;
    while j < outline.header_names.len()
        invariant
            j <= outline.header_names@.len(),
            plan@ =~= targeted + header_reveals(outline.header_names@, request, j as nat),
        decreases outline.header_names@.len() - j,
    {
        if is_hidden_header(outline.header_names[j].as_str()) {
            plan.push(Reveal::RequestHeaderName { request, header: j });
        } else {
            plan.push(Reveal::RequestHeader { request, header: j });
        }
        j = j + 1;
    }
    proof {
        assert(plan@ =~= start + request_reveals(*outline, request));
    }
}

/// Adds what is revealed of one response.
fn disclose_response(
    plan: &mut Vec<Reveal>,
    outline: &ResponseOutline,
    response: usize,
    whole: bool,
)
    ensures
        final(plan)@ == old(plan)@ + response_reveals(*outline, response, whole),
{
    let ghost start = plan@;
    if whole {
        plan.push(Reveal::Response { response });
    } else {
        plan.push(Reveal::ResponseStructure { response });
        let ghost structured = plan@;
        let mut j: usize = 0;
        while j < outline.header_count
            invariant
                j <= outline.header_count,
                plan@ =~= structured + Seq::new(
                    j as nat,
                    |header: int| Reveal::ResponseHeader { response, header: header as usize },
                ),
            decreases outline.header_count - j,
        {
            plan.push(Reveal::ResponseHeader { response, header: j });
            j = j + 1;
        }
        if outline.has_body {
            plan.push(Reveal::ResponseBody { response });
        }
    }
    proof {
        assert(plan@ =~= start + response_reveals(*outline, response, whole));
    }
}

/// Plans a presentation of a transcript; `whole` asks for each response at once.
pub fn disclosure_plan(
    requests: &[RequestOutline],
    responses: &[ResponseOutline],
    whole: bool,
) -> (plan: Vec<Reveal>)
    ensures
        plan@ == disclosed(requests@, responses@, whole),
{
    let mut plan: Vec<Reveal> = Vec::new();
    let mut i: usize = 0;
    while i < requests.len()
        invariant
            i <= requests@.len(),
            plan@ =~= requests_reveals(requests@, i as nat),
        decreases requests@.len() - i,
    {
        disclose_request(&mut plan, &requests[i], i);
        i = i + 1;
    }
    let ghost asked = plan@;
    let mut j: usize = 0;
    while j < responses.len()
        invariant
            j <= responses@.len(),
            plan@ =~= asked + responses_reveals(responses@, j as nat, whole),
        decreases responses@.len() - j,
    {
        disclose_response(&mut plan, &responses[j], j, whole);
        j = j + 1;
    }
    plan
}

/// A presentation shows the value of a request header exactly if the header is
/// not one of the hidden ones; of a hidden header it shows the name alone.
pub proof fn hidden_header_values_stay_hidden(
    requests: Seq<RequestOutline>,
    responses: Seq<ResponseOutline>,
    whole: bool,
    request: usize,
    header: usize,
)
    requires
        requests.len() <= usize::MAX,
        responses.len() <= usize::MAX,
        request < requests.len(),
        header < requests[request as int].header_names@.len(),
    ensures
        disclosed(requests, responses, whole).contains(Reveal::RequestHeader { request, header })
            <==> !hides_value(requests[request as int].header_names@[header as int]@),
        disclosed(requests, responses, whole).contains(
            Reveal::RequestHeaderName { request, header },
        ) <==> hides_value(requests[request as int].header_names@[header as int]@),
{
    let full = Reveal::RequestHeader { request, header };
    let bare = Reveal::RequestHeaderName { request, header };
    sent_part_is_in_its_request(requests, responses, whole, full, request);
    sent_part_is_in_its_request(requests, responses, whole, bare, request);
    let outline = requests[request as int];
    let names = outline.header_names@;
    let ranges = public_ranges(outline.target@, outline.target@.len());
    let first = seq![Reveal::RequestStructure { request }];
    let targets = target_reveals(ranges, request);
    let headers = header_reveals(names, request, names.len());
    assert(names.len() <= usize::MAX) by {
        assert(outline.header_names.len() == names.len());
    }
    header_reveals_are(names, request, names.len(), header);
    concat_contains(first + targets, headers, full);
    concat_contains(first, targets, full);
    concat_contains(first + targets, headers, bare);
    concat_contains(first, targets, bare);
    assert(!first.contains(full) && !first.contains(bare));
    assert(!targets.contains(full) && !targets.contains(bare));
}

/// Some part of the plan shows the byte at `at` of a request's target.
pub open spec fn shows_target_byte(plan: Seq<Reveal>, request: usize, at: int) -> bool {
    exists|range: ByteRange|
        range.from <= at < range.to && #[trigger] plan.contains(
            Reveal::RequestTarget { request, range },
        )
}

/// A presentation shows a byte of a request's target exactly if the byte does
/// not belong to a signature.
pub proof fn signatures_stay_hidden(
    requests: Seq<RequestOutline>,
    responses: Seq<ResponseOutline>,
    whole: bool,
    request: usize,
    at: int,
)
    requires
        requests.len() <= usize::MAX,
        responses.len() <= usize::MAX,
        request < requests.len(),
        0 <= at < requests[request as int].target@.len(),
    ensures
        shows_target_byte(disclosed(requests, responses, whole), request, at) <==> !in_signature(
            requests[request as int].target@,
            at,
        ),
{
    let plan = disclosed(requests, responses, whole);
    let outline = requests[request as int];
    let target = outline.target@;
    let names = outline.header_names@;
    let ranges = public_ranges(target, target.len());
    let first = seq![Reveal::RequestStructure { request }];
    let targets = target_reveals(ranges, request);
    let headers = header_reveals(names, request, names.len());
    assert(target.len() <= usize::MAX) by {
        assert(outline.target.len() == target.len());
    }
    public_ranges_cover(target, target.len(), at);
    assert forall|range: ByteRange|
        plan.contains(Reveal::RequestTarget { request, range }) <==> #[trigger] ranges.contains(
            range,
        ) by {
        let part = Reveal::RequestTarget { request, range };
        sent_part_is_in_its_request(requests, responses, whole, part, request);
        concat_contains(first + targets, headers, part);
        concat_contains(first, targets, part);
        header_reveals_have_no_target(names, request, names.len(), part);
        assert(!first.contains(part));
        if ranges.contains(range) {
            let k = choose|k: int| 0 <= k < ranges.len() && ranges[k] == range;
            assert(targets[k] == part);
        }
        if targets.contains(part) {
            let k = choose|k: int| 0 <= k < targets.len() && targets[k] == part;
            assert(ranges[k] == range);
        }
    }
    if shows_target_byte(plan, request, at) {
        let range = choose|range: ByteRange|
            range.from <= at < range.to && #[trigger] plan.contains(
                Reveal::RequestTarget { request, range },
            );
        assert(ranges.contains(range));
        let k = choose|k: int| 0 <= k < ranges.len() && ranges[k] == range;
        assert(ranges[k].from <= at < ranges[k].to);
    }
    if !in_signature(target, at) {
        let k = choose|k: int|
            0 <= k < ranges.len() && (#[trigger] ranges[k]).from <= at < ranges[k].to;
        let range = ranges[k];
        assert(ranges.contains(range));
        assert(plan.contains(Reveal::RequestTarget { request, range }));
    }
}

/// The signature of a request is hidden, whatever the query: in the bytes of a
/// signed target all sixty-four digits of the signature belong to a signature
/// value.
pub proof fn request_signature_is_hidden(
    endpoint: Endpoint,
    query: Seq<char>,
    code: Seq<u8>,
    at: int,
)
    requires
        code.len() == 32,
        encode_utf8(target_text(endpoint, query, hex_text(code))).len() - 64 <= at
            < encode_utf8(target_text(endpoint, query, hex_text(code))).len(),
    ensures
        in_signature(encode_utf8(target_text(endpoint, query, hex_text(code))), at),
    decreases at,
{
    let signature = hex_text(code);
    let target = target_text(endpoint, query, signature);
    let head = endpoint_path(endpoint) + "?"@ + query;
    let bytes = encode_utf8(target);
    let mark = encode_utf8("&signature="@);
    encode_concat(head + "&signature="@, signature);
    encode_concat(head, "&signature="@);
    hex_text_bytes(code);
    mark_bytes();
    let start = encode_utf8(head).len() + 11;
    let tail = encode_utf8(signature);
    assert(bytes =~= encode_utf8(head) + mark + tail);
    assert(bytes.len() - 64 == start);
    assert(bytes[at] == tail[at - start]);
    assert(bytes[at] == signature[at - start] as u8);
    if at == start {
        assert(bytes[at - 11] == mark[0]);
        assert forall|k: int| 0 <= k < 10 implies bytes.subrange(at - 10, at)[k]
            == signature_mark()[k] by {
            assert(bytes[at - 10 + k] == mark[k + 1]);
        }
        assert(bytes.subrange(at - 10, at) =~= signature_mark());
        assert(signature_starts(bytes, at));
    } else {
        request_signature_is_hidden(endpoint, query, code, at - 1);
    }
}

/// Of a target with a single signature parameter at the end, everything before
/// the signature's value is shown.
pub proof fn rest_of_target_is_shown(target: Seq<u8>, start: int, at: int)
    requires
        0 <= at < start <= target.len(),
        forall|s: int| 0 <= s < start ==> !signature_starts(target, s),
    ensures
        !in_signature(target, at),
    decreases at,
{
    reveal_with_fuel(in_signature, 2);
    if at > 0 {
        rest_of_target_is_shown(target, start, at - 1);
    }
}

/// Of the headers of a request, the API key and the user agent stay hidden and
/// the others are shown.
pub proof fn api_key_is_hidden(api_key: Seq<char>)
    ensures
        request_header_texts(api_key).len() == 6,
        request_header_texts(api_key)[5].1 == api_key,
        forall|i: int|
            0 <= i < 6 ==> (hides_value(#[trigger] request_header_texts(api_key)[i].0) <==> i == 4
                || i == 5),
{
    reveal_strlit("Host");
    reveal_strlit("Accept");
    reveal_strlit("Accept-Encoding");
    reveal_strlit("Connection");
    reveal_strlit("User-Agent");
    reveal_strlit("X-MBX-APIKEY");
    reveal_strlit("x-mbx-apikey");
    reveal_strlit("authorization");
    reveal_strlit("user-agent");
    assert(lowered("X-MBX-APIKEY"@) =~= "x-mbx-apikey"@);
    assert(lowered("User-Agent"@) =~= "user-agent"@);
    assert(lowered("Host"@).len() == 4);
    assert(lowered("Accept"@).len() == 6);
    assert(lowered("Accept-Encoding"@).len() == 15);
    assert(lowered("Connection"@)[0] == 'c');
}

/// No credential of a signed request is disclosed: neither the value of the API
/// key header, in whatever case its name was sent, nor any digit of the
/// signature.
pub proof fn credentials_are_never_shown(
    requests: Seq<RequestOutline>,
    responses: Seq<ResponseOutline>,
    whole: bool,
    request: usize,
    header: usize,
    endpoint: Endpoint,
    query: Seq<char>,
    code: Seq<u8>,
    at: int,
)
    requires
        requests.len() <= usize::MAX,
        responses.len() <= usize::MAX,
        request < requests.len(),
        header < requests[request as int].header_names@.len(),
        lowered(requests[request as int].header_names@[header as int]@) == lowered(
            "X-MBX-APIKEY"@,
        ),
        code.len() == 32,
        requests[request as int].target@ == encode_utf8(
            target_text(endpoint, query, hex_text(code)),
        ),
        requests[request as int].target@.len() - 64 <= at < requests[request as int].target@.len(),
    ensures
        !disclosed(requests, responses, whole).contains(Reveal::RequestHeader { request, header }),
        !shows_target_byte(disclosed(requests, responses, whole), request, at),
{
    reveal_strlit("X-MBX-APIKEY");
    reveal_strlit("x-mbx-apikey");
    assert(lowered("X-MBX-APIKEY"@) =~= "x-mbx-apikey"@);
    hidden_header_values_stay_hidden(requests, responses, whole, request, header);
    request_signature_is_hidden(endpoint, query, code, at);
    signatures_stay_hidden(requests, responses, whole, request, at);
}

/// Asking for whole responses reveals every response.
pub proof fn responses_are_shown(
    requests: Seq<RequestOutline>,
    responses: Seq<ResponseOutline>,
    response: usize,
)
    requires
        response < responses.len() <= usize::MAX,
    ensures
        disclosed(requests, responses, true).contains(Reveal::Response { response }),
{
    let asked = requests_reveals(requests, requests.len());
    let part = Reveal::Response { response };
    response_is_shown(responses, responses.len(), response);
    concat_contains(asked, responses_reveals(responses, responses.len(), true), part);
}

proof fn response_is_shown(responses: Seq<ResponseOutline>, n: nat, response: usize)
    requires
        response < n <= responses.len() <= usize::MAX,
    ensures
        responses_reveals(responses, n, true).contains(Reveal::Response { response }),
    decreases n,
{
    let part = Reveal::Response { response };
    let before = responses_reveals(responses, (n - 1) as nat, true);
    let last = response_reveals(responses[n - 1], (n - 1) as usize, true);
    concat_contains(before, last, part);
    if response < n - 1 {
        response_is_shown(responses, (n - 1) as nat, response);
    } else {
        assert(last[0] == part);
    }
}

proof fn concat_contains(a: Seq<Reveal>, b: Seq<Reveal>, x: Reveal)
    ensures
        (a + b).contains(x) <==> a.contains(x) || b.contains(x),
{
    if a.contains(x) {
        let i = choose|i: int| 0 <= i < a.len() && a[i] == x;
        assert((a + b)[i] == x);
    }
    if b.contains(x) {
        let i = choose|i: int| 0 <= i < b.len() && b[i] == x;
        assert((a + b)[a.len() + i] == x);
    }
    if (a + b).contains(x) {
        let i = choose|i: int| 0 <= i < (a + b).len() && (a + b)[i] == x;
        if i < a.len() {
            assert(a[i] == x);
        } else {
            assert(b[i - a.len()] == x);
        }
    }
}

/// The request that a part of a plan belongs to.
spec fn sent_request(part: Reveal) -> Option<usize> {
    match part {
        Reveal::RequestStructure { request } => Some(request),
        Reveal::RequestTarget { request, range: _ } => Some(request),
        Reveal::RequestHeader { request, header: _ } => Some(request),
        Reveal::RequestHeaderName { request, header: _ } => Some(request),
        _ => None,
    }
}

/// A part that belongs to a request is in the plan exactly if it is among what
/// is revealed of that request.
proof fn sent_part_is_in_its_request(
    requests: Seq<RequestOutline>,
    responses: Seq<ResponseOutline>,
    whole: bool,
    part: Reveal,
    request: usize,
)
    requires
        requests.len() <= usize::MAX,
        responses.len() <= usize::MAX,
        request < requests.len(),
        sent_request(part) == Some(request),
    ensures
        disclosed(requests, responses, whole).contains(part) <==> request_reveals(
            requests[request as int],
            request,
        ).contains(part),
{
    concat_contains(
        requests_reveals(requests, requests.len()),
        responses_reveals(responses, responses.len(), whole),
        part,
    );
    responses_have_no_sent_part(responses, responses.len(), whole, part);
    sent_part_in_requests(requests, requests.len(), part, request);
}

proof fn responses_have_no_sent_part(
    responses: Seq<ResponseOutline>,
    n: nat,
    whole: bool,
    part: Reveal,
)
    requires
        n <= responses.len(),
        sent_request(part) is Some,
    ensures
        !responses_reveals(responses, n, whole).contains(part),
    decreases n,
{
    if n > 0 {
        responses_have_no_sent_part(responses, (n - 1) as nat, whole, part);
        let last = response_reveals(responses[n - 1], (n - 1) as usize, whole);
        assert forall|i: int| 0 <= i < last.len() implies sent_request(last[i]) is None by {}
        assert(!last.contains(part));
        concat_contains(responses_reveals(responses, (n - 1) as nat, whole), last, part);
    }
}

proof fn sent_part_in_requests(
    requests: Seq<RequestOutline>,
    n: nat,
    part: Reveal,
    request: usize,
)
    requires
        n <= requests.len() <= usize::MAX,
        sent_request(part) == Some(request),
        request < requests.len(),
    ensures
        requests_reveals(requests, n).contains(part) <==> request < n && request_reveals(
            requests[request as int],
            request,
        ).contains(part),
    decreases n,
{
    if n > 0 {
        sent_part_in_requests(requests, (n - 1) as nat, part, request);
        let last = request_reveals(requests[n - 1], (n - 1) as usize);
        concat_contains(requests_reveals(requests, (n - 1) as nat), last, part);
        if last.contains(part) {
            request_parts_belong_to_it(requests[n - 1], (n - 1) as usize, part);
        }
    }
}

proof fn request_parts_belong_to_it(outline: RequestOutline, request: usize, part: Reveal)
    requires
        request_reveals(outline, request).contains(part),
    ensures
        sent_request(part) == Some(request),
{
    let names = outline.header_names@;
    let ranges = public_ranges(outline.target@, outline.target@.len());
    let first = seq![Reveal::RequestStructure { request }];
    let targets = target_reveals(ranges, request);
    let headers = header_reveals(names, request, names.len());
    concat_contains(first + targets, headers, part);
    concat_contains(first, targets, part);
    if headers.contains(part) {
        header_parts_belong_to_it(names, request, names.len(), part);
    }
}

proof fn header_parts_belong_to_it(names: Seq<String>, request: usize, n: nat, part: Reveal)
    requires
        header_reveals(names, request, n).contains(part),
    ensures
        sent_request(part) == Some(request),
    decreases n,
{
    if n > 0 {
        let before = header_reveals(names, request, (n - 1) as nat);
        let all = header_reveals(names, request, n);
        let i = choose|i: int| 0 <= i < all.len() && all[i] == part;
        if i < before.len() {
            assert(before[i] == part);
            header_parts_belong_to_it(names, request, (n - 1) as nat, part);
        }
    }
}

proof fn header_reveals_have_no_target(
    names: Seq<String>,
    request: usize,
    n: nat,
    part: Reveal,
)
    requires
        part is RequestTarget,
    ensures
        !header_reveals(names, request, n).contains(part),
    decreases n,
{
    if n > 0 {
        header_reveals_have_no_target(names, request, (n - 1) as nat, part);
        let before = header_reveals(names, request, (n - 1) as nat);
        let all = header_reveals(names, request, n);
        if all.contains(part) {
            let i = choose|i: int| 0 <= i < all.len() && all[i] == part;
            if i < before.len() {
                assert(before[i] == part);
            }
        }
    }
}

proof fn header_reveals_are(names: Seq<String>, request: usize, n: nat, header: usize)
    requires
        n <= names.len() <= usize::MAX,
    ensures
        header_reveals(names, request, n).contains(Reveal::RequestHeader { request, header })
            <==> header < n && !hides_value(names[header as int]@),
        header_reveals(names, request, n).contains(Reveal::RequestHeaderName { request, header })
            <==> header < n && hides_value(names[header as int]@),
    decreases n,
{
    if n > 0 {
        header_reveals_are(names, request, (n - 1) as nat, header);
        let before = header_reveals(names, request, (n - 1) as nat);
        let last = seq![
            if hides_value(names[n - 1]@) {
                Reveal::RequestHeaderName { request, header: (n - 1) as usize }
            } else {
                Reveal::RequestHeader { request, header: (n - 1) as usize }
            },
        ];
        assert(header_reveals(names, request, n) =~= before + last);
        concat_contains(before, last, Reveal::RequestHeader { request, header });
        concat_contains(before, last, Reveal::RequestHeaderName { request, header });
        single_contains(last[0], Reveal::RequestHeader { request, header });
        single_contains(last[0], Reveal::RequestHeaderName { request, header });
        assert(last =~= seq![last[0]]);
    }
}

proof fn single_contains(x: Reveal, y: Reveal)
    ensures
        seq![x].contains(y) <==> x == y,
{
    assert(seq![x][0] == x);
}

/// Some range holds the position.
spec fn covered(ranges: Seq<ByteRange>, at: int) -> bool {
    exists|k: int| 0 <= k < ranges.len() && (#[trigger] ranges[k]).from <= at < ranges[k].to
}

proof fn public_ranges_cover(target: Seq<u8>, n: nat, at: int)
    requires
        n <= target.len() <= usize::MAX,
        0 <= at < target.len(),
    ensures
        covered(public_ranges(target, n), at) <==> at < n && !in_signature(target, at),
        forall|k: int|
            0 <= k < public_ranges(target, n).len() ==> (#[trigger] public_ranges(
                target,
                n,
            )[k]).from < public_ranges(target, n)[k].to <= n,
    decreases n,
{
    let all = public_ranges(target, n);
    if n > 0 {
        public_ranges_cover(target, (n - 1) as nat, at);
        let before = public_ranges(target, (n - 1) as nat);
        if !in_signature(target, n - 1) {
            let grown = before.len() > 0 && before.last().to == n - 1;
            let kept = if grown {
                before.drop_last()
            } else {
                before
            };
            let last = all.last();
            assert(all =~= kept.push(last));
            assert(last.to == n);
            if at < n && !in_signature(target, at) {
                if at == n - 1 {
                    assert(grown ==> before[before.len() - 1].from < n - 1);
                    assert(all[all.len() - 1].from <= at < all[all.len() - 1].to);
                } else {
                    let k = choose|k: int|
                        0 <= k < before.len() && (#[trigger] before[k]).from <= at < before[k].to;
                    if grown && k == before.len() - 1 {
                        assert(all[all.len() - 1].from <= at < all[all.len() - 1].to);
                    } else {
                        assert(all[k] == before[k]);
                    }
                }
                assert(covered(all, at));
            }
            if covered(all, at) {
                let k = choose|k: int|
                    0 <= k < all.len() && (#[trigger] all[k]).from <= at < all[k].to;
                if k < kept.len() {
                    assert(before[k] == all[k]);
                    assert(covered(before, at));
                } else if at < n - 1 {
                    assert(before[before.len() - 1].from <= at < before[before.len() - 1].to);
                    assert(covered(before, at));
                }
            }
        }
    }
}

proof fn encode_concat(a: Seq<char>, b: Seq<char>)
    ensures
        encode_utf8(a + b) == encode_utf8(a) + encode_utf8(b),
    decreases a.len(),
{
    if a.len() == 0 {
        assert(a + b =~= b);
        assert(encode_utf8(a) + encode_utf8(b) =~= encode_utf8(b));
    } else {
        encode_concat(a.drop_first(), b);
        assert((a + b).drop_first() =~= a.drop_first() + b);
        assert((a + b)[0] == a[0]);
        assert(encode_utf8(a + b) =~= encode_utf8(a) + encode_utf8(b));
    }
}

proof fn mark_bytes()
    ensures
        encode_utf8("&signature="@) == seq![38u8] + signature_mark(),
{
    reveal_strlit("&signature=");
    assert(vstd::utf8::is_ascii_chars("&signature="@));
    vstd::utf8::is_ascii_chars_encode_utf8("&signature="@);
    assert(encode_utf8("&signature="@) =~= seq![38u8] + signature_mark());
}

/// The value of a request header is disclosed unless the header is `X-MBX-APIKEY`,
/// `Authorization` or `User-Agent`, in whatever case; of those the name alone is.
pub proof fn three_header_values_are_hidden(
    requests: Seq<RequestOutline>,
    responses: Seq<ResponseOutline>,
    whole: bool,
    request: usize,
    header: usize,
)
    requires
        requests.len() <= usize::MAX,
        responses.len() <= usize::MAX,
        request < requests.len(),
        header < requests[request as int].header_names@.len(),
    ensures
        ({
            let name = lowered(requests[request as int].header_names@[header as int]@);
            let hidden = name == "x-mbx-apikey"@ || name == "authorization"@ || name
                == "user-agent"@;
            let plan = disclosed(requests, responses, whole);
            &&& plan.contains(Reveal::RequestHeader { request, header }) <==> !hidden
            &&& plan.contains(Reveal::RequestHeaderName { request, header }) <==> hidden
        }),
{
    hidden_header_values_stay_hidden(requests, responses, whole, request, header);
}

/// A byte belongs to a signature exactly if `signature=` stands somewhere before
/// it, behind a `?` or a `&`, and no `&` comes in between.
pub proof fn signature_values_are_recognised(target: Seq<u8>, at: int)
    requires
        0 <= at < target.len(),
    ensures
        in_signature(target, at) <==> exists|q: int|
            0 <= q && q + 11 <= at && (target[q] == '?' as u8 || target[q] == '&' as u8) && (
            #[trigger] target.skip(q)).subrange(1, 11) == encode_utf8("signature="@) && forall|k: int|
                q + 11 <= k <= at ==> #[trigger] target[k] != '&' as u8,
    decreases at,
{
    reveal_strlit("signature=");
    assert(vstd::utf8::is_ascii_chars("signature="@));
    vstd::utf8::is_ascii_chars_encode_utf8("signature="@);
    assert(encode_utf8("signature="@) =~= signature_mark());
    if at > 0 {
        signature_values_are_recognised(target, at - 1);
    } else {
        reveal_with_fuel(in_signature, 2);
    }
    if 11 <= at {
        assert(target.skip(at - 11).subrange(1, 11) =~= target.subrange(at - 10, at));
    }
    if in_signature(target, at) {
        if signature_starts(target, at) {
            assert(target.skip(at - 11).subrange(1, 11) == encode_utf8("signature="@));
        } else {
            assert(at > 0);
            let q = choose|q: int|
                0 <= q && q + 11 <= at - 1 && (target[q] == '?' as u8 || target[q] == '&' as u8) && (
                #[trigger] target.skip(q)).subrange(1, 11) == encode_utf8("signature="@) && forall|
                    k: int,
                |
                    q + 11 <= k <= at - 1 ==> #[trigger] target[k] != '&' as u8;
            assert(target.skip(q).subrange(1, 11) == encode_utf8("signature="@));
            assert forall|k: int| q + 11 <= k <= at implies #[trigger] target[k] != '&' as u8 by {}
        }
    }
    if exists|q: int|
        0 <= q && q + 11 <= at && (target[q] == '?' as u8 || target[q] == '&' as u8) && (
        #[trigger] target.skip(q)).subrange(1, 11) == encode_utf8("signature="@) && forall|k: int|
            q + 11 <= k <= at ==> #[trigger] target[k] != '&' as u8 {
        let q = choose|q: int|
            0 <= q && q + 11 <= at && (target[q] == '?' as u8 || target[q] == '&' as u8) && (
            #[trigger] target.skip(q)).subrange(1, 11) == encode_utf8("signature="@) && forall|k: int|
                q + 11 <= k <= at ==> #[trigger] target[k] != '&' as u8;
        assert(target[at] != '&' as u8);
        if q + 11 == at {
            assert(signature_starts(target, at));
        } else {
            assert(target.skip(q).subrange(1, 11) == encode_utf8("signature="@));
            assert(in_signature(target, at - 1));
        }
    }
}

/// The response that a part of a plan belongs to.
spec fn received_response(part: Reveal) -> Option<usize> {
    match part {
        Reveal::Response { response } => Some(response),
        Reveal::ResponseStructure { response } => Some(response),
        Reveal::ResponseHeader { response, header: _ } => Some(response),
        Reveal::ResponseBody { response } => Some(response),
        _ => None,
    }
}

proof fn received_part_in_responses(
    responses: Seq<ResponseOutline>,
    n: nat,
    whole: bool,
    part: Reveal,
    response: usize,
)
    requires
        n <= responses.len() <= usize::MAX,
        received_response(part) == Some(response),
    ensures
        responses_reveals(responses, n, whole).contains(part) <==> response < n && response_reveals(
            responses[response as int],
            response,
            whole,
        ).contains(part),
    decreases n,
{
    if n > 0 {
        received_part_in_responses(responses, (n - 1) as nat, whole, part, response);
        let last = response_reveals(responses[n - 1], (n - 1) as usize, whole);
        concat_contains(responses_reveals(responses, (n - 1) as nat, whole), last, part);
        assert forall|i: int| 0 <= i < last.len() implies received_response(#[trigger] last[i])
            == Some((n - 1) as usize) by {}
        if last.contains(part) {
            let i = choose|i: int| 0 <= i < last.len() && last[i] == part;
            assert(received_response(last[i]) == Some((n - 1) as usize));
        }
    }
}

proof fn requests_have_no_received_part(requests: Seq<RequestOutline>, n: nat, part: Reveal)
    requires
        n <= requests.len(),
        received_response(part) is Some,
    ensures
        !requests_reveals(requests, n).contains(part),
    decreases n,
{
    if n > 0 {
        requests_have_no_received_part(requests, (n - 1) as nat, part);
        let last = request_reveals(requests[n - 1], (n - 1) as usize);
        concat_contains(requests_reveals(requests, (n - 1) as nat), last, part);
        if last.contains(part) {
            request_parts_belong_to_it(requests[n - 1], (n - 1) as usize, part);
        }
    }
}

/// A presentation shows the layout of every request, and of every response either
/// the whole or its layout, its headers and its body, as it was asked for, and
/// nothing of a response that is not there.
pub proof fn layouts_and_responses_are_shown(
    requests: Seq<RequestOutline>,
    responses: Seq<ResponseOutline>,
    whole: bool,
    request: usize,
    response: usize,
    header: usize,
)
    requires
        requests.len() <= usize::MAX,
        responses.len() <= usize::MAX,
        request < requests.len(),
    ensures
        ({
            let plan = disclosed(requests, responses, whole);
            let there = response < responses.len();
            &&& plan.contains(Reveal::RequestStructure { request })
            &&& plan.contains(Reveal::Response { response }) <==> there && whole
            &&& plan.contains(Reveal::ResponseStructure { response }) <==> there && !whole
            &&& plan.contains(Reveal::ResponseHeader { response, header }) <==> there && !whole
                && header < responses[response as int].header_count
            &&& plan.contains(Reveal::ResponseBody { response }) <==> there && !whole
                && responses[response as int].has_body
        }),
{
    let structure = Reveal::RequestStructure { request };
    sent_part_is_in_its_request(requests, responses, whole, structure, request);
    assert(request_reveals(requests[request as int], request)[0] == structure);
    response_part_is_shown(requests, responses, whole, Reveal::Response { response }, response);
    response_part_is_shown(
        requests,
        responses,
        whole,
        Reveal::ResponseStructure { response },
        response,
    );
    response_part_is_shown(
        requests,
        responses,
        whole,
        Reveal::ResponseHeader { response, header },
        response,
    );
    response_part_is_shown(requests, responses, whole, Reveal::ResponseBody { response }, response);
    if response < responses.len() {
        let outline = responses[response as int];
        let parts = response_reveals(outline, response, whole);
        if whole {
            assert(parts[0] == Reveal::Response { response });
            assert(parts.len() == 1);
        } else {
            assert(parts[0] == Reveal::ResponseStructure { response });
            if header < outline.header_count {
                assert(parts[header + 1] == Reveal::ResponseHeader { response, header });
            }
            if outline.has_body {
                assert(parts[outline.header_count + 1] == Reveal::ResponseBody { response });
            }
            assert forall|i: int| 0 <= i < parts.len() implies {
                ||| i == 0 && #[trigger] parts[i] == Reveal::ResponseStructure { response }
                ||| 1 <= i <= outline.header_count && parts[i] == Reveal::ResponseHeader {
                    response,
                    header: (i - 1) as usize,
                }
                ||| i == outline.header_count + 1 && outline.has_body && parts[i]
                    == Reveal::ResponseBody { response }
            } by {}
        }
    }
}

proof fn response_part_is_shown(
    requests: Seq<RequestOutline>,
    responses: Seq<ResponseOutline>,
    whole: bool,
    part: Reveal,
    response: usize,
)
    requires
        responses.len() <= usize::MAX,
        received_response(part) == Some(response),
    ensures
        disclosed(requests, responses, whole).contains(part) <==> response < responses.len()
            && response_reveals(responses[response as int], response, whole).contains(part),
{
    requests_have_no_received_part(requests, requests.len(), part);
    received_part_in_responses(responses, responses.len(), whole, part, response);
    concat_contains(
        requests_reveals(requests, requests.len()),
        responses_reveals(responses, responses.len(), whole),
        part,
    );
}

/// Whatever a presentation shows of requests and their headers is there: no part
/// names a request or a header beyond the last one, and no range reaches beyond its
/// target or is empty.
pub proof fn nothing_beyond_the_transcript_is_shown(
    requests: Seq<RequestOutline>,
    responses: Seq<ResponseOutline>,
    whole: bool,
    request: usize,
    header: usize,
    range: ByteRange,
)
    requires
        requests.len() <= usize::MAX,
        responses.len() <= usize::MAX,
    ensures
        ({
            let plan = disclosed(requests, responses, whole);
            let there = request < requests.len();
            &&& plan.contains(Reveal::RequestStructure { request }) ==> there
            &&& plan.contains(Reveal::RequestHeader { request, header }) ==> there && header
                < requests[request as int].header_names@.len()
            &&& plan.contains(Reveal::RequestHeaderName { request, header }) ==> there && header
                < requests[request as int].header_names@.len()
            &&& plan.contains(Reveal::RequestTarget { request, range }) ==> there && range.from
                < range.to <= requests[request as int].target@.len()
        }),
{
    let structure = Reveal::RequestStructure { request };
    let full = Reveal::RequestHeader { request, header };
    let bare = Reveal::RequestHeaderName { request, header };
    let target = Reveal::RequestTarget { request, range };
    sent_part_has_its_request(requests, responses, whole, structure, request);
    sent_part_has_its_request(requests, responses, whole, full, request);
    sent_part_has_its_request(requests, responses, whole, bare, request);
    sent_part_has_its_request(requests, responses, whole, target, request);
    if request < requests.len() {
        let outline = requests[request as int];
        let names = outline.header_names@;
        assert(names.len() <= usize::MAX) by {
            assert(outline.header_names.len() == names.len());
        }
        assert(outline.target@.len() <= usize::MAX) by {
            assert(outline.target.len() == outline.target@.len());
        }
        let ranges = public_ranges(outline.target@, outline.target@.len());
        let first = seq![structure];
        let targets = target_reveals(ranges, request);
        let headers = header_reveals(names, request, names.len());
        header_reveals_are(names, request, names.len(), header);
        header_reveals_have_no_target(names, request, names.len(), target);
        concat_contains(first + targets, headers, full);
        concat_contains(first, targets, full);
        concat_contains(first + targets, headers, bare);
        concat_contains(first, targets, bare);
        concat_contains(first + targets, headers, target);
        concat_contains(first, targets, target);
        if plan_has(requests, responses, whole, target) {
            sent_part_is_in_its_request(requests, responses, whole, target, request);
            assert(targets.contains(target));
            let k = choose|k: int| 0 <= k < targets.len() && targets[k] == target;
            assert(ranges[k] == range);
            if outline.target@.len() > 0 {
                public_ranges_cover(outline.target@, outline.target@.len(), 0);
            }
        }
        if plan_has(requests, responses, whole, full) {
            sent_part_is_in_its_request(requests, responses, whole, full, request);
        }
        if plan_has(requests, responses, whole, bare) {
            sent_part_is_in_its_request(requests, responses, whole, bare, request);
        }
    }
}

spec fn plan_has(
    requests: Seq<RequestOutline>,
    responses: Seq<ResponseOutline>,
    whole: bool,
    part: Reveal,
) -> bool {
    disclosed(requests, responses, whole).contains(part)
}

proof fn sent_part_has_its_request(
    requests: Seq<RequestOutline>,
    responses: Seq<ResponseOutline>,
    whole: bool,
    part: Reveal,
    request: usize,
)
    requires
        requests.len() <= usize::MAX,
        sent_request(part) == Some(request),
    ensures
        disclosed(requests, responses, whole).contains(part) ==> request < requests.len(),
{
    concat_contains(
        requests_reveals(requests, requests.len()),
        responses_reveals(responses, responses.len(), whole),
        part,
    );
    responses_have_no_sent_part(responses, responses.len(), whole, part);
    sent_part_below(requests, requests.len(), part, request);
}

proof fn sent_part_below(requests: Seq<RequestOutline>, n: nat, part: Reveal, request: usize)
    requires
        n <= requests.len() <= usize::MAX,
        sent_request(part) == Some(request),
    ensures
        requests_reveals(requests, n).contains(part) ==> request < n,
    decreases n,
{
    if n > 0 {
        sent_part_below(requests, (n - 1) as nat, part, request);
        let last = request_reveals(requests[n - 1], (n - 1) as usize);
        concat_contains(requests_reveals(requests, (n - 1) as nat), last, part);
        if last.contains(part) {
            request_parts_belong_to_it(requests[n - 1], (n - 1) as usize, part);
        }
    }
}

} // verus!
