//! Transcripts: the bytes that went over the connection, and what the verifier
//! reads from them.
use vstd::prelude::*;
use vstd::string::*;

use crate::report::Report;
use crate::request::{Endpoint, BINANCE_HOST};
use crate::text::{
    chars_text, contains, decimal, find_char, find_chars, lossy_text, rfind_char, same_text,
    text_chars, white_space,
};
#[allow(unused_imports)]
use crate::request::{endpoint_path, target_text};
#[allow(unused_imports)]
use crate::text::{
    containing_is_standing_in, contains_text, decimal_text, find, find_from_is_least, first_index,
    framed_pattern_is_contained, indices_are_extreme, is_white_space, last_index, occurs_at,
    trimmed_start, utf8_lossy,
};

verus! {

/// A record of the connection, as far as its length goes.
#[derive(Clone, Copy, Debug)]
pub struct Record {
    /// Whether the record carries application data.
    pub application_data: bool,
    /// The length of the ciphertext.
    pub ciphertext_len: usize,
}

/// The length of the application data in the first `n` records.
pub open spec fn application_bytes(records: Seq<Record>, n: nat) -> nat
    decreases n,
{
    if n == 0 {
        0
    } else {
        application_bytes(records, (n - 1) as nat) + if records[n - 1].application_data {
            records[n - 1].ciphertext_len as nat
        } else {
            0
        }
    }
}

/// The length of the application data in one direction.
pub fn application_data_len(records: &[Record]) -> (len: usize)
    requires
        application_bytes(records@, records@.len()) <= usize::MAX,
    ensures
        len == application_bytes(records@, records@.len()),
{
    let mut len: usize = 0;
    let mut i: usize = 0;
    while i < records.len()
        invariant
            i <= records@.len(),
            application_bytes(records@, records@.len()) <= usize::MAX,
            len == application_bytes(records@, i as nat),
        decreases records@.len() - i,
    {
        proof {
            application_bytes_grow(records@, i as nat + 1, records@.len());
        }
        if records[i].application_data {
            len = len + records[i].ciphertext_len;
        }
        i = i + 1;
    }
    len
}

/// More records hold no less application data.
pub proof fn application_bytes_grow(records: Seq<Record>, m: nat, n: nat)
    requires
        m <= n,
    ensures
        application_bytes(records, m) <= application_bytes(records, n),
    decreases n,
{
    if m < n {
        application_bytes_grow(records, m, (n - 1) as nat);
    }
}

/// Records of two stretches of a connection hold their application data
/// together, and records of another kind hold none.
pub proof fn application_bytes_add_up(first: Seq<Record>, second: Seq<Record>, n: nat)
    requires
        n <= second.len(),
    ensures
        application_bytes(first + second, first.len() + n) == application_bytes(
            first,
            first.len(),
        ) + application_bytes(second, n),
        (forall|i: int| 0 <= i < second.len() ==> !(#[trigger] second[i]).application_data)
            ==> application_bytes(second, n) == 0,
    decreases n,
{
    if n > 0 {
        application_bytes_add_up(first, second, (n - 1) as nat);
        assert((first + second)[first.len() + n - 1] == second[n - 1]);
    } else {
        prefix_counts(first, second, first.len());
    }
}

proof fn prefix_counts(first: Seq<Record>, second: Seq<Record>, n: nat)
    requires
        n <= first.len(),
    ensures
        application_bytes(first + second, n) == application_bytes(first, n),
    decreases n,
{
    if n > 0 {
        prefix_counts(first, second, (n - 1) as nat);
        assert((first + second)[n - 1] == first[n - 1]);
    }
}

/// The lengths that an attestation states, in bytes.
pub struct TranscriptLength {
    pub sent: u32,
    pub received: u32,
}

/// The lengths that the notary attests to: the application data in each
/// direction, in thirty-two bits.
pub fn transcript_length(sent: &[Record], received: &[Record]) -> (length: TranscriptLength)
    requires
        application_bytes(sent@, sent@.len()) <= usize::MAX,
        application_bytes(received@, received@.len()) <= usize::MAX,
    ensures
        length.sent == application_bytes(sent@, sent@.len()) % 0x1_0000_0000,
        length.received == application_bytes(received@, received@.len()) % 0x1_0000_0000,
{
    let sent_len: u64 = application_data_len(sent) as u64;
    let received_len: u64 = application_data_len(received) as u64;
    TranscriptLength {
        sent: (sent_len % 0x1_0000_0000) as u32,
        received: (received_len % 0x1_0000_0000) as u32,
    }
}

/// Why a presentation does not prove where its data came from.
#[derive(Debug)]
pub enum ServerError {
    /// The server name is not in the presentation.
    NotRevealed,
    /// The server is another one.
    Mismatch(String),
}

/// The message of a server error.
pub open spec fn server_error_message(error: ServerError) -> Seq<char> {
    match error {
        ServerError::NotRevealed => "Server name not revealed"@,
        ServerError::Mismatch(name) => "Server name mismatch: expected "@ + BINANCE_HOST@
            + ", got "@ + name@,
    }
}

impl ServerError {
    /// What to tell the operator.
    pub fn message(&self) -> (text: String)
        ensures
            text@ == server_error_message(*self),
    {
        match self {
            ServerError::NotRevealed => "Server name not revealed".to_owned(),
            ServerError::Mismatch(name) => {
                "Server name mismatch: expected ".to_owned().concat(BINANCE_HOST).concat(
                    ", got ",
                ).concat(name.as_str())
            },
        }
    }
}

/// Accepts a presentation exactly if its server is the exchange.
pub fn check_server(server_name: Option<&str>) -> (checked: Result<(), ServerError>)
    ensures
        match server_name {
            None => checked matches Err(e) && e is NotRevealed,
            Some(name) => if name@ == "api.binance.com"@ {
                checked is Ok
            } else {
                checked matches Err(ServerError::Mismatch(got)) && got@ == name@
            },
        },
{
    match server_name {
        None => Err(ServerError::NotRevealed),
        Some(name) => {
            if same_text(name, BINANCE_HOST) {
                Ok(())
            } else {
                Err(ServerError::Mismatch(name.to_owned()))
            }
        },
    }
}

/// The first line of a text: up to the first line feed, without a carriage
/// return before it; none if the text is empty.
pub open spec fn first_line(text: Seq<char>) -> Option<Seq<char>> {
    if text.len() == 0 {
        None
    } else {
        match first_index(text, '\n') {
            None => Some(text),
            Some(i) => if i > 0 && text[i - 1] == '\r' {
                Some(text.take(i - 1))
            } else {
                Some(text.take(i))
            },
        }
    }
}

/// The length of the stretch without white space at the start of a text.
pub open spec fn word_len(text: Seq<char>) -> nat
    decreases text.len(),
{
    if text.len() == 0 || is_white_space(text[0]) {
        0
    } else {
        1 + word_len(text.drop_first())
    }
}

/// The first word of a text; empty if there is none.
pub open spec fn leading_word(text: Seq<char>) -> Seq<char> {
    let start = trimmed_start(text);
    start.take(word_len(start) as int)
}

/// What follows the first word of a text.
pub open spec fn after_word(text: Seq<char>) -> Seq<char> {
    let start = trimmed_start(text);
    start.skip(word_len(start) as int)
}

/// The path of a request target: what stands before the query.
pub open spec fn path_of(target: Seq<char>) -> Seq<char> {
    match first_index(target, '?') {
        Some(i) => target.take(i),
        None => target,
    }
}

/// Method and path of a request line.
pub open spec fn method_and_path(line: Seq<char>) -> Seq<char> {
    let method = leading_word(line);
    let target = leading_word(after_word(line));
    if target.len() == 0 {
        method
    } else {
        method + " "@ + path_of(target)
    }
}

/// The bounds of the first word at or after `from`.
fn word_bounds(chars: &[char], from: usize) -> (bounds: (usize, usize))
    requires
        from <= chars@.len(),
    ensures
        from <= bounds.0 <= bounds.1 <= chars@.len(),
        leading_word(chars@.skip(from as int)) == chars@.subrange(bounds.0 as int, bounds.1 as int),
        after_word(chars@.skip(from as int)) == chars@.skip(bounds.1 as int),
{
    let ghost text = chars@.skip(from as int);
    let mut start: usize = from;
    while start < chars.len() && white_space(chars[start])
        invariant
            from <= start <= chars@.len(),
            trimmed_start(text) == trimmed_start(chars@.skip(start as int)),
        ensures
            from <= start <= chars@.len(),
            trimmed_start(text) == chars@.skip(start as int),
        decreases chars@.len() - start,
    {
        proof {
            assert(chars@.skip(start as int).drop_first() =~= chars@.skip(start + 1));
        }
        start = start + 1;
    }
    let ghost rest = chars@.skip(start as int);
    let mut end: usize = start;
    while end < chars.len() && !white_space(chars[end])
        invariant
            start <= end <= chars@.len(),
            word_len(rest) == (end - start) + word_len(chars@.skip(end as int)),
            rest == chars@.skip(start as int),
        ensures
            start <= end <= chars@.len(),
            word_len(rest) == end - start,
        decreases chars@.len() - end,
    {
        proof {
            assert(chars@.skip(end as int).drop_first() =~= chars@.skip(end + 1));
        }
        end = end + 1;
    }
    proof {
        assert(rest.take(end - start) =~= chars@.subrange(start as int, end as int));
        assert(rest.skip(end - start) =~= chars@.skip(end as int));
    }
    (start, end)
}

/// The characters of the first line of a text; none if the text is empty.
fn line_chars(text: &str) -> (line: Option<Vec<char>>)
    ensures
        match line {
            Some(l) => first_line(text@) == Some(l@),
            None => first_line(text@) is None,
        },
{
    let all = text_chars(text);
    if all.len() == 0 {
        return None;
    }
    let len: usize = match find_char(all.as_slice(), '\n') {
        None => {
            proof {
                assert(all@.take(all@.len() as int) =~= all@);
            }
            all.len()
        },
        Some(i) => {
            proof {
                indices_are_extreme(all@, '\n');
            }
            if i > 0 && all[i - 1] == '\r' {
                i - 1
            } else {
                i
            }
        },
    };
    let line_text = chars_text(all.as_slice(), 0, len);
    let line = text_chars(line_text.as_str());
    proof {
        assert(line@ =~= all@.take(len as int));
    }
    Some(line)
}

/// The path of a request target.
fn path_text(target: &str) -> (path: String)
    ensures
        path@ == path_of(target@),
{
    let chars = text_chars(target);
    match find_char(chars.as_slice(), '?') {
        Some(i) => {
            proof {
                indices_are_extreme(chars@, '?');
                assert(chars@.subrange(0, i as int) =~= chars@.take(i as int));
            }
            chars_text(chars.as_slice(), 0, i)
        },
        None => target.to_owned(),
    }
}

/// Method and path of a request line.
fn method_path_text(line: &[char]) -> (text: String)
    ensures
        text@ == method_and_path(line@),
{
    proof {
        assert(line@.skip(0) =~= line@);
    }
    let (m0, m1) = word_bounds(line, 0);
    let (t0, t1) = word_bounds(line, m1);
    let method = chars_text(line, m0, m1);
    if t0 == t1 {
        return method;
    }
    let target = chars_text(line, t0, t1);
    method.concat(" ").concat(path_text(target.as_str()).as_str())
}

/// Method and path of the request in a sent transcript; none if it is empty.
pub fn request_line(sent: &str) -> (line: Option<String>)
    ensures
        match line {
            Some(l) => first_line(sent@) is Some && l@ == method_and_path(first_line(sent@)->0),
            None => first_line(sent@) is None,
        },
{
    match line_chars(sent) {
        Some(line) => Some(method_path_text(line.as_slice())),
        None => None,
    }
}

/// The endpoint of the request in a sent transcript: the account where its path
/// occurs, the trade history otherwise.
pub open spec fn endpoint_of(sent: Seq<char>) -> Endpoint {
    if contains_text(sent, "/api/v3/account"@) {
        Endpoint::Account
    } else {
        Endpoint::Trades
    }
}

/// The endpoint of the request in a sent transcript.
pub fn detect_endpoint(sent: &str) -> (endpoint: Endpoint)
    ensures
        endpoint == endpoint_of(sent@),
{
    if contains(sent, "/api/v3/account") {
        Endpoint::Account
    } else {
        Endpoint::Trades
    }
}

/// The body of a received transcript: what follows the first empty line.
pub open spec fn body_of(received: Seq<char>) -> Option<Seq<char>> {
    match find(received, "\r\n\r\n"@) {
        Some(i) => Some(received.skip(i + 4)),
        None => None,
    }
}

/// The body of a received transcript.
pub fn response_body(received: &str) -> (body: Option<String>)
    ensures
        match body {
            Some(b) => body_of(received@) == Some(b@),
            None => body_of(received@) is None,
        },
{
    let chars = text_chars(received);
    let blank = text_chars("\r\n\r\n");
    proof {
        reveal_strlit("\r\n\r\n");
        find_from_is_least(chars@, blank@, 0);
    }
    let total: usize = chars.len();
    match find_chars(chars.as_slice(), blank.as_slice()) {
        Some(i) => {
            proof {
                assert(occurs_at(chars@, blank@, i as int));
                assert(chars@.subrange(i + 4, chars@.len() as int) =~= chars@.skip(i + 4));
            }
            Some(chars_text(chars.as_slice(), i + 4, total))
        },
        None => None,
    }
}

/// The brackets around the data of an endpoint: an object for the account, an
/// array for the trade history.
pub open spec fn brackets(endpoint: Endpoint) -> (char, char) {
    match endpoint {
        Endpoint::Account => ('{', '}'),
        Endpoint::Trades => ('[', ']'),
    }
}

fn bracket_chars(endpoint: Endpoint) -> (pair: (char, char))
    ensures
        pair == brackets(endpoint),
{
    match endpoint {
        Endpoint::Account => ('{', '}'),
        Endpoint::Trades => ('[', ']'),
    }
}

/// The end of the data in a body: after the last closing bracket, or the end of
/// the body.
pub open spec fn json_end(body: Seq<char>, endpoint: Endpoint) -> int {
    match last_index(body, brackets(endpoint).1) {
        Some(j) => j + 1,
        None => body.len() as int,
    }
}

/// The data does not end before it starts.
pub open spec fn in_order(body: Seq<char>, endpoint: Endpoint) -> bool {
    match first_index(body, brackets(endpoint).0) {
        Some(i) => i <= json_end(body, endpoint),
        None => true,
    }
}

/// The data in a body: from the first opening bracket to the last closing one,
/// or to the end where nothing closes.
pub open spec fn json_of(body: Seq<char>, endpoint: Endpoint) -> Option<Seq<char>> {
    match first_index(body, brackets(endpoint).0) {
        Some(i) => Some(body.subrange(i, json_end(body, endpoint))),
        None => None,
    }
}

/// Whether the brackets of a body come in the right order.
pub fn brackets_in_order(body: &str, endpoint: Endpoint) -> (ordered: bool)
    ensures
        ordered == in_order(body@, endpoint),
{
    let chars = text_chars(body);
    let (open, close) = bracket_chars(endpoint);
    match find_char(chars.as_slice(), open) {
        None => true,
        Some(i) => {
            proof {
                indices_are_extreme(chars@, open);
            }
            match rfind_char(chars.as_slice(), close) {
                Some(j) => i == 0 || i - 1 <= j,
                None => true,
            }
        },
    }
}

/// Cuts the data out of a body.
pub fn json_part(body: &str, endpoint: Endpoint) -> (json: Option<String>)
    requires
        in_order(body@, endpoint),
    ensures
        match json {
            Some(j) => json_of(body@, endpoint) == Some(j@),
            None => json_of(body@, endpoint) is None,
        },
{
    let chars = text_chars(body);
    let (open, close) = bracket_chars(endpoint);
    proof {
        indices_are_extreme(chars@, open);
        indices_are_extreme(chars@, close);
    }
    match find_char(chars.as_slice(), open) {
        None => None,
        Some(i) => {
            let total: usize = chars.len();
            let end: usize = match rfind_char(chars.as_slice(), close) {
                Some(j) => {
                    assert(j < total);
                    j + 1
                },
                None => total,
            };
            Some(chars_text(chars.as_slice(), i, end))
        },
    }
}

/// The data in the body of a response.
pub enum BodyData {
    /// Nothing opens.
    Missing,
    /// Everything closes before anything opens.
    Disordered,
    /// The data.
    Json(String),
}

/// `data` is the data in a body.
pub open spec fn is_data_of(data: BodyData, body: Seq<char>, endpoint: Endpoint) -> bool {
    match data {
        BodyData::Missing => json_of(body, endpoint) is None,
        BodyData::Disordered => json_of(body, endpoint) is Some && !in_order(body, endpoint),
        BodyData::Json(json) => in_order(body, endpoint) && json_of(body, endpoint) == Some(json@),
    }
}

/// The body of a disclosed response.
pub struct ResponseBody {
    /// The whole body.
    pub text: String,
    /// What the request asked for.
    pub endpoint: Endpoint,
    /// The data of the endpoint.
    pub data: BodyData,
}

/// What the verifier reads from a disclosed transcript.
pub struct Inspection {
    pub sent_text: String,
    pub received_text: String,
    /// Method and path of the request.
    pub request_line: Option<String>,
    /// The body, where the headers end.
    pub body: Option<ResponseBody>,
}

impl Inspection {
    /// The inspection is that of these texts.
    pub open spec fn inspects(&self, sent: Seq<char>, received: Seq<char>) -> bool {
        &&& self.sent_text@ == sent
        &&& self.received_text@ == received
        &&& match self.request_line {
            Some(line) => first_line(sent) is Some && line@ == method_and_path(
                first_line(sent)->0,
            ),
            None => first_line(sent) is None,
        }
        &&& match self.body {
            Some(body) => {
                &&& body_of(received) == Some(body.text@)
                &&& body.endpoint == endpoint_of(sent)
                &&& is_data_of(body.data, body.text@, body.endpoint)
            },
            None => body_of(received) is None,
        }
    }
}

/// Finds the data in a body.
pub fn body_data(body: &str, endpoint: Endpoint) -> (data: BodyData)
    ensures
        is_data_of(data, body@, endpoint),
{
    if brackets_in_order(body, endpoint) {
        match json_part(body, endpoint) {
            Some(json) => BodyData::Json(json),
            None => BodyData::Missing,
        }
    } else {
        BodyData::Disordered
    }
}

/// Reads the texts of a disclosed transcript.
pub fn inspect_texts(sent: String, received: String) -> (inspection: Inspection)
    ensures
        inspection.inspects(sent@, received@),
{
    let line = request_line(sent.as_str());
    let body = match response_body(received.as_str()) {
        Some(text) => {
            let endpoint = detect_endpoint(sent.as_str());
            let data = body_data(text.as_str(), endpoint);
            Some(ResponseBody { text, endpoint, data })
        },
        None => None,
    };
    Inspection { sent_text: sent, received_text: received, request_line: line, body }
}

/// Reads the bytes of a disclosed transcript; bytes that are no UTF-8 are
/// replaced.
pub fn inspect(sent: &[u8], received: &[u8]) -> (inspection: Inspection)
    ensures
        inspection.inspects(utf8_lossy(sent@), utf8_lossy(received@)),
{
    inspect_texts(lossy_text(sent), lossy_text(received))
}

/// The data that is cut out starts with its opening bracket and, where a closing
/// one follows, ends with that.
pub proof fn data_is_bracketed(body: Seq<char>, endpoint: Endpoint)
    requires
        json_of(body, endpoint) is Some,
        json_end(body, endpoint) > first_index(body, brackets(endpoint).0)->0,
    ensures
        json_of(body, endpoint)->0[0] == brackets(endpoint).0,
        last_index(body, brackets(endpoint).1) is Some ==> json_of(body, endpoint)->0.last()
            == brackets(endpoint).1,
{
    indices_are_extreme(body, brackets(endpoint).0);
    indices_are_extreme(body, brackets(endpoint).1);
}

/// What frames the data is dropped: data between brackets is found again after
/// anything that opens nothing and before anything that closes nothing.
pub proof fn framed_data_is_found(
    before: Seq<char>,
    data: Seq<char>,
    after: Seq<char>,
    endpoint: Endpoint,
)
    requires
        data.len() > 0,
        data[0] == brackets(endpoint).0,
        data.last() == brackets(endpoint).1,
        forall|i: int| 0 <= i < before.len() ==> before[i] != brackets(endpoint).0,
        forall|i: int| 0 <= i < after.len() ==> after[i] != brackets(endpoint).1,
    ensures
        in_order(before + data + after, endpoint),
        json_of(before + data + after, endpoint) == Some(data),
{
    let body = before + data + after;
    let open = brackets(endpoint).0;
    let close = brackets(endpoint).1;
    indices_are_extreme(body, open);
    indices_are_extreme(body, close);
    let start = before.len() as int;
    let end = before.len() + data.len();
    assert(body[start] == open);
    assert(body[end - 1] == close);
    assert forall|j: int| 0 <= j < start implies body[j] != open by {
        assert(body[j] == before[j]);
    }
    assert forall|j: int| end <= j < body.len() implies body[j] != close by {
        assert(body[j] == after[j - end]);
    }
    assert(first_index(body, open) == Some(start));
    assert(last_index(body, close) == Some(end - 1));
    assert(body.subrange(start, end as int) =~= data);
}

/// The verifier sees an account proof for what it is: a transcript whose request
/// targets the account endpoint, whatever stands around the target and even if
/// the signature is blotted out, is taken for the account's.
pub proof fn account_proof_is_detected(
    before: Seq<char>,
    query: Seq<char>,
    signature: Seq<char>,
    after: Seq<char>,
)
    ensures
        endpoint_of(before + target_text(Endpoint::Account, query, signature) + after)
            == Endpoint::Account,
{
    let path = endpoint_path(Endpoint::Account);
    let rest = "?"@ + query + "&signature="@ + signature + after;
    let whole = before + target_text(Endpoint::Account, query, signature) + after;
    assert(whole =~= before + path + rest);
    framed_pattern_is_contained(before, path, rest);
}

/// How many of the first `n` bytes are blotted out: shown as `X` or as zero.
pub open spec fn redacted(bytes: Seq<u8>, n: nat) -> nat
    decreases n,
{
    if n == 0 {
        0
    } else {
        redacted(bytes, (n - 1) as nat) + if bytes[n - 1] == 88 || bytes[n - 1] == 0 {
            1nat
        } else {
            0nat
        }
    }
}

/// Counts the bytes that are blotted out.
pub fn redacted_count(bytes: &[u8]) -> (count: usize)
    ensures
        count == redacted(bytes@, bytes@.len()),
        count <= bytes@.len(),
{
    let mut count: usize = 0;
    let mut i: usize = 0;
    while i < bytes.len()
        invariant
            i <= bytes@.len(),
            count == redacted(bytes@, i as nat),
            count <= i,
        decreases bytes@.len() - i,
    {
        if bytes[i] == 88 || bytes[i] == 0 {
            count = count + 1;
        }
        i = i + 1;
    }
    count
}

/// The lines on what is blotted out; none where nothing is.
pub open spec fn redaction_lines(sent: nat, received: nat) -> Seq<Seq<char>> {
    if sent == 0 && received == 0 {
        Seq::empty()
    } else {
        seq![""@, "--- Redaction Summary ---"@] + (if sent > 0 {
            seq!["Request: "@ + decimal_text(sent) + " bytes redacted (API key, signature)"@]
        } else {
            Seq::empty()
        }) + (if received > 0 {
            seq!["Response: "@ + decimal_text(received) + " bytes redacted"@]
        } else {
            Seq::empty()
        })
    }
}

/// Reports what is blotted out of a transcript.
pub fn redaction_report(sent: &[u8], received: &[u8]) -> (report: Report)
    ensures
        report@ == redaction_lines(
            redacted(sent@, sent@.len()),
            redacted(received@, received@.len()),
        ),
{
    let sent_count: usize = redacted_count(sent);
    let received_count: usize = redacted_count(received);
    let mut report = Report::new();
    if sent_count > 0 || received_count > 0 {
        report.line("");
        report.line("--- Redaction Summary ---");
        if sent_count > 0 {
            report.push(
                "Request: ".to_owned().concat(decimal(sent_count as u64).as_str()).concat(
                    " bytes redacted (API key, signature)",
                ),
            );
        }
        if received_count > 0 {
            report.push(
                "Response: ".to_owned().concat(decimal(received_count as u64).as_str()).concat(
                    " bytes redacted",
                ),
            );
        }
    }
    proof {
        assert(report@ =~= redaction_lines(sent_count as nat, received_count as nat));
    }
    report
}

/// The verifier takes a transcript for an account proof exactly if the account's
/// path stands somewhere in what was sent, and for a trade history otherwise.
pub proof fn endpoint_is_detected_by_its_path(sent: Seq<char>)
    ensures
        endpoint_of(sent) == Endpoint::Account <==> exists|before: Seq<char>, after: Seq<char>|
            sent == #[trigger] (before + "/api/v3/account"@ + after),
        endpoint_of(sent) == Endpoint::Trades <==> forall|before: Seq<char>, after: Seq<char>|
            sent != #[trigger] (before + "/api/v3/account"@ + after),
{
    containing_is_standing_in(sent, "/api/v3/account"@);
}

/// The verifier sees a trade proof for what it is: a transcript around the target
/// of a trade request is taken for the trade history, unless what stands around
/// the path holds the account's path itself.
pub proof fn trade_proof_is_detected(
    before: Seq<char>,
    query: Seq<char>,
    signature: Seq<char>,
    after: Seq<char>,
)
    requires
        !before.contains('/'),
        !query.contains('/'),
        !signature.contains('/'),
        forall|x: Seq<char>, y: Seq<char>| after != #[trigger] (x + "/api/v3/account"@ + y),
    ensures
        endpoint_of(before + target_text(Endpoint::Trades, query, signature) + after)
            == Endpoint::Trades,
{
    reveal_strlit("/api/v3/account");
    reveal_strlit("/api/v3/myTrades");
    reveal_strlit("?");
    reveal_strlit("&signature=");
    let path = "/api/v3/account"@;
    let target = target_text(Endpoint::Trades, query, signature);
    let sent = before + target + after;
    endpoint_is_detected_by_its_path(sent);
    assert forall|x: Seq<char>, y: Seq<char>| sent != #[trigger] (x + path + y) by {
        let whole = x + path + y;
        if sent == whole {
            let at = x.len() as int;
            assert(whole[at] == path[0]);
            assert(whole[at + 1] == path[1] && whole[at + 8] == path[8]);
            let start = before.len() as int;
            let end = start + target.len();
            if at < start {
                assert(sent[at] == before[at]);
                assert(before.contains(before[at]));
            } else if at < end {
                let k = at - start;
                assert(sent[at] == target[k]);
                if k < 16 {
                    assert(target[k] == "/api/v3/myTrades"@[k]);
                    assert(k == 0 || k == 4 || k == 7);
                    assert(sent[at + 1] == target[k + 1]);
                    assert(target[k + 1] == "/api/v3/myTrades"@[k + 1]);
                    assert(k == 0);
                    assert(sent[at + 8] == target[8]);
                    assert(target[8] == "/api/v3/myTrades"@[8]);
                } else if k == 16 {
                    assert(target[k] == '?');
                } else if k < 17 + query.len() {
                    assert(target[k] == query[k - 17]);
                    assert(query.contains(query[k - 17]));
                } else if k < 28 + query.len() {
                    assert(target[k] == "&signature="@[k - 17 - query.len()]);
                } else {
                    let j = k - 28 - query.len();
                    assert(target[k] == signature[j]);
                    assert(signature.contains(signature[j]));
                }
            } else {
                let prefix = after.take(at - end);
                assert(after =~= prefix + path + y) by {
                    assert(after.len() == prefix.len() + path.len() + y.len());
                    assert forall|i: int| 0 <= i < after.len() implies after[i] == (prefix + path
                        + y)[i] by {
                        assert(after[i] == sent[end + i]);
                        assert(sent[end + i] == whole[end + i]);
                    }
                }
            }
        }
    }
}

/// A record adds its length to the application data exactly if it carries
/// application data.
pub proof fn each_record_counts_by_its_kind(records: Seq<Record>, record: Record)
    ensures
        application_bytes(Seq::empty(), 0) == 0,
        record.application_data ==> application_bytes(records.push(record), records.len() + 1)
            == application_bytes(records, records.len()) + record.ciphertext_len,
        !record.application_data ==> application_bytes(records.push(record), records.len() + 1)
            == application_bytes(records, records.len()),
{
    application_bytes_add_up(records, seq![record], 1);
    assert(records + seq![record] =~= records.push(record));
    reveal_with_fuel(application_bytes, 2);
}

/// The first line of a text is its start up to the first line end: it holds no
/// line feed, and behind it the text is over or a line end follows.
pub proof fn first_line_ends_at_the_line_end(text: Seq<char>)
    ensures
        text.len() == 0 <==> first_line(text) is None,
        first_line(text) matches Some(line) ==> {
            &&& line.len() <= text.len()
            &&& line == text.take(line.len() as int)
            &&& !line.contains('\n')
            &&& {
                ||| line.len() == text.len()
                ||| text[line.len() as int] == '\n' && (line.len() == 0 || line.last() != '\r')
                ||| line.len() + 1 < text.len() && text[line.len() as int] == '\r' && text[line.len() as int
                    + 1] == '\n'
            }
        },
{
    indices_are_extreme(text, '\n');
    if text.len() > 0 {
        let line = first_line(text)->0;
        assert(line =~= text.take(line.len() as int));
        assert forall|i: int| 0 <= i < line.len() implies line[i] != '\n' by {
            assert(line[i] == text[i]);
        }
    }
}

/// The request line shows method and path: of a line with a method, a target and
/// more behind it, the query of the target and what follows are left out, and so
/// is what stands before and between the words.  A line with one word shows the
/// word.
pub proof fn request_line_shows_method_and_path(
    lead: Seq<char>,
    method: Seq<char>,
    gap: Seq<char>,
    path: Seq<char>,
    query: Seq<char>,
    rest: Seq<char>,
)
    requires
        method.len() > 0,
        path.len() + query.len() > 0,
        gap.len() > 0,
        forall|i: int| 0 <= i < lead.len() ==> is_white_space(#[trigger] lead[i]),
        forall|i: int| 0 <= i < gap.len() ==> is_white_space(#[trigger] gap[i]),
        forall|i: int| 0 <= i < method.len() ==> !is_white_space(#[trigger] method[i]),
        forall|i: int| 0 <= i < path.len() ==> !is_white_space(#[trigger] path[i]),
        forall|i: int| 0 <= i < query.len() ==> !is_white_space(#[trigger] query[i]),
        !path.contains('?'),
        query.len() > 0 ==> query[0] == '?',
        rest.len() > 0 ==> is_white_space(rest[0]),
    ensures
        method_and_path(lead + (method + gap + (path + query) + rest)) == method + " "@ + path,
        method_and_path(lead + (method + gap)) == method,
        method_and_path(lead + method) == method,
        method_and_path(lead) == Seq::<char>::empty(),
{
    let target = path + query;
    assert forall|i: int| 0 <= i < target.len() implies !is_white_space(#[trigger] target[i]) by {
        if i < path.len() {
            assert(target[i] == path[i]);
        } else {
            assert(target[i] == query[i - path.len()]);
        }
    }
    let behind = gap + (target + rest);
    assert(method + gap + target + rest =~= method + behind);
    first_word_is_cut(lead, method, behind);
    first_word_is_cut(gap, target, rest);
    indices_are_extreme(target, '?');
    if query.len() > 0 {
        assert(target[path.len() as int] == '?');
        assert forall|j: int| 0 <= j < path.len() implies target[j] != '?' by {
            assert(path.contains(path[j]));
        }
        assert(first_index(target, '?') == Some(path.len() as int));
        assert(target.take(path.len() as int) =~= path);
    } else {
        assert(target =~= path);
        assert forall|j: int| 0 <= j < target.len() implies target[j] != '?' by {
            assert(path.contains(path[j]));
        }
        assert(first_index(target, '?') is None);
    }
    let empty = Seq::<char>::empty();
    assert(method + empty =~= method);
    first_word_is_cut(lead, method, gap);
    first_word_is_cut(lead, method, empty);
    blank_has_no_word(gap);
    blank_has_no_word(lead);
    blank_has_no_word(empty);
}

/// White space holds no word.
proof fn blank_has_no_word(text: Seq<char>)
    requires
        forall|i: int| 0 <= i < text.len() ==> is_white_space(#[trigger] text[i]),
    ensures
        leading_word(text) == Seq::<char>::empty(),
        after_word(text) == Seq::<char>::empty(),
    decreases text.len(),
{
    if text.len() > 0 {
        blank_has_no_word(text.drop_first());
    } else {
        assert(leading_word(text) =~= Seq::<char>::empty());
        assert(after_word(text) =~= Seq::<char>::empty());
    }
}

/// The first word of a text is cut out behind white space.
proof fn first_word_is_cut(lead: Seq<char>, word: Seq<char>, rest: Seq<char>)
    requires
        word.len() > 0,
        forall|i: int| 0 <= i < lead.len() ==> is_white_space(#[trigger] lead[i]),
        forall|i: int| 0 <= i < word.len() ==> !is_white_space(#[trigger] word[i]),
        rest.len() > 0 ==> is_white_space(rest[0]),
    ensures
        leading_word(lead + (word + rest)) == word,
        after_word(lead + (word + rest)) == rest,
    decreases lead.len(),
{
    let text = lead + (word + rest);
    if lead.len() > 0 {
        assert(text[0] == lead[0]);
        assert(text.drop_first() =~= lead.drop_first() + (word + rest));
        first_word_is_cut(lead.drop_first(), word, rest);
    } else {
        assert(text =~= word + rest);
        leading_word_is_cut(word, rest);
    }
}

/// A word and what follows it are told apart.
proof fn leading_word_is_cut(word: Seq<char>, rest: Seq<char>)
    requires
        word.len() > 0,
        forall|i: int| 0 <= i < word.len() ==> !is_white_space(#[trigger] word[i]),
        rest.len() > 0 ==> is_white_space(rest[0]),
    ensures
        leading_word(word + rest) == word,
        after_word(word + rest) == rest,
{
    let text = word + rest;
    assert(text[0] == word[0]);
    assert(trimmed_start(text) == text);
    word_len_is(word, rest);
    assert(text.take(word.len() as int) =~= word);
    assert(text.skip(word.len() as int) =~= rest);
}

proof fn word_len_is(word: Seq<char>, rest: Seq<char>)
    requires
        forall|i: int| 0 <= i < word.len() ==> !is_white_space(#[trigger] word[i]),
        rest.len() > 0 ==> is_white_space(rest[0]),
    ensures
        word_len(word + rest) == word.len(),
    decreases word.len(),
{
    let text = word + rest;
    if word.len() > 0 {
        assert(text[0] == word[0]);
        assert(text.drop_first() =~= word.drop_first() + rest);
        word_len_is(word.drop_first(), rest);
    } else {
        assert(text =~= rest);
    }
}

/// The body is what follows the first empty line: a received transcript is
/// something without an empty line before it, two line ends, and the body.
pub proof fn body_follows_the_first_empty_line(received: Seq<char>, head: Seq<char>, body: Seq<char>)
    ensures
        body_of(received) is None <==> forall|before: Seq<char>, after: Seq<char>|
            received != #[trigger] (before + "\r\n\r\n"@ + after),
        received == head + "\r\n\r\n"@ + body && (forall|before: Seq<char>, after: Seq<char>|
            #[trigger] (before + "\r\n\r\n"@ + after) == received ==> before.len() >= head.len())
            ==> body_of(received) == Some(body),
{
    reveal_strlit("\r\n\r\n");
    let blank = "\r\n\r\n"@;
    containing_is_standing_in(received, blank);
    find_from_is_least(received, blank, 0);
    if received == head + blank + body && (forall|before: Seq<char>, after: Seq<char>|
        #[trigger] (before + blank + after) == received ==> before.len() >= head.len()) {
        let h = head.len() as int;
        assert(received.subrange(h, h + 4) =~= blank);
        assert(occurs_at(received, blank, h));
        let at = find(received, blank)->0;
        assert(at <= h);
        let before = received.take(at);
        let after = received.skip(at + 4);
        assert(before + received.subrange(at, at + 4) + after =~= received);
        assert(before + blank + after == received);
        assert(at == h);
        assert(received.skip(h + 4) =~= body);
    }
}

/// The data that is cut out of a body reaches from the first opening bracket to
/// the last closing one, or to the end where nothing closes: square brackets for
/// a trade history, curly ones for an account.
pub proof fn data_is_cut_at_its_brackets(body: Seq<char>, endpoint: Endpoint, open: char, close: char)
    requires
        endpoint == Endpoint::Trades ==> open == '[' && close == ']',
        endpoint == Endpoint::Account ==> open == '{' && close == '}',
    ensures
        json_of(body, endpoint) is None <==> !body.contains(open),
        forall|i: int, j: int|
            #![trigger body[i], body[j]]
            0 <= i < body.len() && 0 <= j < body.len() && body[i] == open && body[j] == close && (
            forall|k: int| 0 <= k < i ==> body[k] != open) && (forall|k: int|
                j < k < body.len() ==> body[k] != close) ==> (in_order(body, endpoint) <==> i <= j
                + 1) && (i <= j + 1 ==> json_of(body, endpoint) == Some(body.subrange(i, j + 1))),
        forall|i: int|
            0 <= i < body.len() && #[trigger] body[i] == open && (forall|k: int|
                0 <= k < i ==> body[k] != open) && !body.contains(close) ==> in_order(
                body,
                endpoint,
            ) && json_of(body, endpoint) == Some(body.skip(i)),
{
    assert(brackets(endpoint) == (open, close));
    indices_are_extreme(body, open);
    indices_are_extreme(body, close);
    assert forall|i: int|
        0 <= i < body.len() && #[trigger] body[i] == open && (forall|k: int|
            0 <= k < i ==> body[k] != open) && !body.contains(close) implies in_order(body, endpoint)
        && json_of(body, endpoint) == Some(body.skip(i)) by {
        assert(first_index(body, open) == Some(i));
        assert(last_index(body, close) is None) by {
            if last_index(body, close) is Some {
                assert(body.contains(body[last_index(body, close)->0]));
            }
        }
        assert(body.subrange(i, body.len() as int) =~= body.skip(i));
    }
    if body.contains(open) {
        let i = choose|i: int| 0 <= i < body.len() && body[i] == open;
        assert(first_index(body, open) is Some);
    }
    assert forall|i: int, j: int|
        #![trigger body[i], body[j]]
        0 <= i < body.len() && 0 <= j < body.len() && body[i] == open && body[j] == close && (forall|
            k: int,
        | 0 <= k < i ==> body[k] != open) && (forall|k: int| j < k < body.len() ==> body[k] != close)
        implies (in_order(body, endpoint) <==> i <= j + 1) && (i <= j + 1 ==> json_of(
        body,
        endpoint,
    ) == Some(body.subrange(i, j + 1))) by {
        assert(first_index(body, open) == Some(i));
        assert(last_index(body, close) == Some(j));
    }
}

/// A trade proof is read as what it is: from a transcript whose request does not
/// name the account, and whose response has an array behind its first empty line,
/// framed by what opens and closes no array, the verifier takes exactly the array.
pub proof fn trade_data_is_read(
    inspection: Inspection,
    sent: Seq<char>,
    received: Seq<char>,
    head: Seq<char>,
    before: Seq<char>,
    data: Seq<char>,
    after: Seq<char>,
)
    requires
        inspection.inspects(sent, received),
        forall|x: Seq<char>, y: Seq<char>| sent != #[trigger] (x + "/api/v3/account"@ + y),
        received == head + "\r\n\r\n"@ + (before + data + after),
        forall|x: Seq<char>, y: Seq<char>|
            #[trigger] (x + "\r\n\r\n"@ + y) == received ==> x.len() >= head.len(),
        data.len() > 0,
        data[0] == '[',
        data.last() == ']',
        !before.contains('['),
        !after.contains(']'),
    ensures
        inspection.body matches Some(body) && body.endpoint == Endpoint::Trades && body.text@
            == before + data + after && (body.data matches BodyData::Json(json) && json@ == data),
{
    endpoint_is_detected_by_its_path(sent);
    body_follows_the_first_empty_line(received, head, before + data + after);
    framed_data_is_found(before, data, after, Endpoint::Trades);
}

/// An account proof is read as what it is: from a transcript whose request names
/// the account, and whose response has an object behind its first empty line,
/// framed by what opens and closes no object, the verifier takes exactly the
/// object.
pub proof fn account_data_is_read(
    inspection: Inspection,
    sent: Seq<char>,
    received: Seq<char>,
    head: Seq<char>,
    before: Seq<char>,
    data: Seq<char>,
    after: Seq<char>,
    x: Seq<char>,
    y: Seq<char>,
)
    requires
        inspection.inspects(sent, received),
        sent == x + "/api/v3/account"@ + y,
        received == head + "\r\n\r\n"@ + (before + data + after),
        forall|u: Seq<char>, v: Seq<char>|
            #[trigger] (u + "\r\n\r\n"@ + v) == received ==> u.len() >= head.len(),
        data.len() > 0,
        data[0] == '{',
        data.last() == '}',
        !before.contains('{'),
        !after.contains('}'),
    ensures
        inspection.body matches Some(body) && body.endpoint == Endpoint::Account && body.text@
            == before + data + after && (body.data matches BodyData::Json(json) && json@ == data),
{
    endpoint_is_detected_by_its_path(sent);
    body_follows_the_first_empty_line(received, head, before + data + after);
    framed_data_is_found(before, data, after, Endpoint::Account);
}

/// The inspection keeps the texts and shows method and path of the first line
/// that was sent.
pub proof fn inspection_shows_the_request(
    inspection: Inspection,
    sent: Seq<char>,
    received: Seq<char>,
    method: Seq<char>,
    path: Seq<char>,
    query: Seq<char>,
    rest: Seq<char>,
    more: Seq<char>,
)
    requires
        inspection.inspects(sent, received),
        sent == method + " "@ + (path + query) + rest + "\r\n"@ + more,
        method.len() > 0,
        path.len() > 0,
        forall|i: int| 0 <= i < method.len() ==> !is_white_space(#[trigger] method[i]),
        forall|i: int| 0 <= i < path.len() ==> !is_white_space(#[trigger] path[i]),
        forall|i: int| 0 <= i < query.len() ==> !is_white_space(#[trigger] query[i]),
        !path.contains('?'),
        query.len() > 0 ==> query[0] == '?',
        rest.len() > 0 ==> is_white_space(rest[0]),
        !rest.contains('\n'),
    ensures
        inspection.sent_text@ == sent,
        inspection.received_text@ == received,
        inspection.request_line matches Some(line) && line@ == method + " "@ + path,
{
    reveal_strlit(" ");
    reveal_strlit("\r\n");
    let line = method + " "@ + (path + query) + rest;
    assert(sent =~= line + "\r\n"@ + more);
    assert forall|i: int| 0 <= i < line.len() implies line[i] != '\n' by {
        let m = method.len() as int;
        let t = (path + query).len() as int;
        if i < m {
            assert(line[i] == method[i]);
        } else if i == m {
            assert(line[i] == ' ');
        } else if i < m + 1 + t {
            let k = i - m - 1;
            assert(line[i] == (path + query)[k]);
            if k < path.len() {
                assert(line[i] == path[k]);
            } else {
                assert(line[i] == query[k - path.len()]);
            }
        } else {
            assert(line[i] == rest[i - m - 1 - t]);
            assert(rest.contains(rest[i - m - 1 - t]));
        }
    }
    indices_are_extreme(sent, '\n');
    let end = line.len() as int;
    assert(sent[end] == '\r' && sent[end + 1] == '\n');
    assert forall|j: int| 0 <= j < end + 1 implies sent[j] != '\n' by {
        if j < end {
            assert(sent[j] == line[j]);
        }
    }
    assert(first_index(sent, '\n') == Some(end + 1));
    assert(sent.take(end) =~= line);
    let none = Seq::<char>::empty();
    assert(is_white_space(' '));
    request_line_shows_method_and_path(none, method, " "@, path, query, rest);
    assert(none + line =~= line);
}

/// Only the exchange is accepted as server: the error of another one names it.
pub proof fn server_errors_name_the_exchange(name: String)
    ensures
        server_error_message(ServerError::NotRevealed) == "Server name not revealed"@,
        server_error_message(ServerError::Mismatch(name)) == "Server name mismatch: expected "@
            + "api.binance.com"@ + ", got "@ + name@,
{
}

/// A byte counts as blotted out exactly if it is shown as `X` or as zero.
pub proof fn each_byte_counts_once(bytes: Seq<u8>, byte: u8)
    ensures
        redacted(Seq::empty(), 0) == 0,
        byte == 'X' as u8 || byte == 0 ==> redacted(bytes.push(byte), bytes.len() + 1) == redacted(
            bytes,
            bytes.len(),
        ) + 1,
        byte != 'X' as u8 && byte != 0 ==> redacted(bytes.push(byte), bytes.len() + 1) == redacted(
            bytes,
            bytes.len(),
        ),
{
    redacted_prefix(bytes, byte, bytes.len());
    assert(bytes.push(byte)[bytes.len() as int] == byte);
}

proof fn redacted_prefix(bytes: Seq<u8>, byte: u8, n: nat)
    requires
        n <= bytes.len(),
    ensures
        redacted(bytes.push(byte), n) == redacted(bytes, n),
    decreases n,
{
    if n > 0 {
        redacted_prefix(bytes, byte, (n - 1) as nat);
    }
}

/// The redaction summary has a line for each direction in which something is
/// blotted out, with its number, and nothing at all where nothing is.
pub proof fn redactions_are_summarised(sent: nat, received: nat)
    ensures
        sent == 0 && received == 0 ==> redaction_lines(sent, received).len() == 0,
        sent > 0 || received > 0 ==> redaction_lines(sent, received)[0] == ""@ && redaction_lines(
            sent,
            received,
        )[1] == "--- Redaction Summary ---"@,
        sent > 0 ==> redaction_lines(sent, received)[2] == "Request: "@ + decimal_text(sent)
            + " bytes redacted (API key, signature)"@,
        received > 0 ==> redaction_lines(sent, received).last() == "Response: "@ + decimal_text(
            received,
        ) + " bytes redacted"@,
        redaction_lines(sent, received).len() == if sent > 0 && received > 0 {
            4nat
        } else if sent > 0 || received > 0 {
            3nat
        } else {
            0nat
        },
{
}

/// Data is missing exactly where no bracket opens, and disordered exactly where
/// brackets close but the last of them stands before the one in front of the first
/// that opens.
pub proof fn missing_and_disordered_data(
    data: BodyData,
    body: Seq<char>,
    endpoint: Endpoint,
    open: char,
    close: char,
)
    requires
        is_data_of(data, body, endpoint),
        endpoint == Endpoint::Trades ==> open == '[' && close == ']',
        endpoint == Endpoint::Account ==> open == '{' && close == '}',
    ensures
        data is Missing <==> !body.contains(open),
        data is Disordered <==> body.contains(open) && body.contains(close) && forall|i: int, j: int|
            #![trigger body[i], body[j]]
            0 <= i < body.len() && 0 <= j < body.len() && body[i] == open && body[j] == close ==> j
                + 1 < i,
        data matches BodyData::Json(json) ==> json_of(body, endpoint) == Some(json@),
{
    assert(brackets(endpoint) == (open, close));
    indices_are_extreme(body, open);
    indices_are_extreme(body, close);
    if first_index(body, open) is Some {
        assert(body.contains(body[first_index(body, open)->0]));
    }
    if last_index(body, close) is Some {
        assert(body.contains(body[last_index(body, close)->0]));
        if first_index(body, open) is Some {
            let i = first_index(body, open)->0;
            let j = last_index(body, close)->0;
            assert(body[i] == open && body[j] == close);
        }
    }
}

} // verus!
