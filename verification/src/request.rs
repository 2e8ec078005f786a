//! Requests to the exchange: what is asked, how the query is signed, and which
//! headers go with it.
use vstd::prelude::*;
use vstd::string::*;

use crate::clock::{day_end_millis, day_start_millis, parse_date, Date};
#[allow(unused_imports)]
use crate::clock::{days_are_bounded, same_iso_same_date, DAY_MILLIS};
use crate::signing::sign_request;
#[allow(unused_imports)]
use crate::signing::signature_of;
use crate::text::{decimal, same_text};
#[allow(unused_imports)]
use crate::text::{
    decimal_reads_back, decimal_text, numerals_differ, one_more_piece, one_piece, pieces,
};

verus! {

/// The host of the exchange's interface.
pub const BINANCE_HOST: &'static str = "api.binance.com";

/// The port of the exchange's interface.
pub const BINANCE_PORT: u16 = 443;

/// The largest request that a proof covers, in bytes.
pub const MAX_SENT_DATA: usize = 1024;

/// The largest response that a proof covers, in bytes.
pub const MAX_RECV_DATA: usize = 16384;

/// The user agent of requests.
pub const USER_AGENT: &'static str =
    "Mozilla/5.0 (X11; Linux x86_64) AppleWebKit/537.36 (KHTML, like Gecko) Chrome/120.0.0.0 Safari/537.36";

/// How long a signed request stays valid, in milliseconds.
pub const BINANCE_RECV_WINDOW_MS: u64 = 60_000;

/// What the prover can ask for.
#[derive(Clone, Copy, Debug, PartialEq, Eq, Structural)]
pub enum Endpoint {
    /// The trades of one symbol.
    Trades,
    /// The balances of the account.
    Account,
}

/// The path of an endpoint.
pub open spec fn endpoint_path(endpoint: Endpoint) -> Seq<char> {
    match endpoint {
        Endpoint::Trades => "/api/v3/myTrades"@,
        Endpoint::Account => "/api/v3/account"@,
    }
}

impl Endpoint {
    /// The path of the endpoint.
    pub fn path(&self) -> (path: &'static str)
        ensures
            path@ == endpoint_path(*self),
            *self == Endpoint::Trades ==> path@ == "/api/v3/myTrades"@,
            *self == Endpoint::Account ==> path@ == "/api/v3/account"@,
    {
        match self {
            Endpoint::Trades => "/api/v3/myTrades",
            Endpoint::Account => "/api/v3/account",
        }
    }

    /// The endpoint that an operator names.
    pub fn parse(name: &str) -> (endpoint: Option<Endpoint>)
        ensures
            match endpoint {
                Some(Endpoint::Trades) => name@ == "trades"@,
                Some(Endpoint::Account) => name@ == "account"@,
                None => name@ != "trades"@ && name@ != "account"@,
            },
    {
        if same_text(name, "trades") {
            Some(Endpoint::Trades)
        } else if same_text(name, "account") {
            Some(Endpoint::Account)
        } else {
            None
        }
    }
}

/// What the prover asks of the exchange.
#[derive(Debug)]
pub struct DataRequest {
    pub endpoint: Endpoint,
    /// The trading pair.
    pub symbol: String,
    /// The number of trades.
    pub limit: u32,
    /// Only trades at or after this time, in milliseconds.
    pub start_time: Option<u64>,
    /// Only trades at or before this time, in milliseconds.
    pub end_time: Option<u64>,
}

/// Why an operator's wishes make no request.
#[derive(Clone, Copy, Debug, PartialEq, Eq, Structural)]
pub enum RequestError {
    /// The endpoint is neither `trades` nor `account`.
    UnknownEndpoint,
    /// The start is no date.
    BadStart,
    /// The end is no date.
    BadEnd,
}

/// The text is a date written as `YYYY-MM-DD`.
pub open spec fn names_date(text: Seq<char>) -> bool {
    exists|d: Date| d.valid() && text == #[trigger] d.iso()
}

/// No text, or a date.
pub open spec fn good_date(text: Option<&str>) -> bool {
    match text {
        Some(t) => names_date(t@),
        None => true,
    }
}

/// The first time of the exchange at or after a point in time: none of its times
/// lies before the Unix epoch.
pub open spec fn exchange_time(millis: int) -> u64 {
    if millis < 0 {
        0
    } else {
        millis as u64
    }
}

/// The first time of the exchange at or after a point in time.
fn not_before_epoch(millis: i64) -> (time: u64)
    ensures
        time == exchange_time(millis as int),
{
    if millis < 0 {
        0
    } else {
        millis as u64
    }
}

/// `time` is the first millisecond of the date, where there is one, or the epoch
/// if that comes later.
pub open spec fn starts_day(text: Option<&str>, time: Option<u64>) -> bool {
    match text {
        Some(t) => exists|d: Date|
            d.valid() && t@ == #[trigger] d.iso() && time == Some(
                exchange_time(d.days() * DAY_MILLIS),
            ),
        None => time is None,
    }
}

/// `time` is the last millisecond of the date, where there is one.
pub open spec fn ends_day(text: Option<&str>, time: Option<u64>) -> bool {
    match text {
        Some(t) => exists|d: Date|
            d.valid() && t@ == #[trigger] d.iso() && time == Some(
                ((d.days() + 1) * DAY_MILLIS - 1) as u64,
            ),
        None => time is None,
    }
}

/// There is a date, and it lies before the Unix epoch.
pub open spec fn before_epoch(text: Option<&str>) -> bool {
    text matches Some(t) && exists|d: Date| d.valid() && t@ == #[trigger] d.iso() && d.days() < 0
}

/// The times of a request for a range of dates: from the first millisecond of
/// the first date to the last one of the last date.  A range that ends before
/// the Unix epoch holds no time of the exchange: its request starts after its
/// end.
pub open spec fn spans_days(
    start: Option<&str>,
    end: Option<&str>,
    start_time: Option<u64>,
    end_time: Option<u64>,
) -> bool {
    if before_epoch(end) {
        start_time == Some(1u64) && end_time == Some(0u64)
    } else {
        starts_day(start, start_time) && ends_day(end, end_time)
    }
}

/// The times that a request asks for.
pub open spec fn in_range(request: DataRequest, time: u64) -> bool {
    &&& request.start_time matches Some(start) ==> start <= time
    &&& request.end_time matches Some(end) ==> time <= end
}

/// A time lies on the date or later, in UTC; any time does where there is no date.
pub open spec fn on_or_after(text: Option<&str>, time: u64) -> bool {
    match text {
        Some(t) => exists|d: Date|
            d.valid() && t@ == #[trigger] d.iso() && d.days() <= time as int / DAY_MILLIS as int,
        None => true,
    }
}

/// A time lies on the date or earlier, in UTC; any time does where there is no
/// date.
pub open spec fn on_or_before(text: Option<&str>, time: u64) -> bool {
    match text {
        Some(t) => exists|d: Date|
            d.valid() && t@ == #[trigger] d.iso() && time as int / DAY_MILLIS as int <= d.days(),
        None => true,
    }
}

/// A request for a range of dates asks for exactly the trades that were made on
/// or after the start date and on or before the end date, in UTC.
pub proof fn range_is_the_days(
    request: DataRequest,
    start: Option<&str>,
    end: Option<&str>,
    time: u64,
)
    requires
        good_date(start),
        good_date(end),
        spans_days(start, end, request.start_time, request.end_time),
    ensures
        in_range(request, time) <==> on_or_after(start, time) && on_or_before(end, time),
{
    if let Some(t) = start {
        let d = choose|d: Date| d.valid() && t@ == #[trigger] d.iso();
        date_is_unique(t@, d);
    }
    if let Some(t) = end {
        let d = choose|d: Date| d.valid() && t@ == #[trigger] d.iso();
        date_is_unique(t@, d);
    }
}

/// A text names one date, which lies within eleven thousand years of the epoch.
proof fn date_is_unique(text: Seq<char>, date: Date)
    requires
        date.valid(),
        text == date.iso(),
    ensures
        forall|e: Date| e.valid() && text == #[trigger] e.iso() ==> e == date,
        -4_000_000 <= date.days() <= 4_000_000,
{
    days_are_bounded(date);
    assert forall|e: Date| e.valid() && text == #[trigger] e.iso() implies e == date by {
        same_iso_same_date(e, date);
    }
}

/// The request for an operator's wishes: trades from the first millisecond of
/// the start date to the last one of the end date, in UTC.
pub fn data_request(
    endpoint: &str,
    symbol: String,
    limit: u32,
    start: Option<&str>,
    end: Option<&str>,
) -> (request: Result<DataRequest, RequestError>)
    ensures
        match request {
            Ok(r) => {
                &&& r.endpoint == Endpoint::Trades ==> endpoint@ == "trades"@
                &&& r.endpoint == Endpoint::Account ==> endpoint@ == "account"@
                &&& r.symbol == symbol
                &&& r.limit == limit
                &&& good_date(start) && good_date(end)
                &&& spans_days(start, end, r.start_time, r.end_time)
                &&& forall|time: u64| #[trigger]
                    in_range(r, time) <==> on_or_after(start, time) && on_or_before(end, time)
            },
            Err(RequestError::UnknownEndpoint) => endpoint@ != "trades"@ && endpoint@
                != "account"@,
            Err(RequestError::BadStart) => (endpoint@ == "trades"@ || endpoint@ == "account"@)
                && !good_date(start),
            Err(RequestError::BadEnd) => (endpoint@ == "trades"@ || endpoint@ == "account"@)
                && good_date(start) && !good_date(end),
        },
{
    let endpoint = match Endpoint::parse(endpoint) {
        Some(e) => e,
        None => {
            return Err(RequestError::UnknownEndpoint);
        },
    };
    let first: Option<Date> = match start {
        Some(text) => match parse_date(text) {
            Some(date) => Some(date),
            None => {
                return Err(RequestError::BadStart);
            },
        },
        None => None,
    };
    let last: Option<Date> = match end {
        Some(text) => match parse_date(text) {
            Some(date) => Some(date),
            None => {
                return Err(RequestError::BadEnd);
            },
        },
        None => None,
    };
    let (start_time, end_time) = day_times(start, end, first, last);
    let request = DataRequest { endpoint, symbol, limit, start_time, end_time };
    proof {
        assert forall|time: u64| #[trigger]
            in_range(request, time) <==> on_or_after(start, time) && on_or_before(end, time) by {
            range_is_the_days(request, start, end, time);
        }
    }
    Ok(request)
}

/// `date` is the one that the text names, where there is a text.
spec fn names(text: Option<&str>, date: Option<Date>) -> bool {
    match (text, date) {
        (Some(t), Some(d)) => d.valid() && t@ == d.iso(),
        (None, None) => true,
        _ => false,
    }
}

/// The times of a request for the days from `first` to `last`, the dates that
/// `start` and `end` name.
fn day_times(start: Option<&str>, end: Option<&str>, first: Option<Date>, last: Option<Date>) -> (
times: (Option<u64>, Option<u64>))
    requires
        names(start, first),
        names(end, last),
    ensures
        spans_days(start, end, times.0, times.1),
{
    let start_time: Option<u64> = match first {
        Some(date) => Some(not_before_epoch(day_start_millis(&date))),
        None => None,
    };
    match last {
        Some(date) => {
            let last_milli: i64 = day_end_millis(&date);
            proof {
                date_is_unique(date.iso(), date);
            }
            if last_milli < 0 {
                (Some(1), Some(0))
            } else {
                (start_time, Some(last_milli as u64))
            }
        },
        None => (start_time, None),
    }
}

/// A parameter that is left out where it has no value.
pub open spec fn optional_parameter(name: Seq<char>, value: Option<u64>) -> Seq<char> {
    match value {
        Some(v) => name + decimal_text(v as nat),
        None => Seq::empty(),
    }
}

/// The query without its signature.
pub open spec fn unsigned_query_text(request: DataRequest, timestamp: u64) -> Seq<char> {
    match request.endpoint {
        Endpoint::Trades => "symbol="@ + request.symbol@ + "&timestamp="@ + decimal_text(
            timestamp as nat,
        ) + "&recvWindow="@ + decimal_text(BINANCE_RECV_WINDOW_MS as nat) + "&limit="@
            + decimal_text(request.limit as nat) + optional_parameter(
            "&startTime="@,
            request.start_time,
        ) + optional_parameter("&endTime="@, request.end_time),
        Endpoint::Account => "timestamp="@ + decimal_text(timestamp as nat) + "&recvWindow="@
            + decimal_text(BINANCE_RECV_WINDOW_MS as nat),
    }
}

/// The target of a request: path, query and signature.
pub open spec fn target_text(
    endpoint: Endpoint,
    query: Seq<char>,
    signature: Seq<char>,
) -> Seq<char> {
    endpoint_path(endpoint) + "?"@ + query + "&signature="@ + signature
}

fn with_optional(text: String, name: &str, value: Option<u64>) -> (out: String)
    ensures
        out@ == text@ + optional_parameter(name@, value),
{
    match value {
        Some(v) => {
            let out = text.concat(name).concat(decimal(v).as_str());
            proof {
                assert(out@ =~= text@ + (name@ + decimal_text(v as nat)));
            }
            out
        },
        None => {
            proof {
                assert(text@ + Seq::<char>::empty() =~= text@);
            }
            text
        },
    }
}

/// The query of a request at a point in time, without its signature.
pub fn unsigned_query(request: &DataRequest, timestamp: u64) -> (query: String)
    ensures
        query@ == unsigned_query_text(*request, timestamp),
{
    match request.endpoint {
        Endpoint::Trades => {
            let base = "symbol=".to_owned().concat(request.symbol.as_str()).concat(
                "&timestamp=",
            ).concat(decimal(timestamp).as_str()).concat("&recvWindow=").concat(
                decimal(BINANCE_RECV_WINDOW_MS).as_str(),
            ).concat("&limit=").concat(decimal(request.limit as u64).as_str());
            with_optional(
                with_optional(base, "&startTime=", request.start_time),
                "&endTime=",
                request.end_time,
            )
        },
        Endpoint::Account => {
            "timestamp=".to_owned().concat(decimal(timestamp).as_str()).concat(
                "&recvWindow=",
            ).concat(decimal(BINANCE_RECV_WINDOW_MS).as_str())
        },
    }
}

/// The target for a query and its signature.
pub fn signed_target(endpoint: Endpoint, query: &str, signature: &str) -> (target: String)
    ensures
        target@ == target_text(endpoint, query@, signature@),
{
    endpoint.path().to_owned().concat("?").concat(query).concat("&signature=").concat(signature)
}

/// The target of a request at a point in time, signed with the account's secret
/// key.
pub fn request_target(request: &DataRequest, timestamp: u64, secret_key: &str) -> (target: String)
    ensures
        target@ == target_text(
            request.endpoint,
            unsigned_query_text(*request, timestamp),
            signature_of(unsigned_query_text(*request, timestamp), secret_key@),
        ),
{
    let query = unsigned_query(request, timestamp);
    let signature = sign_request(query.as_str(), secret_key);
    signed_target(request.endpoint, query.as_str(), signature.as_str())
}

/// The full address of a target at the exchange.
pub fn exchange_url(target: &str) -> (url: String)
    ensures
        url@ == "https://"@ + BINANCE_HOST@ + target@,
        url@ == "https://api.binance.com"@ + target@,
{
    proof {
        reveal_strlit("https://");
        reveal_strlit("api.binance.com");
        reveal_strlit("https://api.binance.com");
        assert("https://"@ + "api.binance.com"@ =~= "https://api.binance.com"@);
    }
    "https://".to_owned().concat(BINANCE_HOST).concat(target)
}

/// The address of the exchange's clock.
pub fn server_time_url() -> (url: String)
    ensures
        url@ == "https://"@ + BINANCE_HOST@ + "/api/v3/time"@,
        url@ == "https://api.binance.com/api/v3/time"@,
{
    proof {
        reveal_strlit("/api/v3/time");
        reveal_strlit("https://api.binance.com");
        reveal_strlit("https://api.binance.com/api/v3/time");
        assert("https://api.binance.com"@ + "/api/v3/time"@
            =~= "https://api.binance.com/api/v3/time"@);
    }
    exchange_url("/api/v3/time")
}

/// A header of a request.
pub struct Header {
    pub name: String,
    pub value: String,
}

/// The names and values of headers.
pub open spec fn header_texts(headers: Seq<Header>) -> Seq<(Seq<char>, Seq<char>)> {
    headers.map_values(|h: Header| (h.name@, h.value@))
}

/// The headers of a request made with an account's API key.
pub open spec fn request_header_texts(api_key: Seq<char>) -> Seq<(Seq<char>, Seq<char>)> {
    seq![
        ("Host"@, BINANCE_HOST@),
        ("Accept"@, "application/json"@),
        ("Accept-Encoding"@, "identity"@),
        ("Connection"@, "close"@),
        ("User-Agent"@, USER_AGENT@),
        ("X-MBX-APIKEY"@, api_key),
    ]
}

/// The header that carries an account's API key.
pub open spec fn key_header_texts(api_key: Seq<char>) -> Seq<(Seq<char>, Seq<char>)> {
    seq![("X-MBX-APIKEY"@, api_key)]
}

fn header(name: &str, value: &str) -> (header: Header)
    ensures
        header.name@ == name@,
        header.value@ == value@,
{
    Header { name: name.to_owned(), value: value.to_owned() }
}

/// The headers of a request made with an account's API key.
pub fn request_headers(api_key: &str) -> (headers: Vec<Header>)
    ensures
        header_texts(headers@) == request_header_texts(api_key@),
{
    let mut headers: Vec<Header> = Vec::new();
    headers.push(header("Host", BINANCE_HOST));
    headers.push(header("Accept", "application/json"));
    headers.push(header("Accept-Encoding", "identity"));
    headers.push(header("Connection", "close"));
    headers.push(header("User-Agent", USER_AGENT));
    headers.push(header("X-MBX-APIKEY", api_key));
    proof {
        assert(header_texts(headers@) =~= request_header_texts(api_key@));
    }
    headers
}

/// The header that carries an account's API key, alone.
pub fn key_headers(api_key: &str) -> (headers: Vec<Header>)
    ensures
        header_texts(headers@) == key_header_texts(api_key@),
{
    let mut headers: Vec<Header> = Vec::new();
    headers.push(header("X-MBX-APIKEY", api_key));
    proof {
        assert(header_texts(headers@) =~= key_header_texts(api_key@));
    }
    headers
}

/// The host, the limits and the validity of requests.
pub proof fn the_exchange_is_known()
    ensures
        BINANCE_HOST@ == "api.binance.com"@,
        BINANCE_PORT == 443,
        MAX_SENT_DATA == 1024,
        MAX_RECV_DATA == 16 * 1024,
        BINANCE_RECV_WINDOW_MS == 60 * 1000,
{
}

/// An endpoint has its own path at the exchange.
pub proof fn endpoints_have_their_paths(endpoint: Endpoint)
    ensures
        endpoint == Endpoint::Trades ==> endpoint_path(endpoint) == "/api/v3/myTrades"@,
        endpoint == Endpoint::Account ==> endpoint_path(endpoint) == "/api/v3/account"@,
{
}

proof fn numeral_has_no_separator(n: nat)
    ensures
        !decimal_text(n).contains('&'),
{
    decimal_reads_back(n);
}

proof fn window_numeral()
    ensures
        decimal_text(BINANCE_RECV_WINDOW_MS as nat) == "60000"@,
{
    reveal_strlit("60000");
    reveal_with_fuel(decimal_text, 6);
    assert(decimal_text(60000) =~= "60000"@);
}

proof fn with_value_has_no_separator(name: Seq<char>, value: Seq<char>)
    requires
        !name.contains('&'),
        !value.contains('&'),
    ensures
        !(name + value).contains('&'),
{
    let whole = name + value;
    assert forall|i: int| 0 <= i < whole.len() implies whole[i] != '&' by {
        if i < name.len() {
            assert(name.contains(name[i]));
        } else {
            assert(value.contains(value[i - name.len()]));
        }
    }
}

/// One more parameter of a query is one more piece.
proof fn one_more_parameter(query: Seq<char>, mark: Seq<char>, name: Seq<char>, value: Seq<char>)
    requires
        mark == seq!['&'] + name,
        !name.contains('&'),
        !value.contains('&'),
    ensures
        pieces(query + mark + value, '&') == pieces(query, '&').push(name + value),
{
    with_value_has_no_separator(name, value);
    one_more_piece(query, '&', name + value);
    assert(query + mark + value =~= query + seq!['&'] + (name + value));
}

proof fn parameter_names()
    ensures
        "&timestamp="@ == seq!['&'] + "timestamp="@,
        "&recvWindow="@ == seq!['&'] + "recvWindow="@,
        "&limit="@ == seq!['&'] + "limit="@,
        "&startTime="@ == seq!['&'] + "startTime="@,
        "&endTime="@ == seq!['&'] + "endTime="@,
        !"symbol="@.contains('&'),
        !"timestamp="@.contains('&'),
        !"recvWindow="@.contains('&'),
        !"limit="@.contains('&'),
        !"startTime="@.contains('&'),
        !"endTime="@.contains('&'),
{
    reveal_strlit("&timestamp=");
    reveal_strlit("&recvWindow=");
    reveal_strlit("&limit=");
    reveal_strlit("&startTime=");
    reveal_strlit("&endTime=");
    reveal_strlit("symbol=");
    reveal_strlit("timestamp=");
    reveal_strlit("recvWindow=");
    reveal_strlit("limit=");
    reveal_strlit("startTime=");
    reveal_strlit("endTime=");
    assert("&timestamp="@ =~= seq!['&'] + "timestamp="@);
    assert("&recvWindow="@ =~= seq!['&'] + "recvWindow="@);
    assert("&limit="@ =~= seq!['&'] + "limit="@);
    assert("&startTime="@ =~= seq!['&'] + "startTime="@);
    assert("&endTime="@ =~= seq!['&'] + "endTime="@);
}

/// Reading a trade query back gives the request: its parameters, in order, are
/// the symbol, the time, the validity, the limit, and the start and the end where
/// they are set, and there are no others.
pub proof fn trade_query_reads_back(request: DataRequest, timestamp: u64)
    requires
        request.endpoint == Endpoint::Trades,
        !request.symbol@.contains('&'),
    ensures
        pieces(unsigned_query_text(request, timestamp), '&') == seq![
            "symbol="@ + request.symbol@,
            "timestamp="@ + decimal_text(timestamp as nat),
            "recvWindow=60000"@,
            "limit="@ + decimal_text(request.limit as nat),
        ] + (if request.start_time is Some {
            seq!["startTime="@ + decimal_text(request.start_time->0 as nat)]
        } else {
            Seq::empty()
        }) + (if request.end_time is Some {
            seq!["endTime="@ + decimal_text(request.end_time->0 as nat)]
        } else {
            Seq::empty()
        }),
{
    parameter_names();
    window_numeral();
    reveal_strlit("recvWindow=60000");
    reveal_strlit("recvWindow=");
    reveal_strlit("60000");
    assert("recvWindow="@ + "60000"@ =~= "recvWindow=60000"@);
    let time = decimal_text(timestamp as nat);
    let window = decimal_text(BINANCE_RECV_WINDOW_MS as nat);
    let limit = decimal_text(request.limit as nat);
    numeral_has_no_separator(timestamp as nat);
    numeral_has_no_separator(BINANCE_RECV_WINDOW_MS as nat);
    numeral_has_no_separator(request.limit as nat);
    with_value_has_no_separator("symbol="@, request.symbol@);
    let q0 = "symbol="@ + request.symbol@;
    one_piece(q0, '&');
    let q1 = q0 + "&timestamp="@ + time;
    one_more_parameter(q0, "&timestamp="@, "timestamp="@, time);
    let q2 = q1 + "&recvWindow="@ + window;
    one_more_parameter(q1, "&recvWindow="@, "recvWindow="@, window);
    let q3 = q2 + "&limit="@ + limit;
    one_more_parameter(q2, "&limit="@, "limit="@, limit);
    assert(pieces(q3, '&') =~= seq![
        "symbol="@ + request.symbol@,
        "timestamp="@ + time,
        "recvWindow=60000"@,
        "limit="@ + limit,
    ]);
    let q4 = q3 + optional_parameter("&startTime="@, request.start_time);
    match request.start_time {
        Some(start) => {
            numeral_has_no_separator(start as nat);
            one_more_parameter(q3, "&startTime="@, "startTime="@, decimal_text(start as nat));
            assert(q4 =~= q3 + "&startTime="@ + decimal_text(start as nat));
        },
        None => {
            assert(q4 =~= q3);
        },
    }
    let q5 = q4 + optional_parameter("&endTime="@, request.end_time);
    match request.end_time {
        Some(end) => {
            numeral_has_no_separator(end as nat);
            one_more_parameter(q4, "&endTime="@, "endTime="@, decimal_text(end as nat));
            assert(q5 =~= q4 + "&endTime="@ + decimal_text(end as nat));
        },
        None => {
            assert(q5 =~= q4);
        },
    }
    assert(q5 == unsigned_query_text(request, timestamp));
    assert(pieces(q5, '&') =~= seq![
        "symbol="@ + request.symbol@,
        "timestamp="@ + time,
        "recvWindow=60000"@,
        "limit="@ + limit,
    ] + (if request.start_time is Some {
        seq!["startTime="@ + decimal_text(request.start_time->0 as nat)]
    } else {
        Seq::empty()
    }) + (if request.end_time is Some {
        seq!["endTime="@ + decimal_text(request.end_time->0 as nat)]
    } else {
        Seq::empty()
    }));
}

/// The query starts with the symbol, whatever its characters, and goes on in the
/// same way for every symbol.
pub proof fn trade_query_starts_with_the_symbol(
    request: DataRequest,
    other: DataRequest,
    timestamp: u64,
)
    requires
        request.endpoint == Endpoint::Trades,
        other.endpoint == Endpoint::Trades,
        other.limit == request.limit,
        other.start_time == request.start_time,
        other.end_time == request.end_time,
    ensures
        unsigned_query_text(request, timestamp).take(7int + request.symbol@.len()) == "symbol="@
            + request.symbol@,
        unsigned_query_text(request, timestamp).skip(7int + request.symbol@.len())
            == unsigned_query_text(other, timestamp).skip(7int + other.symbol@.len()),
{
    reveal_strlit("symbol=");
    let rest = "&timestamp="@ + decimal_text(timestamp as nat) + "&recvWindow="@ + decimal_text(
        BINANCE_RECV_WINDOW_MS as nat,
    ) + "&limit="@ + decimal_text(request.limit as nat) + optional_parameter(
        "&startTime="@,
        request.start_time,
    ) + optional_parameter("&endTime="@, request.end_time);
    assert(unsigned_query_text(request, timestamp) =~= "symbol="@ + request.symbol@ + rest);
    assert(unsigned_query_text(other, timestamp) =~= "symbol="@ + other.symbol@ + rest);
    assert(unsigned_query_text(request, timestamp).take(7int + request.symbol@.len()) =~= "symbol="@
        + request.symbol@);
    assert(unsigned_query_text(request, timestamp).skip(7int + request.symbol@.len()) =~= rest);
    assert(unsigned_query_text(other, timestamp).skip(7int + other.symbol@.len()) =~= rest);
}

/// Different wishes make different queries: two trade requests with the same query
/// at some times are for the same symbol, limit, range and time.
pub proof fn trade_queries_differ(a: DataRequest, b: DataRequest, s: u64, t: u64)
    requires
        a.endpoint == Endpoint::Trades,
        b.endpoint == Endpoint::Trades,
        !a.symbol@.contains('&'),
        !b.symbol@.contains('&'),
        unsigned_query_text(a, s) == unsigned_query_text(b, t),
    ensures
        a.symbol@ == b.symbol@,
        a.limit == b.limit,
        a.start_time == b.start_time,
        a.end_time == b.end_time,
        s == t,
{
    trade_query_reads_back(a, s);
    trade_query_reads_back(b, t);
    let p = pieces(unsigned_query_text(a, s), '&');
    assert(p[0] == "symbol="@ + a.symbol@ && p[0] == "symbol="@ + b.symbol@);
    same_rest("symbol="@, a.symbol@, b.symbol@);
    assert(p[1] == "timestamp="@ + decimal_text(s as nat) && p[1] == "timestamp="@ + decimal_text(
        t as nat,
    ));
    same_rest("timestamp="@, decimal_text(s as nat), decimal_text(t as nat));
    numerals_differ(s as nat, t as nat);
    assert(p[3] == "limit="@ + decimal_text(a.limit as nat) && p[3] == "limit="@ + decimal_text(
        b.limit as nat,
    ));
    same_rest("limit="@, decimal_text(a.limit as nat), decimal_text(b.limit as nat));
    numerals_differ(a.limit as nat, b.limit as nat);
    reveal_strlit("startTime=");
    reveal_strlit("endTime=");
    if a.start_time is Some && b.start_time is Some {
        let x = a.start_time->0 as nat;
        let y = b.start_time->0 as nat;
        assert(p[4] == "startTime="@ + decimal_text(x) && p[4] == "startTime="@ + decimal_text(y));
        same_rest("startTime="@, decimal_text(x), decimal_text(y));
        numerals_differ(x, y);
    } else if a.start_time is Some {
        assert(p[4] == "startTime="@ + decimal_text(a.start_time->0 as nat));
        assert(p[4][0] == 's');
        assert(p.len() > 4);
        assert(p[4] == "endTime="@ + decimal_text(b.end_time->0 as nat));
        assert(p[4][0] == 'e');
    } else if b.start_time is Some {
        assert(p[4] == "startTime="@ + decimal_text(b.start_time->0 as nat));
        assert(p[4][0] == 's');
        assert(p[4] == "endTime="@ + decimal_text(a.end_time->0 as nat));
        assert(p[4][0] == 'e');
    }
    if a.end_time is Some && b.end_time is Some {
        let x = a.end_time->0 as nat;
        let y = b.end_time->0 as nat;
        assert(p.last() == "endTime="@ + decimal_text(x) && p.last() == "endTime="@ + decimal_text(
            y,
        ));
        same_rest("endTime="@, decimal_text(x), decimal_text(y));
        numerals_differ(x, y);
    }
}

proof fn same_rest(name: Seq<char>, a: Seq<char>, b: Seq<char>)
    requires
        name + a == name + b,
    ensures
        a == b,
{
    assert((name + a).skip(name.len() as int) =~= a);
    assert((name + b).skip(name.len() as int) =~= b);
}

/// Reading an account query back gives the time and the validity and nothing
/// else; no symbol, limit or range goes into it.
pub proof fn account_query_reads_back(request: DataRequest, timestamp: u64)
    requires
        request.endpoint == Endpoint::Account,
    ensures
        pieces(unsigned_query_text(request, timestamp), '&') == seq![
            "timestamp="@ + decimal_text(timestamp as nat),
            "recvWindow=60000"@,
        ],
{
    parameter_names();
    window_numeral();
    reveal_strlit("recvWindow=60000");
    reveal_strlit("recvWindow=");
    reveal_strlit("60000");
    assert("recvWindow="@ + "60000"@ =~= "recvWindow=60000"@);
    numeral_has_no_separator(timestamp as nat);
    numeral_has_no_separator(BINANCE_RECV_WINDOW_MS as nat);
    let time = decimal_text(timestamp as nat);
    let q0 = "timestamp="@ + time;
    with_value_has_no_separator("timestamp="@, time);
    one_piece(q0, '&');
    one_more_parameter(
        q0,
        "&recvWindow="@,
        "recvWindow="@,
        decimal_text(BINANCE_RECV_WINDOW_MS as nat),
    );
    assert(pieces(unsigned_query_text(request, timestamp), '&') =~= seq![
        "timestamp="@ + time,
        "recvWindow=60000"@,
    ]);
}

/// A target is the path of its endpoint, the query behind a question mark, and
/// the signature as the last parameter.
pub proof fn target_reads_back(endpoint: Endpoint, query: Seq<char>, signature: Seq<char>)
    requires
        !signature.contains('&'),
    ensures
        endpoint == Endpoint::Trades ==> target_text(endpoint, query, signature).take(17)
            == "/api/v3/myTrades?"@,
        endpoint == Endpoint::Account ==> target_text(endpoint, query, signature).take(16)
            == "/api/v3/account?"@,
        ({
            let asked = target_text(endpoint, query, signature).skip(
                if endpoint == Endpoint::Trades {
                    17
                } else {
                    16
                },
            );
            &&& asked.take(query.len() as int) == query
            &&& pieces(asked, '&') == pieces(query, '&').push("signature="@ + signature)
        }),
{
    reveal_strlit("/api/v3/myTrades?");
    reveal_strlit("/api/v3/account?");
    reveal_strlit("/api/v3/myTrades");
    reveal_strlit("/api/v3/account");
    reveal_strlit("?");
    reveal_strlit("&signature=");
    reveal_strlit("signature=");
    let target = target_text(endpoint, query, signature);
    let asked = query + "&signature="@ + signature;
    match endpoint {
        Endpoint::Trades => {
            assert(target.take(17) =~= "/api/v3/myTrades?"@);
            assert(target.skip(17) =~= asked);
        },
        Endpoint::Account => {
            assert(target.take(16) =~= "/api/v3/account?"@);
            assert(target.skip(16) =~= asked);
        },
    }
    assert(asked.take(query.len() as int) =~= query);
    assert("&signature="@ =~= seq!['&'] + "signature="@);
    one_more_parameter(query, "&signature="@, "signature="@, signature);
}

/// A full request tells the exchange its host, asks for plain JSON on a
/// connection of its own, and carries the API key.
pub proof fn headers_read_back(api_key: Seq<char>)
    ensures
        request_header_texts(api_key).len() == 6,
        request_header_texts(api_key)[0] == ("Host"@, "api.binance.com"@),
        request_header_texts(api_key)[1] == ("Accept"@, "application/json"@),
        request_header_texts(api_key)[2] == ("Accept-Encoding"@, "identity"@),
        request_header_texts(api_key)[3] == ("Connection"@, "close"@),
        request_header_texts(api_key)[4] == (
            "User-Agent"@,
            "Mozilla/5.0 (X11; Linux x86_64) AppleWebKit/537.36 (KHTML, like Gecko) Chrome/120.0.0.0 Safari/537.36"@,
        ),
        request_header_texts(api_key)[5] == ("X-MBX-APIKEY"@, api_key),
        key_header_texts(api_key).len() == 1,
        key_header_texts(api_key)[0] == ("X-MBX-APIKEY"@, api_key),
{
}

/// A request for a range of dates asks for the milliseconds from the start of the
/// first day to the end of the last one, both in UTC; a missing date leaves its
/// side open.
pub proof fn range_in_milliseconds(
    start: Option<&str>,
    end: Option<&str>,
    first: Date,
    last: Date,
    start_time: Option<u64>,
    end_time: Option<u64>,
    time: u64,
)
    requires
        start is Some ==> first.valid() && start->0@ == first.iso(),
        end is Some ==> last.valid() && end->0@ == last.iso(),
        spans_days(start, end, start_time, end_time),
    ensures
        (start_time is None || start_time->0 <= time) && (end_time is None || time <= end_time->0)
            <==> (start is None || first.days() * 86_400_000 <= time) && (end is None || time < (
        last.days() + 1) * 86_400_000),
{
    if let Some(t) = start {
        date_is_unique(t@, first);
    }
    if let Some(t) = end {
        date_is_unique(t@, last);
    }
}

/// A wish for a date is met for every date of the calendar, and for nothing else;
/// without a wish there is nothing to refuse.
pub proof fn every_date_is_accepted(text: Option<&str>)
    ensures
        text is None ==> good_date(text),
        text matches Some(t) ==> (good_date(text) <==> exists|d: Date|
            d.valid() && t@ == #[trigger] d.iso()),
{
}

/// The texts of headers are their names and values, one for one.
pub proof fn header_texts_are_those_of_the_headers(headers: Seq<Header>)
    ensures
        header_texts(headers).len() == headers.len(),
        forall|i: int|
            0 <= i < headers.len() ==> #[trigger] header_texts(headers)[i] == (
                headers[i].name@,
                headers[i].value@,
            ),
{
}

} // verus!
