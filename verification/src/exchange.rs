//! The prover's exchange with Binance: clock, request, reply.
//!
//! The programs fetch and send; `ProverSession` says what to send and what the
//! reply means.
use vstd::prelude::*;
use vstd::string::*;

use crate::report::Report;
use crate::request::{
    key_headers, request_headers, request_target, DataRequest, Endpoint, Header,
};
#[allow(unused_imports)]
use crate::request::{
    header_texts, key_header_texts, request_header_texts, target_reads_back, target_text,
    unsigned_query_text,
};
#[allow(unused_imports)]
use crate::hexadecimal::hex_text;
#[allow(unused_imports)]
use crate::report::texts;
#[allow(unused_imports)]
use crate::signing::{hmac_sha256, signature_decodes_to_the_code, signature_of};
use crate::text::{decimal, lossy_text, same_text};
#[allow(unused_imports)]
use crate::text::{decimal_text, pieces, utf8_lossy};
#[allow(unused_imports)]
use vstd::utf8::encode_utf8;

verus! {

/// The reason phrase that goes with a status code.
pub uninterp spec fn reason_phrase(status: u16) -> Seq<char>;

/// How a status is shown: the code and its reason phrase.
pub open spec fn status_line(status: u16) -> Seq<char> {
    decimal_text(status as nat) + " "@ + reason_phrase(status)
}

/// Wraps `hyper::StatusCode::from_u16`, which takes the codes of three digits,
/// and its `Display`: the code in decimal, a space and a phrase that is a
/// function of the code.
#[verifier::external_body]
fn status_text(status: u16) -> (text: String)
    requires
        100 <= status <= 999,
    ensures
        text@ == decimal_text(status as nat) + " "@ + reason_phrase(status),
{
    hyper::StatusCode::from_u16(status).unwrap().to_string()
}

/// Whether a status reports success.
pub fn is_success(status: u16) -> (success: bool)
    ensures
        success == (200 <= status <= 299),
{
    200 <= status && status <= 299
}

/// The message for a clock answer without success.
pub open spec fn clock_refusal_text(status: Seq<char>, body: Option<&str>) -> Seq<char> {
    "Failed to fetch Binance server time: "@ + status + " - "@ + match body {
        Some(b) => b@,
        None => "<unavailable>"@,
    }
}

/// The error for a clock answer whose status is shown as `status`; the body may
/// be unreadable.
pub fn clock_refusal(status: &str, body: Option<&str>) -> (message: String)
    ensures
        message@ == clock_refusal_text(status@, body),
{
    "Failed to fetch Binance server time: ".to_owned().concat(status).concat(" - ").concat(
        match body {
            Some(b) => b,
            None => "<unavailable>",
        },
    )
}

/// The error for a clock answer without success; the body may be unreadable.
pub fn server_time_error(status: u16, body: Option<&str>) -> (message: String)
    requires
        100 <= status <= 999,
    ensures
        message@ == clock_refusal_text(status_line(status), body),
{
    clock_refusal(status_text(status).as_str(), body)
}

/// What a clock answer means: the time read from a successful one, or why there
/// is none; the body may be unreadable.
pub fn judge_server_time(
    status: u16,
    body: Option<&str>,
    parsed: Result<u64, String>,
) -> (time: Result<u64, String>)
    requires
        100 <= status <= 999,
    ensures
        200 <= status <= 299 ==> time == parsed,
        !(200 <= status <= 299) ==> (time matches Err(message) && message@ == clock_refusal_text(
            status_line(status),
            body,
        )),
{
    if is_success(status) {
        parsed
    } else {
        Err(server_time_error(status, body))
    }
}

/// The fields of a trade that the summary reads, where they have the right type.
pub struct RawTrade {
    pub quote_qty: Option<String>,
    pub is_buyer: Option<bool>,
}

/// The fields of a trade as plain values.
pub open spec fn raw_fields(trade: RawTrade) -> (Option<Seq<char>>, Option<bool>) {
    (
        match trade.quote_qty {
            Some(q) => Some(q@),
            None => None,
        },
        trade.is_buyer,
    )
}

/// What `serde_json` reads from a text: for each element of a JSON array the
/// string under one key and the boolean under another, or why the text is no
/// JSON array.
pub uninterp spec fn json_trades(
    text: Seq<char>,
    quantity_key: Seq<char>,
    side_key: Seq<char>,
) -> Result<Seq<(Option<Seq<char>>, Option<bool>)>, Seq<char>>;

/// Wraps `serde_json::from_str` into an array of values, `Value::as_str` of the
/// member under `quantity_key` and `Value::as_bool` of the member under
/// `side_key`: the fields and the error text are functions of the text and the
/// keys.
#[verifier::external_body]
fn parse_trades(text: &str, quantity_key: &str, side_key: &str) -> (trades: Result<
    Vec<RawTrade>,
    String,
>)
    ensures
        match trades {
            Ok(t) => json_trades(text@, quantity_key@, side_key@) == Ok::<
                Seq<(Option<Seq<char>>, Option<bool>)>,
                Seq<char>,
            >(t@.map_values(|r: RawTrade| raw_fields(r))),
            Err(e) => json_trades(text@, quantity_key@, side_key@) == Err::<
                Seq<(Option<Seq<char>>, Option<bool>)>,
                Seq<char>,
            >(e@),
        },
{
    let values: Vec<serde_json::Value> = serde_json::from_str(text).map_err(|e| e.to_string())?;
    let trades = values.iter().map(
        |v| RawTrade {
            quote_qty: v[quantity_key].as_str().map(|q| q.to_owned()),
            is_buyer: v[side_key].as_bool(),
        },
    );
    Ok(trades.collect())
}

/// The quantities of the trades on one side among the first `n`, in order: a
/// trade without side is a sell, one without quantity counts as "0".
pub open spec fn side_quantities(
    trades: Seq<(Option<Seq<char>>, Option<bool>)>,
    n: nat,
    buyer: bool,
) -> Seq<Seq<char>>
    decreases n,
{
    if n == 0 {
        Seq::empty()
    } else {
        let before = side_quantities(trades, (n - 1) as nat, buyer);
        let side = match trades[n - 1].1 {
            Some(b) => b,
            None => false,
        };
        let quantity = match trades[n - 1].0 {
            Some(q) => q,
            None => "0"@,
        };
        if side == buyer {
            before.push(quantity)
        } else {
            before
        }
    }
}

/// The trades of a reply, by side.
pub struct TradeTally {
    /// The number of trades.
    pub count: usize,
    /// The quote quantities of the buys, in order.
    pub bought: Vec<String>,
    /// The quote quantities of the sells, in order.
    pub sold: Vec<String>,
}

impl TradeTally {
    /// The tally is that of `trades`.
    pub open spec fn tallies(&self, trades: Seq<(Option<Seq<char>>, Option<bool>)>) -> bool {
        &&& self.count == trades.len()
        &&& crate::report::texts(self.bought@) == side_quantities(trades, trades.len(), true)
        &&& crate::report::texts(self.sold@) == side_quantities(trades, trades.len(), false)
    }
}

/// Splits the trades of a reply by side.
pub fn tally_trades(trades: &[RawTrade]) -> (tally: TradeTally)
    ensures
        tally.tallies(trades@.map_values(|r: RawTrade| raw_fields(r))),
{
    let ghost fields = trades@.map_values(|r: RawTrade| raw_fields(r));
    let mut bought: Vec<String> = Vec::new();
    let mut sold: Vec<String> = Vec::new();
    let mut i: usize = 0;
    while i < trades.len()
        invariant
            i <= trades@.len(),
            fields == trades@.map_values(|r: RawTrade| raw_fields(r)),
            crate::report::texts(bought@) =~= side_quantities(fields, i as nat, true),
            crate::report::texts(sold@) =~= side_quantities(fields, i as nat, false),
        decreases trades@.len() - i,
    {
        let quantity: String = match &trades[i].quote_qty {
            Some(q) => q.clone(),
            None => "0".to_owned(),
        };
        let buyer: bool = match trades[i].is_buyer {
            Some(b) => b,
            None => false,
        };
        proof {
            assert(fields[i as int] == raw_fields(trades@[i as int]));
            assert(crate::report::texts(bought@.push(quantity)) =~= crate::report::texts(
                bought@,
            ).push(quantity@));
            assert(crate::report::texts(sold@.push(quantity)) =~= crate::report::texts(sold@).push(
                quantity@,
            ));
        }
        if buyer {
            bought.push(quantity);
        } else {
            sold.push(quantity);
        }
        i = i + 1;
    }
    TradeTally { count: trades.len(), bought, sold }
}

/// Every trade of a reply is counted on one side.
pub proof fn tally_covers_all_trades(
    tally: TradeTally,
    trades: Seq<(Option<Seq<char>>, Option<bool>)>,
)
    requires
        tally.tallies(trades),
    ensures
        tally.bought@.len() + tally.sold@.len() == tally.count,
{
    sides_cover(trades, trades.len());
}

proof fn sides_cover(trades: Seq<(Option<Seq<char>>, Option<bool>)>, n: nat)
    ensures
        side_quantities(trades, n, true).len() + side_quantities(trades, n, false).len() == n,
    decreases n,
{
    if n > 0 {
        sides_cover(trades, (n - 1) as nat);
    }
}

/// What the prover was started for.
#[derive(Clone, Copy, Debug, PartialEq, Eq, Structural)]
pub enum Mode {
    /// Try the credentials, without a proof.
    Test,
    /// Make a proof.
    Notarize,
}

/// The statuses with which a reply is read: any success when trying the
/// credentials, and only 200 for a proof.
pub open spec fn accepts_status(mode: Mode, status: u16) -> bool {
    match mode {
        Mode::Test => 200 <= status <= 299,
        Mode::Notarize => status == 200,
    }
}

/// What a reply of the exchange means.
pub enum ReplyOutcome {
    /// The exchange refused; the message says how.
    Refused(String),
    /// The credentials work, but the reply is no trade list.
    Unreadable(String),
    /// The reply is good; the tally is there if it is a trade list.
    Accepted(Option<TradeTally>),
}

/// The message for a refused request.
pub open spec fn refusal_text(status: Seq<char>, body: Seq<char>) -> Seq<char> {
    "Binance API error: "@ + status + " - "@ + body
}

/// The message for a request that was refused with a status shown as `status`.
pub fn refusal(status: &str, body: &str) -> (message: String)
    ensures
        message@ == refusal_text(status@, body@),
{
    "Binance API error: ".to_owned().concat(status).concat(" - ").concat(body)
}

/// `outcome` is what an accepted reply with these trades, or this parse error,
/// means.
pub open spec fn outcome_of_trades(
    mode: Mode,
    parsed: Result<Seq<(Option<Seq<char>>, Option<bool>)>, Seq<char>>,
    outcome: ReplyOutcome,
) -> bool {
    match parsed {
        Ok(trades) => outcome matches ReplyOutcome::Accepted(Some(tally)) && tally.tallies(trades),
        Err(e) => match mode {
            Mode::Test => outcome matches ReplyOutcome::Unreadable(message) && message@ == e,
            Mode::Notarize => outcome matches ReplyOutcome::Accepted(None),
        },
    }
}

/// The plain form of parsed trades.
pub open spec fn parsed_fields(parsed: Result<Vec<RawTrade>, String>) -> Result<
    Seq<(Option<Seq<char>>, Option<bool>)>,
    Seq<char>,
> {
    match parsed {
        Ok(trades) => Ok(trades@.map_values(|r: RawTrade| raw_fields(r))),
        Err(e) => Err(e@),
    }
}

/// What an accepted reply means, given what was parsed from it.
pub fn judge_trades(mode: Mode, parsed: Result<Vec<RawTrade>, String>) -> (outcome: ReplyOutcome)
    ensures
        outcome_of_trades(mode, parsed_fields(parsed), outcome),
{
    match parsed {
        Ok(trades) => ReplyOutcome::Accepted(Some(tally_trades(trades.as_slice()))),
        Err(e) => match mode {
            Mode::Test => ReplyOutcome::Unreadable(e),
            Mode::Notarize => ReplyOutcome::Accepted(None),
        },
    }
}

/// `outcome` is what a reply means.
pub open spec fn outcome_of_reply(
    mode: Mode,
    status: u16,
    body: Seq<char>,
    outcome: ReplyOutcome,
) -> bool {
    if accepts_status(mode, status) {
        outcome_of_trades(mode, json_trades(body, "quoteQty"@, "isBuyer"@), outcome)
    } else {
        outcome matches ReplyOutcome::Refused(message) && message@ == refusal_text(
            status_line(status),
            body,
        )
    }
}

/// What a reply of the exchange means.
pub fn read_reply(mode: Mode, status: u16, body: &str) -> (outcome: ReplyOutcome)
    requires
        100 <= status <= 999,
    ensures
        outcome_of_reply(mode, status, body@, outcome),
{
    let accepted: bool = match mode {
        Mode::Test => is_success(status),
        Mode::Notarize => status == 200,
    };
    if accepted {
        judge_trades(mode, parse_trades(body, "quoteQty", "isBuyer"))
    } else {
        ReplyOutcome::Refused(refusal(status_text(status).as_str(), body))
    }
}

/// Where a session with the exchange stands.
#[derive(Clone, Copy, Debug, PartialEq, Eq, Structural)]
pub enum Phase {
    /// The time of the request is not known yet.
    AwaitingTime,
    /// The request is out.
    AwaitingReply,
    /// The reply was good.
    Accepted,
    /// The exchange refused, or the reply was unreadable.
    Failed,
}

/// The body of a reply, as it came.
pub enum ReplyBody {
    Bytes(Vec<u8>),
    Text(String),
}

/// The text of a body; bytes that are no UTF-8 are replaced.
pub open spec fn body_text(body: ReplyBody) -> Seq<char> {
    match body {
        ReplyBody::Bytes(bytes) => utf8_lossy(bytes@),
        ReplyBody::Text(text) => text@,
    }
}

/// What happens to a session.
pub enum ProverEvent {
    /// The time of the request is known.
    Time(u64),
    /// The exchange replied.
    Reply { status: u16, body: ReplyBody },
}

/// What a session asks of the program.
pub enum ProverAction {
    /// Send this request.
    Send { target: String, headers: Vec<Header> },
    /// Go on with the reply.
    Conclude(Option<TradeTally>),
    /// Stop with this message.
    Stop(String),
    /// Nothing: the event does not belong to the phase.
    Ignore,
}

/// What a session is for.
pub struct ProverJob {
    pub mode: Mode,
    pub request: DataRequest,
    pub api_key: String,
    pub secret_key: String,
}

/// A session of the prover with the exchange.
pub struct ProverSession {
    job: ProverJob,
    phase: Phase,
}

/// The action is what an outcome asks for.
pub open spec fn action_for(outcome: ReplyOutcome, action: ProverAction) -> bool {
    match outcome {
        ReplyOutcome::Accepted(tally) => action == ProverAction::Conclude(tally),
        ReplyOutcome::Refused(message) => action == ProverAction::Stop(message),
        ReplyOutcome::Unreadable(message) => action == ProverAction::Stop(message),
    }
}

impl ProverJob {
    /// What the session asks for: trying the credentials is always done on trades.
    pub open spec fn asked(&self) -> DataRequest {
        match self.mode {
            Mode::Test => DataRequest { endpoint: Endpoint::Trades, ..self.request },
            Mode::Notarize => self.request,
        }
    }

    /// The headers that the session sends: the key alone to try the credentials,
    /// and those of a full request for a proof.
    pub open spec fn sent_headers(&self) -> Seq<(Seq<char>, Seq<char>)> {
        match self.mode {
            Mode::Test => key_header_texts(self.api_key@),
            Mode::Notarize => request_header_texts(self.api_key@),
        }
    }

    /// The request that the session sends at a point in time.
    pub open spec fn sends(&self, timestamp: u64, action: ProverAction) -> bool {
        let query = unsigned_query_text(self.asked(), timestamp);
        action matches ProverAction::Send { target, headers } && target@ == target_text(
            self.asked().endpoint,
            query,
            signature_of(query, self.secret_key@),
        ) && header_texts(headers@) == self.sent_headers()
    }

    /// The request of the session, made for trades.
    fn trades_request(&self) -> (request: DataRequest)
        ensures
            request.endpoint == Endpoint::Trades,
            request.symbol@ == self.request.symbol@,
            request.limit == self.request.limit,
            request.start_time == self.request.start_time,
            request.end_time == self.request.end_time,
    {
        DataRequest {
            endpoint: Endpoint::Trades,
            symbol: self.request.symbol.clone(),
            limit: self.request.limit,
            start_time: self.request.start_time,
            end_time: self.request.end_time,
        }
    }
}

impl ProverSession {
    /// A session at its start.
    pub fn new(mode: Mode, request: DataRequest, api_key: String, secret_key: String) -> (session:
        ProverSession)
        ensures
            session.job() == (ProverJob { mode, request, api_key, secret_key }),
            session.stage() == Phase::AwaitingTime,
    {
        ProverSession {
            job: ProverJob { mode, request, api_key, secret_key },
            phase: Phase::AwaitingTime,
        }
    }

    /// Where the session stands.
    pub closed spec fn stage(&self) -> Phase {
        self.phase
    }

    /// Where the session stands.
    pub fn phase(&self) -> (phase: Phase)
        ensures
            phase == self.stage(),
    {
        self.phase
    }

    /// What the session is for.
    pub closed spec fn job(&self) -> ProverJob {
        self.job
    }

    /// The effect of an event on a session.
    pub open spec fn steps_to(
        &self,
        event: ProverEvent,
        after: ProverSession,
        action: ProverAction,
    ) -> bool {
        &&& after.job() == self.job()
        &&& match (self.stage(), event) {
            (Phase::AwaitingTime, ProverEvent::Time(timestamp)) => {
                &&& after.stage() == Phase::AwaitingReply
                &&& self.job().sends(timestamp, action)
            },
            (Phase::AwaitingReply, ProverEvent::Reply { status, body }) => {
                exists|outcome: ReplyOutcome|
                    {
                        &&& #[trigger] outcome_of_reply(
                            self.job().mode,
                            status,
                            body_text(body),
                            outcome,
                        )
                        &&& action_for(outcome, action)
                        &&& after.stage() == if outcome is Accepted {
                            Phase::Accepted
                        } else {
                            Phase::Failed
                        }
                    }
            },
            _ => after.stage() == self.stage() && action == ProverAction::Ignore,
        }
    }

    /// Takes an event and says what to do about it.
    pub fn step(&mut self, event: ProverEvent) -> (action: ProverAction)
        requires
            event matches ProverEvent::Reply { status, .. } ==> 100 <= status <= 999,
        ensures
            old(self).steps_to(event, *final(self), action),
    {
        match (self.phase, event) {
            (Phase::AwaitingTime, ProverEvent::Time(timestamp)) => {
                let secret = self.job.secret_key.as_str();
                let target = match self.job.mode {
                    Mode::Test => request_target(&self.job.trades_request(), timestamp, secret),
                    Mode::Notarize => request_target(&self.job.request, timestamp, secret),
                };
                let headers = match self.job.mode {
                    Mode::Test => key_headers(self.job.api_key.as_str()),
                    Mode::Notarize => request_headers(self.job.api_key.as_str()),
                };
                self.phase = Phase::AwaitingReply;
                ProverAction::Send { target, headers }
            },
            (Phase::AwaitingReply, ProverEvent::Reply { status, body }) => {
                let ghost received = body_text(body);
                let text = match body {
                    ReplyBody::Bytes(bytes) => lossy_text(bytes.as_slice()),
                    ReplyBody::Text(text) => text,
                };
                let outcome = read_reply(self.job.mode, status, text.as_str());
                let ghost judged = outcome;
                let action = match outcome {
                    ReplyOutcome::Accepted(tally) => {
                        self.phase = Phase::Accepted;
                        ProverAction::Conclude(tally)
                    },
                    ReplyOutcome::Refused(message) => {
                        self.phase = Phase::Failed;
                        ProverAction::Stop(message)
                    },
                    ReplyOutcome::Unreadable(message) => {
                        self.phase = Phase::Failed;
                        ProverAction::Stop(message)
                    },
                };
                proof {
                    assert(outcome_of_reply(self.job.mode, status, received, judged));
                    assert(action_for(judged, action));
                }
                action
            },
            _ => ProverAction::Ignore,
        }
    }
}

/// A session makes one request: it sends only while it waits for the time, it
/// then waits for the reply, and it never waits for the time again.
pub proof fn session_sends_once(
    session: ProverSession,
    event: ProverEvent,
    after: ProverSession,
    action: ProverAction,
)
    requires
        session.steps_to(event, after, action),
    ensures
        action is Send ==> session.stage() == Phase::AwaitingTime && after.stage()
            == Phase::AwaitingReply,
        after.stage() == Phase::AwaitingTime ==> session.stage() == Phase::AwaitingTime && action is Ignore,
        after.stage() == Phase::AwaitingReply ==> action is Send || action is Ignore,
{
}

/// A session that has ended takes no further event into account.
pub proof fn ended_session_stays(
    session: ProverSession,
    event: ProverEvent,
    after: ProverSession,
    action: ProverAction,
)
    requires
        session.steps_to(event, after, action),
        session.stage() == Phase::Accepted || session.stage() == Phase::Failed,
    ensures
        after == session,
        action is Ignore,
{
}

/// A session succeeds only on a reply with a status that its mode accepts, and a
/// proof is always made of such a reply; every other reply stops it with a
/// message.
pub proof fn success_needs_an_accepted_status(
    session: ProverSession,
    status: u16,
    body: ReplyBody,
    after: ProverSession,
    action: ProverAction,
)
    requires
        session.stage() == Phase::AwaitingReply,
        session.steps_to(ProverEvent::Reply { status, body }, after, action),
    ensures
        after.stage() == Phase::Accepted <==> action is Conclude,
        after.stage() == Phase::Failed <==> action is Stop,
        action is Conclude || action is Stop,
        action is Conclude ==> accepts_status(session.job().mode, status),
        session.job().mode == Mode::Notarize ==> (action is Conclude <==> status == 200),
        !accepts_status(session.job().mode, status) ==> (action matches ProverAction::Stop(message)
            && message@ == refusal_text(status_line(status), body_text(body))),
{
}

/// The formatted amounts of a summary.
pub struct SummaryFigures {
    pub total_bought: String,
    pub total_sold: String,
    pub net_pnl: String,
}

/// The lines that close a session, given the amounts of its trades.
pub open spec fn summary_lines(
    mode: Mode,
    symbol: Seq<char>,
    count: nat,
    figures: SummaryFigures,
) -> Seq<Seq<char>> {
    match mode {
        Mode::Notarize => seq![
            ""@,
            "--- Trade Summary for "@ + symbol + " ---"@,
            "Total trades: "@ + decimal_text(count),
            "Total bought: $"@ + figures.total_bought@,
            "Total sold:   $"@ + figures.total_sold@,
            "Net PnL:      $"@ + figures.net_pnl@,
        ],
        Mode::Test => seq![
            ""@,
            "=== Binance API Test Successful ==="@,
            "Received "@ + decimal_text(count) + " trades for "@ + symbol,
        ] + (if count > 0 {
            seq![
                "Total bought: $"@ + figures.total_bought@,
                "Total sold: $"@ + figures.total_sold@,
                "Net PnL: $"@ + figures.net_pnl@,
            ]
        } else {
            Seq::empty()
        }) + seq![
            ""@,
            "API credentials are working! Run without --test to generate proof."@,
        ],
    }
}

/// The report that closes a session.
pub fn summary_report(
    mode: Mode,
    symbol: &str,
    count: usize,
    figures: &SummaryFigures,
) -> (report: Report)
    ensures
        report@ == summary_lines(mode, symbol@, count as nat, *figures),
{
    let mut report = Report::new();
    report.line("");
    match mode {
        Mode::Notarize => {
            report.push("--- Trade Summary for ".to_owned().concat(symbol).concat(" ---"));
            report.push("Total trades: ".to_owned().concat(decimal(count as u64).as_str()));
            report.push("Total bought: $".to_owned().concat(figures.total_bought.as_str()));
            report.push("Total sold:   $".to_owned().concat(figures.total_sold.as_str()));
            report.push("Net PnL:      $".to_owned().concat(figures.net_pnl.as_str()));
        },
        Mode::Test => {
            report.line("=== Binance API Test Successful ===");
            report.push(
                "Received ".to_owned().concat(decimal(count as u64).as_str()).concat(
                    " trades for ",
                ).concat(symbol),
            );
            if count > 0 {
                report.push("Total bought: $".to_owned().concat(figures.total_bought.as_str()));
                report.push("Total sold: $".to_owned().concat(figures.total_sold.as_str()));
                report.push("Net PnL: $".to_owned().concat(figures.net_pnl.as_str()));
            }
            report.line("");
            report.line("API credentials are working! Run without --test to generate proof.");
        },
    }
    proof {
        assert(report@ =~= summary_lines(mode, symbol@, count as nat, *figures));
    }
    report
}

/// The message for a notary that cannot be reached.
pub open spec fn notary_unreachable_text(host: Seq<char>, port: u16) -> Seq<char> {
    "Failed to connect to notary at "@ + host + ":"@ + decimal_text(port as nat) + if host
        == "notary.pse.dev"@ {
        "\n\nThe public endpoint at notary.pse.dev was sunset by PSE and may be unavailable.\nRun a trusted self-hosted notary and set NOTARY_HOST/NOTARY_PORT (or pass --notary-host/--notary-port)."@
    } else {
        "\n\nEnsure your trusted notary service is running and reachable, then retry with --notary-host/--notary-port."@
    }
}

/// The message for a notary that cannot be reached.
pub fn notary_unreachable(host: &str, port: u16) -> (message: String)
    ensures
        message@ == notary_unreachable_text(host@, port),
{
    let message = "Failed to connect to notary at ".to_owned().concat(host).concat(":").concat(
        decimal(port as u64).as_str(),
    );
    if same_text(host, "notary.pse.dev") {
        message.concat(
            "\n\nThe public endpoint at notary.pse.dev was sunset by PSE and may be unavailable.\nRun a trusted self-hosted notary and set NOTARY_HOST/NOTARY_PORT (or pass --notary-host/--notary-port).",
        )
    } else {
        message.concat(
            "\n\nEnsure your trusted notary service is running and reachable, then retry with --notary-host/--notary-port.",
        )
    }
}

/// A session sends the request that it was started with.  For a proof that is the
/// endpoint it was asked for, with all the headers of a request; to try the
/// credentials it is always the trade history, with the API key alone.  In either
/// case the query is signed with the secret key.
pub proof fn session_sends_its_request(
    session: ProverSession,
    timestamp: u64,
    after: ProverSession,
    action: ProverAction,
)
    requires
        session.stage() == Phase::AwaitingTime,
        session.steps_to(ProverEvent::Time(timestamp), after, action),
    ensures
        after.stage() == Phase::AwaitingReply,
        action matches ProverAction::Send { target, headers } && ({
            let job = session.job();
            let account = job.mode == Mode::Notarize && job.request.endpoint == Endpoint::Account;
            let query = unsigned_query_text(
                DataRequest {
                    endpoint: if account {
                        Endpoint::Account
                    } else {
                        Endpoint::Trades
                    },
                    symbol: job.request.symbol,
                    limit: job.request.limit,
                    start_time: job.request.start_time,
                    end_time: job.request.end_time,
                },
                timestamp,
            );
            let signature = hex_text(
                hmac_sha256(encode_utf8(job.secret_key@), encode_utf8(query)),
            );
            &&& account ==> target@ == "/api/v3/account"@ + "?"@ + query + "&signature="@
                + signature
            &&& !account ==> target@ == "/api/v3/myTrades"@ + "?"@ + query + "&signature="@
                + signature
            &&& job.mode == Mode::Notarize ==> headers@.len() == 6 && headers@[0].name@ == "Host"@
                && headers@[0].value@ == "api.binance.com"@ && headers@[5].name@
                == "X-MBX-APIKEY"@ && headers@[5].value@ == job.api_key@
            &&& job.mode == Mode::Notarize ==> header_texts(headers@) == request_header_texts(
                job.api_key@,
            )
            &&& job.mode == Mode::Test ==> headers@.len() == 1 && headers@[0].name@
                == "X-MBX-APIKEY"@ && headers@[0].value@ == job.api_key@
        }),
{
    if let ProverAction::Send { target, headers } = action {
        let texts = header_texts(headers@);
        assert forall|i: int| 0 <= i < headers@.len() implies texts[i] == (
            (#[trigger] headers@[i]).name@,
            headers@[i].value@,
        ) by {}
        assert(texts.len() == headers@.len());
        if session.job().mode == Mode::Notarize {
            assert(texts[0] == (headers@[0].name@, headers@[0].value@));
            assert(texts[5] == (headers@[5].name@, headers@[5].value@));
        } else {
            assert(texts[0] == (headers@[0].name@, headers@[0].value@));
        }
    }
}

/// The path of the target that a proof sends is that of its endpoint, and the
/// parameters behind it are those of the request and the signature.
pub proof fn proof_asks_the_chosen_endpoint(
    session: ProverSession,
    timestamp: u64,
    after: ProverSession,
    action: ProverAction,
)
    requires
        session.stage() == Phase::AwaitingTime,
        session.steps_to(ProverEvent::Time(timestamp), after, action),
        session.job().mode == Mode::Notarize,
    ensures
        action matches ProverAction::Send { target, headers } && ({
            let request = session.job().request;
            let query = unsigned_query_text(request, timestamp);
            &&& request.endpoint == Endpoint::Account ==> target@.take(16) == "/api/v3/account?"@
                && pieces(target@.skip(16), '&').drop_last() == pieces(query, '&')
            &&& request.endpoint == Endpoint::Trades ==> target@.take(17) == "/api/v3/myTrades?"@
                && pieces(target@.skip(17), '&').drop_last() == pieces(query, '&')
        }),
{
    session_sends_its_request(session, timestamp, after, action);
    let request = session.job().request;
    let query = unsigned_query_text(request, timestamp);
    let signature = signature_of(query, session.job().secret_key@);
    signature_decodes_to_the_code(query, session.job().secret_key@);
    target_reads_back(request.endpoint, query, signature);
    let last = "signature="@ + signature;
    assert(pieces(query, '&').push(last).drop_last() =~= pieces(query, '&'));
}

/// A session ends with what the reply says.  A status that is not accepted stops
/// it with the status and the body; any success is accepted to try the
/// credentials, and only 200 for a proof.  A trade list is concluded with; another
/// body stops a try with the reason, and concludes a proof all the same.
pub proof fn session_ends_with_the_reply(
    session: ProverSession,
    status: u16,
    body: ReplyBody,
    text: Seq<char>,
    after: ProverSession,
    action: ProverAction,
)
    requires
        session.stage() == Phase::AwaitingReply,
        session.steps_to(ProverEvent::Reply { status, body }, after, action),
        body matches ReplyBody::Bytes(bytes) ==> text == utf8_lossy(bytes@),
        body matches ReplyBody::Text(whole) ==> text == whole@,
    ensures
        ({
            let test = session.job().mode == Mode::Test;
            let accepted = if test {
                200 <= status <= 299
            } else {
                status == 200
            };
            let parsed = json_trades(text, "quoteQty"@, "isBuyer"@);
            &&& !accepted ==> after.stage() == Phase::Failed && (
            action matches ProverAction::Stop(message) && message@ == "Binance API error: "@
                + decimal_text(status as nat) + " "@ + reason_phrase(status) + " - "@ + text)
            &&& accepted && parsed is Ok ==> after.stage() == Phase::Accepted && (
            action matches ProverAction::Conclude(Some(tally)) && tally.count == parsed->Ok_0.len()
                && tally.tallies(parsed->Ok_0))
            &&& accepted && parsed is Err && test ==> after.stage() == Phase::Failed && (
            action matches ProverAction::Stop(message) && message@ == parsed->Err_0)
            &&& accepted && parsed is Err && !test ==> after.stage() == Phase::Accepted
                && action == ProverAction::Conclude(None)
        }),
{
    assert(body_text(body) == text);
    let parsed = json_trades(text, "quoteQty"@, "isBuyer"@);
    let outcome = choose|outcome: ReplyOutcome|
        {
            &&& #[trigger] outcome_of_reply(session.job().mode, status, body_text(body), outcome)
            &&& action_for(outcome, action)
            &&& after.stage() == if outcome is Accepted {
                Phase::Accepted
            } else {
                Phase::Failed
            }
        };
    assert(outcome_of_reply(session.job().mode, status, text, outcome));
    if !accepts_status(session.job().mode, status) {
        assert("Binance API error: "@ + status_line(status) + " - "@ + text
            =~= "Binance API error: "@ + decimal_text(status as nat) + " "@ + reason_phrase(status)
            + " - "@ + text);
    }
}

/// Each trade of a reply counts on one side, in order: with a true buyer flag its
/// quantity is one more of those bought, otherwise one more of those sold, and a
/// missing quantity is "0".
pub proof fn each_trade_counts_on_its_side(
    trades: Seq<(Option<Seq<char>>, Option<bool>)>,
    trade: (Option<Seq<char>>, Option<bool>),
    before: TradeTally,
    after: TradeTally,
)
    requires
        before.tallies(trades),
        after.tallies(trades.push(trade)),
    ensures
        after.count == before.count + 1,
        ({
            let quantity = if trade.0 is Some {
                trade.0->0
            } else {
                "0"@
            };
            &&& trade.1 == Some(true) ==> texts(after.bought@) == texts(before.bought@).push(
                quantity,
            ) && texts(after.sold@) == texts(before.sold@)
            &&& trade.1 != Some(true) ==> texts(after.sold@) == texts(before.sold@).push(quantity)
                && texts(after.bought@) == texts(before.bought@)
        }),
{
    quantities_of_prefix(trades, trade, trades.len(), true);
    quantities_of_prefix(trades, trade, trades.len(), false);
    assert(trades.push(trade)[trades.len() as int] == trade);
}

/// A reply without trades has nothing on either side.
pub proof fn no_trades_count_nothing(tally: TradeTally)
    requires
        tally.tallies(Seq::empty()),
    ensures
        tally.count == 0,
        tally.bought@.len() == 0,
        tally.sold@.len() == 0,
{
    assert(texts(tally.bought@).len() == tally.bought@.len());
    assert(texts(tally.sold@).len() == tally.sold@.len());
}

proof fn quantities_of_prefix(
    trades: Seq<(Option<Seq<char>>, Option<bool>)>,
    trade: (Option<Seq<char>>, Option<bool>),
    n: nat,
    buyer: bool,
)
    requires
        n <= trades.len(),
    ensures
        side_quantities(trades.push(trade), n, buyer) == side_quantities(trades, n, buyer),
    decreases n,
{
    if n > 0 {
        quantities_of_prefix(trades, trade, (n - 1) as nat, buyer);
    }
}

/// A refusal of the exchange's clock shows the status and the body, or that the
/// body could not be had.
pub proof fn clock_refusal_shows_the_answer(status: Seq<char>, body: Option<&str>)
    ensures
        body matches Some(b) ==> clock_refusal_text(status, body)
            == "Failed to fetch Binance server time: "@ + status + " - "@ + b@,
        body is None ==> clock_refusal_text(status, body)
            == "Failed to fetch Binance server time: "@ + status + " - "@ + "<unavailable>"@,
{
}

/// The summary of a session shows the pair, the number of trades and the three
/// amounts, each in its place.  A try without trades shows no amounts.
pub proof fn summary_shows_the_amounts(symbol: Seq<char>, count: nat, figures: SummaryFigures)
    ensures
        summary_lines(Mode::Notarize, symbol, count, figures).len() == 6,
        summary_lines(Mode::Notarize, symbol, count, figures)[1] == "--- Trade Summary for "@
            + symbol + " ---"@,
        summary_lines(Mode::Notarize, symbol, count, figures)[2] == "Total trades: "@
            + decimal_text(count),
        summary_lines(Mode::Notarize, symbol, count, figures)[3] == "Total bought: $"@
            + figures.total_bought@,
        summary_lines(Mode::Notarize, symbol, count, figures)[4] == "Total sold:   $"@
            + figures.total_sold@,
        summary_lines(Mode::Notarize, symbol, count, figures)[5] == "Net PnL:      $"@
            + figures.net_pnl@,
        summary_lines(Mode::Test, symbol, count, figures)[1]
            == "=== Binance API Test Successful ==="@,
        summary_lines(Mode::Test, symbol, count, figures)[2] == "Received "@ + decimal_text(count)
            + " trades for "@ + symbol,
        count == 0 ==> summary_lines(Mode::Test, symbol, count, figures).len() == 5,
        count > 0 ==> summary_lines(Mode::Test, symbol, count, figures).len() == 8,
        count > 0 ==> summary_lines(Mode::Test, symbol, count, figures)[3] == "Total bought: $"@
            + figures.total_bought@,
        count > 0 ==> summary_lines(Mode::Test, symbol, count, figures)[4] == "Total sold: $"@
            + figures.total_sold@,
        count > 0 ==> summary_lines(Mode::Test, symbol, count, figures)[5] == "Net PnL: $"@
            + figures.net_pnl@,
        summary_lines(Mode::Test, symbol, count, figures).last()
            == "API credentials are working! Run without --test to generate proof."@,
{
}

/// The message on an unreachable notary names its address and gives the advice for
/// its kind: the public notary was shut down, another one has to be running.
pub proof fn unreachable_notary_is_named(host: Seq<char>, port: u16)
    ensures
        ({
            let named = "Failed to connect to notary at "@ + host + ":"@ + decimal_text(port as nat);
            &&& host == "notary.pse.dev"@ ==> notary_unreachable_text(host, port) == named
                + "\n\nThe public endpoint at notary.pse.dev was sunset by PSE and may be unavailable.\nRun a trusted self-hosted notary and set NOTARY_HOST/NOTARY_PORT (or pass --notary-host/--notary-port)."@
            &&& host != "notary.pse.dev"@ ==> notary_unreachable_text(host, port) == named
                + "\n\nEnsure your trusted notary service is running and reachable, then retry with --notary-host/--notary-port."@
        }),
{
}

/// An event out of its turn changes nothing, and no event changes what a session
/// is for.
pub proof fn events_out_of_turn_are_ignored(
    session: ProverSession,
    event: ProverEvent,
    after: ProverSession,
    action: ProverAction,
)
    requires
        session.steps_to(event, after, action),
    ensures
        after.job() == session.job(),
        session.stage() == Phase::AwaitingTime && event is Reply ==> after == session
            && action is Ignore,
        session.stage() == Phase::AwaitingReply && event is Time ==> after == session
            && action is Ignore,
{
}

/// A status is shown as its number and its phrase.
pub proof fn status_is_shown(status: u16)
    ensures
        status_line(status) == decimal_text(status as nat) + " "@ + reason_phrase(status),
{
}

/// The fields of a trade are taken as they are.
pub proof fn fields_are_those_of_the_trades(trades: Vec<RawTrade>, error: String, i: int)
    ensures
        parsed_fields(Err(error)) == Err::<Seq<(Option<Seq<char>>, Option<bool>)>, Seq<char>>(
            error@,
        ),
        parsed_fields(Ok(trades)) is Ok,
        parsed_fields(Ok(trades))->Ok_0.len() == trades@.len(),
        0 <= i < trades@.len() ==> ({
            let fields = parsed_fields(Ok(trades))->Ok_0[i];
            &&& fields == raw_fields(trades@[i])
            &&& fields.1 == trades@[i].is_buyer
            &&& fields.0 is Some <==> trades@[i].quote_qty is Some
            &&& trades@[i].quote_qty matches Some(q) ==> fields.0 == Some(q@)
        }),
{
}

} // verus!
