//! The verifier's report on the body of a disclosed response.
use vstd::prelude::*;
use vstd::string::*;

use crate::account::{account_report, BalanceFigure, BinanceAccount};
use crate::report::Report;
use crate::request::Endpoint;
use crate::text::{contains, decimal};
use crate::trades::{trade_report, TradeFigures, TradeStats};
#[allow(unused_imports)]
use crate::account::{account_report_lines, snapshot_text};
#[allow(unused_imports)]
use crate::clock::{has_calendar_text, utc_text, LAST_UTC_SECOND, UTC_LAYOUT};
#[allow(unused_imports)]
use crate::text::{containing_is_standing_in, contains_text, decimal_text};
#[allow(unused_imports)]
use crate::trades::trade_report_lines;

verus! {

/// What was read from the body of a response.
pub enum BodyReading<'a> {
    /// The body holds no data of the endpoint.
    Plain,
    /// The data could not be read; the text says why.
    Unreadable(&'a str),
    /// A trade history without trades.
    NoTrades,
    /// A trade history.
    Trades(&'a TradeStats, &'a TradeFigures),
    /// An account snapshot.
    Account(&'a BinanceAccount, &'a [BalanceFigure]),
}

/// A reading that can be reported: the amounts go with the data, and its times
/// have a calendar text.
pub open spec fn reportable(reading: BodyReading<'_>) -> bool {
    match reading {
        BodyReading::Trades(stats, figures) => {
            &&& stats.commissions@.len() == figures.commissions@.len()
            &&& stats.first_time / 1000 <= LAST_UTC_SECOND
            &&& stats.last_time / 1000 <= LAST_UTC_SECOND
        },
        BodyReading::Account(account, figures) => {
            &&& account.balances@.len() == figures@.len()
            &&& account.update_time matches Some(ms) ==> ms / 1000 <= LAST_UTC_SECOND
        },
        _ => true,
    }
}

/// The lines on data that could not be read: the body as it is, a note where a
/// trade history has blotted-out parts, and the reason.
pub open spec fn unreadable_lines(
    endpoint: Endpoint,
    body: Seq<char>,
    error: Seq<char>,
) -> Seq<Seq<char>> {
    match endpoint {
        Endpoint::Account => seq![
            ""@,
            "--- Response Body (raw) ---"@,
            body,
            ""@,
            "Could not parse as account data: "@ + error,
        ],
        Endpoint::Trades => seq![""@, "--- Response Body (raw) ---"@, body] + (if contains_text(
            body,
            "X"@,
        ) {
            seq![""@, "Note: Parts of the response were redacted (shown as X)"@]
        } else {
            Seq::empty()
        }) + seq![""@, "Could not parse as trade data: "@ + error],
    }
}

/// The lines on the body of a response.
pub open spec fn body_lines(
    endpoint: Endpoint,
    body: Seq<char>,
    reading: BodyReading<'_>,
) -> Seq<Seq<char>> {
    match reading {
        BodyReading::Plain => seq![""@, "--- Response Body ---"@, body],
        BodyReading::Unreadable(error) => unreadable_lines(endpoint, body, error@),
        BodyReading::NoTrades => seq![
            ""@,
            "--- Verified Response Body ---"@,
            "Number of trades: "@ + decimal_text(0),
            "No trades found."@,
        ],
        BodyReading::Trades(stats, figures) => seq![
            ""@,
            "--- Verified Response Body ---"@,
            "Number of trades: "@ + decimal_text(stats.total as nat),
        ] + trade_report_lines(
            *stats,
            *figures,
            utc_text(stats.first_time / 1000, UTC_LAYOUT@),
            utc_text(stats.last_time / 1000, UTC_LAYOUT@),
        ),
        BodyReading::Account(account, figures) => seq![
            ""@,
            "--- Verified Response Body ---"@,
        ] + account_report_lines(*account, figures@, snapshot_text(account.update_time)),
    }
}

/// The times that the report on a reading shows are in the calendar.
pub open spec fn times_have_calendar_texts(reading: BodyReading<'_>) -> bool {
    match reading {
        BodyReading::Trades(stats, figures) => {
            &&& has_calendar_text(stats.first_time / 1000)
            &&& has_calendar_text(stats.last_time / 1000)
        },
        BodyReading::Account(account, figures) => account.update_time matches Some(ms)
            ==> has_calendar_text(ms / 1000),
        _ => true,
    }
}

/// Reports data that could not be read.
fn unreadable_report(endpoint: Endpoint, body: &str, error: &str) -> (report: Report)
    ensures
        report@ == unreadable_lines(endpoint, body@, error@),
{
    let mut report = Report::new();
    report.line("");
    report.line("--- Response Body (raw) ---");
    report.line(body);
    match endpoint {
        Endpoint::Account => {
            report.line("");
            report.push("Could not parse as account data: ".to_owned().concat(error));
        },
        Endpoint::Trades => {
            if contains(body, "X") {
                report.line("");
                report.line("Note: Parts of the response were redacted (shown as X)");
            }
            report.line("");
            report.push("Could not parse as trade data: ".to_owned().concat(error));
        },
    }
    proof {
        assert(report@ =~= unreadable_lines(endpoint, body@, error@));
    }
    report
}

/// Reports on the body of a response.
pub fn body_report(endpoint: Endpoint, body: &str, reading: BodyReading<'_>) -> (report: Report)
    requires
        reportable(reading),
    ensures
        report@ == body_lines(endpoint, body@, reading),
        times_have_calendar_texts(reading),
{
    let mut report = Report::new();
    match reading {
        BodyReading::Plain => {
            report.line("");
            report.line("--- Response Body ---");
            report.line(body);
        },
        BodyReading::Unreadable(error) => {
            report.append(unreadable_report(endpoint, body, error));
        },
        BodyReading::NoTrades => {
            report.line("");
            report.line("--- Verified Response Body ---");
            report.push("Number of trades: ".to_owned().concat(decimal(0).as_str()));
            report.line("No trades found.");
        },
        BodyReading::Trades(stats, figures) => {
            report.line("");
            report.line("--- Verified Response Body ---");
            report.push(
                "Number of trades: ".to_owned().concat(decimal(stats.total as u64).as_str()),
            );
            report.append(trade_report(stats, figures));
        },
        BodyReading::Account(account, figures) => {
            report.line("");
            report.line("--- Verified Response Body ---");
            report.append(account_report(account, figures));
        },
    }
    proof {
        assert(report@ =~= body_lines(endpoint, body@, reading));
    }
    report
}

/// The report on a body shows what was read from it: a plain body as it is, data
/// that could not be read with the reason, and read data under a heading.
pub proof fn body_report_shows_the_reading(
    endpoint: Endpoint,
    body: Seq<char>,
    reading: BodyReading<'_>,
)
    ensures
        ({
            let lines = body_lines(endpoint, body, reading);
            &&& lines[0] == ""@
            &&& reading is Plain ==> lines.len() == 3 && lines[1] == "--- Response Body ---"@
                && lines[2] == body
            &&& reading matches BodyReading::Unreadable(error) ==> {
                &&& lines[1] == "--- Response Body (raw) ---"@
                &&& lines[2] == body
                &&& endpoint == Endpoint::Account ==> lines.len() == 5 && lines[4]
                    == "Could not parse as account data: "@ + error@
                &&& endpoint == Endpoint::Trades ==> lines.last()
                    == "Could not parse as trade data: "@ + error@
                &&& endpoint == Endpoint::Trades && body.contains('X') ==> lines.len() == 7
                    && lines[4] == "Note: Parts of the response were redacted (shown as X)"@
                &&& endpoint == Endpoint::Trades && !body.contains('X') ==> lines.len() == 5
            }
            &&& reading is NoTrades ==> lines.len() == 4 && lines[1]
                == "--- Verified Response Body ---"@ && lines[2] == "Number of trades: 0"@
                && lines[3] == "No trades found."@
            &&& reading matches BodyReading::Trades(stats, figures) ==> lines[1]
                == "--- Verified Response Body ---"@ && lines[2] == "Number of trades: "@
                + decimal_text(stats.total as nat) && lines.skip(3) == trade_report_lines(
                *stats,
                *figures,
                utc_text((stats.first_time as int / 1000) as u64, "%Y-%m-%d %H:%M:%S UTC"@),
                utc_text((stats.last_time as int / 1000) as u64, "%Y-%m-%d %H:%M:%S UTC"@),
            )
            &&& reading matches BodyReading::Account(account, figures) ==> lines[1]
                == "--- Verified Response Body ---"@ && lines.skip(2) == account_report_lines(
                *account,
                figures@,
                snapshot_text(account.update_time),
            )
        }),
{
    let lines = body_lines(endpoint, body, reading);
    match reading {
        BodyReading::NoTrades => {
            reveal_strlit("Number of trades: ");
            reveal_strlit("Number of trades: 0");
            assert("Number of trades: "@ + decimal_text(0) =~= "Number of trades: 0"@);
        },
        BodyReading::Unreadable(error) => {
            reveal_strlit("X");
            containing_is_standing_in(body, "X"@);
            if body.contains('X') {
                let i = choose|i: int| 0 <= i < body.len() && body[i] == 'X';
                assert(body =~= body.take(i) + "X"@ + body.skip(i + 1));
            }
            if contains_text(body, "X"@) {
                let (x, y) = choose|x: Seq<char>, y: Seq<char>| body == #[trigger] (x + "X"@ + y);
                assert(body[x.len() as int] == 'X');
            }
        },
        BodyReading::Trades(stats, figures) => {
            assert(lines.skip(3) =~= trade_report_lines(
                *stats,
                *figures,
                utc_text(stats.first_time / 1000, UTC_LAYOUT@),
                utc_text(stats.last_time / 1000, UTC_LAYOUT@),
            ));
        },
        BodyReading::Account(account, figures) => {
            assert(lines.skip(2) =~= account_report_lines(
                *account,
                figures@,
                snapshot_text(account.update_time),
            ));
        },
        _ => {},
    }
}

} // verus!
