use binance_pnl::exchange::{
    clock_refusal, is_success, judge_server_time, judge_trades, notary_unreachable, read_reply,
    refusal, server_time_error, summary_report, tally_trades, Mode, Phase, ProverAction, ProverEvent, ProverSession, RawTrade, ReplyBody,
    ReplyOutcome, SummaryFigures,
};
use binance_pnl::request::{
    data_request, exchange_url, key_headers, request_headers, request_target, server_time_url,
    signed_target, unsigned_query,
    DataRequest, Endpoint, RequestError, MAX_RECV_DATA, MAX_SENT_DATA,
};

const TRADES: &str = r#"[
    {"quoteQty": "10.5", "isBuyer": true},
    {"quoteQty": "4", "isBuyer": false},
    {"quoteQty": 7, "isBuyer": true},
    {"quoteQty": "2.25"}
]"#;

fn trades_request() -> DataRequest {
    DataRequest {
        endpoint: Endpoint::Trades,
        symbol: "BTCUSDT".to_string(),
        limit: 10,
        start_time: None,
        end_time: None,
    }
}

fn session(mode: Mode) -> ProverSession {
    ProverSession::new(mode, trades_request(), "the-key".to_string(), "secret".to_string())
}

#[test]
fn the_trade_query_has_its_parameters_in_order() {
    assert_eq!(
        unsigned_query(&trades_request(), 1_700_000_000_000),
        "symbol=BTCUSDT&timestamp=1700000000000&recvWindow=60000&limit=10"
    );
}

#[test]
fn a_date_range_narrows_the_query() {
    let mut request = trades_request();
    request.start_time = Some(1_704_067_200_000);
    assert_eq!(
        unsigned_query(&request, 5),
        "symbol=BTCUSDT&timestamp=5&recvWindow=60000&limit=10&startTime=1704067200000"
    );
    request.end_time = Some(1_711_929_599_999);
    assert_eq!(
        unsigned_query(&request, 5),
        "symbol=BTCUSDT&timestamp=5&recvWindow=60000&limit=10&startTime=1704067200000&endTime=1711929599999"
    );
}

#[test]
fn the_account_query_needs_no_symbol() {
    let mut request = trades_request();
    request.endpoint = Endpoint::Account;
    assert_eq!(unsigned_query(&request, 5), "timestamp=5&recvWindow=60000");
    assert!(request_target(&request, 5, "secret")
        .starts_with("/api/v3/account?timestamp=5&recvWindow=60000&signature="));
}

#[test]
fn a_target_carries_the_signature_of_its_query() {
    assert_eq!(
        request_target(&trades_request(), 1_700_000_000_000, "secret"),
        "/api/v3/myTrades?symbol=BTCUSDT&timestamp=1700000000000&recvWindow=60000&limit=10\
         &signature=07cb29537f0caa5e604bd8e33871f75a6f0dedf9c623f13ec260fb21b5abaaeb"
    );
    assert_eq!(
        signed_target(Endpoint::Account, "a=1", "ff"),
        "/api/v3/account?a=1&signature=ff"
    );
}

#[test]
fn addresses_name_the_exchange() {
    assert_eq!(exchange_url("/x"), "https://api.binance.com/x");
    assert_eq!(server_time_url(), "https://api.binance.com/api/v3/time");
}

#[test]
fn headers_carry_the_api_key() {
    let headers = request_headers("k");
    let names: Vec<&str> = headers.iter().map(|h| h.name.as_str()).collect();
    assert_eq!(
        names,
        ["Host", "Accept", "Accept-Encoding", "Connection", "User-Agent", "X-MBX-APIKEY"]
    );
    assert_eq!(headers[0].value, "api.binance.com");
    assert_eq!(headers[2].value, "identity");
    assert_eq!(headers[5].value, "k");
    let key = key_headers("k");
    assert_eq!(key.len(), 1);
    assert_eq!((key[0].name.as_str(), key[0].value.as_str()), ("X-MBX-APIKEY", "k"));
}

#[test]
fn endpoints_have_names() {
    assert!(Endpoint::parse("trades") == Some(Endpoint::Trades));
    assert!(Endpoint::parse("account") == Some(Endpoint::Account));
    assert!(Endpoint::parse("Trades").is_none());
}

#[test]
fn proofs_cover_a_kilobyte_out_and_sixteen_in() {
    assert_eq!(MAX_SENT_DATA, 1 << 10);
    assert_eq!(MAX_RECV_DATA, 1 << 14);
}

#[test]
fn success_is_the_two_hundreds() {
    assert!(is_success(200) && is_success(299));
    assert!(!is_success(199) && !is_success(300));
}

#[test]
fn a_clock_error_shows_status_and_body() {
    assert_eq!(
        server_time_error(404, Some("gone")),
        "Failed to fetch Binance server time: 404 Not Found - gone"
    );
    assert_eq!(
        server_time_error(599, None),
        "Failed to fetch Binance server time: 599 <unknown status code> - <unavailable>"
    );
}

#[test]
fn a_clock_answer_is_judged_by_its_status() {
    assert_eq!(judge_server_time(200, Some("{}"), Ok(7)), Ok(7));
    assert_eq!(judge_server_time(299, None, Err("bad".to_string())), Err("bad".to_string()));
    assert_eq!(
        judge_server_time(503, Some("later"), Ok(7)),
        Err("Failed to fetch Binance server time: 503 Service Unavailable - later".to_string())
    );
}

#[test]
fn a_test_asks_for_trades_with_the_key_alone() {
    let mut request = trades_request();
    request.endpoint = Endpoint::Account;
    let mut prover =
        ProverSession::new(Mode::Test, request, "the-key".to_string(), "secret".to_string());
    match prover.step(ProverEvent::Time(1_700_000_000_000)) {
        ProverAction::Send { target, headers } => {
            assert_eq!(target, request_target(&trades_request(), 1_700_000_000_000, "secret"));
            let sent: Vec<(&str, &str)> =
                headers.iter().map(|h| (h.name.as_str(), h.value.as_str())).collect();
            assert_eq!(sent, [("X-MBX-APIKEY", "the-key")]);
        }
        _ => panic!("the request is due"),
    }
}

#[test]
fn a_refused_request_stops_the_session() {
    let mut prover = session(Mode::Notarize);
    assert!(matches!(prover.step(ProverEvent::Time(1)), ProverAction::Send { .. }));
    let body = ReplyBody::Bytes(b"no\xffpe".to_vec());
    match prover.step(ProverEvent::Reply { status: 418, body }) {
        ProverAction::Stop(message) => {
            assert_eq!(message, "Binance API error: 418 I'm a teapot - no\u{fffd}pe")
        }
        _ => panic!("the exchange refused"),
    }
    assert!(prover.phase() == Phase::Failed);
}

#[test]
fn a_session_sends_one_request_and_concludes() {
    let mut prover = session(Mode::Notarize);
    let early = ReplyBody::Text(TRADES.to_string());
    assert!(matches!(
        prover.step(ProverEvent::Reply { status: 200, body: early }),
        ProverAction::Ignore
    ));
    match prover.step(ProverEvent::Time(1_700_000_000_000)) {
        ProverAction::Send { target, headers } => {
            assert!(target.ends_with("f13ec260fb21b5abaaeb"));
            assert_eq!(headers[5].value, "the-key");
        }
        _ => panic!("the request is due"),
    }
    assert!(matches!(prover.step(ProverEvent::Time(2)), ProverAction::Ignore));
    let body = ReplyBody::Bytes(TRADES.as_bytes().to_vec());
    match prover.step(ProverEvent::Reply { status: 200, body }) {
        ProverAction::Conclude(Some(tally)) => {
            assert_eq!(tally.count, 4);
            assert_eq!(tally.bought, ["10.5", "0"]);
            assert_eq!(tally.sold, ["4", "2.25"]);
        }
        _ => panic!("the reply is a trade list"),
    }
    assert!(prover.phase() == Phase::Accepted);
    assert!(matches!(prover.step(ProverEvent::Time(3)), ProverAction::Ignore));
}

#[test]
fn only_a_test_accepts_other_successes() {
    assert!(matches!(read_reply(Mode::Test, 201, "[]"), ReplyOutcome::Accepted(Some(_))));
    match read_reply(Mode::Notarize, 201, "[]") {
        ReplyOutcome::Refused(message) => {
            assert_eq!(message, "Binance API error: 201 Created - []")
        }
        _ => panic!("a proof needs status 200"),
    }
}

#[test]
fn an_unreadable_reply_fails_a_test_but_not_a_proof() {
    match read_reply(Mode::Test, 200, "{}") {
        ReplyOutcome::Unreadable(message) => assert!(message.starts_with("invalid type: map")),
        _ => panic!("an object is no trade list"),
    }
    assert!(matches!(read_reply(Mode::Notarize, 200, "{}"), ReplyOutcome::Accepted(None)));
}

#[test]
fn missing_fields_have_defaults() {
    let raw = vec![
        RawTrade { quote_qty: None, is_buyer: Some(true) },
        RawTrade { quote_qty: Some("3".to_string()), is_buyer: None },
    ];
    let tally = tally_trades(&raw);
    assert_eq!((tally.count, tally.bought, tally.sold), (2, vec!["0".to_string()], vec!["3".to_string()]));
    assert!(matches!(judge_trades(Mode::Test, Err("e".to_string())), ReplyOutcome::Unreadable(_)));
}

fn figures() -> SummaryFigures {
    SummaryFigures {
        total_bought: "1.00".to_string(),
        total_sold: "3.00".to_string(),
        net_pnl: "+2.00".to_string(),
    }
}

#[test]
fn a_proof_is_summarised() {
    assert_eq!(
        summary_report(Mode::Notarize, "ETHUSDT", 4, &figures()).into_lines(),
        [
            "",
            "--- Trade Summary for ETHUSDT ---",
            "Total trades: 4",
            "Total bought: $1.00",
            "Total sold:   $3.00",
            "Net PnL:      $+2.00",
        ]
    );
}

#[test]
fn a_test_without_trades_shows_no_amounts() {
    assert_eq!(
        summary_report(Mode::Test, "ETHUSDT", 0, &figures()).into_lines(),
        [
            "",
            "=== Binance API Test Successful ===",
            "Received 0 trades for ETHUSDT",
            "",
            "API credentials are working! Run without --test to generate proof.",
        ]
    );
    assert_eq!(summary_report(Mode::Test, "ETHUSDT", 2, &figures()).into_lines().len(), 8);
}

#[test]
fn an_unreachable_notary_gets_advice() {
    let own = notary_unreachable("127.0.0.1", 7047);
    assert!(own.starts_with("Failed to connect to notary at 127.0.0.1:7047\n\nEnsure your trusted"));
    let public = notary_unreachable("notary.pse.dev", 443);
    assert!(public.starts_with("Failed to connect to notary at notary.pse.dev:443\n\nThe public endpoint"));
}

#[test]
fn wishes_become_a_request() {
    let request = data_request(
        "trades",
        "BTCUSDT".to_string(),
        7,
        Some("2024-01-01"),
        Some("2024-03-31"),
    )
    .ok()
    .unwrap();
    assert!(request.endpoint == Endpoint::Trades);
    assert_eq!((request.symbol.as_str(), request.limit), ("BTCUSDT", 7));
    assert_eq!(request.start_time, Some(1_704_067_200_000));
    assert_eq!(request.end_time, Some(1_711_929_599_999));
    let open = data_request("account", String::new(), 0, None, None).ok().unwrap();
    assert!(open.endpoint == Endpoint::Account);
    assert_eq!((open.start_time, open.end_time), (None, None));
}

#[test]
fn early_dates_reach_back_to_the_epoch() {
    let ask = |start: Option<&str>, end: Option<&str>| {
        let request = data_request("trades", String::new(), 1, start, end).ok().unwrap();
        (request.start_time, request.end_time)
    };
    assert_eq!(ask(Some("1969-12-31"), None), (Some(0), None));
    assert_eq!(ask(Some("0000-01-01"), Some("1970-01-01")), (Some(0), Some(86_399_999)));
    assert_eq!(ask(None, Some("1970-01-01")), (None, Some(86_399_999)));
}

#[test]
fn a_range_that_ends_before_the_epoch_asks_for_nothing() {
    for start in [None, Some("0000-01-01"), Some("1969-12-30"), Some("2024-01-01")] {
        let request = data_request("trades", String::new(), 1, start, Some("1969-12-31")).unwrap();
        assert_eq!((request.start_time, request.end_time), (Some(1), Some(0)));
    }
}

#[test]
fn bad_wishes_are_told_apart() {
    let ask = |endpoint: &str, start: Option<&str>, end: Option<&str>| {
        data_request(endpoint, String::new(), 1, start, end).err()
    };
    assert!(ask("orders", Some("x"), Some("x")) == Some(RequestError::UnknownEndpoint));
    assert!(ask("trades", Some("2024-02-30"), Some("x")) == Some(RequestError::BadStart));
    assert!(ask("trades", Some("2024-02-29"), Some("tomorrow")) == Some(RequestError::BadEnd));
}

#[test]
fn refusals_show_status_and_body() {
    assert_eq!(refusal("401 Unauthorized", "{}"), "Binance API error: 401 Unauthorized - {}");
    assert_eq!(
        clock_refusal("500", None),
        "Failed to fetch Binance server time: 500 - <unavailable>"
    );
}

#[test]
fn a_tally_covers_all_trades() {
    match read_reply(Mode::Test, 200, TRADES) {
        ReplyOutcome::Accepted(Some(tally)) => {
            assert_eq!(tally.bought.len() + tally.sold.len(), tally.count)
        }
        _ => panic!("the reply is a trade list"),
    }
}
