use binance_pnl::account::{BalanceFigure, BinanceAccount, BinanceBalance};
use binance_pnl::body::{body_report, BodyReading};
use binance_pnl::request::Endpoint;
use binance_pnl::transcript::{
    application_data_len, body_data, brackets_in_order, check_server, detect_endpoint, inspect,
    inspect_texts, json_part, redacted_count, redaction_report, request_line, response_body,
    transcript_length, BodyData, Record,
};

fn record(application_data: bool, ciphertext_len: usize) -> Record {
    Record { application_data, ciphertext_len }
}

#[test]
fn only_application_data_counts() {
    let records = [record(true, 100), record(false, 7), record(true, 20)];
    assert_eq!(application_data_len(&records), 120);
    assert_eq!(application_data_len(&[]), 0);
    let length = transcript_length(&records, &[record(false, 9)]);
    assert_eq!((length.sent, length.received), (120, 0));
}

#[test]
fn lengths_are_attested_in_thirty_two_bits() {
    let length = transcript_length(&[record(true, 1 << 32), record(true, 3)], &[]);
    assert_eq!((length.sent, length.received), (3, 0));
}

#[test]
fn only_the_exchange_is_accepted() {
    assert!(check_server(Some("api.binance.com")).is_ok());
    assert_eq!(
        check_server(Some("api.binance.us")).err().unwrap().message(),
        "Server name mismatch: expected api.binance.com, got api.binance.us"
    );
    assert_eq!(check_server(None).err().unwrap().message(), "Server name not revealed");
}

#[test]
fn a_request_shows_method_and_path() {
    let sent = "GET /api/v3/myTrades?symbol=BTCUSDT&signature=XX HTTP/1.1\r\nhost: x\r\n\r\n";
    assert_eq!(request_line(sent).unwrap(), "GET /api/v3/myTrades");
    assert_eq!(request_line("GET /a HTTP/1.1").unwrap(), "GET /a");
    assert_eq!(request_line(" POST\t/b\u{a0}c\n").unwrap(), "POST /b");
    assert_eq!(request_line("GET").unwrap(), "GET");
    assert_eq!(request_line("\n").unwrap(), "");
    assert_eq!(request_line("\rA B").unwrap(), "A B");
    assert!(request_line("").is_none());
}

#[test]
fn the_endpoint_is_detected_from_the_path() {
    assert!(detect_endpoint("GET /api/v3/account?timestamp=1 HTTP/1.1") == Endpoint::Account);
    assert!(detect_endpoint("GET /api/v3/myTrades?timestamp=1 HTTP/1.1") == Endpoint::Trades);
    assert!(detect_endpoint("") == Endpoint::Trades);
}

#[test]
fn the_body_follows_the_first_empty_line() {
    assert_eq!(response_body("a: b\r\n\r\nbody\r\n\r\nrest").unwrap(), "body\r\n\r\nrest");
    assert_eq!(response_body("a\r\n\r\n").unwrap(), "");
    assert!(response_body("a\r\nb\r\n").is_none());
}

#[test]
fn data_is_cut_between_its_brackets() {
    assert_eq!(json_part("5\r\n[1, [2]]\r\n0", Endpoint::Trades).unwrap(), "[1, [2]]");
    assert_eq!(json_part("x{\"a\": 1}y", Endpoint::Account).unwrap(), "{\"a\": 1}");
    assert_eq!(json_part("x[1, 2", Endpoint::Trades).unwrap(), "[1, 2");
    assert_eq!(json_part("][", Endpoint::Trades).unwrap(), "");
    assert!(json_part("{}", Endpoint::Trades).is_none());
}

#[test]
fn disordered_brackets_are_told_apart() {
    assert!(brackets_in_order("[]", Endpoint::Trades));
    assert!(brackets_in_order("][", Endpoint::Trades));
    assert!(!brackets_in_order("] [", Endpoint::Trades));
    assert!(matches!(body_data("] [", Endpoint::Trades), BodyData::Disordered));
    assert!(matches!(body_data("", Endpoint::Account), BodyData::Missing));
}

#[test]
fn a_transcript_is_inspected_as_a_whole() {
    let sent = b"GET /api/v3/account?timestamp=1&signature=XXX HTTP/1.1\r\n\r\n";
    let received = b"HTTP/1.1 200 OK\r\n\r\n{\"a\": \"\xff\"}";
    let inspection = inspect(sent, received);
    assert_eq!(inspection.request_line.unwrap(), "GET /api/v3/account");
    let body = inspection.body.unwrap();
    assert!(body.endpoint == Endpoint::Account);
    assert_eq!(body.text, "{\"a\": \"\u{fffd}\"}");
    match body.data {
        BodyData::Json(json) => assert_eq!(json, body.text),
        _ => panic!("the body is an object"),
    }
    let bare = inspect_texts(String::new(), "no headers".to_string());
    assert!(bare.request_line.is_none() && bare.body.is_none());
}

#[test]
fn blotted_out_bytes_are_counted() {
    assert_eq!(redacted_count(b"aXbX\0c"), 3);
    assert_eq!(redacted_count(b"x"), 0);
    assert_eq!(
        redaction_report(b"XX", b"X").into_lines(),
        [
            "",
            "--- Redaction Summary ---",
            "Request: 2 bytes redacted (API key, signature)",
            "Response: 1 bytes redacted",
        ]
    );
    assert_eq!(redaction_report(b"", b"X").into_lines().len(), 3);
    assert_eq!(redaction_report(b"X", b"").into_lines().len(), 3);
    assert!(redaction_report(b"a", b"b").into_lines().is_empty());
}

#[test]
fn unreadable_data_is_shown_raw() {
    assert_eq!(
        body_report(Endpoint::Trades, "[X]", BodyReading::Unreadable("bad")).into_lines(),
        [
            "",
            "--- Response Body (raw) ---",
            "[X]",
            "",
            "Note: Parts of the response were redacted (shown as X)",
            "",
            "Could not parse as trade data: bad",
        ]
    );
    assert_eq!(
        body_report(Endpoint::Trades, "[]", BodyReading::Unreadable("bad")).into_lines().len(),
        5
    );
    assert_eq!(
        body_report(Endpoint::Account, "{X}", BodyReading::Unreadable("bad")).into_lines(),
        [
            "",
            "--- Response Body (raw) ---",
            "{X}",
            "",
            "Could not parse as account data: bad",
        ]
    );
}

#[test]
fn a_body_without_data_is_shown_plain() {
    assert_eq!(
        body_report(Endpoint::Trades, "hello", BodyReading::Plain).into_lines(),
        ["", "--- Response Body ---", "hello"]
    );
}

#[test]
fn an_empty_history_has_no_trades() {
    assert_eq!(
        body_report(Endpoint::Trades, "[]", BodyReading::NoTrades).into_lines(),
        ["", "--- Verified Response Body ---", "Number of trades: 0", "No trades found."]
    );
}

fn balance(asset: &str) -> BinanceBalance {
    BinanceBalance { asset: asset.to_string(), free: String::new(), locked: String::new() }
}

fn figure(nonzero: bool, free: &str, locked: &str) -> BalanceFigure {
    BalanceFigure { nonzero, free: free.to_string(), locked: locked.to_string() }
}

#[test]
fn an_account_shows_its_non_zero_balances() {
    let account = BinanceAccount {
        maker_commission: Some(10),
        taker_commission: Some(-5),
        buyer_commission: None,
        seller_commission: None,
        can_trade: Some(true),
        can_withdraw: None,
        can_deposit: None,
        update_time: Some(1_705_329_121_500),
        balances: vec![balance("BTC"), balance("ETH"), balance("LONGASSETNAME")],
        permissions: vec!["SPOT".to_string(), "MARGIN".to_string()],
    };
    let figures = [
        figure(true, "-1.50000000", "0.00000000"),
        figure(false, "0.00000000", "0.00000000"),
        figure(true, "0.00000000", "2.00000000"),
    ];
    let lines = body_report(Endpoint::Account, "{}", BodyReading::Account(&account, &figures));
    assert_eq!(
        lines.into_lines(),
        [
            "",
            "--- Verified Response Body ---",
            "",
            "--- Account Snapshot ---",
            "Permissions: SPOT, MARGIN",
            "Commission rates: maker=10 bps  taker=-5 bps",
            "",
            "Non-zero balances (2):",
            "  Asset                     Free                Locked",
            &format!("  {}", "─".repeat(52)),
            "  BTC                -1.50000000            0.00000000",
            "  LONGASSETNAME            0.00000000            2.00000000",
            "",
            "Snapshot time: 2024-01-15 14:32:01 UTC",
        ]
    );
}

#[test]
fn an_account_may_lack_rates_and_time() {
    let account = BinanceAccount {
        maker_commission: Some(10),
        taker_commission: None,
        buyer_commission: None,
        seller_commission: None,
        can_trade: None,
        can_withdraw: None,
        can_deposit: None,
        update_time: None,
        balances: Vec::new(),
        permissions: Vec::new(),
    };
    let lines = body_report(Endpoint::Account, "{}", BodyReading::Account(&account, &[]));
    assert_eq!(lines.into_lines().len(), 9);
}

#[test]
fn stretches_of_a_connection_add_up() {
    let first = [record(true, 5), record(false, 1)];
    let second = [record(true, 6)];
    let both = [first[0], first[1], second[0]];
    assert_eq!(
        application_data_len(&both),
        application_data_len(&first) + application_data_len(&second)
    );
}

#[test]
fn chunk_framing_is_dropped() {
    for data in ["[]", "[{\"a\": [1]}]"] {
        let body = format!("1f\r\n{}\r\n0\r\n\r\n", data);
        assert_eq!(json_part(&body, Endpoint::Trades).unwrap(), data);
    }
}
