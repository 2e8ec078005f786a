use binance_pnl::disclosure::{
    disclosure_plan, is_hidden_header, public_target_ranges, ByteRange, RequestOutline,
    ResponseOutline, Reveal,
};
use binance_pnl::request::{request_headers, request_target, DataRequest, Endpoint};

fn shown(target: &str) -> String {
    let mut bytes = vec![b'X'; target.len()];
    for range in public_target_ranges(target.as_bytes()) {
        for i in range.from..range.to {
            bytes[i] = target.as_bytes()[i];
        }
    }
    String::from_utf8(bytes).unwrap()
}

#[test]
fn credential_headers_are_hidden_in_any_case() {
    for name in ["X-MBX-APIKEY", "x-mbx-apikey", "Authorization", "AUTHORIZATION", "User-Agent"] {
        assert!(is_hidden_header(name), "{}", name);
    }
    for name in ["Host", "Accept", "Connection", "", "x-mbx-apikey "] {
        assert!(!is_hidden_header(name), "{}", name);
    }
}

#[test]
fn the_signature_is_cut_out_of_a_target() {
    assert_eq!(shown("/a?b=1&signature=ff00"), "/a?b=1&signature=XXXX");
    assert_eq!(shown("/a?signature=ff00&b=1"), "/a?signature=XXXX&b=1");
    assert_eq!(shown("/a?signature=12&c&signature=34"), "/a?signature=XX&c&signature=XX");
}

#[test]
fn other_parameters_stay() {
    for target in ["", "/", "/api/v3/time", "/a?designature=1", "/a?b=signature", "/a?signature=",
        "/signature=1", "/a?signature=&b=2"] {
        assert_eq!(shown(target), target);
    }
}

#[test]
fn ranges_are_maximal() {
    let ranges = public_target_ranges(b"/a?signature=9&b");
    assert!(ranges == [ByteRange { from: 0, to: 13 }, ByteRange { from: 14, to: 16 }]);
}

#[test]
fn a_signed_request_keeps_its_credentials() {
    let request = DataRequest {
        endpoint: Endpoint::Trades,
        symbol: "BTCUSDT".to_string(),
        limit: 10,
        start_time: None,
        end_time: None,
    };
    let target = request_target(&request, 1_700_000_000_000, "secret");
    assert_eq!(
        shown(&target),
        format!(
            "/api/v3/myTrades?symbol=BTCUSDT&timestamp=1700000000000&recvWindow=60000&limit=10&signature={}",
            "X".repeat(64)
        )
    );
    let outline = RequestOutline {
        target: target.into_bytes(),
        header_names: request_headers("key").into_iter().map(|h| h.name).collect(),
    };
    let plan = disclosure_plan(&[outline], &[], true);
    assert!(plan == [
        Reveal::RequestStructure { request: 0 },
        Reveal::RequestTarget { request: 0, range: ByteRange { from: 0, to: 92 } },
        Reveal::RequestHeader { request: 0, header: 0 },
        Reveal::RequestHeader { request: 0, header: 1 },
        Reveal::RequestHeader { request: 0, header: 2 },
        Reveal::RequestHeader { request: 0, header: 3 },
        Reveal::RequestHeaderName { request: 0, header: 4 },
        Reveal::RequestHeaderName { request: 0, header: 5 },
    ]);
}

#[test]
fn responses_are_revealed_at_once_or_in_parts() {
    let responses = [
        ResponseOutline { header_count: 2, has_body: true },
        ResponseOutline { header_count: 0, has_body: false },
    ];
    assert!(disclosure_plan(&[], &responses, true)
        == [Reveal::Response { response: 0 }, Reveal::Response { response: 1 }]);
    assert!(disclosure_plan(&[], &responses, false)
        == [
            Reveal::ResponseStructure { response: 0 },
            Reveal::ResponseHeader { response: 0, header: 0 },
            Reveal::ResponseHeader { response: 0, header: 1 },
            Reveal::ResponseBody { response: 0 },
            Reveal::ResponseStructure { response: 1 },
        ]);
}
