use translator_proxy::hex::{decode_str, encode_bytes, encode_u32, encode_u64};
use translator_proxy::textfmt::{i64_to_string, u64_to_string};
use translator_proxy::translator::downstream::intermediate_downstream::{
    parse_request, render_configure_result_line, render_notify_line, render_request_line,
    render_response_bool_line, render_response_error_line, render_set_difficulty_line,
    render_set_extranonce_line, render_subscribe_result_line, IntermediateDownstream_, Notify,
    ParsedParams, Request,
};

#[test]
fn hex_encode_decode_round_trip() {
    let bytes = vec![0x00u8, 0xde, 0xad, 0xbe, 0xef, 0xff];
    let hexed = encode_bytes(&bytes);
    assert_eq!(hexed, "00deadbeefff");
    assert_eq!(decode_str(&hexed), Some(bytes));
}

#[test]
fn hex_decode_rejects_odd_and_uppercase() {
    assert_eq!(decode_str("abc"), None);
    assert_eq!(decode_str("AB"), None);
    assert_eq!(decode_str(""), Some(vec![]));
}

#[test]
fn hex_words() {
    assert_eq!(encode_u32(0x1FFFE000), "1fffe000");
    assert_eq!(encode_u32(0), "00000000");
    assert_eq!(encode_u64(0x0123456789abcdef), "0123456789abcdef");
}

#[test]
fn decimal_rendering() {
    assert_eq!(u64_to_string(0), "0");
    assert_eq!(u64_to_string(120000), "120000");
    assert_eq!(u64_to_string(u64::MAX), "18446744073709551615");
    assert_eq!(i64_to_string(-42), "-42");
    assert_eq!(i64_to_string(i64::MIN), "-9223372036854775808");
}

#[test]
fn parse_then_serialise_configure_is_byte_equivalent() {
    let line = "{\"id\":1,\"method\":\"mining.configure\",\"params\":[[\"version-rolling\"],{\"version-rolling.mask\":\"ffffffff\",\"version-rolling.min-bit-count\":2}]}";
    let m = parse_request(line).expect("canonical configure should parse");
    assert_eq!(render_request_line(&m), line);
    match m {
        Request::Configure { id, mask, min_bits } => {
            assert_eq!(id, 1);
            assert_eq!(mask, 0xffffffff);
            assert_eq!(min_bits, 2);
        }
        _ => panic!("wrong request kind"),
    }
}

#[test]
fn parse_then_serialise_subscribe_is_byte_equivalent() {
    let line = "{\"id\":2,\"method\":\"mining.subscribe\",\"params\":[\"cgminer/4.11.1\"]}";
    let m = parse_request(line).expect("canonical subscribe should parse");
    assert_eq!(render_request_line(&m), line);
}

#[test]
fn parse_then_serialise_authorize_is_byte_equivalent() {
    let line = "{\"id\":3,\"method\":\"mining.authorize\",\"params\":[\"user.w1\",\"x\"]}";
    let m = parse_request(line).expect("canonical authorize should parse");
    assert_eq!(render_request_line(&m), line);
}

#[test]
fn parse_then_serialise_submit_is_byte_equivalent() {
    let line = "{\"id\":4,\"method\":\"mining.submit\",\"params\":[\"user.w1\",\"deadbeef\",\"00000000\",\"64000000\",\"00000000\"]}";
    let m = parse_request(line).expect("canonical submit should parse");
    assert_eq!(render_request_line(&m), line);
    match m {
        Request::Submit {
            job_id,
            ref extranonce2,
            ntime,
            nonce,
            version_bits,
            ..
        } => {
            assert_eq!(job_id, 0xdeadbeef);
            assert_eq!(extranonce2, &vec![0u8, 0, 0, 0]);
            assert_eq!(ntime, 0x64000000);
            assert_eq!(nonce, 0);
            assert_eq!(version_bits, None);
        }
        _ => panic!("wrong request kind"),
    }
}

#[test]
fn parse_then_serialise_submit_with_version_bits() {
    let line = "{\"id\":9,\"method\":\"mining.submit\",\"params\":[\"w\",\"00000001\",\"aabb\",\"5f000000\",\"00000007\",\"1fffe000\"]}";
    let m = parse_request(line).expect("canonical submit should parse");
    assert_eq!(render_request_line(&m), line);
    match m {
        Request::Submit { version_bits, .. } => assert_eq!(version_bits, Some(0x1fffe000)),
        _ => panic!("wrong request kind"),
    }
}

#[test]
fn parse_then_serialise_extranonce_subscribe() {
    let line = "{\"id\":5,\"method\":\"mining.extranonce.subscribe\",\"params\":[]}";
    let m = parse_request(line).expect("canonical form should parse");
    assert_eq!(render_request_line(&m), line);
}

#[test]
fn render_then_parse_gives_back_the_request() {
    let m = Request::Authorize {
        id: 77,
        user: "acct.worker".to_string(),
        password: "pw".to_string(),
    };
    let line = render_request_line(&m);
    let back = parse_request(&line).expect("a rendered request parses");
    assert_eq!(render_request_line(&back), line);
}

#[test]
fn parser_rejects_junk() {
    assert!(parse_request("").is_err());
    assert!(parse_request("{\"id\":1}").is_err());
    assert!(parse_request("{\"id\":1,\"method\":\"mining.unknown\",\"params\":[]}").is_err());
    // Whitespace is not canonical.
    assert!(
        parse_request("{\"id\": 1,\"method\":\"mining.extranonce.subscribe\",\"params\":[]}")
            .is_err()
    );
    // A leading zero in the id is not canonical.
    assert!(
        parse_request("{\"id\":01,\"method\":\"mining.extranonce.subscribe\",\"params\":[]}")
            .is_err()
    );
}

#[test]
fn configure_result_reports_narrowed_mask() {
    let out = render_configure_result_line(1, 0xffffffff & translator_proxy::VERSION_ROLLING_MASK, 2);
    assert_eq!(
        out,
        "{\"id\":1,\"result\":[[[\"version-rolling\",{\"version-rolling.mask\":\"1fffe000\",\"version-rolling.min-bit-count\":2}]],false],\"error\":null}"
    );
}

#[test]
fn subscribe_result_line_shape() {
    let e1 = vec![0xaau8, 0xbb, 0x01];
    let out = render_subscribe_result_line(2, "0123456789abcdef", &e1, 4);
    assert_eq!(
        out,
        "{\"id\":2,\"result\":[[[\"mining.set_difficulty\",\"0123456789abcdef\"],[\"mining.notify\",\"ae6812eb4cd7735a302a8a9dd95cf71f\"]],\"aabb01\",4],\"error\":null}"
    );
}

#[test]
fn response_lines() {
    assert_eq!(
        render_response_bool_line(3, true),
        "{\"id\":3,\"result\":true,\"error\":null}"
    );
    assert_eq!(
        render_response_bool_line(4, false),
        "{\"id\":4,\"result\":false,\"error\":null}"
    );
    assert_eq!(
        render_response_error_line(4, 21, "Job ID not found"),
        "{\"id\":4,\"result\":null,\"error\":[21,\"Job ID not found\",null]}"
    );
}

#[test]
fn set_difficulty_line() {
    assert_eq!(
        render_set_difficulty_line(100000),
        "{\"id\":null,\"method\":\"mining.set_difficulty\",\"params\":[100000]}"
    );
}

#[test]
fn set_extranonce_line() {
    assert_eq!(
        render_set_extranonce_line(&vec![0x01u8, 0x02], 6),
        "{\"id\":null,\"method\":\"mining.set_extranonce\",\"params\":[\"0102\",6]}"
    );
}

#[test]
fn notify_line_shape() {
    let job = Notify {
        job_id: 1,
        prev_hash: vec![0x00u8, 0x11],
        coinbase1: vec![0xabu8],
        coinbase2: vec![0xcdu8],
        merkle_branches: vec![vec![0x01u8], vec![0x02u8]],
        version: 0x20000000,
        nbits: 0x1d00ffff,
        ntime: 0x64000000,
        clean_jobs: true,
    };
    assert_eq!(
        render_notify_line(&job),
        "{\"id\":null,\"method\":\"mining.notify\",\"params\":[\"00000001\",\"0011\",\"ab\",\"cd\",[\"01\",\"02\"],\"20000000\",\"1d00ffff\",\"64000000\",true]}"
    );
}

#[test]
fn notify_line_without_branches() {
    let job = Notify {
        job_id: 0,
        prev_hash: vec![],
        coinbase1: vec![],
        coinbase2: vec![],
        merkle_branches: vec![],
        version: 0,
        nbits: 0,
        ntime: 0,
        clean_jobs: false,
    };
    assert_eq!(
        render_notify_line(&job),
        "{\"id\":null,\"method\":\"mining.notify\",\"params\":[\"00000000\",\"\",\"\",\"\",[],\"00000000\",\"00000000\",\"00000000\",false]}"
    );
}

#[test]
fn classify_recognises_handshake_methods() {
    let line = "{\"id\":1,\"method\":\"mining.configure\",\"params\":[[\"version-rolling\"],{\"version-rolling.mask\":\"ffffffff\",\"version-rolling.min-bit-count\":2}]}";
    match IntermediateDownstream_::classify_line(line) {
        Ok(ParsedParams::Configure(c)) => {
            assert_eq!(c.version_rolling, vec!["version-rolling".to_string()]);
            assert_eq!(c.version_rolling_mask, "ffffffff");
        }
        _ => panic!("configure should classify"),
    }
    let sub = "{\"id\":2,\"method\":\"mining.subscribe\",\"params\":[\"agent\"]}";
    match IntermediateDownstream_::classify_line(sub) {
        Ok(ParsedParams::Subscribe(p)) => assert_eq!(p.subscription, "agent"),
        _ => panic!("subscribe should classify"),
    }
    let auth = "{\"id\":3,\"method\":\"mining.authorize\",\"params\":[\"u\",\"p\"]}";
    match IntermediateDownstream_::classify_line(auth) {
        Ok(ParsedParams::Authorize(p)) => {
            assert_eq!(p.user, "u");
            assert_eq!(p.password, "p");
        }
        _ => panic!("authorize should classify"),
    }
    let sub2 = "{\"id\":5,\"method\":\"mining.extranonce.subscribe\",\"params\":[]}";
    assert!(matches!(
        IntermediateDownstream_::classify_line(sub2),
        Ok(ParsedParams::Other)
    ));
}

#[test]
fn parser_rejects_strings_with_quotes_or_backslashes() {
    // A quote inside a name cannot appear in a canonical line, and a
    // backslash is not accepted either.
    assert!(parse_request(
        "{\"id\":3,\"method\":\"mining.authorize\",\"params\":[\"a\\\\b\",\"x\"]}"
    )
    .is_err());
}

#[test]
fn render_round_trip_with_empty_strings() {
    let m = Request::Subscribe {
        id: 0,
        agent: String::new(),
    };
    let line = render_request_line(&m);
    assert_eq!(line, "{\"id\":0,\"method\":\"mining.subscribe\",\"params\":[\"\"]}");
    let back = parse_request(&line).expect("rendered form parses");
    assert_eq!(render_request_line(&back), line);
}

#[test]
fn classify_tolerates_spacing() {
    let spaced = "{\"id\": 3, \"method\": \"mining.authorize\", \"params\": [\"u\", \"p\"]}";
    match IntermediateDownstream_::classify_line(spaced) {
        Ok(ParsedParams::Authorize(p)) => {
            assert_eq!(p.user, "u");
            assert_eq!(p.password, "p");
        }
        _ => panic!("spaced authorize should classify"),
    }
}
