use foxprox::model::AuditDecision;
use foxprox::policy::{EventKind, Hostname, HttpMethod, HttpScheme, PolicyEvent, Protocol};
use foxprox::proxy::{
    handle_greeting, http_connect_response, http_proxy_action, http_request_head,
    origin_form_request, proxy_connect_answer, proxy_egress_step, read_http_proxy_head,
    rewrite_http_request_for_origin,
    socks5_connect_request_len, socks5_connect_response, socks5_greeting_len,
    socks5_greeting_offers_no_auth, HttpProxyAction, HttpProxyResponse, HttpProxyServeError,
    ProxyEgressStep, socks5_connect_reply, socks5_tunnel_step, Socks5TunnelStep,
    Socks5GreetingResponse, Socks5Response, Socks5ServeError,
};

#[test]
fn socks5_greeting_accepts_no_authentication_method() {
    let result = handle_greeting(b"\x05\x02\x02\x00");

    assert!(result.accepted);
    assert_eq!(
        result.response,
        Socks5GreetingResponse::NoAuthenticationRequired
    );
    assert_eq!(result.response.as_bytes(), b"\x05\x00");
}

#[test]
fn socks5_greeting_rejects_unsupported_auth_or_malformed_lengths() {
    for greeting in [
        b"\x05\x01\x02".as_slice(),
        b"\x04\x01\x00".as_slice(),
        b"\x05\x00".as_slice(),
        b"\x05\x02\x00".as_slice(),
    ] {
        let result = handle_greeting(greeting);
        assert!(!result.accepted);
        assert_eq!(result.response, Socks5GreetingResponse::NoAcceptableMethods);
        assert_eq!(result.response.as_bytes(), b"\x05\xff");
    }
}

#[test]
fn socks5_greeting_rejects_trailing_bytes_and_empty_input() {
    assert!(!socks5_greeting_offers_no_auth(b""));
    assert!(!socks5_greeting_offers_no_auth(b"\x05\x01\x00\x00"));
    assert!(socks5_greeting_offers_no_auth(b"\x05\x01\x00"));
}

#[test]
fn http_proxy_responses_have_exact_bytes() {
    assert_eq!(
        HttpProxyResponse::ConnectionEstablished.as_bytes(),
        b"HTTP/1.1 200 Connection Established\r\n\r\n".to_vec()
    );
    assert_eq!(
        HttpProxyResponse::Forbidden.as_bytes(),
        b"HTTP/1.1 403 Forbidden\r\nContent-Length: 0\r\n\r\n".to_vec()
    );
    assert_eq!(
        HttpProxyResponse::BadGateway.as_bytes(),
        b"HTTP/1.1 502 Bad Gateway\r\nContent-Length: 0\r\n\r\n".to_vec()
    );
}

#[test]
fn socks5_responses_have_exact_bytes() {
    assert_eq!(
        Socks5Response::Succeeded.as_bytes(),
        b"\x05\x00\x00\x01\x00\x00\x00\x00\x00\x00".to_vec()
    );
    assert_eq!(
        Socks5Response::ConnectionNotAllowedByRuleset.as_bytes(),
        b"\x05\x02\x00\x01\x00\x00\x00\x00\x00\x00".to_vec()
    );
    assert_eq!(
        Socks5Response::GeneralFailure.as_bytes(),
        b"\x05\x01\x00\x01\x00\x00\x00\x00\x00\x00".to_vec()
    );
}

#[test]
fn preflight_decisions_map_to_responses() {
    assert_eq!(http_proxy_action(AuditDecision::Allowed), HttpProxyAction::Forward);
    for decision in [
        AuditDecision::Denied,
        AuditDecision::FailClosed,
        AuditDecision::Observed,
    ] {
        assert_eq!(
            http_proxy_action(decision),
            HttpProxyAction::Respond(HttpProxyResponse::Forbidden)
        );
        assert_eq!(http_connect_response(decision), HttpProxyResponse::Forbidden);
    }
    assert_eq!(
        http_connect_response(AuditDecision::Allowed),
        HttpProxyResponse::ConnectionEstablished
    );
    assert_eq!(socks5_connect_response(AuditDecision::Allowed), Socks5Response::Succeeded);
    assert_eq!(
        socks5_connect_response(AuditDecision::Denied),
        Socks5Response::ConnectionNotAllowedByRuleset
    );
    assert_eq!(
        socks5_connect_response(AuditDecision::FailClosed),
        Socks5Response::GeneralFailure
    );
    assert_eq!(
        socks5_connect_response(AuditDecision::Observed),
        Socks5Response::GeneralFailure
    );
}

#[test]
fn proxy_head_stops_at_blank_line_limit_or_end() {
    let stream = b"GET http://example.com/ HTTP/1.1\r\nHost: example.com\r\n\r\nBODY";
    let head = read_http_proxy_head(stream, 1024);
    assert_eq!(head, stream[..stream.len() - 4].to_vec());

    assert_eq!(read_http_proxy_head(stream, 10), stream[..10].to_vec());
    assert_eq!(read_http_proxy_head(b"GET /", 1024), b"GET /".to_vec());
    assert_eq!(read_http_proxy_head(stream, 0), Vec::<u8>::new());
}

#[test]
fn request_head_too_large_is_refused() {
    let stream = b"GET / HTTP/1.1\r\nHost: a\r\n\r\n";
    assert_eq!(http_request_head(stream, 64).unwrap(), stream.to_vec());
    assert_eq!(
        http_request_head(stream, 8),
        Err(HttpProxyServeError::RequestHeadTooLarge { limit: 8 })
    );
    // The head may end exactly at the limit.
    assert_eq!(http_request_head(stream, stream.len()).unwrap(), stream.to_vec());
    // A stream that ends early yields what was read.
    assert_eq!(http_request_head(b"GET", 64).unwrap(), b"GET".to_vec());
}

#[test]
fn socks5_frames_have_expected_lengths() {
    assert_eq!(socks5_greeting_len(b"\x05"), None);
    assert_eq!(socks5_greeting_len(b"\x05\x02"), Some(4));
    assert_eq!(socks5_connect_request_len(b"\x05\x01\x00"), Ok(None));
    assert_eq!(socks5_connect_request_len(b"\x05\x01\x00\x01"), Ok(Some(10)));
    assert_eq!(socks5_connect_request_len(b"\x05\x01\x00\x04"), Ok(Some(22)));
    assert_eq!(socks5_connect_request_len(b"\x05\x01\x00\x03"), Ok(None));
    assert_eq!(socks5_connect_request_len(b"\x05\x01\x00\x03\x0b"), Ok(Some(18)));
    assert_eq!(
        socks5_connect_request_len(b"\x05\x01\x00\x02"),
        Err(Socks5ServeError::UnsupportedAddressType { atyp: 2 })
    );
}

#[test]
fn serve_errors_describe_themselves() {
    assert_eq!(
        HttpProxyServeError::RequestHeadTooLarge { limit: 8192 }.describe(),
        "http-proxy-request-head-too-large: limit=8192"
    );
    assert_eq!(
        HttpProxyServeError::Io("reset".to_string()).describe(),
        "http-proxy-io-error: reset"
    );
    assert_eq!(
        Socks5ServeError::MalformedGreeting.describe(),
        "socks5-malformed-greeting"
    );
    assert_eq!(
        Socks5ServeError::UnsupportedAddressType { atyp: 0 }.describe(),
        "socks5-unsupported-address-type: atyp=0"
    );
    assert_eq!(
        Socks5ServeError::Io("eof".to_string()).describe(),
        "socks5-io-error: eof"
    );
}

fn http_event(path_query: &str) -> PolicyEvent {
    PolicyEvent {
        kind: EventKind::HttpRequest {
            method: HttpMethod::Get,
            scheme: HttpScheme::Http,
            path_query: path_query.to_string(),
        },
        protocol: Protocol::Http,
        destination_ip: None,
        destination_port: Some(80),
        hostname_attribution: None,
        explicit_hostname: Some(Hostname::new("example.com")),
    }
}

#[test]
fn forwarded_request_line_is_rewritten_to_origin_form() {
    let head = b"GET http://example.com/path?q=1 HTTP/1.1\r\nHost: example.com\r\n\r\n";
    assert_eq!(
        rewrite_http_request_for_origin(&http_event("/path?q=1"), head).unwrap(),
        b"GET /path?q=1 HTTP/1.1\r\nHost: example.com\r\n\r\n".to_vec()
    );
    // A bare line feed also ends the request line.
    assert_eq!(
        rewrite_http_request_for_origin(&http_event("/"), b"HEAD http://example.com/ HTTP/1.0\nX: y\n\n")
            .unwrap(),
        b"HEAD / HTTP/1.0\nX: y\n\n".to_vec()
    );
    // Unicode whitespace separates words too.
    assert_eq!(
        rewrite_http_request_for_origin(&http_event("/p"), "GET\u{a0}http://x/p HTTP/1.1\r\n".as_bytes())
            .unwrap(),
        b"GET /p HTTP/1.1\r\n".to_vec()
    );
}

#[test]
fn origin_form_rewrite_refuses_what_it_cannot_rewrite() {
    let event = http_event("/path");
    assert!(rewrite_http_request_for_origin(&event, b"GET http://example.com/path HTTP/1.1").is_none());
    assert!(rewrite_http_request_for_origin(&event, b"GET http://example.com/path\r\n").is_none());
    assert!(rewrite_http_request_for_origin(&event, b"GET a b c\r\n").is_none());
    assert!(rewrite_http_request_for_origin(&event, &[0x47, 0xff, 0x20, 0x0d, 0x0a]).is_none());
    let mut not_http = http_event("/path");
    not_http.kind = EventKind::TcpConnectAttempt;
    assert!(rewrite_http_request_for_origin(&not_http, b"GET http://x/ HTTP/1.1\r\n").is_none());
    assert_eq!(
        origin_form_request(&vec!["GET", "http://x/a", "HTTP/1.1"], "/a", b"\r\n"),
        Some(b"GET /a HTTP/1.1\r\n".to_vec())
    );
    assert_eq!(origin_form_request(&vec!["GET", "HTTP/1.1"], "/a", b""), None);
}

#[test]
fn denied_or_malformed_proxy_requests_never_reach_egress() {
    for decision in [AuditDecision::Denied, AuditDecision::FailClosed, AuditDecision::Observed] {
        assert_eq!(
            proxy_egress_step(decision, true),
            ProxyEgressStep::Answer(HttpProxyResponse::Forbidden)
        );
    }
    assert_eq!(
        proxy_egress_step(AuditDecision::Allowed, false),
        ProxyEgressStep::Answer(HttpProxyResponse::BadGateway)
    );
    assert_eq!(proxy_egress_step(AuditDecision::Allowed, true), ProxyEgressStep::Connect);
}

#[test]
fn failed_egress_is_answered_bad_gateway() {
    assert_eq!(proxy_connect_answer(false, true), Some(HttpProxyResponse::BadGateway));
    assert_eq!(proxy_connect_answer(false, false), Some(HttpProxyResponse::BadGateway));
    assert_eq!(proxy_connect_answer(true, true), Some(HttpProxyResponse::ConnectionEstablished));
    assert_eq!(proxy_connect_answer(true, false), None);
}

#[test]
fn denied_socks5_tunnel_never_reaches_egress_and_failed_connect_is_general_failure() {
    assert_eq!(
        socks5_tunnel_step(AuditDecision::Denied, true),
        Socks5TunnelStep::Reply(Socks5Response::ConnectionNotAllowedByRuleset)
    );
    assert_eq!(
        socks5_tunnel_step(AuditDecision::FailClosed, true),
        Socks5TunnelStep::Reply(Socks5Response::GeneralFailure)
    );
    assert_eq!(
        socks5_tunnel_step(AuditDecision::Allowed, false),
        Socks5TunnelStep::Reply(Socks5Response::GeneralFailure)
    );
    assert_eq!(socks5_tunnel_step(AuditDecision::Allowed, true), Socks5TunnelStep::Connect);
    assert_eq!(socks5_connect_reply(true), Socks5Response::Succeeded);
    assert_eq!(socks5_connect_reply(false), Socks5Response::GeneralFailure);
}
