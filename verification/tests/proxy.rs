use hl_orderbook::proxy::{
    build_target_url, classify_ws_text, filtered_headers, health_body, info_body_routes_to_local,
    is_hop_by_hop_header, local_info_method, read_failed, routes_to_info, select_http_upstream,
    send_failed, trim_trailing_slash, unavailable, ws_error_message, ClientFrame, Delivery, Links, Plan,
    Upstreams, WsRoute,
};

fn upstreams() -> Upstreams {
    Upstreams {
        official_api_base: "https://api.hyperliquid.xyz".to_string(),
        official_ws_url: "wss://api.hyperliquid.xyz/ws".to_string(),
        local_ws_url: "ws://127.0.0.1:8000/ws".to_string(),
        local_api_base: "http://127.0.0.1:3001".to_string(),
    }
}

#[test]
fn info_path_is_detected() {
    assert!(routes_to_info("/info"));
    assert!(routes_to_info("/info/"));
    assert!(!routes_to_info("/exchange"));
}

#[test]
fn listed_info_methods_route_to_local() {
    assert!(local_info_method("meta"));
    assert!(local_info_method("exchangeStatus"));
    assert!(local_info_method("perpDexs"));
    assert!(!local_info_method("allMids"));
}

#[test]
fn info_body_uses_type_field_for_routing() {
    assert!(info_body_routes_to_local(br#"{"type":"meta"}"#));
    assert!(!info_body_routes_to_local(br#"{"type":"allMids"}"#));
    assert!(!info_body_routes_to_local(br#"{"coin":"BTC"}"#));
}

#[test]
fn bodies_that_are_no_json_go_to_the_official_api() {
    assert!(!info_body_routes_to_local(b"meta"));
    assert!(!info_body_routes_to_local(b""));
}

#[test]
fn target_url_preserves_query_string() {
    let uri: axum::http::Uri = "/info?foo=bar".parse().expect("uri should parse");
    let path_and_query = uri.path_and_query().map_or(uri.path(), |value| value.as_str());
    assert_eq!(
        build_target_url("https://api.hyperliquid.xyz/", path_and_query),
        "https://api.hyperliquid.xyz/info?foo=bar"
    );
}

#[test]
fn websocket_supported_subscriptions_route_local() {
    assert_eq!(
        classify_ws_text(r#"{ "method": "subscribe", "subscription": { "type": "l2Book", "coin": "BTC" } }"#),
        WsRoute::Local
    );
    assert_eq!(
        classify_ws_text(
            r#"{ "method": "unsubscribe", "subscription": { "type": "orderUpdates", "user": "0x1234567890abcdef1234567890abcdef12345678" } }"#
        ),
        WsRoute::Local
    );
}

#[test]
fn websocket_unsupported_messages_stay_official() {
    assert_eq!(
        classify_ws_text(
            r#"{ "method": "subscribe", "subscription": { "type": "userFills", "user": "0x1234567890abcdef1234567890abcdef12345678" } }"#
        ),
        WsRoute::Official
    );
    assert_eq!(
        classify_ws_text(r#"{ "method": "post", "request": { "type": "info", "payload": { "type": "allMids" } } }"#),
        WsRoute::Official
    );
}

#[test]
fn websocket_ping_is_answered_directly() {
    assert_eq!(classify_ws_text(r#"{ "method": "ping" }"#), WsRoute::DirectPong);
}

#[test]
fn websocket_text_that_is_no_json_stays_official() {
    assert_eq!(classify_ws_text("hello"), WsRoute::Official);
}

#[test]
fn select_http_upstream_routes_info_to_local_only_for_listed_types() {
    let state = upstreams();
    assert_eq!(
        select_http_upstream(&state, true, "/info", br#"{"type":"meta"}"#),
        state.local_api_base.as_str()
    );
    assert_eq!(
        select_http_upstream(&state, true, "/info", br#"{"type":"allMids"}"#),
        state.official_api_base.as_str()
    );
    assert_eq!(select_http_upstream(&state, true, "/exchange", br#"{}"#), state.official_api_base.as_str());
    assert_eq!(
        select_http_upstream(&state, false, "/info", br#"{"type":"meta"}"#),
        state.official_api_base.as_str()
    );
}

#[test]
fn trailing_slashes_do_not_matter() {
    assert_eq!(trim_trailing_slash("http://a//"), "http://a");
    assert_eq!(trim_trailing_slash("http://a"), "http://a");
    assert_eq!(trim_trailing_slash("//"), "");
    assert_eq!(build_target_url("http://a///", "/x"), build_target_url("http://a", "/x"));
}

#[test]
fn headers_of_one_connection_are_dropped() {
    assert!(is_hop_by_hop_header("content-length"));
    assert!(!is_hop_by_hop_header("content-type"));
    let names = vec!["host".to_string(), "accept".to_string(), "te".to_string()];
    assert_eq!(filtered_headers(&names), vec![false, true, false]);
}

#[test]
fn shared_frames_go_to_both_servers() {
    let links = Links { official: true, local: false };
    assert_eq!(
        links.plan(&ClientFrame::Shared),
        Plan { pong: false, official: Delivery::Send, local: Delivery::Unavailable, end: false }
    );
    assert_eq!(
        links.plan(&ClientFrame::Close),
        Plan { pong: false, official: Delivery::Close, local: Delivery::Skip, end: true }
    );
}

#[test]
fn text_goes_one_way() {
    let links = Links { official: true, local: true };
    let local = links.plan(&ClientFrame::Text(r#"{"method":"subscribe","subscription":{"type":"bbo"}}"#));
    assert_eq!(local, Plan { pong: false, official: Delivery::Skip, local: Delivery::Send, end: false });
    let official = links.plan(&ClientFrame::Text(r#"{"method":"post"}"#));
    assert_eq!(official, Plan { pong: false, official: Delivery::Send, local: Delivery::Skip, end: false });
    let pong = links.plan(&ClientFrame::Text(r#"{"method":"ping"}"#));
    assert_eq!(pong, Plan { pong: true, official: Delivery::Skip, local: Delivery::Skip, end: false });
}

#[test]
fn a_server_that_failed_is_not_used_again() {
    let mut links = Links { official: true, local: true };
    links.failed(false, true);
    assert_eq!(links, Links { official: true, local: false });
    links.failed(true, false);
    assert_eq!(links, Links { official: false, local: false });
}

#[test]
fn error_texts_are_quoted() {
    assert_eq!(ws_error_message("a \"b\""), r#"{"channel":"error","data":"a \"b\""}"#);
    assert_eq!(unavailable("local"), "local websocket upstream unavailable");
    assert_eq!(send_failed("local", "gone"), "failed to send to local websocket upstream: gone");
    assert_eq!(read_failed("official", "gone"), "official websocket upstream error: gone");
}

#[test]
fn health_names_the_upstreams() {
    let body = health_body(&upstreams());
    let v: serde_json::Value = serde_json::from_str(&body).unwrap();
    assert_eq!(v["status"], "ok");
    assert_eq!(v["local_api_base"], "http://127.0.0.1:3001");
    assert_eq!(v["official_ws_url"], "wss://api.hyperliquid.xyz/ws");
}
