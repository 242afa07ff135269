use polycopy_tool::api::{
    clob_base_or_default, http_status_failure, is_success_status, transport_failure, request_url, trades_headers, trades_path, ScanAction,
    ScanState, DEFAULT_CLOB_BASE,
};
use polycopy_tool::tool::{context_payload, description, schema, tool_response};
use polycopy_tool::types::Trade;
use polycopy_tool::wallets::{add_wallet, remove_wallet};

fn list(items: &[&str]) -> Vec<String> {
    items.iter().map(|s| s.to_string()).collect()
}

#[test]
fn add_wallet_lowercases_and_appends() {
    let r = add_wallet(list(&["0xaaa"]), "0xBBB");
    assert_eq!(r, list(&["0xaaa", "0xbbb"]));
}

#[test]
fn add_wallet_skips_existing() {
    let r = add_wallet(list(&["0xaaa", "0xbbb"]), "0xAAA");
    assert_eq!(r, list(&["0xaaa", "0xbbb"]));
}

#[test]
fn add_wallet_twice_is_once() {
    let once = add_wallet(list(&[]), "0xCc");
    let twice = add_wallet(once.clone(), "0xcC");
    assert_eq!(once, list(&["0xcc"]));
    assert_eq!(twice, once);
}

#[test]
fn remove_wallet_removes_all_matches_and_keeps_order() {
    let r = remove_wallet(list(&["0xa", "0xb", "0xa", "0xc"]), "0xA");
    assert_eq!(r, list(&["0xb", "0xc"]));
}

#[test]
fn remove_wallet_missing_is_noop() {
    let r = remove_wallet(list(&["0xa", "0xb"]), "0xd");
    assert_eq!(r, list(&["0xa", "0xb"]));
    assert_eq!(remove_wallet(list(&[]), "0xd"), list(&[]));
}

#[test]
fn remove_after_add_restores_list() {
    let start = list(&["0xa", "0xb"]);
    let added = add_wallet(start.clone(), "0xNEW");
    assert_eq!(remove_wallet(added, "0xnew"), start);
}

#[test]
fn remove_is_case_insensitive_only_on_the_argument() {
    // stored entries are compared as they are; only the argument is lower-cased
    let r = remove_wallet(list(&["0xABC", "0xabc"]), "0xABC");
    assert_eq!(r, list(&["0xABC"]));
}

#[test]
fn trades_path_uses_seconds() {
    assert_eq!(trades_path("0xabc", 0), "/trades?maker_address=0xabc&after=0");
    assert_eq!(
        trades_path("0xabc", 1712345678999),
        "/trades?maker_address=0xabc&after=1712345678"
    );
    assert_eq!(trades_path("w", 999), "/trades?maker_address=w&after=0");
    assert_eq!(
        trades_path("w", u64::MAX),
        format!("/trades?maker_address=w&after={}", u64::MAX / 1000)
    );
}

#[test]
fn request_url_joins_base_and_path() {
    assert_eq!(
        request_url(DEFAULT_CLOB_BASE, "/trades?x=1"),
        "https://clob.polymarket.com/trades?x=1"
    );
}

#[test]
fn clob_base_override() {
    assert_eq!(clob_base_or_default(None), "https://clob.polymarket.com");
    assert_eq!(clob_base_or_default(Some("http://localhost:8080")), "http://localhost:8080");
}

#[test]
fn headers_with_and_without_key() {
    assert_eq!(trades_headers(None), "{}");
    assert_eq!(trades_headers(Some("k-1")), r#"{"POLY_API_KEY":"k-1"}"#);
}

#[test]
fn success_statuses() {
    assert!(is_success_status(200));
    assert!(is_success_status(204));
    assert!(is_success_status(299));
    assert!(!is_success_status(199));
    assert!(!is_success_status(300));
    assert!(!is_success_status(404));
    assert!(!is_success_status(500));
}

fn trade(id: &str) -> Trade {
    Trade {
        id: id.to_string(),
        asset_id: "1".to_string(),
        price: "0.5".to_string(),
        side: "BUY".to_string(),
    }
}

#[test]
fn scan_state_walks_wallets_and_gathers_in_order() {
    let mut s = ScanState::new();
    assert!(matches!(s.next_action(2), ScanAction::FetchWallet(0)));
    s.record_trades(vec![trade("a"), trade("b")]);
    assert!(matches!(s.next_action(2), ScanAction::FetchWallet(1)));
    s.record_trades(vec![trade("c")]);
    assert!(matches!(s.next_action(2), ScanAction::Finish));
    let ids: Vec<&str> = s.picks.iter().map(|t| t.id.as_str()).collect();
    assert_eq!(ids, vec!["a", "b", "c"]);
    assert!(matches!(ScanState::new().next_action(0), ScanAction::Finish));
}

#[test]
fn scan_state_aborts_after_failed_fetch() {
    let mut s = ScanState::new();
    s.record_trades(vec![trade("a")]);
    assert!(matches!(s.next_action(3), ScanAction::FetchWallet(1)));
    s.record_failure("0xbad", "GET /trades returned HTTP 500: oops");
    match s.next_action(3) {
        ScanAction::Abort(m) => {
            assert_eq!(m, "fetch_trades 0xbad: GET /trades returned HTTP 500: oops")
        }
        other => panic!("expected abort, got {:?}", other),
    }
    // a failed scan keeps aborting, even once every wallet is done
    assert!(matches!(s.next_action(1), ScanAction::Abort(_)));
    assert_eq!(s.picks.len(), 1);
}

#[test]
fn tool_response_fields() {
    let ok = tool_response(Ok("out".to_string()));
    assert_eq!(ok.output.as_deref(), Some("out"));
    assert!(ok.error.is_none());
    let err = tool_response(Err("bad".to_string()));
    assert!(err.output.is_none());
    assert_eq!(err.error.as_deref(), Some("bad"));
}

#[test]
fn context_payload_trims_and_skips_blank() {
    assert_eq!(context_payload(None), None);
    assert_eq!(context_payload(Some("")), None);
    assert_eq!(context_payload(Some("  \n\t ")), None);
    assert_eq!(context_payload(Some("  {\"a\":1} \n")), Some("{\"a\":1}"));
}

#[test]
fn schema_is_json_listing_actions() {
    let v: serde_json::Value = serde_json::from_str(&schema()).unwrap();
    assert_eq!(v["type"], "object");
    let required: Vec<&str> =
        v["required"].as_array().unwrap().iter().map(|x| x.as_str().unwrap()).collect();
    assert_eq!(required, vec!["action"]);
    let actions: Vec<&str> = v["properties"]["action"]["enum"]
        .as_array()
        .unwrap()
        .iter()
        .map(|x| x.as_str().unwrap())
        .collect();
    assert_eq!(actions, vec!["scan", "add_wallet", "remove_wallet", "version"]);
}

#[test]
fn description_mentions_statelessness() {
    let d = description();
    assert!(d.starts_with("Stateless Polymarket trade scanner. Pass last_synced_ms"));
    assert!(d.contains("the tool has no storage. scan returns"));
}

#[test]
fn fetch_failure_messages() {
    assert_eq!(
        transport_failure("/trades?maker_address=w&after=0", "timeout"),
        "GET /trades?maker_address=w&after=0: timeout"
    );
    assert_eq!(
        http_status_failure("/trades", 404, b"not found"),
        "GET /trades returned HTTP 404: not found"
    );
    assert_eq!(
        http_status_failure("/t", 500, &[0x61, 0xff, 0x62]),
        "GET /t returned HTTP 500: a\u{fffd}b"
    );
}
