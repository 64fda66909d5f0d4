use content_proxy::auth::{extract_token, get_home_page, get_token, protect_api, AuthError, HomePage, LoginDTO};
use content_proxy::proxy::{ReadErrorKind, ReadOutcome, RelayAction, RelayHalf, ServiceWorker, CHUNK_SIZE};
use content_proxy::rule::{ParsedRule, RuleDTO, RuleTypeDTO};
use content_proxy::service::{ProxyConfig, ServiceInfo};
use content_proxy::snapshot::Snapshot;
use content_proxy::store::RuleStore;

fn dto(service: &str, text: &str, kind: RuleTypeDTO) -> RuleDTO {
    RuleDTO { service_name: service.to_string(), rule_text: text.to_string(), rule_type: kind }
}

/// Runs a chunk through a fresh client half that screens with `snapshot`.
fn client_action(snapshot: Snapshot, chunk: &[u8]) -> RelayAction {
    let mut half = RelayHalf::client(snapshot);
    half.step(ReadOutcome::Data, chunk)
}

#[test]
fn transparent_proxy_forwards_both_ways() {
    let mut worker = ServiceWorker::new();
    let snapshot = worker.accept_connection(&vec![]);
    let mut client = RelayHalf::client(snapshot);
    let mut upstream = RelayHalf::upstream();
    assert_eq!(client.step(ReadOutcome::Data, b"hello"), RelayAction::Forward);
    assert_eq!(upstream.step(ReadOutcome::Data, b"hello"), RelayAction::Forward);
    assert_eq!(client.copied, 5);
    assert_eq!(client.step(ReadOutcome::Data, b""), RelayAction::Finish(5));
    assert_eq!(upstream.step(ReadOutcome::Cancelled, b""), RelayAction::Finish(5));
}

#[test]
fn ascii_rule_blocks_request() {
    let mut store = RuleStore::new(vec!["s1".to_string()]);
    let (rule, msg) = store.add_rule(dto("s1", ".git", RuleTypeDTO::Ascii)).unwrap();
    assert_eq!(rule.id, 1);
    let mut worker = ServiceWorker::new();
    let snapshot = worker.accept_connection(&vec![msg]);
    let mut client = RelayHalf::client(snapshot);
    assert_eq!(client.step(ReadOutcome::Data, b"GET /.git/config HTTP/1.0\r\n\r\n"), RelayAction::Drop(0));
    assert_eq!(client.copied, 0);
}

#[test]
fn drop_reports_bytes_already_copied() {
    let mut snapshot = Snapshot::new();
    snapshot.apply(&ParsedRule::add(1, "s1".to_string(), b"evil".to_vec()));
    let mut client = RelayHalf::client(snapshot);
    assert_eq!(client.step(ReadOutcome::Data, b"fine"), RelayAction::Forward);
    assert_eq!(client.step(ReadOutcome::Data, b"so evil"), RelayAction::Drop(4));
}

#[test]
fn hex_rule_blocks_binary() {
    let mut store = RuleStore::new(vec!["s1".to_string()]);
    let (_, msg) = store.add_rule(dto("s1", "cafebabe", RuleTypeDTO::Hex)).unwrap();
    let mut worker = ServiceWorker::new();
    let snapshot = worker.accept_connection(&vec![msg]);
    assert_eq!(client_action(snapshot, &[0xCA, 0xFE, 0xBA, 0xBE, 0x00, 0x34]), RelayAction::Drop(0));
}

#[test]
fn rule_removal_restores_flow() {
    let mut store = RuleStore::new(vec!["s1".to_string()]);
    let (_, add) = store.add_rule(dto("s1", ".git", RuleTypeDTO::Ascii)).unwrap();
    let mut worker = ServiceWorker::new();
    let first = worker.accept_connection(&vec![add]);
    assert_eq!(client_action(first, b"GET /.git/ HTTP/1.0\r\n\r\n"), RelayAction::Drop(0));
    let (service, remove) = store.delete_rule(1).unwrap();
    assert_eq!(service, "s1");
    let second = worker.accept_connection(&vec![remove]);
    assert_eq!(client_action(second, b"GET /.git/ HTTP/1.0\r\n\r\n"), RelayAction::Forward);
}

#[test]
fn services_are_isolated() {
    let mut store = RuleStore::new(vec!["s1".to_string(), "s2".to_string()]);
    let (_, msg) = store.add_rule(dto("s1", ".git", RuleTypeDTO::Ascii)).unwrap();
    assert_eq!(msg.service_name.as_deref(), Some("s1"));
    let mut w1 = ServiceWorker::new();
    let mut w2 = ServiceWorker::new();
    let c1 = w1.accept_connection(&vec![msg]);
    let c2 = w2.accept_connection(&vec![]);
    assert_eq!(client_action(c1, b"GET /.git"), RelayAction::Drop(0));
    assert_eq!(client_action(c2, b"GET /.git"), RelayAction::Forward);
}

#[test]
fn snapshot_is_captured_at_accept() {
    let mut worker = ServiceWorker::new();
    let in_flight = worker.accept_connection(&vec![]);
    let later = worker.accept_connection(&vec![ParsedRule::add(1, "s1".to_string(), b"x".to_vec())]);
    assert_eq!(client_action(in_flight, b"x"), RelayAction::Forward);
    assert_eq!(client_action(later, b"x"), RelayAction::Drop(0));
}

#[test]
fn queued_messages_apply_in_order() {
    let mut worker = ServiceWorker::new();
    let msgs = vec![
        ParsedRule::add(1, "s1".to_string(), b"a".to_vec()),
        ParsedRule::remove(1),
        ParsedRule::add(2, "s1".to_string(), b"b".to_vec()),
    ];
    let snap = worker.accept_connection(&msgs);
    assert_eq!(client_action(snap.copy(), b"a"), RelayAction::Forward);
    assert_eq!(client_action(snap, b"b"), RelayAction::Drop(0));
}

#[test]
fn remove_deletes_only_its_id() {
    let mut snapshot = Snapshot::new();
    snapshot.apply(&ParsedRule::add(1, "s1".to_string(), b"one".to_vec()));
    snapshot.apply(&ParsedRule::add(2, "s1".to_string(), b"two".to_vec()));
    snapshot.apply(&ParsedRule::remove(1));
    snapshot.apply(&ParsedRule::remove(9));
    assert!(!snapshot.blocks(b"one"));
    assert!(snapshot.blocks(b"two"));
}

#[test]
fn add_overwrites_same_id() {
    let mut snapshot = Snapshot::new();
    snapshot.apply(&ParsedRule::add(1, "s1".to_string(), b"old".to_vec()));
    snapshot.apply(&ParsedRule::add(1, "s1".to_string(), b"new".to_vec()));
    assert!(!snapshot.blocks(b"old"));
    assert!(snapshot.blocks(b"new"));
}

#[test]
fn empty_add_is_ignored() {
    let mut snapshot = Snapshot::new();
    snapshot.apply(&ParsedRule::add(1, "s1".to_string(), vec![]));
    assert!(!snapshot.blocks(b"anything"));
}

#[test]
fn pattern_split_across_reads_is_not_detected() {
    let mut snapshot = Snapshot::new();
    snapshot.apply(&ParsedRule::add(1, "s1".to_string(), b".git".to_vec()));
    let mut client = RelayHalf::client(snapshot);
    let mut first = vec![b'a'; CHUNK_SIZE - 2];
    first.extend_from_slice(b".g");
    assert_eq!(first.len(), CHUNK_SIZE);
    assert_eq!(client.step(ReadOutcome::Data, &first), RelayAction::Forward);
    assert_eq!(client.step(ReadOutcome::Data, b"it/config"), RelayAction::Forward);
    assert_eq!(client.copied, (CHUNK_SIZE + 9) as u64);
}

#[test]
fn upstream_half_is_not_screened() {
    let mut upstream = RelayHalf::upstream();
    assert_eq!(upstream.step(ReadOutcome::Data, b".git"), RelayAction::Forward);
}

#[test]
fn read_errors() {
    let mut half = RelayHalf::upstream();
    half.step(ReadOutcome::Data, b"abc");
    assert_eq!(half.step(ReadOutcome::Failed(ReadErrorKind::ConnectionReset), b""), RelayAction::Finish(3));
    assert_eq!(half.step(ReadOutcome::Failed(ReadErrorKind::ConnectionAborted), b""), RelayAction::Finish(3));
    assert_eq!(half.step(ReadOutcome::Failed(ReadErrorKind::Other), b""), RelayAction::Fail);
}

#[test]
fn config_service_names() {
    let config = ProxyConfig {
        services: vec![
            ServiceInfo { service_name: "s1".to_string(), from: "127.0.0.1:9001".to_string(), to: "127.0.0.1:9101".to_string() },
            ServiceInfo { service_name: "s2".to_string(), from: "127.0.0.1:9002".to_string(), to: "127.0.0.1:9102".to_string() },
        ],
    };
    assert_eq!(config.service_names(), vec!["s1".to_string(), "s2".to_string()]);
}

#[test]
fn api_requires_identity() {
    assert!(!protect_api(&None));
    assert!(protect_api(&Some("ziocecio".to_string())));
    assert_eq!(get_home_page(&None), HomePage::Login);
    assert_eq!(get_home_page(&Some("x".to_string())), HomePage::App);
}

#[test]
fn wrong_password_gets_no_token() {
    let e = get_token(&"right".to_string(), &LoginDTO { password: "wrong".to_string() }, &"secret".to_string()).unwrap_err();
    assert_eq!(e, AuthError::WrongPassword);
    assert_eq!(e.status_code(), 401);
}

#[test]
fn issued_token_verifies() {
    let secret = "secret".to_string();
    let token = get_token(&"right".to_string(), &LoginDTO { password: "right".to_string() }, &secret).unwrap();
    assert_eq!(token.split('.').count(), 3);
    assert_eq!(extract_token(Some(&token), &secret), Some("ziocecio".to_string()));
    assert_eq!(extract_token(Some(&token), &"other".to_string()), None);
    assert_eq!(extract_token(Some(&"garbage".to_string()), &secret), None);
    assert_eq!(extract_token(None, &secret), None);
}
