use content_proxy::rule::{RuleAction, RuleDTO, RuleTypeDTO};
use content_proxy::store::{RuleError, RuleStore};

fn store() -> RuleStore {
    RuleStore::new(vec!["s1".to_string(), "s2".to_string()])
}

fn dto(service: &str, text: &str, kind: RuleTypeDTO) -> RuleDTO {
    RuleDTO { service_name: service.to_string(), rule_text: text.to_string(), rule_type: kind }
}

#[test]
fn hex_rule_is_listed_in_base64() {
    let mut s = store();
    let (rule, msg) = s.add_rule(dto("s1", "deadbeef", RuleTypeDTO::Hex)).unwrap();
    assert_eq!(rule.b64_rule, "3q2+7w==");
    assert_eq!(msg.rule, Some(vec![0xde, 0xad, 0xbe, 0xef]));
    let listed = s.get_all_rules();
    assert_eq!(listed.len(), 1);
    assert_eq!(listed[0].id, 1);
    assert_eq!(listed[0].b64_rule, "3q2+7w==");
    assert_eq!(listed[0].service_name, "s1");
}

#[test]
fn uppercase_hex_decodes() {
    let mut s = store();
    let (rule, msg) = s.add_rule(dto("s1", "CAFEbabe", RuleTypeDTO::Hex)).unwrap();
    assert_eq!(msg.rule, Some(vec![0xca, 0xfe, 0xba, 0xbe]));
    assert_eq!(rule.b64_rule, "yv66vg==");
}

#[test]
fn base64_rule_stores_its_bytes() {
    let mut s = store();
    let (rule, msg) = s.add_rule(dto("s1", "AAECAw==", RuleTypeDTO::Base64)).unwrap();
    assert_eq!(msg.rule, Some(vec![0u8, 1, 2, 3]));
    assert_eq!(msg.action, RuleAction::AddRule);
    assert_eq!(msg.service_name, Some("s1".to_string()));
    assert_eq!(rule.b64_rule, "AAECAw==");
}

#[test]
fn ascii_rule_stores_utf8_bytes() {
    let mut s = store();
    let (rule, msg) = s.add_rule(dto("s2", "GET /", RuleTypeDTO::Ascii)).unwrap();
    assert_eq!(msg.rule, Some(b"GET /".to_vec()));
    assert_eq!(rule.b64_rule, "R0VUIC8=");
    assert_eq!(rule.service_name, "s2");
}

#[test]
fn non_ascii_text_is_encoded_as_utf8() {
    let mut s = store();
    let (_, msg) = s.add_rule(dto("s1", "é", RuleTypeDTO::Ascii)).unwrap();
    assert_eq!(msg.rule, Some(vec![0xc3, 0xa9]));
}

#[test]
fn ids_increase() {
    let mut s = store();
    let (a, ma) = s.add_rule(dto("s1", ".git", RuleTypeDTO::Ascii)).unwrap();
    let (b, mb) = s.add_rule(dto("s2", ".env", RuleTypeDTO::Ascii)).unwrap();
    assert_eq!((a.id, b.id), (1, 2));
    assert_eq!((ma.id, mb.id), (1, 2));
}

#[test]
fn invalid_hex_is_refused() {
    let mut s = store();
    let e = s.add_rule(dto("s1", "zz", RuleTypeDTO::Hex)).unwrap_err();
    assert_eq!(e, RuleError::InvalidHex);
    assert_eq!(e.status_code(), 400);
    assert_eq!(s.add_rule(dto("s1", "abc", RuleTypeDTO::Hex)).unwrap_err(), RuleError::InvalidHex);
    assert!(s.get_all_rules().is_empty());
}

#[test]
fn invalid_base64_is_refused() {
    let mut s = store();
    let e = s.add_rule(dto("s1", "not base64!", RuleTypeDTO::Base64)).unwrap_err();
    assert_eq!(e, RuleError::InvalidBase64);
    assert_eq!(e.status_code(), 400);
    assert!(s.get_all_rules().is_empty());
}

#[test]
fn empty_pattern_is_refused() {
    let mut s = store();
    for (text, kind) in [("", RuleTypeDTO::Ascii), ("", RuleTypeDTO::Hex), ("", RuleTypeDTO::Base64)] {
        let e = s.add_rule(dto("s1", text, kind)).unwrap_err();
        assert_eq!(e, RuleError::EmptyPattern);
        assert_eq!(e.status_code(), 400);
    }
    assert!(s.get_all_rules().is_empty());
}

#[test]
fn unknown_service_is_refused() {
    let mut s = store();
    let e = s.add_rule(dto("s9", ".git", RuleTypeDTO::Ascii)).unwrap_err();
    assert_eq!(e, RuleError::UnknownService);
    assert_eq!(e.status_code(), 404);
    assert!(s.get_all_rules().is_empty());
}

#[test]
fn decode_error_comes_before_unknown_service() {
    let mut s = store();
    assert_eq!(s.add_rule(dto("s9", "xyz", RuleTypeDTO::Hex)).unwrap_err(), RuleError::InvalidHex);
}

#[test]
fn delete_of_missing_id_is_not_found() {
    let mut s = store();
    s.add_rule(dto("s1", ".git", RuleTypeDTO::Ascii)).unwrap();
    let e = s.delete_rule(7).unwrap_err();
    assert_eq!(e, RuleError::NotFound);
    assert_eq!(e.status_code(), 404);
    assert_eq!(s.get_all_rules().len(), 1);
}

#[test]
fn delete_returns_service_and_removal() {
    let mut s = store();
    s.add_rule(dto("s1", ".git", RuleTypeDTO::Ascii)).unwrap();
    s.add_rule(dto("s2", ".env", RuleTypeDTO::Ascii)).unwrap();
    let (service, msg) = s.delete_rule(1).unwrap();
    assert_eq!(service, "s1");
    assert_eq!(msg.id, 1);
    assert_eq!(msg.action, RuleAction::RemoveRule);
    assert_eq!(msg.rule, None);
    let left = s.get_all_rules();
    assert_eq!(left.len(), 1);
    assert_eq!(left[0].id, 2);
    assert_eq!(s.delete_rule(1).unwrap_err(), RuleError::NotFound);
}

#[test]
fn ids_are_not_reused_after_delete() {
    let mut s = store();
    s.add_rule(dto("s1", "a", RuleTypeDTO::Ascii)).unwrap();
    s.delete_rule(1).unwrap();
    let (r, _) = s.add_rule(dto("s1", "b", RuleTypeDTO::Ascii)).unwrap();
    assert_eq!(r.id, 2);
}

#[test]
fn filter_by_service() {
    let mut s = store();
    s.add_rule(dto("s1", "a", RuleTypeDTO::Ascii)).unwrap();
    s.add_rule(dto("s2", "b", RuleTypeDTO::Ascii)).unwrap();
    s.add_rule(dto("s1", "c", RuleTypeDTO::Ascii)).unwrap();
    let ids: Vec<i64> = s.get_rules_by_service_name(&"s1".to_string()).iter().map(|r| r.id).collect();
    assert_eq!(ids, vec![1, 3]);
    assert!(s.get_rules_by_service_name(&"s3".to_string()).is_empty());
}

#[test]
fn services_are_listed_sorted_and_once() {
    let s = RuleStore::new(vec!["s2".to_string(), "s1".to_string(), "s2".to_string(), "a".to_string()]);
    assert_eq!(s.get_services_names(), vec!["a".to_string(), "s1".to_string(), "s2".to_string()]);
}

#[test]
fn service_order_is_by_code_point() {
    let s = RuleStore::new(vec!["é".to_string(), "z".to_string(), "Z".to_string(), "zz".to_string(), "".to_string()]);
    let expected: Vec<String> = ["", "Z", "z", "zz", "é"].iter().map(|x| x.to_string()).collect();
    assert_eq!(s.get_services_names(), expected);
}

#[test]
fn services_are_listed() {
    let s = store();
    assert_eq!(s.get_services_names(), vec!["s1".to_string(), "s2".to_string()]);
    assert!(s.has_service(&"s2".to_string()));
    assert!(!s.has_service(&"s3".to_string()));
}
