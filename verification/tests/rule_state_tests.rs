use mavgate::rule_state::RuleStateManager;
use mavgate::tree::Tree;

#[test]
fn unknown_rules_count_as_enabled() {
    let m = RuleStateManager::new(vec![("a".to_owned(), false)]);
    assert!(!m.is_rule_enabled("a"));
    assert!(m.is_rule_enabled("unlisted"));
}

#[test]
fn activation_enables_until_swept_past_its_expiry() {
    let mut m = RuleStateManager::new(vec![("b".to_owned(), false)]);
    let ctx = vec![("reason".to_owned(), Tree::Text("arm_seen".to_owned()))];
    m.activate_rule("b", 5, ctx, 1_000);
    assert!(m.is_rule_enabled("b"));
    m.cleanup_expired(2_000); // one second later: still active
    assert!(m.is_rule_enabled("b"));
    let got = m.get_trigger_context("b");
    assert_eq!(got.len(), 1);
    assert_eq!(got[0].0, "reason");
    m.cleanup_expired(7_000); // past the five-second window
    assert!(!m.is_rule_enabled("b"));
    assert!(m.get_trigger_context("b").is_empty());
}

#[test]
fn deactivation_is_immediate_and_clears_context() {
    let mut m = RuleStateManager::new(vec![("a".to_owned(), true)]);
    m.activate_rule("a", 60, vec![("k".to_owned(), Tree::UInt(1))], 0);
    m.deactivate_rule("a");
    assert!(!m.is_rule_enabled("a"));
    assert!(m.get_trigger_context("a").is_empty());
}

#[test]
fn context_of_unknown_rule_is_empty() {
    let m = RuleStateManager::new(Vec::new());
    assert!(m.get_trigger_context("nobody").is_empty());
}
