use mavgate::action::Action;
use mavgate::config::{AutoAckConfig, CommandRule, RuleConditions, TriggerConfig};
use mavgate::engine::AckInfo;
use mavlink::ardupilotmega::{MavMessage, HEARTBEAT_DATA};
use mavgate::engine::{ModifierOutcome, RuleEngine};
use mavgate::frame::Header;
use mavgate::tree::Tree;

fn rule(name: &str, message_type: &str, actions: Vec<&str>) -> CommandRule {
    CommandRule {
        name: name.to_owned(),
        enabled_by_default: true,
        message_type: message_type.to_owned(),
        conditions: RuleConditions { system_id: None, component_id: None, custom: Vec::new() },
        action: None,
        actions: Some(actions.into_iter().map(|a| a.to_owned()).collect()),
        delay_seconds: None,
        batch_count: None,
        batch_timeout_seconds: None,
        batch_timeout_forward: true,
        batch_key: "default".to_owned(),
        batch_system_id_field: None,
        plugins: Vec::new(),
        auto_ack: false,
        ack: None,
        modifier: None,
        description: None,
        priority: 0,
        direction: "gcs_to_router".to_owned(),
        triggers: None,
    }
}

fn heartbeat_tree() -> Tree {
    Tree::Object(vec![
        ("type".to_owned(), Tree::Text("HEARTBEAT".to_owned())),
        ("custom_mode".to_owned(), Tree::UInt(0)),
    ])
}

fn header() -> Header {
    Header { system_id: 1, component_id: 1, sequence: 0 }
}

#[test]
fn an_unmatched_packet_is_forwarded_with_no_side_effect() {
    let mut e = RuleEngine::new(vec![rule("r", "COMMAND_LONG", vec!["block"])]);
    let r = e.process_message_with_direction(&header(), &heartbeat_tree(), "gcs_to_router", 0, None);
    assert!(matches!(r.actions.as_slice(), [Action::Forward]));
    assert!(r.ack_info.is_none());
    assert!(r.plugin_names.is_empty());
    assert!(r.plugin_context.is_none());
}

#[test]
fn a_matched_rule_builds_its_action_steps() {
    let mut r0 = rule("r", "HEARTBEAT", vec!["delay", "forward"]);
    r0.delay_seconds = Some(2);
    let mut e = RuleEngine::new(vec![r0]);
    let r = e.process_message_with_direction(&header(), &heartbeat_tree(), "gcs_to_router", 0, None);
    assert!(matches!(r.actions.as_slice(), [Action::Delay(2), Action::Forward]));
    let ctx = r.plugin_context.expect("context for a matched rule");
    assert_eq!(ctx.message_type, "HEARTBEAT");
    assert_eq!(ctx.system_id, 1);
}

#[test]
fn direction_filters_apply_and_both_passes() {
    let mut only_down = rule("down", "HEARTBEAT", vec!["block"]);
    only_down.direction = "router_to_gcs".to_owned();
    let mut e = RuleEngine::new(vec![only_down]);
    let up = e.process_message_with_direction(&header(), &heartbeat_tree(), "gcs_to_router", 0, None);
    assert!(matches!(up.actions.as_slice(), [Action::Forward]));
    let down =
        e.process_message_with_direction(&header(), &heartbeat_tree(), "router_to_gcs", 0, None);
    assert!(matches!(down.actions.as_slice(), [Action::Block]));
}

#[test]
fn priority_decides_between_two_matching_rules() {
    let mut low = rule("low", "HEARTBEAT", vec!["forward"]);
    low.priority = 5;
    let mut high = rule("high", "HEARTBEAT", vec!["block"]);
    high.priority = 10;
    let sorted = mavgate::config::sort_rules_by_priority(vec![low, high]);
    let mut e = RuleEngine::new(sorted);
    let r = e.process_message_with_direction(&header(), &heartbeat_tree(), "gcs_to_router", 0, None);
    assert!(matches!(r.actions.as_slice(), [Action::Block]));
}

#[test]
fn a_disabled_rule_is_skipped_entirely() {
    let mut off = rule("off", "HEARTBEAT", vec!["block"]);
    off.enabled_by_default = false;
    off.plugins = vec!["spy".to_owned()];
    let mut e = RuleEngine::new(vec![off]);
    let r = e.process_message_with_direction(&header(), &heartbeat_tree(), "gcs_to_router", 0, None);
    assert!(matches!(r.actions.as_slice(), [Action::Forward]));
    assert!(r.plugin_names.is_empty());
    assert!(r.plugin_context.is_none());
}

#[test]
fn field_conditions_match_numbers_strings_and_float_bits() {
    let mut armed = rule("armed", "COMMAND_LONG", vec!["block"]);
    armed.conditions.custom = vec![
        ("command".to_owned(), Tree::UInt(400)),
        ("param1".to_owned(), Tree::Float(1.0f64.to_bits())),
        ("frame".to_owned(), Tree::Text("local".to_owned())),
    ];
    let mut e = RuleEngine::new(vec![armed]);
    let matching = Tree::Object(vec![
        ("type".to_owned(), Tree::Text("COMMAND_LONG".to_owned())),
        ("command".to_owned(), Tree::UInt(400)),
        ("param1".to_owned(), Tree::Float(1.0f64.to_bits())),
        ("frame".to_owned(), Tree::Text("local".to_owned())),
    ]);
    let r = e.process_message_with_direction(&header(), &matching, "gcs_to_router", 0, None);
    assert!(matches!(r.actions.as_slice(), [Action::Block]));
    let off_by_one = Tree::Object(vec![
        ("type".to_owned(), Tree::Text("COMMAND_LONG".to_owned())),
        ("command".to_owned(), Tree::UInt(401)),
        ("param1".to_owned(), Tree::Float(1.0f64.to_bits())),
        ("frame".to_owned(), Tree::Text("local".to_owned())),
    ]);
    let r2 = e.process_message_with_direction(&header(), &off_by_one, "gcs_to_router", 0, None);
    assert!(matches!(r2.actions.as_slice(), [Action::Forward]));
}

#[test]
fn header_conditions_gate_the_match() {
    let mut picky = rule("picky", "HEARTBEAT", vec!["block"]);
    picky.conditions.system_id = Some(9);
    let mut e = RuleEngine::new(vec![picky]);
    let r = e.process_message_with_direction(&header(), &heartbeat_tree(), "gcs_to_router", 0, None);
    assert!(matches!(r.actions.as_slice(), [Action::Forward]));
    let h9 = Header { system_id: 9, component_id: 1, sequence: 0 };
    let r2 = e.process_message_with_direction(&h9, &heartbeat_tree(), "gcs_to_router", 0, None);
    assert!(matches!(r2.actions.as_slice(), [Action::Block]));
}

#[test]
fn a_missing_condition_field_never_matches() {
    let mut wants = rule("wants", "HEARTBEAT", vec!["block"]);
    wants.conditions.custom = vec![("absent".to_owned(), Tree::UInt(1))];
    let mut e = RuleEngine::new(vec![wants]);
    let r = e.process_message_with_direction(&header(), &heartbeat_tree(), "gcs_to_router", 0, None);
    assert!(matches!(r.actions.as_slice(), [Action::Forward]));
}

#[test]
fn modify_embeds_the_script_result_and_downgrades_on_failure() {
    let mut m = rule("m", "HEARTBEAT", vec!["modify", "forward"]);
    m.modifier = Some("tweak".to_owned());
    let mut e = RuleEngine::new(vec![m]);
    let pending = e.pending_modifier(&header(), &heartbeat_tree(), "gcs_to_router");
    assert_eq!(pending.expect("a modifier is needed").0, "tweak");
    let produced = MavMessage::HEARTBEAT(HEARTBEAT_DATA::default());
    let r = e.process_message_with_direction(
        &header(),
        &heartbeat_tree(),
        "gcs_to_router",
        0,
        Some(ModifierOutcome::Produced(produced)),
    );
    match r.actions.as_slice() {
        [Action::Modify { modifier, modified_message: Some(m) }, Action::Forward] => {
            assert_eq!(modifier, "tweak");
            assert_eq!(*m, MavMessage::HEARTBEAT(HEARTBEAT_DATA::default()));
        }
        _ => panic!("expected a modify step carrying the produced message"),
    }
    let r2 = e.process_message_with_direction(
        &header(),
        &heartbeat_tree(),
        "gcs_to_router",
        0,
        Some(ModifierOutcome::Failed),
    );
    assert!(matches!(r2.actions.as_slice(), [Action::Forward, Action::Forward]));
}

#[test]
fn triggers_activate_a_sibling_for_a_while() {
    let mut a = rule("a", "COMMAND_LONG", vec!["forward"]);
    a.triggers = Some(TriggerConfig {
        on_match: true,
        activate_rules: vec!["b".to_owned()],
        deactivate_rules: Vec::new(),
        duration_seconds: Some(5),
        context: vec![("reason".to_owned(), Tree::Text("arm_seen".to_owned()))],
    });
    let mut b = rule("b", "HEARTBEAT", vec!["block"]);
    b.enabled_by_default = false;
    let mut e = RuleEngine::new(vec![a, b]);
    let cmd = Tree::Object(vec![("type".to_owned(), Tree::Text("COMMAND_LONG".to_owned()))]);

    // before the trigger: heartbeats pass
    let r0 = e.process_message_with_direction(&header(), &heartbeat_tree(), "gcs_to_router", 0, None);
    assert!(matches!(r0.actions.as_slice(), [Action::Forward]));

    // the matching packet activates rule b for five seconds
    e.process_message_with_direction(&header(), &cmd, "gcs_to_router", 0, None);
    e.state.cleanup_expired(1_000);
    let r1 =
        e.process_message_with_direction(&header(), &heartbeat_tree(), "gcs_to_router", 1_000, None);
    assert!(matches!(r1.actions.as_slice(), [Action::Block]));
    assert_eq!(e.state.get_trigger_context("b")[0].0, "reason");

    // past the window the sweeper disables it again
    e.state.cleanup_expired(6_000);
    let r2 =
        e.process_message_with_direction(&header(), &heartbeat_tree(), "gcs_to_router", 6_000, None);
    assert!(matches!(r2.actions.as_slice(), [Action::Forward]));
}

#[test]
fn triggers_deactivate_a_sibling_at_once() {
    let mut a = rule("a", "COMMAND_LONG", vec!["forward"]);
    a.triggers = Some(TriggerConfig {
        on_match: true,
        activate_rules: Vec::new(),
        deactivate_rules: vec!["b".to_owned()],
        duration_seconds: None,
        context: Vec::new(),
    });
    let b = rule("b", "HEARTBEAT", vec!["block"]);
    let mut e = RuleEngine::new(vec![a, b]);
    let cmd = Tree::Object(vec![("type".to_owned(), Tree::Text("COMMAND_LONG".to_owned()))]);
    e.process_message_with_direction(&header(), &cmd, "gcs_to_router", 0, None);
    let r = e.process_message_with_direction(&header(), &heartbeat_tree(), "gcs_to_router", 0, None);
    assert!(matches!(r.actions.as_slice(), [Action::Forward]));
}

#[test]
fn auto_ack_extracts_the_origin_and_builds_the_message() {
    let mut r0 = rule("ack", "COMMAND_LONG", vec!["forward"]);
    r0.auto_ack = true;
    r0.ack = Some(AutoAckConfig {
        message_type: "COMMAND_ACK".to_owned(),
        source_system_field: "target_system".to_owned(),
        source_component_field: "target_component".to_owned(),
        fields: vec![("result".to_owned(), Tree::Text("MAV_RESULT_ACCEPTED".to_owned()))],
        copy_fields: vec![("command".to_owned(), "command".to_owned())],
    });
    let mut e = RuleEngine::new(vec![r0]);
    let msg = Tree::Object(vec![
        ("type".to_owned(), Tree::Text("COMMAND_LONG".to_owned())),
        ("target_system".to_owned(), Tree::UInt(7)),
        ("target_component".to_owned(), Tree::UInt(1)),
        ("command".to_owned(), Tree::UInt(400)),
    ]);
    let r = e.process_message_with_direction(&header(), &msg, "gcs_to_router", 0, None);
    let ack = r.ack_info.expect("acknowledgement descriptor");
    assert_eq!(ack.source_system, 7);
    assert_eq!(ack.source_component, 1);
    let (h, tree) = mavgate::ack::build_ack_message(&ack);
    assert_eq!(h.system_id, 7);
    assert_eq!(h.component_id, 1);
    assert_eq!(h.sequence, 0);
    let expected = Tree::Object(vec![
        ("type".to_owned(), Tree::Text("COMMAND_ACK".to_owned())),
        ("command".to_owned(), Tree::UInt(400)),
        ("result".to_owned(), Tree::Text("MAV_RESULT_ACCEPTED".to_owned())),
    ]);
    assert!(tree.deep_eq(&expected));
}

#[test]
fn auto_ack_is_skipped_when_an_origin_field_is_missing() {
    let mut r0 = rule("ack", "COMMAND_LONG", vec!["forward"]);
    r0.auto_ack = true;
    r0.ack = Some(AutoAckConfig {
        message_type: "COMMAND_ACK".to_owned(),
        source_system_field: "target_system".to_owned(),
        source_component_field: "target_component".to_owned(),
        fields: Vec::new(),
        copy_fields: Vec::new(),
    });
    let mut e = RuleEngine::new(vec![r0]);
    let msg = Tree::Object(vec![
        ("type".to_owned(), Tree::Text("COMMAND_LONG".to_owned())),
        ("target_component".to_owned(), Tree::UInt(1)),
    ]);
    let r = e.process_message_with_direction(&header(), &msg, "gcs_to_router", 0, None);
    assert!(r.ack_info.is_none());
    assert!(matches!(r.actions.as_slice(), [Action::Forward]));
}

#[test]
fn ack_copies_header_fields_through_their_paths() {
    let ack = AckInfo {
        message_type: "MISSION_ACK".to_owned(),
        source_system: 3,
        source_component: 4,
        fields: Vec::new(),
        copy_fields: vec![("seen_seq".to_owned(), "header.sequence".to_owned())],
        original_header: Header { system_id: 11, component_id: 12, sequence: 13 },
        original_message: Tree::Object(Vec::new()),
    };
    let (_, tree) = mavgate::ack::build_ack_message(&ack);
    let expected = Tree::Object(vec![
        ("type".to_owned(), Tree::Text("MISSION_ACK".to_owned())),
        ("seen_seq".to_owned(), Tree::UInt(13)),
    ]);
    assert!(tree.deep_eq(&expected));
}

#[test]
fn numeric_conditions_match_across_signedness() {
    let mut r0 = rule("neg", "HEARTBEAT", vec!["block"]);
    r0.conditions.custom = vec![("delta".to_owned(), Tree::Int(-5))];
    let mut e = RuleEngine::new(vec![r0]);
    let msg = Tree::Object(vec![
        ("type".to_owned(), Tree::Text("HEARTBEAT".to_owned())),
        ("delta".to_owned(), Tree::Int(-5)),
    ]);
    let r = e.process_message_with_direction(&header(), &msg, "gcs_to_router", 0, None);
    assert!(matches!(r.actions.as_slice(), [Action::Block]));

    let mut r1 = rule("pos", "HEARTBEAT", vec!["block"]);
    r1.conditions.custom = vec![("n".to_owned(), Tree::UInt(3))];
    let mut e2 = RuleEngine::new(vec![r1]);
    let msg2 = Tree::Object(vec![
        ("type".to_owned(), Tree::Text("HEARTBEAT".to_owned())),
        ("n".to_owned(), Tree::Int(3)),
    ]);
    let r2 = e2.process_message_with_direction(&header(), &msg2, "gcs_to_router", 0, None);
    assert!(matches!(r2.actions.as_slice(), [Action::Block]));
}

#[test]
fn a_nested_object_condition_asks_for_deep_equality() {
    let expected = Tree::Object(vec![("type".to_owned(), Tree::Text("MAV_CMD_X".to_owned()))]);
    let mut r0 = rule("deep", "COMMAND_LONG", vec!["block"]);
    r0.conditions.custom = vec![("command".to_owned(), expected)];
    let mut e = RuleEngine::new(vec![r0]);
    let matching = Tree::Object(vec![
        ("type".to_owned(), Tree::Text("COMMAND_LONG".to_owned())),
        (
            "command".to_owned(),
            Tree::Object(vec![("type".to_owned(), Tree::Text("MAV_CMD_X".to_owned()))]),
        ),
    ]);
    let r = e.process_message_with_direction(&header(), &matching, "gcs_to_router", 0, None);
    assert!(matches!(r.actions.as_slice(), [Action::Block]));
    let differing = Tree::Object(vec![
        ("type".to_owned(), Tree::Text("COMMAND_LONG".to_owned())),
        (
            "command".to_owned(),
            Tree::Object(vec![("type".to_owned(), Tree::Text("MAV_CMD_Y".to_owned()))]),
        ),
    ]);
    let r2 = e.process_message_with_direction(&header(), &differing, "gcs_to_router", 0, None);
    assert!(matches!(r2.actions.as_slice(), [Action::Forward]));
}

#[test]
fn differing_float_bits_do_not_match() {
    let mut r0 = rule("f", "COMMAND_LONG", vec!["block"]);
    r0.conditions.custom = vec![("param1".to_owned(), Tree::Float(1.0f64.to_bits()))];
    let mut e = RuleEngine::new(vec![r0]);
    let msg = Tree::Object(vec![
        ("type".to_owned(), Tree::Text("COMMAND_LONG".to_owned())),
        ("param1".to_owned(), Tree::Float(2.0f64.to_bits())),
    ]);
    let r = e.process_message_with_direction(&header(), &msg, "gcs_to_router", 0, None);
    assert!(matches!(r.actions.as_slice(), [Action::Forward]));
}

#[test]
fn triggers_without_on_match_do_nothing() {
    let mut a = rule("a", "COMMAND_LONG", vec!["forward"]);
    a.triggers = Some(TriggerConfig {
        on_match: false,
        activate_rules: Vec::new(),
        deactivate_rules: vec!["b".to_owned()],
        duration_seconds: None,
        context: Vec::new(),
    });
    let b = rule("b", "HEARTBEAT", vec!["block"]);
    let mut e = RuleEngine::new(vec![a, b]);
    let cmd = Tree::Object(vec![("type".to_owned(), Tree::Text("COMMAND_LONG".to_owned()))]);
    e.process_message_with_direction(&header(), &cmd, "gcs_to_router", 0, None);
    let r = e.process_message_with_direction(&header(), &heartbeat_tree(), "gcs_to_router", 0, None);
    assert!(matches!(r.actions.as_slice(), [Action::Block]));
}

#[test]
fn fixed_ack_fields_override_copied_ones() {
    let ack = AckInfo {
        message_type: "COMMAND_ACK".to_owned(),
        source_system: 1,
        source_component: 1,
        fields: vec![("command".to_owned(), Tree::UInt(999))],
        copy_fields: vec![("command".to_owned(), "command".to_owned())],
        original_header: Header { system_id: 1, component_id: 1, sequence: 0 },
        original_message: Tree::Object(vec![("command".to_owned(), Tree::UInt(400))]),
    };
    let (_, tree) = mavgate::ack::build_ack_message(&ack);
    let expected = Tree::Object(vec![
        ("type".to_owned(), Tree::Text("COMMAND_ACK".to_owned())),
        ("command".to_owned(), Tree::UInt(999)),
    ]);
    assert!(tree.deep_eq(&expected));
}

#[test]
fn an_unresolvable_copy_path_is_skipped() {
    let ack = AckInfo {
        message_type: "COMMAND_ACK".to_owned(),
        source_system: 1,
        source_component: 1,
        fields: Vec::new(),
        copy_fields: vec![("missing".to_owned(), "no_such_field".to_owned())],
        original_header: Header { system_id: 1, component_id: 1, sequence: 0 },
        original_message: Tree::Object(Vec::new()),
    };
    let (_, tree) = mavgate::ack::build_ack_message(&ack);
    let expected = Tree::Object(vec![
        ("type".to_owned(), Tree::Text("COMMAND_ACK".to_owned())),
    ]);
    assert!(tree.deep_eq(&expected));
}
