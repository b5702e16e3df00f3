use vstd::prelude::*;
use crate::action::{action_views, Action, ActionView};
use crate::config::{action_names, contains_view, view_seq, CommandRule, RuleConditions};
use crate::frame::Header;
use crate::rule_state::{context_of, enabled_of, ActivationView, RuleStateManager};
use crate::table::key_lookup;
use crate::tree::{
    copy_entries, entry_views, obj_lookup, str_eq, Tree, TreeView,
};

verus! {

/// Whether a rule set for that direction applies to a packet travelling in
/// `direction`.
pub open spec fn direction_matches(rule: CommandRule, direction: Seq<char>) -> bool {
    rule.direction@ == "both"@ || rule.direction@ == direction
}

/// Whether one expected condition value accepts the actual field value.
/// Numbers match numerically across the signed and unsigned forms; floats
/// match when their bit patterns agree; an expected object asks for deep
/// equality; an expected null or list accepts nothing.
pub open spec fn cond_value_matches(expected: TreeView, actual: TreeView) -> bool {
    match expected {
        TreeView::Int(e) => match actual {
            TreeView::Int(a) => a == e,
            TreeView::UInt(a) => a == e,
            _ => false,
        },
        TreeView::UInt(e) => match actual {
            TreeView::UInt(a) => a == e,
            TreeView::Int(a) => a == e,
            _ => false,
        },
        TreeView::Float(e) => actual matches TreeView::Float(a) && a == e,
        TreeView::Text(e) => actual matches TreeView::Text(a) && a == e,
        TreeView::Bool(e) => actual matches TreeView::Bool(a) && a == e,
        TreeView::Object(_) => actual == expected,
        TreeView::Null => false,
        TreeView::List(_) => false,
    }
}

/// Whether the message object carries `field` with a value the expected one
/// accepts; a missing field never matches.
pub open spec fn field_condition_holds(
    msg: Seq<(Seq<char>, TreeView)>,
    field: Seq<char>,
    expected: TreeView,
) -> bool {
    match obj_lookup(msg, field) {
        Some(actual) => cond_value_matches(expected, actual),
        None => false,
    }
}

/// Whether the header and every field condition of `c` hold.
pub open spec fn conditions_match(
    c: RuleConditions,
    header: Header,
    msg: Seq<(Seq<char>, TreeView)>,
) -> bool {
    &&& match c.system_id {
        Some(s) => header.system_id == s,
        None => true,
    }
    &&& match c.component_id {
        Some(s) => header.component_id == s,
        None => true,
    }
    &&& forall|i: int|
        0 <= i < c.custom@.len() ==> field_condition_holds(
            msg,
            (#[trigger] entry_views(c.custom@)[i]).0,
            entry_views(c.custom@)[i].1,
        )
}

/// Whether a rule matches the packet: right direction, right message type,
/// and every condition holds.  Only an object-shaped message with a textual
/// type tag can match at all.
pub open spec fn rule_matches(
    rule: CommandRule,
    header: Header,
    msg: TreeView,
    direction: Seq<char>,
) -> bool {
    &&& direction_matches(rule, direction)
    &&& msg matches TreeView::Object(es) && obj_lookup(es, "type"@) == Some(
        TreeView::Text(rule.message_type@),
    ) && conditions_match(rule.conditions, header, es)
}

/// The first rule from position `k` on that is enabled and matches.
pub open spec fn selected_from(
    rules: Seq<CommandRule>,
    state: Seq<(Seq<char>, ActivationView)>,
    header: Header,
    msg: TreeView,
    direction: Seq<char>,
    k: int,
) -> Option<int>
    decreases rules.len() - k,
{
    if k < 0 || k >= rules.len() {
        None
    } else if enabled_of(state, rules[k].name@) && rule_matches(rules[k], header, msg, direction) {
        Some(k)
    } else {
        selected_from(rules, state, header, msg, direction, k + 1)
    }
}

/// The first rule that is enabled and matches, if any: the one whose actions
/// the engine runs.
pub open spec fn selected_rule(
    rules: Seq<CommandRule>,
    state: Seq<(Seq<char>, ActivationView)>,
    header: Header,
    msg: TreeView,
    direction: Seq<char>,
) -> Option<int> {
    selected_from(rules, state, header, msg, direction, 0)
}

pub proof fn lemma_selected_from(
    rules: Seq<CommandRule>,
    state: Seq<(Seq<char>, ActivationView)>,
    header: Header,
    msg: TreeView,
    direction: Seq<char>,
    k: int,
)
    requires
        0 <= k <= rules.len(),
    ensures
        match selected_from(rules, state, header, msg, direction, k) {
            Some(i) => k <= i < rules.len() && enabled_of(state, rules[i].name@) && rule_matches(
                rules[i],
                header,
                msg,
                direction,
            ) && forall|l: int|
                k <= l < i ==> !(enabled_of(state, (#[trigger] rules[l]).name@) && rule_matches(
                    rules[l],
                    header,
                    msg,
                    direction,
                )),
            None => forall|l: int|
                k <= l < rules.len() ==> !(enabled_of(state, (#[trigger] rules[l]).name@)
                    && rule_matches(rules[l], header, msg, direction)),
        },
    decreases rules.len() - k,
{
    if k < rules.len() {
        if !(enabled_of(state, rules[k].name@) && rule_matches(rules[k], header, msg, direction)) {
            lemma_selected_from(rules, state, header, msg, direction, k + 1);
        }
    }
}

} // verus!

verus! {

/// Whether the expected condition value accepts the actual field value.
pub fn check_condition_value(expected: &Tree, actual: &Tree) -> (r: bool)
    ensures
        r == cond_value_matches(expected@, actual@),
{
    match (expected, actual) {
        (Tree::Int(e), Tree::Int(a)) => a == e,
        (Tree::Int(e), Tree::UInt(a)) => *e >= 0 && *a == (*e as u64),
        (Tree::UInt(e), Tree::UInt(a)) => a == e,
        (Tree::UInt(e), Tree::Int(a)) => *a >= 0 && (*a as u64) == *e,
        (Tree::Float(e), Tree::Float(a)) => a == e,
        (Tree::Text(e), Tree::Text(a)) => str_eq(e.as_str(), a.as_str()),
        (Tree::Bool(e), Tree::Bool(a)) => a == e,
        (Tree::Object(_), _) => expected.deep_eq(actual),
        _ => false,
    }
}

/// Whether the message object carries `field_name` with a value the expected
/// one accepts.
pub fn check_field_condition(
    msg_fields: &Vec<(String, Tree)>,
    field_name: &str,
    expected: &Tree,
) -> (r: bool)
    ensures
        r == field_condition_holds(entry_views(msg_fields@), field_name@, expected@),
{
    match Tree::obj_get(msg_fields, field_name) {
        Some(actual) => check_condition_value(expected, actual),
        None => false,
    }
}

/// Whether the header and every field condition hold for this packet.
pub fn matches_conditions(
    conditions: &RuleConditions,
    header: &Header,
    msg_fields: &Vec<(String, Tree)>,
) -> (r: bool)
    ensures
        r == conditions_match(*conditions, *header, entry_views(msg_fields@)),
{
    proof {
        crate::tree::lemma_entry_views_index(conditions.custom@);
    }
    match conditions.system_id {
        Some(s) => {
            if header.system_id != s {
                return false;
            }
        },
        None => {},
    }
    match conditions.component_id {
        Some(c) => {
            if header.component_id != c {
                return false;
            }
        },
        None => {},
    }
    let n = conditions.custom.len();
    let mut i: usize = 0;
    while i < n
        invariant
            i <= n,
            n == conditions.custom@.len(),
            forall|l: int|
                0 <= l < i ==> field_condition_holds(
                    entry_views(msg_fields@),
                    (#[trigger] entry_views(conditions.custom@)[l]).0,
                    entry_views(conditions.custom@)[l].1,
                ),
        decreases n - i,
    {
        let ok = check_field_condition(
            msg_fields,
            conditions.custom[i].0.as_str(),
            &conditions.custom[i].1,
        );
        proof {
            assert(entry_views(conditions.custom@)[i as int] == (
                conditions.custom@[i as int].0@,
                crate::tree::tree_view(conditions.custom@[i as int].1),
            ));
        }
        if !ok {
            return false;
        }
        i += 1;
    }
    true
}

/// Whether this rule matches the packet.
pub fn matches_rule(rule: &CommandRule, header: &Header, msg: &Tree, direction: &str) -> (r: bool)
    ensures
        r == rule_matches(*rule, *header, msg@, direction@),
{
    let dir_ok = str_eq(rule.direction.as_str(), "both") || str_eq(
        rule.direction.as_str(),
        direction,
    );
    if !dir_ok {
        return false;
    }
    match msg {
        Tree::Object(entries) => {
            match Tree::obj_get(entries, "type") {
                Some(tag) => match tag {
                    Tree::Text(name) => {
                        if !str_eq(name.as_str(), rule.message_type.as_str()) {
                            return false;
                        }
                        matches_conditions(&rule.conditions, header, entries)
                    },
                    _ => false,
                },
                None => false,
            }
        },
        _ => false,
    }
}

} // verus!

verus! {

/// What to send back for a matched message: the acknowledgement's type,
/// claimed origin, fixed fields, fields to copy, and the matched packet to
/// copy them from.
pub struct AckInfo {
    /// Message type of the acknowledgement.
    pub message_type: String,
    /// System the acknowledgement claims to come from.
    pub source_system: u8,
    /// Component the acknowledgement claims to come from.
    pub source_component: u8,
    /// Fixed fields to set, as (field, value); they override copied ones.
    pub fields: Vec<(String, Tree)>,
    /// Fields to copy, as (acknowledgement field, source path).
    pub copy_fields: Vec<(String, String)>,
    /// Header of the matched packet.
    pub original_header: Header,
    /// Structured form of the matched message, type tag included.
    pub original_message: Tree,
}

/// Model of an acknowledgement descriptor.
#[verifier::ext_equal]
pub struct AckInfoView {
    pub message_type: Seq<char>,
    pub source_system: u8,
    pub source_component: u8,
    pub fields: Seq<(Seq<char>, TreeView)>,
    pub copy_fields: Seq<(Seq<char>, Seq<char>)>,
    pub original_header: Header,
    pub original_message: TreeView,
}

impl View for AckInfo {
    type V = AckInfoView;

    open spec fn view(&self) -> AckInfoView {
        AckInfoView {
            message_type: self.message_type@,
            source_system: self.source_system,
            source_component: self.source_component,
            fields: entry_views(self.fields@),
            copy_fields: self.copy_fields@.map_values(|p: (String, String)| (p.0@, p.1@)),
            original_header: self.original_header,
            original_message: self.original_message@,
        }
    }
}

/// What a plugin is handed when its rule matches.
pub struct PluginContext {
    pub system_id: u8,
    pub component_id: u8,
    /// Message type name of the matched message.
    pub message_type: String,
    /// Structured form of the matched message, type tag included.
    pub message: Tree,
    /// Context stored by the trigger that enabled the rule, if any.
    pub trigger_context: Vec<(String, Tree)>,
}

/// Model of a plugin context.
#[verifier::ext_equal]
pub struct PluginContextView {
    pub system_id: u8,
    pub component_id: u8,
    pub message_type: Seq<char>,
    pub message: TreeView,
    pub trigger_context: Seq<(Seq<char>, TreeView)>,
}

impl View for PluginContext {
    type V = PluginContextView;

    open spec fn view(&self) -> PluginContextView {
        PluginContextView {
            system_id: self.system_id,
            component_id: self.component_id,
            message_type: self.message_type@,
            message: self.message@,
            trigger_context: entry_views(self.trigger_context@),
        }
    }
}

/// Outcome of running the matched rule's modifier script.
pub enum ModifierOutcome {
    /// The script returned a context whose message decoded to this one.
    Produced(mavlink::ardupilotmega::MavMessage),
    /// The script failed or its result did not decode.
    Failed,
}

/// The message a modifier outcome carries, if it carries one.
pub open spec fn outcome_message(o: Option<ModifierOutcome>) -> Option<
    mavlink::ardupilotmega::MavMessage,
> {
    match o {
        Some(ModifierOutcome::Produced(m)) => Some(m),
        _ => None,
    }
}

/// What the engine decided for one packet: the action steps to run, the
/// acknowledgement to synthesize, and the plugins the caller must invoke
/// with the given context.
pub struct ProcessResult {
    pub actions: Vec<Action>,
    pub ack_info: Option<AckInfo>,
    /// Names of the matched rule's plugins, to invoke in order.
    pub plugin_names: Vec<String>,
    /// Context to hand each plugin; absent when no rule matched.
    pub plugin_context: Option<PluginContext>,
}

/// A u8 read from a message field the way the acknowledgement builder reads
/// it: the field must hold an unsigned number, which is truncated.
pub open spec fn extract_u8_field(msg: Seq<(Seq<char>, TreeView)>, field: Seq<char>) -> Option<u8> {
    match obj_lookup(msg, field) {
        Some(v) => match v {
            TreeView::UInt(u) => Some((u % 256) as u8),
            _ => None,
        },
        None => None,
    }
}

/// Read a u8 from a message field, truncating an unsigned number.
pub fn extract_u8(msg_fields: &Vec<(String, Tree)>, field: &str) -> (r: Option<u8>)
    ensures
        r == extract_u8_field(entry_views(msg_fields@), field@),
{
    match Tree::obj_get(msg_fields, field) {
        Some(v) => match v {
            Tree::UInt(u) => Some((*u % 256) as u8),
            _ => None,
        },
        None => None,
    }
}

} // verus!

verus! {

/// The action step one action name of a rule resolves to.  A delay without
/// its seconds waits zero; a batch without its count or timeout defaults to
/// one source and thirty seconds; a modify whose modifier is missing or whose
/// script produced nothing falls back to forwarding, as does an unknown name.
pub open spec fn built_action(
    rule: CommandRule,
    name: Seq<char>,
    produced: Option<mavlink::ardupilotmega::MavMessage>,
) -> ActionView {
    if name == "delay"@ {
        ActionView::Delay(
            match rule.delay_seconds {
                Some(d) => d,
                None => 0,
            },
        )
    } else if name == "batch"@ {
        ActionView::Batch {
            count: match rule.batch_count {
                Some(c) => c as int,
                None => 1,
            },
            timeout_seconds: match rule.batch_timeout_seconds {
                Some(t) => t,
                None => 30,
            },
            key: rule.batch_key@,
            forward_on_timeout: rule.batch_timeout_forward,
            system_id_field: match rule.batch_system_id_field {
                Some(f) => Some(f@),
                None => None,
            },
        }
    } else if name == "block"@ {
        ActionView::Block
    } else if name == "modify"@ {
        match rule.modifier {
            Some(m) => match produced {
                Some(msg) => ActionView::Modify { modifier: m@, modified_message: Some(msg) },
                None => ActionView::Forward,
            },
            None => ActionView::Forward,
        }
    } else {
        ActionView::Forward
    }
}

/// The action steps a matched rule resolves to, in order.
pub open spec fn built_actions(
    rule: CommandRule,
    produced: Option<mavlink::ardupilotmega::MavMessage>,
) -> Seq<ActionView> {
    Seq::new(action_names(rule).len(), |i: int| built_action(rule, action_names(rule)[i]@, produced))
}

/// The acknowledgement descriptor a matched rule asks for, when both origin
/// fields can be read from the message.
pub open spec fn ack_info_of(
    cfg: crate::config::AutoAckConfig,
    header: Header,
    msg: Seq<(Seq<char>, TreeView)>,
) -> Option<AckInfoView> {
    match (
        extract_u8_field(msg, cfg.source_system_field@),
        extract_u8_field(msg, cfg.source_component_field@),
    ) {
        (Some(ss), Some(sc)) => Some(
            AckInfoView {
                message_type: cfg.message_type@,
                source_system: ss,
                source_component: sc,
                fields: entry_views(cfg.fields@),
                copy_fields: cfg.copy_fields@.map_values(|p: (String, String)| (p.0@, p.1@)),
                original_header: header,
                original_message: TreeView::Object(msg),
            },
        ),
        _ => None,
    }
}

/// The activation an on-match trigger writes for each rule it activates.
pub open spec fn trigger_activation(
    t: crate::config::TriggerConfig,
    now_ms: u64,
    duration_seconds: u64,
) -> ActivationView {
    ActivationView {
        enabled: true,
        expiration: Some(crate::rule_state::expiry_time(now_ms, duration_seconds)),
        context: entry_views(t.context@),
    }
}

/// The activation a deactivation writes.
pub open spec fn deactivated_view() -> ActivationView {
    ActivationView { enabled: false, expiration: None, context: Seq::empty() }
}

/// The trigger context the matched rule's own activation holds once its
/// triggers have run: its stored context, unless the rule deactivates itself
/// (cleared) or activates itself with a duration (the trigger's own
/// context).  This is what the rule's modifier script receives.
pub open spec fn post_trigger_context(
    rule: CommandRule,
    state: Seq<(Seq<char>, ActivationView)>,
) -> Seq<(Seq<char>, TreeView)> {
    match rule.triggers {
        Some(t) => if t.on_match {
            if contains_view(view_seq(t.deactivate_rules@), rule.name@) {
                Seq::empty()
            } else {
                match t.duration_seconds {
                    Some(_) => if contains_view(view_seq(t.activate_rules@), rule.name@) {
                        entry_views(t.context@)
                    } else {
                        context_of(state, rule.name@)
                    },
                    None => context_of(state, rule.name@),
                }
            }
        } else {
            context_of(state, rule.name@)
        },
        None => context_of(state, rule.name@),
    }
}

/// The named context is exactly what the matched rule's activation holds
/// after its triggers ran, whatever the sweep instant.
pub proof fn lemma_post_trigger_context(
    rule: CommandRule,
    state: Seq<(Seq<char>, ActivationView)>,
    now_ms: u64,
)
    ensures
        post_trigger_context(rule, state) == (match triggered_lookup(
            rule,
            state,
            rule.name@,
            now_ms,
        ) {
            Some(a) => a.context,
            None => Seq::<(Seq<char>, TreeView)>::empty(),
        }),
{
}

/// What the state maps `n` to after the matched rule's triggers ran: rules
/// it deactivates are off; rules it activates are on until the duration
/// passes, with the trigger's context; everything else keeps its state.  A
/// trigger without a duration activates nothing.
pub open spec fn triggered_lookup(
    rule: CommandRule,
    old_state: Seq<(Seq<char>, ActivationView)>,
    n: Seq<char>,
    now_ms: u64,
) -> Option<ActivationView> {
    match rule.triggers {
        Some(t) => if t.on_match {
            if contains_view(view_seq(t.deactivate_rules@), n) {
                Some(deactivated_view())
            } else {
                match t.duration_seconds {
                    Some(d) => if contains_view(view_seq(t.activate_rules@), n) {
                        Some(trigger_activation(t, now_ms, d))
                    } else {
                        key_lookup(old_state, n)
                    },
                    None => key_lookup(old_state, n),
                }
            }
        } else {
            key_lookup(old_state, n)
        },
        None => key_lookup(old_state, n),
    }
}

} // verus!

verus! {

/// Copy a list of string pairs; the content views are unchanged.
fn clone_string_pairs(v: &Vec<(String, String)>) -> (r: Vec<(String, String)>)
    ensures
        r@.map_values(|p: (String, String)| (p.0@, p.1@)) == v@.map_values(
            |p: (String, String)| (p.0@, p.1@),
        ),
{
    let mut out: Vec<(String, String)> = Vec::new();
    let n = v.len();
    let mut i: usize = 0;
    while i < n
        invariant
            i <= n,
            out@.len() == i,
            forall|l: int|
                0 <= l < i ==> (#[trigger] out@[l]).0@ == v@[l].0@ && out@[l].1@ == v@[l].1@,
        decreases n - i,
    {
        out.push((v[i].0.clone(), v[i].1.clone()));
        i += 1;
    }
    proof {
        assert(out@.map_values(|p: (String, String)| (p.0@, p.1@)) =~= v@.map_values(
            |p: (String, String)| (p.0@, p.1@),
        ));
    }
    out
}

/// Copy a list of strings; the content views are unchanged.
fn clone_strings(v: &Vec<String>) -> (r: Vec<String>)
    ensures
        view_seq(r@) == view_seq(v@),
{
    let mut out: Vec<String> = Vec::new();
    let n = v.len();
    let mut i: usize = 0;
    while i < n
        invariant
            i <= n,
            out@.len() == i,
            forall|l: int| 0 <= l < i ==> (#[trigger] out@[l])@ == v@[l]@,
        decreases n - i,
    {
        out.push(v[i].clone());
        i += 1;
    }
    proof {
        assert(view_seq(out@) =~= view_seq(v@));
    }
    out
}

/// Build the acknowledgement descriptor a matched rule asks for, or nothing
/// when an origin field is missing or not an unsigned number.
fn build_ack_info(
    cfg: &crate::config::AutoAckConfig,
    header: &Header,
    msg_fields: &Vec<(String, Tree)>,
) -> (r: Option<AckInfo>)
    ensures
        match r {
            Some(a) => ack_info_of(*cfg, *header, entry_views(msg_fields@)) == Some(a@),
            None => ack_info_of(*cfg, *header, entry_views(msg_fields@)) is None,
        },
{
    let ss = extract_u8(msg_fields, cfg.source_system_field.as_str());
    let sc = extract_u8(msg_fields, cfg.source_component_field.as_str());
    match (ss, sc) {
        (Some(source_system), Some(source_component)) => {
            let ack = AckInfo {
                message_type: cfg.message_type.clone(),
                source_system,
                source_component,
                fields: copy_entries(&cfg.fields),
                copy_fields: clone_string_pairs(&cfg.copy_fields),
                original_header: *header,
                original_message: Tree::Object(copy_entries(msg_fields)),
            };
            proof {
                assert(ack@ =~= ack_info_of(
                    *cfg,
                    *header,
                    entry_views(msg_fields@),
                )->Some_0);
            }
            Some(ack)
        },
        _ => None,
    }
}

/// Resolve a rule's action names into action steps, embedding the modifier's
/// message where a modify step asks for it.
fn build_action_steps(rule: &CommandRule, modifier_result: Option<ModifierOutcome>) -> (r: Vec<
    Action,
>)
    ensures
        action_views(r@) == built_actions(*rule, outcome_message(modifier_result)),
{
    let ghost produced = outcome_message(modifier_result);
    let msg_opt: Option<mavlink::ardupilotmega::MavMessage> = match modifier_result {
        Some(ModifierOutcome::Produced(m)) => Some(m),
        _ => None,
    };
    let names = rule.get_actions();
    let mut out: Vec<Action> = Vec::new();
    let n = names.len();
    let mut j: usize = 0;
    while j < n
        invariant
            j <= n,
            n == names@.len(),
            n == action_names(*rule).len(),
            msg_opt == produced,
            forall|l: int| 0 <= l < n ==> (#[trigger] names@[l])@ == action_names(*rule)[l]@,
            out@.len() == j,
            forall|l: int|
                0 <= l < j ==> (#[trigger] out@[l])@ == built_action(
                    *rule,
                    action_names(*rule)[l]@,
                    produced,
                ),
        decreases n - j,
    {
        let a = names[j].as_str();
        let step: Action = if str_eq(a, "delay") {
            Action::Delay(
                match rule.delay_seconds {
                    Some(d) => d,
                    None => 0,
                },
            )
        } else if str_eq(a, "batch") {
            Action::Batch {
                count: match rule.batch_count {
                    Some(c) => c,
                    None => 1,
                },
                timeout_seconds: match rule.batch_timeout_seconds {
                    Some(t) => t,
                    None => 30,
                },
                key: rule.batch_key.clone(),
                forward_on_timeout: rule.batch_timeout_forward,
                system_id_field: match &rule.batch_system_id_field {
                    Some(f) => Some(f.clone()),
                    None => None,
                },
            }
        } else if str_eq(a, "block") {
            Action::Block
        } else if str_eq(a, "modify") {
            match &rule.modifier {
                Some(m) => match &msg_opt {
                    Some(msg) => Action::Modify {
                        modifier: m.clone(),
                        modified_message: Some(crate::codec::clone_message(msg)),
                    },
                    None => Action::Forward,
                },
                None => Action::Forward,
            }
        } else {
            Action::Forward
        };
        proof {
            assert(step@ == built_action(*rule, action_names(*rule)[j as int]@, produced));
        }
        out.push(step);
        j += 1;
    }
    proof {
        assert(action_views(out@) =~= built_actions(*rule, produced));
    }
    out
}

} // verus!

verus! {

/// Matches each packet against the priority-ordered rules and decides its
/// actions, acknowledgement, plugin calls and trigger effects.
pub struct RuleEngine {
    /// The rules, ordered by descending priority.
    pub rules: Vec<CommandRule>,
    /// Per-rule enabled state and trigger contexts.
    pub state: RuleStateManager,
}

/// Apply the matched rule's on-match triggers to the state: activate and then
/// deactivate the named rules.
fn apply_triggers(state: &mut RuleStateManager, rule: &CommandRule, now_ms: u64)
    ensures
        forall|n: Seq<char>| #[trigger]
            key_lookup(final(state)@, n) == triggered_lookup(*rule, old(state)@, n, now_ms),
{
    match &rule.triggers {
        Some(t) => {
            if !t.on_match {
                return ;
            }
            match t.duration_seconds {
                Some(d) => {
                    let m = t.activate_rules.len();
                    let mut k: usize = 0;
                    while k < m
                        invariant
                            k <= m,
                            m == t.activate_rules@.len(),
                            forall|n: Seq<char>| #[trigger]
                                key_lookup(state@, n) == if (exists|l: int|
                                    0 <= l < k && (#[trigger] t.activate_rules@[l])@ == n) {
                                    Some(trigger_activation(*t, now_ms, d))
                                } else {
                                    key_lookup(old(state)@, n)
                                },
                        decreases m - k,
                    {
                        let ghost mid = state@;
                        let ghost name_v = t.activate_rules@[k as int]@;
                        let ctx = copy_entries(&t.context);
                        state.activate_rule(t.activate_rules[k].as_str(), d, ctx, now_ms);
                        proof {
                            assert(key_lookup(state@, name_v) == Some(
                                trigger_activation(*t, now_ms, d),
                            ));
                            assert forall|n: Seq<char>| #[trigger]
                                key_lookup(state@, n) == (if (exists|l: int|
                                    0 <= l < k + 1 && (#[trigger] t.activate_rules@[l])@ == n) {
                                    Some(trigger_activation(*t, now_ms, d))
                                } else {
                                    key_lookup(old(state)@, n)
                                }) by {
                                if n == name_v {
                                    assert(t.activate_rules@[k as int]@ == n);
                                } else {
                                    assert(key_lookup(state@, n) == key_lookup(mid, n));
                                    assert((exists|l: int|
                                        0 <= l < k + 1 && (#[trigger] t.activate_rules@[l])@ == n)
                                        == (exists|l: int|
                                        0 <= l < k && (#[trigger] t.activate_rules@[l])@ == n));
                                }
                            }
                        }
                        k += 1;
                    }
                },
                None => {},
            }
            let ghost mid = state@;
            let m2 = t.deactivate_rules.len();
            let mut k: usize = 0;
            while k < m2
                invariant
                    k <= m2,
                    m2 == t.deactivate_rules@.len(),
                    forall|n: Seq<char>| #[trigger]
                        key_lookup(state@, n) == if (exists|l: int|
                            0 <= l < k && (#[trigger] t.deactivate_rules@[l])@ == n) {
                            Some(deactivated_view())
                        } else {
                            key_lookup(mid, n)
                        },
                decreases m2 - k,
            {
                let ghost cur = state@;
                let ghost name_v = t.deactivate_rules@[k as int]@;
                state.deactivate_rule(t.deactivate_rules[k].as_str());
                proof {
                    assert(key_lookup(state@, name_v) == Some(deactivated_view()));
                    assert forall|n: Seq<char>| #[trigger]
                        key_lookup(state@, n) == (if (exists|l: int|
                            0 <= l < k + 1 && (#[trigger] t.deactivate_rules@[l])@ == n) {
                            Some(deactivated_view())
                        } else {
                            key_lookup(mid, n)
                        }) by {
                        if n == name_v {
                            assert(t.deactivate_rules@[k as int]@ == n);
                        } else {
                            assert(key_lookup(state@, n) == key_lookup(cur, n));
                            assert((exists|l: int|
                                0 <= l < k + 1 && (#[trigger] t.deactivate_rules@[l])@ == n) == (
                            exists|l: int|
                                0 <= l < k && (#[trigger] t.deactivate_rules@[l])@ == n));
                        }
                    }
                }
                k += 1;
            }
            proof {
                lemma_contains_view_names(t.activate_rules@);
                lemma_contains_view_names(t.deactivate_rules@);
            }
        },
        None => {},
    }
}

/// Bridge from an element-wise search to `contains_view`, for every key.
proof fn lemma_contains_view_names(v: Seq<String>)
    ensures
        forall|n: Seq<char>| #[trigger]
            contains_view(view_seq(v), n) == (exists|l: int|
                0 <= l < v.len() && (#[trigger] v[l])@ == n),
{
    assert forall|n: Seq<char>| #[trigger]
        contains_view(view_seq(v), n) == (exists|l: int|
            0 <= l < v.len() && (#[trigger] v[l])@ == n) by {
        crate::config::lemma_contains_view(v, n);
    }
}

} // verus!

verus! {

impl RuleEngine {
    /// An engine over these rules, each seeded with its default enabled
    /// state.  The rules are taken as given: sort them by priority first.
    pub fn new(rules: Vec<CommandRule>) -> (r: Self)
        ensures
            r.rules == rules,
            r.state@.len() == rules@.len(),
            forall|i: int|
                0 <= i < rules@.len() ==> r.state@[i] == (
                    (#[trigger] rules@[i]).name@,
                    ActivationView {
                        enabled: rules@[i].enabled_by_default,
                        expiration: None,
                        context: Seq::empty(),
                    },
                ),
    {
        let mut initial: Vec<(String, bool)> = Vec::new();
        let n = rules.len();
        let mut i: usize = 0;
        while i < n
            invariant
                i <= n,
                n == rules@.len(),
                initial@.len() == i,
                forall|l: int|
                    0 <= l < i ==> (#[trigger] initial@[l]).0@ == rules@[l].name@
                        && initial@[l].1 == rules@[l].enabled_by_default,
            decreases n - i,
        {
            initial.push((rules[i].name.clone(), rules[i].enabled_by_default));
            i += 1;
        }
        let state = RuleStateManager::new(initial);
        RuleEngine { rules, state }
    }

    /// The first enabled matching rule for this packet, if any.
    pub fn find_matching_rule(&self, header: &Header, msg: &Tree, direction: &str) -> (r: Option<
        usize,
    >)
        ensures
            match r {
                Some(i) => i < self.rules@.len() && selected_rule(
                    self.rules@,
                    self.state@,
                    *header,
                    msg@,
                    direction@,
                ) == Some(i as int),
                None => selected_rule(self.rules@, self.state@, *header, msg@, direction@) is None,
            },
    {
        let n = self.rules.len();
        let mut i: usize = 0;
        while i < n
            invariant
                i <= n,
                n == self.rules@.len(),
                selected_rule(self.rules@, self.state@, *header, msg@, direction@)
                    == selected_from(self.rules@, self.state@, *header, msg@, direction@, i as int),
            decreases n - i,
        {
            let enabled = self.state.is_rule_enabled(self.rules[i].name.as_str());
            if enabled && matches_rule(&self.rules[i], header, msg, direction) {
                return Some(i);
            }
            i += 1;
        }
        None
    }

    /// The trigger context the matched rule's modifier receives: the state
    /// the rule's own activation will hold once its triggers have run.
    fn modifier_context(&self, rule: &CommandRule) -> (r: Vec<(String, Tree)>)
        ensures
            entry_views(r@) == post_trigger_context(*rule, self.state@),
    {
        match &rule.triggers {
            Some(t) => {
                if t.on_match {
                    proof {
                        crate::config::lemma_contains_view(t.deactivate_rules@, rule.name@);
                        crate::config::lemma_contains_view(t.activate_rules@, rule.name@);
                    }
                    if crate::config::contains_name(&t.deactivate_rules, rule.name.as_str()) {
                        let r: Vec<(String, Tree)> = Vec::new();
                        proof {
                            assert(entry_views(r@) =~= Seq::<(Seq<char>, TreeView)>::empty());
                        }
                        return r;
                    }
                    match t.duration_seconds {
                        Some(_) => {
                            if crate::config::contains_name(&t.activate_rules, rule.name.as_str())
                            {
                                return copy_entries(&t.context);
                            }
                            self.state.get_trigger_context(rule.name.as_str())
                        },
                        None => self.state.get_trigger_context(rule.name.as_str()),
                    }
                } else {
                    self.state.get_trigger_context(rule.name.as_str())
                }
            },
            None => self.state.get_trigger_context(rule.name.as_str()),
        }
    }

    /// The modifier the matched rule will need, with the trigger context its
    /// script receives — the context as it stands once the rule's triggers
    /// have run, since processing runs triggers before the modifier's result
    /// is used.  The caller runs the script and hands the outcome to
    /// `process_message_with_direction`.  Nothing is needed when no rule
    /// matches, the matched rule has no modify action, or no modifier is set.
    pub fn pending_modifier(&self, header: &Header, msg: &Tree, direction: &str) -> (r: Option<
        (String, Vec<(String, Tree)>),
    >)
        ensures
            match selected_rule(self.rules@, self.state@, *header, msg@, direction@) {
                Some(i) => {
                    let rule = self.rules@[i];
                    if contains_view(crate::config::action_name_views(rule), "modify"@)
                        && rule.modifier is Some {
                        r matches Some(p) && (rule.modifier matches Some(m) && p.0@ == m@)
                            && entry_views(p.1@) == post_trigger_context(rule, self.state@)
                    } else {
                        r is None
                    }
                },
                None => r is None,
            },
    {
        match self.find_matching_rule(header, msg, direction) {
            Some(i) => {
                let rule = &self.rules[i];
                let acts = rule.get_actions();
                proof {
                    assert(view_seq(acts@) =~= crate::config::action_name_views(*rule));
                    crate::config::lemma_contains_view(acts@, "modify"@);
                }
                if crate::config::contains_name(&acts, "modify") {
                    match &rule.modifier {
                        Some(m) => Some((m.clone(), self.modifier_context(rule))),
                        None => None,
                    }
                } else {
                    None
                }
            },
            None => None,
        }
    }
}

} // verus!

verus! {

impl RuleEngine {
    /// Decide one packet: find the first enabled matching rule, run its
    /// triggers against the state, and return its action steps, the
    /// acknowledgement to synthesize, and the plugins the caller must invoke.
    /// A packet that no enabled rule matches is forwarded unchanged, with no
    /// acknowledgement, no plugin call, no trigger and no state change.
    /// `modifier_result` is the outcome of the script that `pending_modifier`
    /// named, when it named one.
    pub fn process_message_with_direction(
        &mut self,
        header: &Header,
        msg: &Tree,
        direction: &str,
        now_ms: u64,
        modifier_result: Option<ModifierOutcome>,
    ) -> (r: ProcessResult)
        ensures
            final(self).rules == old(self).rules,
            match selected_rule(old(self).rules@, old(self).state@, *header, msg@, direction@) {
                None => {
                    &&& action_views(r.actions@) == seq![ActionView::Forward]
                    &&& r.ack_info is None
                    &&& r.plugin_names@.len() == 0
                    &&& r.plugin_context is None
                    &&& final(self).state@ == old(self).state@
                },
                Some(i) => {
                    let rule = old(self).rules@[i];
                    &&& action_views(r.actions@) == built_actions(
                        rule,
                        outcome_message(modifier_result),
                    )
                    &&& if rule.auto_ack {
                        match rule.ack {
                            Some(cfg) => match r.ack_info {
                                Some(a) => msg@ matches TreeView::Object(es) && ack_info_of(
                                    cfg,
                                    *header,
                                    es,
                                ) == Some(a@),
                                None => msg@ matches TreeView::Object(es) && ack_info_of(
                                    cfg,
                                    *header,
                                    es,
                                ) is None,
                            },
                            None => r.ack_info is None,
                        }
                    } else {
                        r.ack_info is None
                    }
                    &&& view_seq(r.plugin_names@) == view_seq(rule.plugins@)
                    &&& r.plugin_context matches Some(pc) && pc@ == (PluginContextView {
                        system_id: header.system_id,
                        component_id: header.component_id,
                        message_type: rule.message_type@,
                        message: msg@,
                        trigger_context: context_of(final(self).state@, rule.name@),
                    })
                    &&& forall|n: Seq<char>| #[trigger]
                        key_lookup(final(self).state@, n) == triggered_lookup(
                            rule,
                            old(self).state@,
                            n,
                            now_ms,
                        )
                },
            },
    {
        let sel = self.find_matching_rule(header, msg, direction);
        match sel {
            Some(i) => {
                proof {
                    lemma_selected_from(
                        self.rules@,
                        self.state@,
                        *header,
                        msg@,
                        direction@,
                        0,
                    );
                }
                apply_triggers(&mut self.state, &self.rules[i], now_ms);
                let plugin_names = clone_strings(&self.rules[i].plugins);
                let trigger_ctx = self.state.get_trigger_context(self.rules[i].name.as_str());
                let ack_info: Option<AckInfo> = if self.rules[i].auto_ack {
                    match &self.rules[i].ack {
                        Some(cfg) => match msg {
                            Tree::Object(entries) => build_ack_info(cfg, header, entries),
                            _ => {
                                proof {
                                    assert(false);
                                }
                                None
                            },
                        },
                        None => None,
                    }
                } else {
                    None
                };
                let actions = build_action_steps(&self.rules[i], modifier_result);
                let pc = PluginContext {
                    system_id: header.system_id,
                    component_id: header.component_id,
                    message_type: self.rules[i].message_type.clone(),
                    message: msg.deep_copy(),
                    trigger_context: trigger_ctx,
                };
                proof {
                    assert(pc@ =~= PluginContextView {
                        system_id: header.system_id,
                        component_id: header.component_id,
                        message_type: self.rules@[i as int].message_type@,
                        message: msg@,
                        trigger_context: context_of(self.state@, self.rules@[i as int].name@),
                    });
                }
                ProcessResult { actions, ack_info, plugin_names, plugin_context: Some(pc) }
            },
            None => {
                let mut actions: Vec<Action> = Vec::new();
                actions.push(Action::Forward);
                proof {
                    assert(action_views(actions@) =~= seq![ActionView::Forward]);
                }
                ProcessResult {
                    actions,
                    ack_info: None,
                    plugin_names: Vec::new(),
                    plugin_context: None,
                }
            },
        }
    }

    /// Decide one packet travelling from the ground stations to the router.
    pub fn process_message(
        &mut self,
        header: &Header,
        msg: &Tree,
        now_ms: u64,
        modifier_result: Option<ModifierOutcome>,
    ) -> (r: ProcessResult)
        ensures
            final(self).rules == old(self).rules,
            match selected_rule(
                old(self).rules@,
                old(self).state@,
                *header,
                msg@,
                "gcs_to_router"@,
            ) {
                None => {
                    &&& action_views(r.actions@) == seq![ActionView::Forward]
                    &&& r.ack_info is None
                    &&& r.plugin_names@.len() == 0
                    &&& r.plugin_context is None
                    &&& final(self).state@ == old(self).state@
                },
                Some(i) => {
                    let rule = old(self).rules@[i];
                    &&& action_views(r.actions@) == built_actions(
                        rule,
                        outcome_message(modifier_result),
                    )
                    &&& forall|n: Seq<char>| #[trigger]
                        key_lookup(final(self).state@, n) == triggered_lookup(
                            rule,
                            old(self).state@,
                            n,
                            now_ms,
                        )
                },
            },
    {
        self.process_message_with_direction(header, msg, "gcs_to_router", now_ms, modifier_result)
    }
}

} // verus!

verus! {

/// A disabled rule fires nothing: it is never the selected rule, so none of
/// its actions, plugins, triggers or acknowledgements reach the result of
/// processing.
pub proof fn lemma_disabled_rule_never_fires(
    rules: Seq<CommandRule>,
    state: Seq<(Seq<char>, ActivationView)>,
    header: Header,
    msg: TreeView,
    direction: Seq<char>,
    i: int,
)
    requires
        0 <= i < rules.len(),
        !enabled_of(state, rules[i].name@),
    ensures
        selected_rule(rules, state, header, msg, direction) != Some(i),
{
    lemma_selected_from(rules, state, header, msg, direction, 0);
}

/// Priority wins: when the rules stand in descending priority order, the
/// selected rule's priority is at least that of every other enabled rule
/// that would match, so a higher-priority match always beats a lower one.
pub proof fn lemma_priority_wins(
    rules: Seq<CommandRule>,
    state: Seq<(Seq<char>, ActivationView)>,
    header: Header,
    msg: TreeView,
    direction: Seq<char>,
    k: int,
    j: int,
)
    requires
        crate::config::sorted_by_priority(rules),
        selected_rule(rules, state, header, msg, direction) == Some(k),
        0 <= j < rules.len(),
        enabled_of(state, rules[j].name@),
        rule_matches(rules[j], header, msg, direction),
    ensures
        rules[k].priority >= rules[j].priority,
{
    lemma_selected_from(rules, state, header, msg, direction, 0);
    assert(k <= j);
}

} // verus!
