use vstd::prelude::*;
use crate::tree::{str_eq, Tree};

verus! {

/// Addresses and ports of the two sides of the proxy.
pub struct NetworkConfig {
    pub gcs_listen_port: u16,
    pub gcs_listen_address: String,
    pub router_address: String,
    pub router_port: u16,
}

/// Requested log verbosity.
pub struct LoggingConfig {
    pub level: String,
}

/// Where plugin scripts live and which to load, as (name, file) pairs.
pub struct PluginsConfig {
    pub directory: String,
    pub load: Vec<(String, String)>,
}

/// Where modifier scripts live and which to load, as (name, file) pairs.
pub struct ModifiersConfig {
    pub directory: String,
    pub load: Vec<(String, String)>,
}

pub fn default_plugins_dir() -> (r: String)
    ensures
        r@ == "plugins"@,
{
    "plugins".to_owned()
}

pub fn default_modifiers_dir() -> (r: String)
    ensures
        r@ == "modifiers"@,
{
    "modifiers".to_owned()
}

pub fn default_batch_timeout_forward() -> (r: bool)
    ensures
        r,
{
    true
}

pub fn default_batch_key() -> (r: String)
    ensures
        r@ == "default"@,
{
    "default".to_owned()
}

pub fn default_direction() -> (r: String)
    ensures
        r@ == "gcs_to_router"@,
{
    "gcs_to_router".to_owned()
}

/// What a matching rule does to the state of other rules.
pub struct TriggerConfig {
    pub on_match: bool,
    pub activate_rules: Vec<String>,
    pub deactivate_rules: Vec<String>,
    pub duration_seconds: Option<u64>,
    /// Context stored with each activation, for the activated rules to read.
    pub context: Vec<(String, Tree)>,
}

/// How to synthesize an acknowledgement for a matched message.
pub struct AutoAckConfig {
    /// Message type of the synthesized acknowledgement.
    pub message_type: String,
    /// Field of the matched message that gives the acknowledgement's source system.
    pub source_system_field: String,
    /// Field of the matched message that gives the acknowledgement's source component.
    pub source_component_field: String,
    /// Fixed fields to set in the acknowledgement.
    pub fields: Vec<(String, Tree)>,
    /// Fields to copy from the matched message, as (target field, source path).
    pub copy_fields: Vec<(String, String)>,
}

/// Conditions a message must meet for a rule to match.
pub struct RuleConditions {
    pub system_id: Option<u8>,
    pub component_id: Option<u8>,
    /// Field conditions, as (field name, expected value).
    pub custom: Vec<(String, Tree)>,
}

/// One rule of the pipeline, immutable after load.
pub struct CommandRule {
    /// Unique identifier.
    pub name: String,
    /// Whether the rule starts enabled.
    pub enabled_by_default: bool,
    /// Message type this rule applies to.
    pub message_type: String,
    pub conditions: RuleConditions,
    /// Single action, kept for configurations that predate `actions`.
    pub action: Option<String>,
    /// Ordered actions to apply.
    pub actions: Option<Vec<String>>,
    pub delay_seconds: Option<u64>,
    /// Unique source systems to await before a batch releases.
    pub batch_count: Option<usize>,
    pub batch_timeout_seconds: Option<u64>,
    /// Whether a batch that times out is forwarded rather than dropped.
    pub batch_timeout_forward: bool,
    pub batch_key: String,
    /// Message field that gives the batch source system; the header's when absent.
    pub batch_system_id_field: Option<String>,
    /// Scripts to invoke when the rule matches.
    pub plugins: Vec<String>,
    pub auto_ack: bool,
    pub ack: Option<AutoAckConfig>,
    /// Modifier script for the modify action.
    pub modifier: Option<String>,
    pub description: Option<String>,
    /// Higher priority is checked first.
    pub priority: i32,
    /// "gcs_to_router", "router_to_gcs", or "both".
    pub direction: String,
    pub triggers: Option<TriggerConfig>,
}

/// The action names of a rule: the `actions` list when present, else the
/// single `action`, else nothing.
pub open spec fn action_names(rule: CommandRule) -> Seq<String> {
    match rule.actions {
        Some(list) => list@,
        None => match rule.action {
            Some(a) => seq![a],
            None => Seq::empty(),
        },
    }
}

/// Whether `v` holds a string with content `s`.
pub fn contains_name(v: &Vec<String>, s: &str) -> (r: bool)
    ensures
        r == (exists|i: int| 0 <= i < v@.len() && (#[trigger] v@[i])@ == s@),
{
    let n = v.len();
    let mut i: usize = 0;
    while i < n
        invariant
            i <= n,
            forall|l: int| 0 <= l < i ==> (#[trigger] v@[l])@ != s@,
        decreases n - i,
    {
        if str_eq(v[i].as_str(), s) {
            return true;
        }
        i += 1;
    }
    false
}

impl CommandRule {
    /// The rule's action names in order.
    pub fn get_actions(&self) -> (r: Vec<String>)
        ensures
            r@.len() == action_names(*self).len(),
            forall|i: int|
                0 <= i < r@.len() ==> (#[trigger] r@[i])@ == action_names(*self)[i]@,
    {
        match &self.actions {
            Some(list) => {
                let ghost orig = list@;
                let r = list.clone();
                proof {
                    assert forall|i: int| 0 <= i < r@.len() implies (#[trigger] r@[i])@
                        == action_names(*self)[i]@ by {
                        assert(cloned::<String>(orig[i], r@[i]));
                    }
                }
                r
            },
            None => match &self.action {
                Some(a) => {
                    let mut r: Vec<String> = Vec::new();
                    r.push(a.clone());
                    r
                },
                None => Vec::new(),
            },
        }
    }
}

} // verus!

verus! {

/// Content views of a list of strings.
pub open spec fn view_seq(v: Seq<String>) -> Seq<Seq<char>> {
    v.map_values(|s: String| s@)
}

/// The action names of a rule, by content.
pub open spec fn action_name_views(rule: CommandRule) -> Seq<Seq<char>> {
    view_seq(action_names(rule))
}

/// Whether `a` names one of the five actions.
pub open spec fn valid_action_name(a: Seq<char>) -> bool {
    a == "delay"@ || a == "block"@ || a == "forward"@ || a == "modify"@ || a == "batch"@
}

/// Whether `d` names a direction a rule may filter on.
pub open spec fn valid_direction(d: Seq<char>) -> bool {
    d == "gcs_to_router"@ || d == "router_to_gcs"@ || d == "both"@
}

/// Whether `v` holds a string with content `s`.
pub open spec fn contains_view(v: Seq<Seq<char>>, s: Seq<char>) -> bool {
    exists|i: int| 0 <= i < v.len() && v[i] == s
}

/// `contains_view` over the content views agrees with searching the strings
/// themselves.
pub proof fn lemma_contains_view(v: Seq<String>, s: Seq<char>)
    ensures
        contains_view(view_seq(v), s) == (exists|i: int|
            0 <= i < v.len() && (#[trigger] v[i])@ == s),
{
    if exists|i: int| 0 <= i < v.len() && (#[trigger] v[i])@ == s {
        let i = choose|i: int| 0 <= i < v.len() && (#[trigger] v[i])@ == s;
        assert(view_seq(v)[i] == s);
    }
    if contains_view(view_seq(v), s) {
        let i = choose|i: int| 0 <= i < view_seq(v).len() && view_seq(v)[i] == s;
        assert(v[i]@ == s);
    }
}

/// Why a configuration was rejected; each variant names the offending rule.
#[derive(Clone, Copy, PartialEq, Eq, Structural, Debug)]
pub enum ConfigError {
    /// The GCS listen port is zero.
    ZeroListenPort,
    /// The rule names no action at all.
    RuleWithoutAction { index: usize },
    /// The rule names an unknown action.
    InvalidAction { index: usize },
    /// The rule names an unknown direction.
    InvalidDirection { index: usize },
    /// The rule has a delay action but no delay_seconds.
    DelayWithoutSeconds { index: usize },
    /// The rule has a batch action but no batch_count.
    BatchWithoutCount { index: usize },
    /// The rule has a batch action but no batch_timeout_seconds.
    BatchWithoutTimeout { index: usize },
    /// The rule has a modify action but no modifier.
    ModifyWithoutModifier { index: usize },
    /// The rule asks for automatic acknowledgement but has no ack section.
    AckWithoutSpec { index: usize },
}

/// The first fault of one rule, checked in the order the checks run.
pub open spec fn rule_error(rule: CommandRule, index: usize) -> Option<ConfigError> {
    let acts = action_name_views(rule);
    if acts.len() == 0 {
        Some(ConfigError::RuleWithoutAction { index })
    } else if exists|i: int| 0 <= i < acts.len() && !valid_action_name(acts[i]) {
        Some(ConfigError::InvalidAction { index })
    } else if !valid_direction(rule.direction@) {
        Some(ConfigError::InvalidDirection { index })
    } else if contains_view(acts, "delay"@) && rule.delay_seconds is None {
        Some(ConfigError::DelayWithoutSeconds { index })
    } else if contains_view(acts, "batch"@) && rule.batch_count is None {
        Some(ConfigError::BatchWithoutCount { index })
    } else if contains_view(acts, "batch"@) && rule.batch_timeout_seconds is None {
        Some(ConfigError::BatchWithoutTimeout { index })
    } else if contains_view(acts, "modify"@) && rule.modifier is None {
        Some(ConfigError::ModifyWithoutModifier { index })
    } else if rule.auto_ack && rule.ack is None {
        Some(ConfigError::AckWithoutSpec { index })
    } else {
        None
    }
}

/// The first fault among the rules from position `i` on.
pub open spec fn rules_error_from(rules: Seq<CommandRule>, i: int) -> Option<ConfigError>
    decreases rules.len() - i,
{
    if i < 0 || i >= rules.len() {
        None
    } else {
        match rule_error(rules[i], i as usize) {
            Some(e) => Some(e),
            None => rules_error_from(rules, i + 1),
        }
    }
}

/// The whole configuration, as the proxy consumes it.
pub struct Config {
    pub network: NetworkConfig,
    pub logging: LoggingConfig,
    pub plugins: PluginsConfig,
    pub modifiers: ModifiersConfig,
    pub rules: Vec<CommandRule>,
}

/// The first fault of a configuration: a zero listen port, else the first
/// faulty rule.
pub open spec fn config_error(c: Config) -> Option<ConfigError> {
    if c.network.gcs_listen_port == 0 {
        Some(ConfigError::ZeroListenPort)
    } else {
        rules_error_from(c.rules@, 0)
    }
}

impl Config {
    /// Reject a configuration at its first fault; accept it when it has none.
    pub fn validate(&self) -> (r: Result<(), ConfigError>)
        ensures
            match r {
                Ok(()) => config_error(*self) is None,
                Err(e) => config_error(*self) == Some(e),
            },
    {
        if self.network.gcs_listen_port == 0 {
            return Err(ConfigError::ZeroListenPort);
        }
        let n = self.rules.len();
        let mut idx: usize = 0;
        while idx < n
            invariant
                idx <= n,
                rules_error_from(self.rules@, 0) == rules_error_from(self.rules@, idx as int),
            decreases n - idx,
        {
            let rule = &self.rules[idx];
            let acts = rule.get_actions();
            proof {
                assert(view_seq(acts@) =~= action_name_views(*rule));
                lemma_contains_view(acts@, "delay"@);
                lemma_contains_view(acts@, "batch"@);
                lemma_contains_view(acts@, "modify"@);
            }
            if acts.len() == 0 {
                return Err(ConfigError::RuleWithoutAction { index: idx });
            }
            let m = acts.len();
            let mut j: usize = 0;
            while j < m
                invariant
                    j <= m,
                    forall|l: int|
                        0 <= l < j ==> valid_action_name(#[trigger] view_seq(acts@)[l]),
                decreases m - j,
            {
                let a = acts[j].as_str();
                let ok = str_eq(a, "delay") || str_eq(a, "block") || str_eq(a, "forward")
                    || str_eq(a, "modify") || str_eq(a, "batch");
                if !ok {
                    proof {
                        assert(!valid_action_name(view_seq(acts@)[j as int]));
                    }
                    return Err(ConfigError::InvalidAction { index: idx });
                }
                j += 1;
            }
            let d = rule.direction.as_str();
            if !(str_eq(d, "gcs_to_router") || str_eq(d, "router_to_gcs") || str_eq(d, "both")) {
                return Err(ConfigError::InvalidDirection { index: idx });
            }
            if contains_name(&acts, "delay") && rule.delay_seconds.is_none() {
                return Err(ConfigError::DelayWithoutSeconds { index: idx });
            }
            let has_batch = contains_name(&acts, "batch");
            if has_batch && rule.batch_count.is_none() {
                return Err(ConfigError::BatchWithoutCount { index: idx });
            }
            if has_batch && rule.batch_timeout_seconds.is_none() {
                return Err(ConfigError::BatchWithoutTimeout { index: idx });
            }
            if contains_name(&acts, "modify") && rule.modifier.is_none() {
                return Err(ConfigError::ModifyWithoutModifier { index: idx });
            }
            if rule.auto_ack && rule.ack.is_none() {
                return Err(ConfigError::AckWithoutSpec { index: idx });
            }
            proof {
                assert(rule_error(self.rules@[idx as int], idx) is None);
            }
            idx += 1;
        }
        Ok(())
    }
}

} // verus!

verus! {

/// Whether the rules stand in descending priority order.
pub open spec fn sorted_by_priority(rules: Seq<CommandRule>) -> bool {
    forall|i: int, j: int| 0 <= i <= j < rules.len() ==> rules[i].priority >= rules[j].priority
}

proof fn lemma_insert_to_multiset(s: Seq<CommandRule>, j: int, v: CommandRule)
    requires
        0 <= j <= s.len(),
    ensures
        s.insert(j, v).to_multiset() =~= s.to_multiset().insert(v),
{
    broadcast use vstd::seq_lib::group_to_multiset_ensures;

    let t = s.insert(j, v);
    assert(t.remove(j) =~= s);
    assert(t[j] == v);
    assert(t.remove(j).to_multiset() =~= t.to_multiset().remove(v));
    assert(t.contains(v));
    assert(t.to_multiset().count(v) > 0);
    assert(t.to_multiset().remove(v).insert(v) =~= t.to_multiset());
}

/// Order the rules so that higher priorities come first; rules of equal
/// priority keep their relative order.  The result holds exactly the given
/// rules.
/// How `output` rearranges `input`: `perm[i]` names the input position of
/// `output[i]`, each position is used once, and rules of equal priority keep
/// their input order.
pub open spec fn is_stable_reordering(
    perm: Seq<int>,
    input: Seq<CommandRule>,
    output: Seq<CommandRule>,
) -> bool {
    &&& perm.len() == output.len()
    &&& output.len() == input.len()
    &&& forall|i: int| 0 <= i < perm.len() ==> 0 <= #[trigger] perm[i] < input.len()
    &&& forall|i: int| 0 <= i < perm.len() ==> #[trigger] output[i] == input[perm[i]]
    &&& forall|i: int, j: int|
        #![trigger perm[i], perm[j]]
        0 <= i < j < perm.len() ==> perm[i] != perm[j]
    &&& forall|i: int, j: int|
        #![trigger perm[i], perm[j]]
        0 <= i < j < perm.len() && output[i].priority == output[j].priority ==> perm[i] < perm[j]
}

pub fn sort_rules_by_priority(rules: Vec<CommandRule>) -> (r: Vec<CommandRule>)
    ensures
        sorted_by_priority(r@),
        r@.to_multiset() == rules@.to_multiset(),
        r@.len() == rules@.len(),
        exists|perm: Seq<int>| is_stable_reordering(perm, rules@, r@),
{
    let ghost orig = rules@;
    let mut input = rules;
    let mut out: Vec<CommandRule> = Vec::new();
    proof {
        broadcast use vstd::seq_lib::group_to_multiset_ensures;

        assert(out@.to_multiset().add(input@.to_multiset()) =~= orig.to_multiset());
    }
    let ghost mut perm: Seq<int> = Seq::empty();
    while input.len() > 0
        invariant
            sorted_by_priority(out@),
            out@.to_multiset().add(input@.to_multiset()) == orig.to_multiset(),
            out@.len() + input@.len() == orig.len(),
            perm.len() == out@.len(),
            forall|i: int| 0 <= i < perm.len() ==> 0 <= #[trigger] perm[i] < out@.len(),
            forall|i: int| 0 <= i < perm.len() ==> #[trigger] out@[i] == orig[perm[i]],
            forall|i: int, j: int|
                #![trigger perm[i], perm[j]]
                0 <= i < j < perm.len() ==> perm[i] != perm[j],
            forall|i: int, j: int|
                #![trigger perm[i], perm[j]]
                0 <= i < j < perm.len() && out@[i].priority == out@[j].priority ==> perm[i]
                    < perm[j],
            forall|l: int| 0 <= l < input@.len() ==> #[trigger] input@[l] == orig[out@.len() + l],
        decreases input@.len(),
    {
        let ghost input_before = input@;
        let ghost out_before = out@;
        let ghost perm_before = perm;
        let ghost c = out@.len() as int;
        let next = input.remove(0);
        proof {
            broadcast use vstd::seq_lib::group_to_multiset_ensures;

            assert(input_before.remove(0).to_multiset() =~= input_before.to_multiset().remove(
                input_before[0],
            ));
        }
        let m = out.len();
        let mut j: usize = 0;
        while j < m && out[j].priority >= next.priority
            invariant
                j <= m,
                forall|l: int| 0 <= l < j ==> out@[l].priority >= next.priority,
            decreases m - j,
        {
            j += 1;
        }
        out.insert(j, next);
        proof {
            perm = perm.insert(j as int, c);
            assert(next == orig[c]);
            assert forall|i: int| 0 <= i < perm.len() implies #[trigger] out@[i] == orig[perm[i]]
                by {
                if i < j {
                    assert(perm[i] == perm_before[i]);
                    assert(out@[i] == out_before[i]);
                } else if i > j {
                    assert(perm[i] == perm_before[i - 1]);
                    assert(out@[i] == out_before[i - 1]);
                }
            }
            assert forall|i: int, j2: int|
                #![trigger perm[i], perm[j2]]
                0 <= i < j2 < perm.len() implies perm[i] != perm[j2] by {
                if i != j && j2 != j {
                    let i0: int = if i < j { i } else { i - 1 };
                    let j0: int = if j2 < j { j2 } else { j2 - 1 };
                    assert(perm[i] == perm_before[i0]);
                    assert(perm[j2] == perm_before[j0]);
                } else if i == j {
                    assert(perm[j2] == perm_before[j2 - 1]);
                    assert(perm_before[j2 - 1] < c);
                } else {
                    assert(perm[i] == perm_before[i]);
                    assert(perm_before[i] < c);
                }
            }
            assert forall|i: int, j2: int|
                #![trigger perm[i], perm[j2]]
                0 <= i < j2 < perm.len() && out@[i].priority == out@[j2].priority implies perm[i]
                    < perm[j2] by {
                if i != j && j2 != j {
                    let i0: int = if i < j { i } else { i - 1 };
                    let j0: int = if j2 < j { j2 } else { j2 - 1 };
                    assert(perm[i] == perm_before[i0]);
                    assert(perm[j2] == perm_before[j0]);
                    assert(out@[i] == out_before[i0]);
                    assert(out@[j2] == out_before[j0]);
                } else if j2 == j {
                    // an earlier entry with the same priority came from an
                    // earlier input position
                    assert(perm[i] == perm_before[i]);
                    assert(perm_before[i] < c);
                } else {
                    // nothing after the insertion point shares the priority:
                    // the insertion stopped at the first lower one
                    assert(out@[j2] == out_before[j2 - 1]);
                    assert(out_before[j as int].priority < next.priority);
                    assert(out_before[j2 - 1].priority <= out_before[j as int].priority);
                    assert(false);
                }
            }
            broadcast use vstd::seq_lib::group_to_multiset_ensures;

            lemma_insert_to_multiset(out_before, j as int, next);
            assert(out@.to_multiset().add(input@.to_multiset()) =~= orig.to_multiset());
            assert forall|a: int, b: int|
                0 <= a <= b < out@.len() implies out@[a].priority >= out@[b].priority by {
                if a < j && b >= j {
                    if b > j {
                        assert(out@[b] == out_before[b - 1]);
                    }
                } else if a >= j && b > j {
                    if a > j {
                        assert(out@[a] == out_before[a - 1]);
                    } else {
                        assert(out_before[j as int].priority < next.priority);
                    }
                }
            }
        }
    }
    proof {
        broadcast use vstd::seq_lib::group_to_multiset_ensures;

        assert(input@.to_multiset().len() == 0);
        assert(out@.to_multiset().add(input@.to_multiset()) =~= out@.to_multiset());
        assert(is_stable_reordering(perm, orig, out@));
    }
    out
}

/// Log verbosity steps.
#[derive(Clone, Copy, PartialEq, Eq, Structural, Debug)]
pub enum LogLevel {
    Trace,
    Debug,
    Info,
    Warn,
    Error,
}

/// The level a lower-cased name denotes; unknown names denote `Info`.
pub open spec fn log_level_of(s: Seq<char>) -> LogLevel {
    if s == "trace"@ {
        LogLevel::Trace
    } else if s == "debug"@ {
        LogLevel::Debug
    } else if s == "warn"@ {
        LogLevel::Warn
    } else if s == "error"@ {
        LogLevel::Error
    } else {
        LogLevel::Info
    }
}

/// Map a lower-cased level name to its level; the caller folds case first.
pub fn parse_log_level(level: &str) -> (r: LogLevel)
    ensures
        r == log_level_of(level@),
{
    if str_eq(level, "trace") {
        LogLevel::Trace
    } else if str_eq(level, "debug") {
        LogLevel::Debug
    } else if str_eq(level, "warn") {
        LogLevel::Warn
    } else if str_eq(level, "error") {
        LogLevel::Error
    } else {
        LogLevel::Info
    }
}

} // verus!
