use vstd::prelude::*;
use crate::table::{
    first_key_index, key_lookup, lemma_first_key_index, lemma_first_key_index_none,
    lemma_first_key_index_of, lemma_key_lookup_push, lemma_key_lookup_update,
};
use crate::tree::{entry_views, str_eq, Tree, TreeView};

verus! {

/// Activation state of one rule.
pub struct RuleActivation {
    /// Whether the rule is currently enabled.
    pub enabled: bool,
    /// Millisecond instant at which the activation lapses, if any.
    pub expiration: Option<u64>,
    /// Context handed over by the triggering rule.
    pub context: Vec<(String, Tree)>,
}

/// Model of an activation.
#[verifier::ext_equal]
pub struct ActivationView {
    pub enabled: bool,
    pub expiration: Option<u64>,
    pub context: Seq<(Seq<char>, TreeView)>,
}

impl View for RuleActivation {
    type V = ActivationView;

    open spec fn view(&self) -> ActivationView {
        ActivationView {
            enabled: self.enabled,
            expiration: self.expiration,
            context: entry_views(self.context@),
        }
    }
}

/// Whether the rule of that name counts as enabled: a rule the manager does
/// not know is enabled.
pub open spec fn enabled_of(s: Seq<(Seq<char>, ActivationView)>, name: Seq<char>) -> bool {
    match key_lookup(s, name) {
        Some(a) => a.enabled,
        None => true,
    }
}

/// The trigger context stored for the rule of that name; empty when none is.
pub open spec fn context_of(s: Seq<(Seq<char>, ActivationView)>, name: Seq<char>) -> Seq<
    (Seq<char>, TreeView),
> {
    match key_lookup(s, name) {
        Some(a) => a.context,
        None => Seq::empty(),
    }
}

/// The instant at which an activation made now for that many seconds lapses,
/// clamped to the largest representable instant.
pub open spec fn expiry_time(now_ms: u64, duration_seconds: u64) -> u64 {
    if now_ms + duration_seconds * 1000 > u64::MAX {
        u64::MAX
    } else {
        (now_ms + duration_seconds * 1000) as u64
    }
}

/// An activation as it lies after the sweep instant `now_ms` has passed.
pub open spec fn swept(a: ActivationView, now_ms: u64) -> ActivationView {
    match a.expiration {
        Some(e) => if now_ms >= e {
            ActivationView { enabled: false, expiration: None, context: Seq::empty() }
        } else {
            a
        },
        None => a,
    }
}

/// The first `entries` hold exactly the names and starting flags of `orig`,
/// with no expiry and no context.
pub open spec fn seeded_prefix(
    entries: Seq<(String, RuleActivation)>,
    orig: Seq<(String, bool)>,
) -> bool {
    forall|i: int|
        0 <= i < entries.len() ==> (#[trigger] entries[i]).0@ == orig[i].0@ && entries[i].1@
            == (ActivationView { enabled: orig[i].1, expiration: None, context: Seq::empty() })
}

/// Keeps the enabled flag, expiry and trigger context of each rule, by name.
pub struct RuleStateManager {
    entries: Vec<(String, RuleActivation)>,
}

impl View for RuleStateManager {
    type V = Seq<(Seq<char>, ActivationView)>;

    closed spec fn view(&self) -> Seq<(Seq<char>, ActivationView)> {
        self.entries@.map_values(|p: (String, RuleActivation)| (p.0@, p.1@))
    }
}

impl RuleStateManager {
    /// Seed the manager with each rule's name and starting flag, in order.
    pub fn new(initial: Vec<(String, bool)>) -> (r: Self)
        ensures
            r@.len() == initial@.len(),
            forall|i: int|
                0 <= i < initial@.len() ==> r@[i] == (
                    initial@[i].0@,
                    ActivationView {
                        enabled: initial@[i].1,
                        expiration: None,
                        context: Seq::empty(),
                    },
                ),
    {
        let ghost orig = initial@;
        let mut input = initial;
        let mut entries: Vec<(String, RuleActivation)> = Vec::new();
        while input.len() > 0
            invariant
                entries@.len() + input@.len() == orig.len(),
                forall|l: int| 0 <= l < input@.len() ==> input@[l] == orig[entries@.len() + l],
                seeded_prefix(entries@, orig),
            decreases input@.len(),
        {
            let ghost entries_before = entries@;
            let ghost head = input@[0];
            let (name, enabled) = input.remove(0);
            proof {
                assert(name == head.0);
                assert(enabled == head.1);
            }
            let act = RuleActivation { enabled, expiration: None, context: Vec::new() };
            proof {
                assert(act.context@ == Seq::<(String, Tree)>::empty());
                assert(entry_views(act.context@) == Seq::<(Seq<char>, TreeView)>::empty());
            }
            proof {
                assert(act@ =~= ActivationView {
                    enabled,
                    expiration: None,
                    context: Seq::empty(),
                });
            }
            entries.push((name, act));
            proof {
                let k = entries_before.len() as int;
                assert(head == orig[k]);
                assert(entries@[k].0@ == head.0@ && entries@[k].1@ == act@);
                assert forall|i: int|
                    0 <= i < entries@.len() implies (#[trigger] entries@[i]).0@ == orig[i].0@
                        && entries@[i].1@ == (ActivationView {
                        enabled: orig[i].1,
                        expiration: None,
                        context: Seq::empty(),
                    }) by {
                    if i < k {
                        assert(entries@[i] == entries_before[i]);
                        assert(entries_before[i].0@ == orig[i].0@);
                    }
                }
                assert(seeded_prefix(entries@, orig));
            }
        }
        let r = RuleStateManager { entries };
        proof {
            assert forall|i: int| 0 <= i < orig.len() implies r@[i] == (
                orig[i].0@,
                ActivationView { enabled: orig[i].1, expiration: None, context: Seq::empty() },
            ) by {
                assert(r@[i] == (r.entries@[i].0@, r.entries@[i].1@));
            }
        }
        r
    }

    /// Whether the rule of that name is enabled; an unknown name counts as
    /// enabled.
    pub fn is_rule_enabled(&self, rule_name: &str) -> (r: bool)
        ensures
            r == enabled_of(self@, rule_name@),
    {
        proof {
            lemma_first_key_index(self@, rule_name@);
        }
        let n = self.entries.len();
        let mut i: usize = 0;
        while i < n
            invariant
                i <= n,
                n == self.entries@.len(),
                forall|l: int| 0 <= l < i ==> (#[trigger] self@[l]).0 != rule_name@,
            decreases n - i,
        {
            if str_eq(self.entries[i].0.as_str(), rule_name) {
                proof {
                    assert(self@[i as int].0 == rule_name@);
                    lemma_first_key_index_of(self@, rule_name@, i as int);
                }
                return self.entries[i].1.enabled;
            }
            proof {
                assert(self@[i as int].0 == self.entries@[i as int].0@);
            }
            i += 1;
        }
        proof {
            lemma_first_key_index_none(self@, rule_name@);
        }
        true
    }
}

} // verus!

verus! {

impl RuleStateManager {
    /// Bind `name` to `act`, replacing its first entry or appending one.
    fn set_state(&mut self, name: &str, act: RuleActivation)
        ensures
            key_lookup(final(self)@, name@) == Some(act@),
            forall|k2: Seq<char>|
                k2 != name@ ==> #[trigger] key_lookup(final(self)@, k2) == key_lookup(
                    old(self)@,
                    k2,
                ),
    {
        let ghost act_v = act@;
        let n = self.entries.len();
        let mut i: usize = 0;
        while i < n
            invariant
                i <= n,
                n == self.entries@.len(),
                self@ == old(self)@,
                forall|l: int| 0 <= l < i ==> (#[trigger] self@[l]).0 != name@,
            decreases n - i,
        {
            proof {
                assert(self@[i as int] == (self.entries@[i as int].0@, self.entries@[i as int].1@));
            }
            if str_eq(self.entries[i].0.as_str(), name) {
                proof {
                    assert(self@[i as int].0 == name@);
                    lemma_first_key_index_of(self@, name@, i as int);
                }
                let ghost before = self@;
                let ghost before_entries = self.entries@;
                let (key, _prev) = self.entries.remove(i);
                self.entries.insert(i, (key, act));
                proof {
                    assert(self.entries@ =~= before_entries.update(i as int, self.entries@[i as int]));
                    assert forall|l: int|
                        0 <= l < self@.len() implies #[trigger] self@[l] == before.update(
                        i as int,
                        (name@, act_v),
                    )[l] by {
                        assert(self@[l] == (self.entries@[l].0@, self.entries@[l].1@));
                        if l != i {
                            assert(self.entries@[l] == before_entries[l]);
                            assert(before[l] == (before_entries[l].0@, before_entries[l].1@));
                        }
                    }
                    assert(self@ =~= before.update(i as int, (name@, act_v)));
                    lemma_key_lookup_update(before, name@, i as int, act_v);
                }
                return ;
            }
            i += 1;
        }
        let ghost before = self@;
        let ghost before_entries = self.entries@;
        proof {
            lemma_first_key_index_none(before, name@);
        }
        self.entries.push((name.to_owned(), act));
        proof {
            assert forall|l: int|
                0 <= l < self@.len() implies #[trigger] self@[l] == before.push((name@, act_v))[l]
                by {
                assert(self@[l] == (self.entries@[l].0@, self.entries@[l].1@));
                if l < before.len() {
                    assert(self.entries@[l] == before_entries[l]);
                    assert(before[l] == (before_entries[l].0@, before_entries[l].1@));
                }
            }
            assert(self@ =~= before.push((name@, act_v)));
            assert forall|k2: Seq<char>| #[trigger] key_lookup(self@, k2) == (match key_lookup(
                before,
                k2,
            ) {
                Some(v) => Some(v),
                None => if name@ == k2 {
                    Some(act_v)
                } else {
                    None
                },
            }) by {
                lemma_key_lookup_push(before, (name@, act_v), k2);
            }
        }
    }

    /// Enable the rule for that many seconds from `now_ms`, storing the
    /// trigger context; states of other rules are untouched.
    pub fn activate_rule(
        &mut self,
        rule_name: &str,
        duration_seconds: u64,
        context: Vec<(String, Tree)>,
        now_ms: u64,
    )
        ensures
            key_lookup(final(self)@, rule_name@) == Some(
                ActivationView {
                    enabled: true,
                    expiration: Some(expiry_time(now_ms, duration_seconds)),
                    context: entry_views(context@),
                },
            ),
            forall|k2: Seq<char>|
                k2 != rule_name@ ==> #[trigger] key_lookup(final(self)@, k2) == key_lookup(
                    old(self)@,
                    k2,
                ),
    {
        let expiration: u64 = match duration_seconds.checked_mul(1000) {
            Some(ms) => now_ms.saturating_add(ms),
            None => u64::MAX,
        };
        proof {
            assert(expiration == expiry_time(now_ms, duration_seconds));
        }
        self.set_state(
            rule_name,
            RuleActivation { enabled: true, expiration: Some(expiration), context },
        );
    }

    /// Disable the rule at once, clearing its expiry and context; states of
    /// other rules are untouched.
    pub fn deactivate_rule(&mut self, rule_name: &str)
        ensures
            key_lookup(final(self)@, rule_name@) == Some(
                ActivationView { enabled: false, expiration: None, context: Seq::empty() },
            ),
            forall|k2: Seq<char>|
                k2 != rule_name@ ==> #[trigger] key_lookup(final(self)@, k2) == key_lookup(
                    old(self)@,
                    k2,
                ),
    {
        let act = RuleActivation { enabled: false, expiration: None, context: Vec::new() };
        proof {
            assert(act@ =~= ActivationView {
                enabled: false,
                expiration: None,
                context: Seq::empty(),
            });
        }
        self.set_state(rule_name, act);
    }

    /// A copy of the trigger context stored for the rule; empty when none is.
    pub fn get_trigger_context(&self, rule_name: &str) -> (r: Vec<(String, Tree)>)
        ensures
            entry_views(r@) == context_of(self@, rule_name@),
    {
        let n = self.entries.len();
        let mut i: usize = 0;
        while i < n
            invariant
                i <= n,
                n == self.entries@.len(),
                forall|l: int| 0 <= l < i ==> (#[trigger] self@[l]).0 != rule_name@,
            decreases n - i,
        {
            proof {
                assert(self@[i as int] == (self.entries@[i as int].0@, self.entries@[i as int].1@));
            }
            if str_eq(self.entries[i].0.as_str(), rule_name) {
                proof {
                    assert(self@[i as int].0 == rule_name@);
                    lemma_first_key_index_of(self@, rule_name@, i as int);
                }
                return crate::tree::copy_entries(&self.entries[i].1.context);
            }
            i += 1;
        }
        proof {
            lemma_first_key_index_none(self@, rule_name@);
        }
        let r: Vec<(String, Tree)> = Vec::new();
        proof {
            assert(entry_views(r@) =~= Seq::<(Seq<char>, TreeView)>::empty());
        }
        r
    }

    /// Disable every activation whose expiry has passed, clearing its expiry
    /// and context; everything else is untouched.
    pub fn cleanup_expired(&mut self, now_ms: u64)
        ensures
            final(self)@.len() == old(self)@.len(),
            forall|i: int|
                0 <= i < old(self)@.len() ==> final(self)@[i] == (
                    (#[trigger] old(self)@[i]).0,
                    swept(old(self)@[i].1, now_ms),
                ),
    {
        let n = self.entries.len();
        let mut i: usize = 0;
        while i < n
            invariant
                i <= n,
                n == self.entries@.len(),
                self@.len() == old(self)@.len(),
                forall|l: int|
                    i <= l < n ==> #[trigger] self@[l] == old(self)@[l],
                forall|l: int|
                    0 <= l < i ==> #[trigger] self@[l] == (
                        old(self)@[l].0,
                        swept(old(self)@[l].1, now_ms),
                    ),
            decreases n - i,
        {
            let ghost before = self@;
            let ghost before_entries = self.entries@;
            proof {
                assert forall|l: int| 0 <= l < n implies #[trigger] before[l] == (
                    before_entries[l].0@,
                    before_entries[l].1@,
                ) by {}
            }
            let exp: Option<u64> = self.entries[i].1.expiration;
            proof {
                assert(exp == before_entries[i as int].1.expiration);
                assert(before[i as int].1.expiration == exp);
                assert(old(self)@[i as int].1.expiration == exp);
            }
            let expired: bool = match exp {
                Some(e) => now_ms >= e,
                None => false,
            };
            if expired {
                let (key, _prev) = self.entries.remove(i);
                let cleared = RuleActivation {
                    enabled: false,
                    expiration: None,
                    context: Vec::new(),
                };
                proof {
                    assert(cleared@ =~= ActivationView {
                        enabled: false,
                        expiration: None,
                        context: Seq::empty(),
                    });
                }
                self.entries.insert(i, (key, cleared));
                proof {
                    assert(self.entries@ =~= before_entries.update(
                        i as int,
                        (before_entries[i as int].0, cleared),
                    ));
                    assert forall|l: int| 0 <= l < n implies #[trigger] self@[l] == (
                        self.entries@[l].0@,
                        self.entries@[l].1@,
                    ) by {}
                    assert forall|l: int| 0 <= l < n && l != i implies #[trigger] self@[l]
                        == before[l] by {
                        assert(self.entries@[l] == before_entries[l]);
                    }
                    assert(old(self)@[i as int].1.expiration matches Some(e) && now_ms >= e);
                    assert(self@[i as int] == (
                        old(self)@[i as int].0,
                        swept(old(self)@[i as int].1, now_ms),
                    ));
                }
            } else {
                proof {
                    assert(swept(old(self)@[i as int].1, now_ms) == old(self)@[i as int].1);
                }
            }
            i += 1;
        }
    }
}

} // verus!
