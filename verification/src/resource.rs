//! The reconciled state: the rules, brokers and rule bindings that the cluster
//! declares, and how each reconciled resource changes it.
use vstd::prelude::*;
use crate::crd::{BrokerSpec, BrokerSpecView, RuleBindingSpec, RuleSpec, RuleSpecView};
use crate::keyed::{
    contains_name, has_key, key_index, keys_unique, lemma_key_index, lemma_put, lookup, put,
    value_of, NameMap,
};

verus! {

/// For each broker name, the names of the rules bound to it, in the order they were bound.
pub type BindingsView = Seq<(Seq<char>, Seq<Seq<char>>)>;

/// A list of bound rule names is valid: no name twice, and each names a known rule.
pub open spec fn binding_list_ok(rules: Seq<(Seq<char>, RuleSpecView)>, l: Seq<Seq<char>>) -> bool {
    &&& l.no_duplicates()
    &&& forall|j: int| 0 <= j < l.len() ==> has_key(rules, #[trigger] l[j])
}

/// Every binding list is valid.
pub open spec fn bindings_ok(rules: Seq<(Seq<char>, RuleSpecView)>, b: BindingsView) -> bool {
    forall|i: int| 0 <= i < b.len() ==> binding_list_ok(rules, #[trigger] b[i].1)
}

/// Binds rule `r` to broker `k`: the rule is appended to the broker's list
/// unless it is there already; a broker seen for the first time gets a list
/// of its own at the end.
pub open spec fn bind_one(b: BindingsView, r: Seq<char>, k: Seq<char>) -> BindingsView {
    if has_key(b, k) {
        if value_of(b, k).contains(r) {
            b
        } else {
            put(b, k, value_of(b, k).push(r))
        }
    } else {
        put(b, k, seq![r])
    }
}

/// Binds rule `r` to each broker of `ks`, in order.
pub open spec fn bind_all(b: BindingsView, r: Seq<char>, ks: Seq<Seq<char>>) -> BindingsView
    decreases ks.len(),
{
    if ks.len() == 0 {
        b
    } else {
        bind_one(bind_all(b, r, ks.drop_last()), r, ks.last())
    }
}

/// Rule `r` is bound to every broker of `ks`.
pub open spec fn bound_to_all(b: BindingsView, r: Seq<char>, ks: Seq<Seq<char>>) -> bool {
    forall|i: int|
        0 <= i < ks.len() ==> has_key(b, #[trigger] ks[i]) && value_of(b, ks[i]).contains(r)
}

/// `c` keeps what `b` had: every key of `b` is in `c`, at the same place, and
/// its list in `c` starts with its list in `b`.
pub open spec fn bindings_extend(b: BindingsView, c: BindingsView) -> bool {
    &&& b.len() <= c.len()
    &&& forall|i: int| 0 <= i < b.len() ==> (#[trigger] c[i]).0 == b[i].0
    &&& forall|i: int| 0 <= i < b.len() ==> b[i].1.is_prefix_of(#[trigger] c[i].1)
}

proof fn lemma_bind_one(
    rules: Seq<(Seq<char>, RuleSpecView)>,
    b: BindingsView,
    r: Seq<char>,
    k: Seq<char>,
)
    requires
        keys_unique(b),
        bindings_ok(rules, b),
        has_key(rules, r),
    ensures
        keys_unique(bind_one(b, r, k)),
        bindings_ok(rules, bind_one(b, r, k)),
        has_key(bind_one(b, r, k), k),
        value_of(bind_one(b, r, k), k).contains(r),
        forall|k2: Seq<char>| k2 != k ==> #[trigger] lookup(bind_one(b, r, k), k2) == lookup(b, k2),
        forall|k2: Seq<char>| #[trigger] has_key(bind_one(b, r, k), k2) <==> (has_key(b, k2) || k2 == k),
        bindings_extend(b, bind_one(b, r, k)),
{
    let t = bind_one(b, r, k);
    if has_key(b, k) {
        let idx = key_index(b, k);
        lemma_key_index(b, k, idx);
        let l = value_of(b, k);
        if l.contains(r) {
            assert(t == b);
            assert forall|i: int| 0 <= i < b.len() implies b[i].1.is_prefix_of(#[trigger] t[i].1) by {
                assert(b[i].1 =~= t[i].1.subrange(0, b[i].1.len() as int));
            }
        } else {
            let nl = l.push(r);
            lemma_put(b, k, nl);
            assert(t == b.update(idx, (k, nl)));
            lemma_key_index(t, k, idx);
            assert(nl[nl.len() - 1] == r);
            assert(binding_list_ok(rules, nl)) by {
                assert(binding_list_ok(rules, b[idx].1));
                assert forall|x: int, y: int| 0 <= x < nl.len() && 0 <= y < nl.len() && x != y
                    implies nl[x] != nl[y] by {
                    if x == l.len() {
                        assert(l[y] == nl[y]);
                    } else if y == l.len() {
                        assert(l[x] == nl[x]);
                    }
                }
                assert forall|j: int| 0 <= j < nl.len() implies has_key(rules, #[trigger] nl[j]) by {
                    if j < l.len() {
                        assert(nl[j] == l[j]);
                    }
                }
            }
            assert forall|i: int| 0 <= i < t.len() implies binding_list_ok(rules, #[trigger] t[i].1) by {
                if i != idx {
                    assert(t[i] == b[i]);
                }
            }
            assert forall|i: int| 0 <= i < b.len() implies b[i].1.is_prefix_of(#[trigger] t[i].1) by {
                if i == idx {
                    assert(b[i].1 =~= t[i].1.subrange(0, b[i].1.len() as int));
                } else {
                    assert(t[i] == b[i]);
                    assert(b[i].1 =~= t[i].1.subrange(0, b[i].1.len() as int));
                }
            }
        }
    } else {
        let nl = seq![r];
        lemma_put(b, k, nl);
        assert(t == b.push((k, nl)));
        lemma_key_index(t, k, b.len() as int);
        assert(nl[0] == r);
        assert forall|i: int| 0 <= i < t.len() implies binding_list_ok(rules, #[trigger] t[i].1) by {
            if i < b.len() {
                assert(t[i] == b[i]);
            } else {
                assert(t[i].1 == nl);
            }
        }
        assert forall|i: int| 0 <= i < b.len() implies b[i].1.is_prefix_of(#[trigger] t[i].1) by {
            assert(t[i] == b[i]);
            assert(b[i].1 =~= t[i].1.subrange(0, b[i].1.len() as int));
        }
    }
}

/// Binding a rule to a list of brokers keeps the bindings valid, binds the
/// rule to each of them, keeps every earlier binding, and adds no key but
/// those brokers.
pub proof fn lemma_bind_all(
    rules: Seq<(Seq<char>, RuleSpecView)>,
    b: BindingsView,
    r: Seq<char>,
    ks: Seq<Seq<char>>,
)
    requires
        keys_unique(b),
        bindings_ok(rules, b),
        has_key(rules, r),
    ensures
        keys_unique(bind_all(b, r, ks)),
        bindings_ok(rules, bind_all(b, r, ks)),
        bound_to_all(bind_all(b, r, ks), r, ks),
        bindings_extend(b, bind_all(b, r, ks)),
        forall|k2: Seq<char>| #[trigger] has_key(bind_all(b, r, ks), k2) <==> (has_key(b, k2) || ks.contains(k2)),
        forall|k2: Seq<char>| !ks.contains(k2) ==> #[trigger] lookup(bind_all(b, r, ks), k2) == lookup(b, k2),
    decreases ks.len(),
{
    if ks.len() > 0 {
        let ks0 = ks.drop_last();
        let k = ks.last();
        lemma_bind_all(rules, b, r, ks0);
        let m = bind_all(b, r, ks0);
        lemma_bind_one(rules, m, r, k);
        let t = bind_all(b, r, ks);
        assert(t == bind_one(m, r, k));
        assert forall|i: int| 0 <= i < ks.len() implies has_key(t, #[trigger] ks[i]) && value_of(t, ks[i]).contains(r) by {
            if ks[i] != k {
                assert(ks0[i] == ks[i]);
                assert(lookup(t, ks[i]) == lookup(m, ks[i]));
            }
        }
        assert forall|i: int| 0 <= i < b.len() implies b[i].1.is_prefix_of(#[trigger] t[i].1) by {
            assert(b[i].1.is_prefix_of(m[i].1));
            assert(m[i].1.is_prefix_of(t[i].1));
            assert(b[i].1 =~= t[i].1.subrange(0, b[i].1.len() as int));
        }
        assert forall|k2: Seq<char>| #[trigger] has_key(t, k2) <==> (has_key(b, k2) || ks.contains(k2)) by {
            if ks0.contains(k2) {
                let j = choose|j: int| 0 <= j < ks0.len() && ks0[j] == k2;
                assert(ks[j] == k2);
            }
            if ks.contains(k2) && k2 != k {
                let j = choose|j: int| 0 <= j < ks.len() && ks[j] == k2;
                assert(ks0[j] == k2);
            }
            assert(ks[ks.len() - 1] == k);
        }
        assert forall|k2: Seq<char>| !ks.contains(k2) implies #[trigger] lookup(t, k2) == lookup(b, k2) by {
            assert(ks[ks.len() - 1] == k);
            if ks0.contains(k2) {
                let j = choose|j: int| 0 <= j < ks0.len() && ks0[j] == k2;
                assert(ks[j] == k2);
            }
        }
    } else {
        assert forall|i: int| 0 <= i < b.len() implies b[i].1.is_prefix_of(#[trigger] bind_all(b, r, ks)[i].1) by {
            assert(b[i].1 =~= b[i].1.subrange(0, b[i].1.len() as int));
        }
    }
}

/// Binding a rule that is already bound to every broker of `ks` changes nothing.
pub proof fn lemma_bind_all_bound(b: BindingsView, r: Seq<char>, ks: Seq<Seq<char>>)
    requires
        bound_to_all(b, r, ks),
    ensures
        bind_all(b, r, ks) == b,
    decreases ks.len(),
{
    if ks.len() > 0 {
        let ks0 = ks.drop_last();
        assert forall|i: int| 0 <= i < ks0.len() implies has_key(b, #[trigger] ks0[i]) && value_of(b, ks0[i]).contains(r) by {
            assert(ks0[i] == ks[i]);
        }
        lemma_bind_all_bound(b, r, ks0);
        assert(ks.last() == ks[ks.len() - 1]);
    }
}


/// A resource handed to the processor by a controller.
#[derive(Debug)]
pub enum Resource {
    /// A `Rule` resource and its name.
    Rule { name: String, rule: RuleSpec },
    /// A `Broker` resource and its name.
    Broker { name: String, broker: BrokerSpec },
    /// A `RuleBinding` resource.
    RuleBinding { binding: RuleBindingSpec },
    /// A resource of any other type.
    Other,
}

/// Why a resource was refused.
#[derive(Debug)]
pub enum ProcessError {
    /// A rule binding names a rule that is not known (yet).
    RuleNotFound(String),
}

impl ProcessError {
    /// The error as text: `rule not found: {rule}`.
    pub fn message(&self) -> (m: String)
        ensures
            match self {
                ProcessError::RuleNotFound(rule) => m@ == "rule not found: "@ + rule@,
            },
    {
        match self {
            ProcessError::RuleNotFound(rule) => {
                let mut m = "rule not found: ".to_owned();
                m.append(rule.as_str());
                m
            },
        }
    }
}

/// The model of the processor's state.
pub struct ProcessorView {
    pub rules: Seq<(Seq<char>, RuleSpecView)>,
    pub brokers: Seq<(Seq<char>, BrokerSpecView)>,
    pub rule_bindings: BindingsView,
}

/// The state is consistent: names are unique in each map, and every binding
/// list names known rules, each once.
pub open spec fn state_ok(s: ProcessorView) -> bool {
    &&& keys_unique(s.rules)
    &&& keys_unique(s.brokers)
    &&& keys_unique(s.rule_bindings)
    &&& bindings_ok(s.rules, s.rule_bindings)
}

/// What processing `res` in state `s` gives: the new state, or the name of the
/// missing rule that a rule binding is refused for.
pub open spec fn process_spec(s: ProcessorView, res: Resource) -> Result<ProcessorView, Seq<char>> {
    match res {
        Resource::Rule { name, rule } => Ok(ProcessorView { rules: put(s.rules, name@, rule@), ..s }),
        Resource::Broker { name, broker } => Ok(ProcessorView { brokers: put(s.brokers, name@, broker@), ..s }),
        Resource::RuleBinding { binding: spec } => {
            if has_key(s.rules, spec.rule@) {
                Ok(ProcessorView { rule_bindings: bind_all(s.rule_bindings, spec.rule@, spec.brokers.deep_view()), ..s })
            } else {
                Err(spec.rule@)
            }
        },
        Resource::Other => Ok(s),
    }
}

/// Each resource changes only its own part of the state: a rule only the
/// rules, a broker only the brokers, a rule binding only the bindings; any
/// other resource changes nothing. In particular a rule or a broker that is
/// reconciled again, or after the bindings that name it, leaves every binding
/// list as it was.
pub proof fn lemma_process_touches_own_map(s: ProcessorView, res: Resource)
    ensures
        process_spec(s, res) matches Ok(t) ==> {
            &&& res is Rule ==> t.brokers == s.brokers && t.rule_bindings == s.rule_bindings
            &&& res is Broker ==> t.rules == s.rules && t.rule_bindings == s.rule_bindings
            &&& res is RuleBinding ==> t.rules == s.rules && t.brokers == s.brokers
            &&& res is Other ==> t == s
        },
        process_spec(s, res) is Err ==> res is RuleBinding,
{
}

/// Processing keeps the state consistent.
pub proof fn lemma_process_keeps_state_ok(s: ProcessorView, res: Resource)
    requires
        state_ok(s),
    ensures
        process_spec(s, res) matches Ok(t) ==> state_ok(t),
{
    match res {
        Resource::Rule { name, rule: spec } => {
            lemma_put(s.rules, name@, spec@);
            let t = put(s.rules, name@, spec@);
            assert forall|i: int| 0 <= i < s.rule_bindings.len() implies binding_list_ok(t, #[trigger] s.rule_bindings[i].1) by {
                let l = s.rule_bindings[i].1;
                assert(binding_list_ok(s.rules, l));
                assert forall|j: int| 0 <= j < l.len() implies has_key(t, #[trigger] l[j]) by {
                    assert(has_key(s.rules, l[j]));
                }
            }
        },
        Resource::Broker { name, broker: spec } => {
            lemma_put(s.brokers, name@, spec@);
        },
        Resource::RuleBinding { binding: spec } => {
            if has_key(s.rules, spec.rule@) {
                lemma_bind_all(s.rules, s.rule_bindings, spec.rule@, spec.brokers.deep_view());
            }
        },
        Resource::Other => {},
    }
}

/// The rules, brokers and rule bindings that reconciliation has seen so far.
pub struct ResourceProcessor {
    rules: NameMap<RuleSpec>,
    brokers: NameMap<BrokerSpec>,
    rule_bindings: NameMap<Vec<String>>,
}

impl View for ResourceProcessor {
    type V = ProcessorView;

    closed spec fn view(&self) -> ProcessorView {
        ProcessorView { rules: self.rules@, brokers: self.brokers@, rule_bindings: self.rule_bindings@ }
    }
}

impl ResourceProcessor {
    /// The processor's state is consistent.
    pub open spec fn wf(&self) -> bool {
        state_ok(self@)
    }

    /// A processor that has seen nothing.
    pub fn new() -> (p: Self)
        ensures
            p.wf(),
            p@.rules.len() == 0,
            p@.brokers.len() == 0,
            p@.rule_bindings.len() == 0,
    {
        ResourceProcessor { rules: NameMap::new(), brokers: NameMap::new(), rule_bindings: NameMap::new() }
    }

    /// The known rules, by name.
    pub fn rules(&self) -> (m: &NameMap<RuleSpec>)
        ensures
            m@ == self@.rules,
    {
        &self.rules
    }

    /// The known brokers, by name.
    pub fn brokers(&self) -> (m: &NameMap<BrokerSpec>)
        ensures
            m@ == self@.brokers,
    {
        &self.brokers
    }

    /// For each broker name, the names of the rules bound to it.
    pub fn rule_bindings(&self) -> (m: &NameMap<Vec<String>>)
        ensures
            m@ == self@.rule_bindings,
    {
        &self.rule_bindings
    }

    /// Binds `rule` to each broker of `brokers`, in order.
    fn bind_rule(&mut self, rule: &String, brokers: &Vec<String>)
        requires
            old(self).wf(),
            has_key(old(self)@.rules, rule@),
        ensures
            final(self).wf(),
            final(self)@ == (ProcessorView {
                rule_bindings: bind_all(old(self)@.rule_bindings, rule@, brokers.deep_view()),
                ..old(self)@
            }),
    {
        let ghost b0 = old(self)@.rule_bindings;
        let ghost ks = brokers.deep_view();
        let mut i: usize = 0;
        while i < brokers.len()
            invariant
                i <= brokers.len(),
                ks == brokers.deep_view(),
                has_key(self@.rules, rule@),
                self.wf(),
                self@.rules == old(self)@.rules,
                self@.brokers == old(self)@.brokers,
                self@.rule_bindings == bind_all(b0, rule@, ks.take(i as int)),
            decreases brokers.len() - i,
        {
            let broker = &brokers[i];
            proof {
                assert(ks.take(i + 1).drop_last() =~= ks.take(i as int));
                assert(ks.take(i + 1).last() == broker@);
                lemma_bind_one(self@.rules, self@.rule_bindings, rule@, broker@);
            }
            let ghost before = self@.rule_bindings;
            match self.rule_bindings.index_of(broker.as_str()) {
                None => {
                    let mut list: Vec<String> = Vec::new();
                    list.push(rule.clone());
                    assert(list.deep_view() =~= seq![rule@]);
                    self.rule_bindings.insert(broker.clone(), list);
                },
                Some(j) => {
                    proof {
                        lemma_key_index(before, broker@, j as int);
                    }
                    let bound = contains_name(self.rule_bindings.value_at(j), rule.as_str());
                    if !bound {
                        let mut list = crate::crd::clone_names(self.rule_bindings.value_at(j));
                        list.push(rule.clone());
                        assert(list.deep_view() =~= before[j as int].1.push(rule@));
                        proof {
                            lemma_put(before, broker@, before[j as int].1.push(rule@));
                        }
                        self.rule_bindings.set_value_at(j, list);
                        assert(self@.rule_bindings =~= put(before, broker@, before[j as int].1.push(rule@)));
                    }
                },
            }
            i = i + 1;
        }
        assert(ks.take(brokers.len() as int) =~= ks);
    }

    /// Records a reconciled resource.
    ///
    /// A rule or a broker is stored under its name, replacing an earlier one
    /// of that name. A rule binding is refused while its rule is unknown;
    /// otherwise the rule is appended to the list of each named broker that
    /// does not have it yet. Other resources change nothing.
    pub fn process(&mut self, res: &Resource) -> (r: Result<(), ProcessError>)
        requires
            old(self).wf(),
        ensures
            final(self).wf(),
            match process_spec(old(self)@, *res) {
                Ok(t) => r is Ok && final(self)@ == t,
                Err(missing) => final(self)@ == old(self)@
                    && (r matches Err(ProcessError::RuleNotFound(n)) && n@ == missing),
            },
            res is Rule ==> final(self)@.brokers == old(self)@.brokers
                && final(self)@.rule_bindings == old(self)@.rule_bindings,
            res is Broker ==> final(self)@.rules == old(self)@.rules
                && final(self)@.rule_bindings == old(self)@.rule_bindings,
            res is RuleBinding ==> final(self)@.rules == old(self)@.rules
                && final(self)@.brokers == old(self)@.brokers,
            res is Other ==> final(self)@ == old(self)@,
    {
        proof {
            lemma_process_keeps_state_ok(old(self)@, *res);
            lemma_process_touches_own_map(old(self)@, *res);
        }
        match res {
            Resource::Rule { name, rule: spec } => {
                self.rules.insert(name.clone(), spec.clone());
                proof {
                    lemma_put(old(self)@.rules, name@, spec@);
                }
                Ok(())
            },
            Resource::Broker { name, broker: spec } => {
                self.brokers.insert(name.clone(), spec.clone());
                Ok(())
            },
            Resource::RuleBinding { binding: spec } => {
                if !self.rules.contains_key(spec.rule.as_str()) {
                    return Err(ProcessError::RuleNotFound(spec.rule.clone()));
                }
                self.bind_rule(&spec.rule, &spec.brokers);
                Ok(())
            },
            Resource::Other => Ok(()),
        }
    }

    /// Keeps the finalizer of a reconciled resource in step with the
    /// processor; nothing is asked of it yet, so it always succeeds and
    /// changes nothing.
    pub fn sync_resource_meta_finalizer(&mut self, _res: &Resource) -> (r: Result<(), ProcessError>)
        ensures
            r is Ok,
            final(self)@ == old(self)@,
    {
        Ok(())
    }
}


proof fn lemma_put_twice<T>(s: Seq<(Seq<char>, T)>, k: Seq<char>, v: T)
    requires
        keys_unique(s),
    ensures
        put(put(s, k, v), k, v) == put(s, k, v),
{
    lemma_put(s, k, v);
    let t = put(s, k, v);
    let i = key_index(t, k);
    assert(has_key(t, k));
    assert(0 <= i < t.len() && t[i].0 == k);
    lemma_key_index(t, k, i);
    assert(t[i] == (k, v));
    assert(t.update(i, (k, v)) =~= t);
}

/// Processing the same resource a second time changes nothing more: a
/// controller that reconciles a resource again leaves the state as the first
/// reconciliation left it.
pub proof fn lemma_process_idempotent(s: ProcessorView, res: Resource)
    requires
        state_ok(s),
    ensures
        process_spec(s, res) matches Ok(t) ==> process_spec(t, res) == process_spec(s, res),
{
    match res {
        Resource::Rule { name, rule } => {
            lemma_put_twice(s.rules, name@, rule@);
        },
        Resource::Broker { name, broker } => {
            lemma_put_twice(s.brokers, name@, broker@);
        },
        Resource::RuleBinding { binding } => {
            if has_key(s.rules, binding.rule@) {
                let ks = binding.brokers.deep_view();
                lemma_bind_all(s.rules, s.rule_bindings, binding.rule@, ks);
                lemma_bind_all_bound(bind_all(s.rule_bindings, binding.rule@, ks), binding.rule@, ks);
            }
        },
        Resource::Other => {},
    }
}

/// A processed rule or broker is what a later lookup of its name gives back,
/// and every other name keeps its value.
pub proof fn lemma_lookup_after_process(s: ProcessorView, res: Resource, other: Seq<char>)
    requires
        state_ok(s),
    ensures
        res matches Resource::Rule { name, rule } ==> {
            &&& lookup(process_spec(s, res)->Ok_0.rules, name@) == Some(rule@)
            &&& other != name@ ==> lookup(process_spec(s, res)->Ok_0.rules, other) == lookup(s.rules, other)
        },
        res matches Resource::Broker { name, broker } ==> {
            &&& lookup(process_spec(s, res)->Ok_0.brokers, name@) == Some(broker@)
            &&& other != name@ ==> lookup(process_spec(s, res)->Ok_0.brokers, other) == lookup(s.brokers, other)
        },
{
    match res {
        Resource::Rule { name, rule } => {
            lemma_put(s.rules, name@, rule@);
        },
        Resource::Broker { name, broker } => {
            lemma_put(s.brokers, name@, broker@);
        },
        _ => {},
    }
}

/// A rule binding is refused exactly when its rule is unknown. Once accepted,
/// its rule is bound to every broker it names; every binding made before
/// stays where it was, with its rules in the same order; brokers it does not
/// name keep their lists; and rules and brokers are untouched.
pub proof fn lemma_binding_effect(s: ProcessorView, binding: RuleBindingSpec, other: Seq<char>)
    requires
        state_ok(s),
    ensures
        process_spec(s, Resource::RuleBinding { binding }) is Err <==> !has_key(s.rules, binding.rule@),
        process_spec(s, Resource::RuleBinding { binding }) matches Ok(t) ==> {
            &&& bound_to_all(t.rule_bindings, binding.rule@, binding.brokers.deep_view())
            &&& bindings_extend(s.rule_bindings, t.rule_bindings)
            &&& !binding.brokers.deep_view().contains(other) ==> lookup(t.rule_bindings, other) == lookup(s.rule_bindings, other)
            &&& (has_key(t.rule_bindings, other) <==> has_key(s.rule_bindings, other) || binding.brokers.deep_view().contains(other))
            &&& t.rules == s.rules
            &&& t.brokers == s.brokers
        },
{
    if has_key(s.rules, binding.rule@) {
        lemma_bind_all(s.rules, s.rule_bindings, binding.rule@, binding.brokers.deep_view());
    }
}

/// Nothing is ever forgotten: every rule, broker and binding key known before
/// processing is known after it, whatever was processed.
pub proof fn lemma_process_keeps_names(s: ProcessorView, res: Resource, k: Seq<char>)
    requires
        state_ok(s),
    ensures
        process_spec(s, res) matches Ok(t) ==> {
            &&& has_key(s.rules, k) ==> has_key(t.rules, k)
            &&& has_key(s.brokers, k) ==> has_key(t.brokers, k)
            &&& has_key(s.rule_bindings, k) ==> has_key(t.rule_bindings, k)
        },
{
    match res {
        Resource::Rule { name, rule } => {
            lemma_put(s.rules, name@, rule@);
        },
        Resource::Broker { name, broker } => {
            lemma_put(s.brokers, name@, broker@);
        },
        Resource::RuleBinding { binding } => {
            if has_key(s.rules, binding.rule@) {
                lemma_bind_all(s.rules, s.rule_bindings, binding.rule@, binding.brokers.deep_view());
            }
        },
        Resource::Other => {},
    }
}

/// What a reconciliation asks of the controller runtime.
#[derive(Debug)]
pub struct ReconcileAction {
    /// Seconds after which the resource is reconciled again, if it is to be.
    pub requeue_after_secs: Option<u64>,
}

/// The controller that feeds reconciled `Rule`, `Broker` and `RuleBinding`
/// resources to a `ResourceProcessor`.
#[derive(Debug)]
pub struct ResourceController;

impl ResourceController {
    /// A controller.
    pub fn new() -> Self {
        ResourceController
    }

    /// Reconciles one resource: the processor records it; a refused resource
    /// is requeued after one second, an accepted one is not requeued. The
    /// outcome of processing comes back beside the action.
    pub fn reconcile(processor: &mut ResourceProcessor, res: &Resource) -> (out: (ReconcileAction, Result<(), ProcessError>))
        requires
            old(processor).wf(),
        ensures
            final(processor).wf(),
            match process_spec(old(processor)@, *res) {
                Ok(t) => final(processor)@ == t && out.0.requeue_after_secs is None && out.1 is Ok,
                Err(missing) => final(processor)@ == old(processor)@ && out.0.requeue_after_secs == Some(1u64)
                    && (out.1 matches Err(ProcessError::RuleNotFound(n)) && n@ == missing),
            },
    {
        let result = processor.process(res);
        let action = match &result {
            Ok(_) => ReconcileAction { requeue_after_secs: None },
            Err(_) => ReconcileAction { requeue_after_secs: Some(1) },
        };
        (action, result)
    }

    /// What the controller runtime does after a failed reconciliation: requeue
    /// after one second.
    pub fn error_policy() -> (action: ReconcileAction)
        ensures
            action.requeue_after_secs == Some(1u64),
    {
        ReconcileAction { requeue_after_secs: Some(1) }
    }
}

} // verus!
