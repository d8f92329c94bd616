//! Event handling: which brokers a Kubernetes event is delivered to, and as
//! which CloudEvent.
//!
//! Rule bindings are visited in the order their brokers were first bound.
use vstd::prelude::*;
use crate::brokers::BrokerInstance;
use crate::crd::{BrokerSpec, BrokerSpecView, RuleSpecView};
use crate::event::{CloudEvent, CloudEventView, K8sEvent};
use crate::keyed::{has_key, key_index, keys_unique, lemma_key_index, lookup, value_of, NameMap};
use crate::resource::{binding_list_ok, ProcessorView, ResourceProcessor};
use crate::rules::{
    allowed_types, cloud_event_of, cloud_event_valid, has_cloud_event_fields, rule_instance_result, CloudEventRule,
    RuleError, RuleErrorView, RuleInstance,
};

verus! {

/// The model of an `EventWatcher`: broker and rule instances by kind.
pub struct WatcherView {
    pub brokers: Seq<(Seq<char>, BrokerInstance)>,
    pub rules: Seq<(Seq<char>, RuleInstance)>,
}

/// An event to hand to a broker instance.
#[derive(Debug)]
pub struct Delivery {
    /// The name of the `Broker` resource.
    pub broker_name: String,
    /// Its specification.
    pub broker: BrokerSpec,
    /// The instance of the broker's kind.
    pub instance: BrokerInstance,
    pub event: CloudEvent,
}

/// The model of a `Delivery`.
pub struct DeliveryView {
    pub broker_name: Seq<char>,
    pub broker: BrokerSpecView,
    pub instance: BrokerInstance,
    pub event: CloudEventView,
}

impl View for Delivery {
    type V = DeliveryView;

    open spec fn view(&self) -> DeliveryView {
        DeliveryView {
            broker_name: self.broker_name@,
            broker: self.broker@,
            instance: self.instance,
            event: self.event@,
        }
    }
}

/// A broker that an event was not delivered to because a bound rule refused it.
#[derive(Debug)]
pub struct Refusal {
    /// The name of the `Broker` resource.
    pub broker_name: String,
    /// Why the rule refused the event.
    pub error: RuleError,
}

/// The model of a `Refusal`.
pub struct RefusalView {
    pub broker_name: Seq<char>,
    pub error: RuleErrorView,
}

impl View for Refusal {
    type V = RefusalView;

    open spec fn view(&self) -> RefusalView {
        RefusalView { broker_name: self.broker_name@, error: self.error@ }
    }
}

/// What handling an event comes to: the deliveries to make, in order; the
/// refusals of bound rules, in order; and, when handling stopped at a binding
/// whose broker is not known (yet), that broker's name.
#[derive(Debug)]
pub struct HandlePlan {
    pub deliveries: Vec<Delivery>,
    pub refusals: Vec<Refusal>,
    pub missing_broker: Option<String>,
}

/// The model of a `HandlePlan`.
pub struct PlanView {
    pub deliveries: Seq<DeliveryView>,
    pub refusals: Seq<RefusalView>,
    pub missing_broker: Option<Seq<char>>,
}

/// What handling reports when it stopped at a binding whose broker is unknown.
pub open spec fn missing_broker_text(name: Seq<char>) -> Seq<char> {
    "broker ("@ + name + ") is not found, maybe not reconciled yet"@
}

impl HandlePlan {
    /// The error that handling ends with: `broker ({name}) is not found, maybe
    /// not reconciled yet` when it stopped at a binding whose broker is
    /// unknown, and none otherwise.
    pub fn error_message(&self) -> (m: Option<String>)
        ensures
            match self.missing_broker {
                Some(name) => m matches Some(t) && t@ == missing_broker_text(name@),
                None => m is None,
            },
    {
        match &self.missing_broker {
            Some(name) => {
                let mut m = "broker (".to_owned();
                m.append(name.as_str());
                m.append(") is not found, maybe not reconciled yet");
                Some(m)
            },
            None => None,
        }
    }
}

impl View for HandlePlan {
    type V = PlanView;

    open spec fn view(&self) -> PlanView {
        PlanView {
            deliveries: self.deliveries@.map_values(|d: Delivery| d@),
            refusals: self.refusals@.map_values(|r: Refusal| r@),
            missing_broker: self.missing_broker.deep_view(),
        }
    }
}

/// Applies the rule named `name` to `current`: the rule's kind picks the rule
/// instance; a kind with no instance leaves the event as it is.
pub open spec fn rule_step(
    rules: Seq<(Seq<char>, RuleSpecView)>,
    instances: Seq<(Seq<char>, RuleInstance)>,
    raw_event: K8sEvent,
    name: Seq<char>,
    current: CloudEventView,
) -> Result<CloudEventView, RuleErrorView> {
    let spec = value_of(rules, name);
    if has_key(instances, spec.kind) {
        rule_instance_result(value_of(instances, spec.kind), spec, raw_event, current)
    } else {
        Ok(current)
    }
}

/// Applies the rules `names[j..]` in order, starting from `current`; the first
/// refusal ends it.
pub open spec fn apply_rules_from(
    rules: Seq<(Seq<char>, RuleSpecView)>,
    instances: Seq<(Seq<char>, RuleInstance)>,
    raw_event: K8sEvent,
    names: Seq<Seq<char>>,
    j: int,
    current: CloudEventView,
) -> Result<CloudEventView, RuleErrorView>
    decreases names.len() - j,
{
    if j < 0 || j >= names.len() {
        Ok(current)
    } else {
        match rule_step(rules, instances, raw_event, names[j], current) {
            Ok(next) => apply_rules_from(rules, instances, raw_event, names, j + 1, next),
            Err(e) => Err(e),
        }
    }
}

/// Some binding from position `i` on, before the first whose broker is
/// unknown, has a broker whose kind has an instance: handling then needs the
/// CloudEvent made of the raw event.
pub open spec fn needs_cloud_event_from(p: ProcessorView, w: WatcherView, i: int) -> bool
    decreases p.rule_bindings.len() - i,
{
    if i < 0 || i >= p.rule_bindings.len() {
        false
    } else {
        let name = p.rule_bindings[i].0;
        if !has_key(p.brokers, name) {
            false
        } else if has_key(w.brokers, value_of(p.brokers, name).kind) {
            true
        } else {
            needs_cloud_event_from(p, w, i + 1)
        }
    }
}

/// Handling from binding `i` on: for each binding in order, a broker that is
/// not known ends handling with its name; a broker whose kind has no instance
/// is skipped; otherwise the bound rules are applied to `cloud_event`, and
/// the result is delivered unless a rule refused it, which is then recorded.
pub open spec fn plan_from(
    p: ProcessorView,
    w: WatcherView,
    raw_event: K8sEvent,
    cloud_event: Option<CloudEventView>,
    i: int,
) -> PlanView
    decreases p.rule_bindings.len() - i,
{
    if i < 0 || i >= p.rule_bindings.len() {
        PlanView { deliveries: Seq::empty(), refusals: Seq::empty(), missing_broker: None }
    } else {
        let name = p.rule_bindings[i].0;
        if !has_key(p.brokers, name) {
            PlanView { deliveries: Seq::empty(), refusals: Seq::empty(), missing_broker: Some(name) }
        } else {
            let spec = value_of(p.brokers, name);
            let rest = plan_from(p, w, raw_event, cloud_event, i + 1);
            if !has_key(w.brokers, spec.kind) {
                rest
            } else {
                match apply_rules_from(p.rules, w.rules, raw_event, p.rule_bindings[i].1, 0, cloud_event->Some_0) {
                    Ok(e) => PlanView {
                        deliveries: seq![DeliveryView {
                            broker_name: name,
                            broker: spec,
                            instance: value_of(w.brokers, spec.kind),
                            event: e,
                        }] + rest.deliveries,
                        refusals: rest.refusals,
                        missing_broker: rest.missing_broker,
                    },
                    Err(err) => PlanView {
                        deliveries: rest.deliveries,
                        refusals: seq![RefusalView { broker_name: name, error: err }] + rest.refusals,
                        missing_broker: rest.missing_broker,
                    },
                }
            }
        }
    }
}

/// Watches Kubernetes events and hands them, through the bound rules, to the
/// brokers.
pub struct EventWatcher {
    brokers: NameMap<BrokerInstance>,
    rules: NameMap<RuleInstance>,
}

impl View for EventWatcher {
    type V = WatcherView;

    closed spec fn view(&self) -> WatcherView {
        WatcherView { brokers: self.brokers@, rules: self.rules@ }
    }
}

impl EventWatcher {
    /// Instance names are unique.
    pub open spec fn wf(&self) -> bool {
        keys_unique(self@.brokers) && keys_unique(self@.rules)
    }

    /// A watcher with the given broker and rule instances, by kind.
    pub fn new(brokers: NameMap<BrokerInstance>, rules: NameMap<RuleInstance>) -> (w: Self)
        requires
            brokers.wf(),
            rules.wf(),
        ensures
            w.wf(),
            w@ == (WatcherView { brokers: brokers@, rules: rules@ }),
    {
        EventWatcher { brokers, rules }
    }

    /// Applies the rules bound by `names`, in order, to `cloud_event`.
    fn apply_rules(&self, processor: &ResourceProcessor, raw_event: &K8sEvent, names: &Vec<String>, cloud_event: &CloudEvent)
        -> (r: Result<CloudEvent, RuleError>)
        requires
            self.wf(),
            processor.wf(),
            binding_list_ok(processor@.rules, names.deep_view()),
        ensures
            match (r, apply_rules_from(processor@.rules, self@.rules, *raw_event, names.deep_view(), 0, cloud_event@)) {
                (Ok(e), Ok(v)) => e@ == v,
                (Err(e), Err(v)) => e@ == v,
                _ => false,
            },
    {
        let ghost ns = names.deep_view();
        let mut current = cloud_event.clone();
        let mut j: usize = 0;
        while j < names.len()
            invariant
                self.wf(),
                processor.wf(),
                ns == names.deep_view(),
                binding_list_ok(processor@.rules, ns),
                j <= names.len(),
                apply_rules_from(processor@.rules, self@.rules, *raw_event, ns, 0, cloud_event@)
                    == apply_rules_from(processor@.rules, self@.rules, *raw_event, ns, j as int, current@),
            decreases names.len() - j,
        {
            assert(has_key(processor@.rules, ns[j as int]));
            let spec = processor.rules().get(names[j].as_str()).unwrap();
            match self.rules.get(spec.kind.as_str()) {
                Some(rule) => {
                    match rule.process(spec, raw_event, &current) {
                        Ok(next) => {
                            current = next;
                        },
                        Err(e) => {
                            return Err(e);
                        },
                    }
                },
                None => {},
            }
            j = j + 1;
        }
        Ok(current)
    }

    /// Whether handling needs the CloudEvent made of the raw event.
    pub fn needs_cloud_event(&self, processor: &ResourceProcessor) -> (b: bool)
        requires
            self.wf(),
            processor.wf(),
        ensures
            b == needs_cloud_event_from(processor@, self@, 0),
    {
        let bindings = processor.rule_bindings();
        let mut i: usize = 0;
        while i < bindings.len()
            invariant
                self.wf(),
                processor.wf(),
                bindings@ == processor@.rule_bindings,
                i <= bindings@.len(),
                needs_cloud_event_from(processor@, self@, 0) == needs_cloud_event_from(processor@, self@, i as int),
            decreases bindings@.len() - i,
        {
            match processor.brokers().get(bindings.key_at(i).as_str()) {
                None => {
                    return false;
                },
                Some(spec) => {
                    if self.brokers.contains_key(spec.kind.as_str()) {
                        return true;
                    }
                },
            }
            i = i + 1;
        }
        false
    }

    /// The deliveries that handling `raw_event` comes to, with `cloud_event`
    /// as the CloudEvent made of it.
    pub fn plan_deliveries(&self, processor: &ResourceProcessor, raw_event: &K8sEvent, cloud_event: Option<CloudEvent>)
        -> (plan: HandlePlan)
        requires
            self.wf(),
            processor.wf(),
            cloud_event is Some || !needs_cloud_event_from(processor@, self@, 0),
        ensures
            plan@ == plan_from(processor@, self@, *raw_event, opt_event_view(cloud_event), 0),
    {
        let ghost ce = opt_event_view(cloud_event);
        let ghost p = processor@;
        let ghost w = self@;
        let bindings = processor.rule_bindings();
        let mut deliveries: Vec<Delivery> = Vec::new();
        let mut refusals: Vec<Refusal> = Vec::new();
        let mut i: usize = 0;
        while i < bindings.len()
            invariant
                self.wf(),
                processor.wf(),
                p == processor@,
                w == self@,
                ce == opt_event_view(cloud_event),
                bindings@ == p.rule_bindings,
                i <= bindings@.len(),
                cloud_event is Some || !needs_cloud_event_from(p, w, i as int),
                plan_from(p, w, *raw_event, ce, 0) == (PlanView {
                    deliveries: deliveries@.map_values(|d: Delivery| d@) + plan_from(p, w, *raw_event, ce, i as int).deliveries,
                    refusals: refusals@.map_values(|r: Refusal| r@) + plan_from(p, w, *raw_event, ce, i as int).refusals,
                    missing_broker: plan_from(p, w, *raw_event, ce, i as int).missing_broker,
                }),
            decreases bindings@.len() - i,
        {
            let name = bindings.key_at(i);
            let ghost before = deliveries@.map_values(|d: Delivery| d@);
            let ghost before_refused = refusals@.map_values(|r: Refusal| r@);
            let ghost rest = plan_from(p, w, *raw_event, ce, i + 1);
            match processor.brokers().get(name.as_str()) {
                None => {
                    let plan = HandlePlan { deliveries, refusals, missing_broker: Some(name.clone()) };
                    assert(before + Seq::<DeliveryView>::empty() =~= before);
                    assert(before_refused + Seq::<RefusalView>::empty() =~= before_refused);
                    return plan;
                },
                Some(spec) => {
                    match self.brokers.get(spec.kind.as_str()) {
                        None => {},
                        Some(instance) => {
                            let event = cloud_event.as_ref().unwrap();
                            assert(binding_list_ok(p.rules, p.rule_bindings[i as int].1));
                            match self.apply_rules(processor, raw_event, bindings.value_at(i), event) {
                                Ok(e) => {
                                    let d = Delivery {
                                        broker_name: name.clone(),
                                        broker: spec.clone(),
                                        instance: instance.clone(),
                                        event: e,
                                    };
                                    deliveries.push(d);
                                    assert(deliveries@.map_values(|d: Delivery| d@) =~= before.push(d@));
                                    assert(before + (seq![d@] + rest.deliveries) =~= before.push(d@) + rest.deliveries);
                                },
                                Err(err) => {
                                    let r = Refusal { broker_name: name.clone(), error: err };
                                    refusals.push(r);
                                    assert(refusals@.map_values(|r: Refusal| r@) =~= before_refused.push(r@));
                                    assert(before_refused + (seq![r@] + rest.refusals) =~= before_refused.push(r@) + rest.refusals);
                                },
                            }
                        },
                    }
                },
            }
            i = i + 1;
        }
        let plan = HandlePlan { deliveries, refusals, missing_broker: None };
        assert(plan@.deliveries =~= plan@.deliveries + Seq::<DeliveryView>::empty());
        assert(plan@.refusals =~= plan@.refusals + Seq::<RefusalView>::empty());
        plan
    }

    /// Handles a Kubernetes event: for each rule binding in order, the event,
    /// made into a CloudEvent by the built-in rule and passed through the
    /// bound rules, is planned for delivery to the bound broker (see
    /// `plan_from`).
    ///
    /// `None` where the built-in rule is needed and cannot make a CloudEvent of
    /// the event: a field it reads is missing, or the SDK refuses the result.
    pub fn handle_event(&self, processor: &ResourceProcessor, raw_event: &K8sEvent) -> (r: Option<HandlePlan>)
        requires
            self.wf(),
            processor.wf(),
        ensures
            !needs_cloud_event_from(processor@, self@, 0) ==> (r matches Some(plan)
                && plan@ == plan_from(processor@, self@, *raw_event, None, 0)),
            needs_cloud_event_from(processor@, self@, 0) ==> (r is Some
                <==> has_cloud_event_fields(*raw_event) && cloud_event_valid(*raw_event)),
            needs_cloud_event_from(processor@, self@, 0) ==> (r matches Some(plan)
                ==> plan@ == plan_from(processor@, self@, *raw_event, Some(cloud_event_of(*raw_event)), 0)),
    {
        if !self.needs_cloud_event(processor) {
            return Some(self.plan_deliveries(processor, raw_event, None));
        }
        if !(raw_event.uid.is_some() && raw_event.type_.is_some() && raw_event.source.is_some()
            && raw_event.reason.is_some() && raw_event.message.is_some()) {
            return None;
        }
        match CloudEventRule::new().process(raw_event) {
            Ok(e) => Some(self.plan_deliveries(processor, raw_event, Some(e))),
            Err(_) => None,
        }
    }
}

/// The model of an optional CloudEvent.
pub open spec fn opt_event_view(e: Option<CloudEvent>) -> Option<CloudEventView> {
    match e {
        Some(c) => Some(c@),
        None => None,
    }
}


/// The rule named `name` lets the event pass: either its kind has no
/// instance, or the event has a type that the rule lists.
pub open spec fn rule_allows(
    rules: Seq<(Seq<char>, RuleSpecView)>,
    instances: Seq<(Seq<char>, RuleInstance)>,
    raw_event: K8sEvent,
    name: Seq<char>,
) -> bool {
    let spec = value_of(rules, name);
    has_key(instances, spec.kind) ==> (raw_event.type_ matches Some(t) && allowed_types(spec).contains(t@))
}

/// Every rule of `names[j..]` lets the event pass.
pub open spec fn rules_allow_from(
    rules: Seq<(Seq<char>, RuleSpecView)>,
    instances: Seq<(Seq<char>, RuleInstance)>,
    raw_event: K8sEvent,
    names: Seq<Seq<char>>,
    j: int,
) -> bool {
    forall|k: int| j <= k < names.len() ==> rule_allows(rules, instances, raw_event, #[trigger] names[k])
}

/// Rules filter and never rewrite: the bound rules let an event through
/// exactly when each of them allows its type, and what comes through is the
/// event as it went in.
pub proof fn lemma_rules_only_filter(
    rules: Seq<(Seq<char>, RuleSpecView)>,
    instances: Seq<(Seq<char>, RuleInstance)>,
    raw_event: K8sEvent,
    names: Seq<Seq<char>>,
    j: int,
    current: CloudEventView,
)
    requires
        0 <= j <= names.len(),
    ensures
        apply_rules_from(rules, instances, raw_event, names, j, current) is Ok
            <==> rules_allow_from(rules, instances, raw_event, names, j),
        apply_rules_from(rules, instances, raw_event, names, j, current) matches Ok(e) ==> e == current,
    decreases names.len() - j,
{
    if j < names.len() {
        lemma_rules_only_filter(rules, instances, raw_event, names, j + 1, current);
        let spec = value_of(rules, names[j]);
        if has_key(instances, spec.kind) {
            match value_of(instances, spec.kind) {
                RuleInstance::Type(_) => {},
            }
        }
        if rules_allow_from(rules, instances, raw_event, names, j + 1) && rule_allows(rules, instances, raw_event, names[j]) {
            assert forall|k: int| j <= k < names.len() implies rule_allows(rules, instances, raw_event, #[trigger] names[k]) by {
                if k > j {
                    assert(rules_allow_from(rules, instances, raw_event, names, j + 1));
                }
            }
        }
        if rules_allow_from(rules, instances, raw_event, names, j) {
            assert(rule_allows(rules, instances, raw_event, names[j]));
            assert forall|k: int| j + 1 <= k < names.len() implies rule_allows(rules, instances, raw_event, #[trigger] names[k]) by {
                assert(j <= k);
            }
        }
    }
}

/// The delivery `d` is one that handling may plan: its broker has a binding
/// whose rules all let the event pass, it is the known broker of that name,
/// its instance is the one of the broker's kind, and its event is the
/// CloudEvent made of the raw event.
pub open spec fn delivery_justified(p: ProcessorView, w: WatcherView, raw_event: K8sEvent, cloud_event: Option<CloudEventView>, d: DeliveryView) -> bool {
    &&& exists|b: int| 0 <= b < p.rule_bindings.len() && #[trigger] p.rule_bindings[b].0 == d.broker_name
        && rules_allow_from(p.rules, w.rules, raw_event, p.rule_bindings[b].1, 0)
    &&& lookup(p.brokers, d.broker_name) == Some(d.broker)
    &&& lookup(w.brokers, d.broker.kind) == Some(d.instance)
    &&& cloud_event == Some(d.event)
}

/// Every planned delivery is justified; handling stops only at a binding whose
/// broker is unknown; and each binding whose broker is known, whose kind has
/// an instance and whose rules all let the event pass is delivered to, unless
/// handling stopped before it.
pub proof fn lemma_plan_sound(p: ProcessorView, w: WatcherView, raw_event: K8sEvent, cloud_event: Option<CloudEventView>, i: int)
    requires
        crate::resource::state_ok(p),
        keys_unique(w.brokers),
        0 <= i,
        cloud_event is Some || !needs_cloud_event_from(p, w, i),
    ensures
        forall|k: int| 0 <= k < plan_from(p, w, raw_event, cloud_event, i).deliveries.len()
            ==> delivery_justified(p, w, raw_event, cloud_event, #[trigger] plan_from(p, w, raw_event, cloud_event, i).deliveries[k]),
        plan_from(p, w, raw_event, cloud_event, i).missing_broker matches Some(n) ==> {
            &&& !has_key(p.brokers, n)
            &&& exists|b: int| i <= b < p.rule_bindings.len() && #[trigger] p.rule_bindings[b].0 == n
        },
    decreases p.rule_bindings.len() - i,
{
    if i < p.rule_bindings.len() {
        let name = p.rule_bindings[i].0;
        if has_key(p.brokers, name) && !has_key(w.brokers, value_of(p.brokers, name).kind) {
            assert(needs_cloud_event_from(p, w, i) == needs_cloud_event_from(p, w, i + 1));
        }
        if !has_key(p.brokers, name) {
            assert(plan_from(p, w, raw_event, cloud_event, i).deliveries.len() == 0);
        } else {
            lemma_plan_sound(p, w, raw_event, cloud_event, i + 1);
        }
        let plan = plan_from(p, w, raw_event, cloud_event, i);
        let rest = plan_from(p, w, raw_event, cloud_event, i + 1);
        if has_key(p.brokers, name) {
            let spec = value_of(p.brokers, name);
            lemma_key_index(p.brokers, name, key_index(p.brokers, name));
            if has_key(w.brokers, spec.kind) {
                lemma_key_index(w.brokers, spec.kind, key_index(w.brokers, spec.kind));
                lemma_rules_only_filter(p.rules, w.rules, raw_event, p.rule_bindings[i].1, 0, cloud_event->Some_0);
                match apply_rules_from(p.rules, w.rules, raw_event, p.rule_bindings[i].1, 0, cloud_event->Some_0) {
                    Ok(e) => {
                        assert forall|k: int| 0 <= k < plan.deliveries.len()
                            implies delivery_justified(p, w, raw_event, cloud_event, #[trigger] plan.deliveries[k]) by {
                            if k > 0 {
                                assert(plan.deliveries[k] == rest.deliveries[k - 1]);
                            } else {
                                assert(needs_cloud_event_from(p, w, i));
                                assert(p.rule_bindings[i].0 == plan.deliveries[0].broker_name);
                            }
                        }
                    },
                    Err(_) => {},
                }
            }
        } else {
            assert(p.rule_bindings[i].0 == name);
        }
        if has_key(p.brokers, name) && rest.missing_broker is Some {
            assert(plan.missing_broker == rest.missing_broker);
            let n = rest.missing_broker->Some_0;
            let b = choose|b: int| i + 1 <= b < p.rule_bindings.len() && #[trigger] p.rule_bindings[b].0 == n;
            assert(i <= b);
        }
    }
}

/// Handling delivers to a binding when nothing stops it: the broker of every
/// binding up to it is known, its broker's kind has an instance, and its rules
/// all let the event pass.
pub proof fn lemma_plan_complete(p: ProcessorView, w: WatcherView, raw_event: K8sEvent, cloud_event: Option<CloudEventView>, i: int, b: int)
    requires
        0 <= i <= b < p.rule_bindings.len(),
        forall|c: int| i <= c <= b ==> has_key(p.brokers, #[trigger] p.rule_bindings[c].0),
        has_key(w.brokers, value_of(p.brokers, p.rule_bindings[b].0).kind),
        rules_allow_from(p.rules, w.rules, raw_event, p.rule_bindings[b].1, 0),
    ensures
        exists|k: int| 0 <= k < plan_from(p, w, raw_event, cloud_event, i).deliveries.len()
            && (#[trigger] plan_from(p, w, raw_event, cloud_event, i).deliveries[k]).broker_name == p.rule_bindings[b].0,
    decreases b - i,
{
    let plan = plan_from(p, w, raw_event, cloud_event, i);
    let rest = plan_from(p, w, raw_event, cloud_event, i + 1);
    assert(has_key(p.brokers, p.rule_bindings[i].0));
    if i == b {
        lemma_rules_only_filter(p.rules, w.rules, raw_event, p.rule_bindings[b].1, 0, cloud_event->Some_0);
        assert(plan.deliveries[0].broker_name == p.rule_bindings[b].0);
    } else {
        lemma_plan_complete(p, w, raw_event, cloud_event, i + 1, b);
        let k = choose|k: int| 0 <= k < rest.deliveries.len() && (#[trigger] rest.deliveries[k]).broker_name == p.rule_bindings[b].0;
        let spec = value_of(p.brokers, p.rule_bindings[i].0);
        if has_key(w.brokers, spec.kind) {
            match apply_rules_from(p.rules, w.rules, raw_event, p.rule_bindings[i].1, 0, cloud_event->Some_0) {
                Ok(e) => {
                    assert(plan.deliveries[k + 1] == rest.deliveries[k]);
                },
                Err(_) => {
                    assert(plan.deliveries[k] == rest.deliveries[k]);
                },
            }
        } else {
            assert(plan.deliveries[k] == rest.deliveries[k]);
        }
    }
}


proof fn lemma_plan_from_later_bindings(p: ProcessorView, w: WatcherView, raw_event: K8sEvent, cloud_event: Option<CloudEventView>, i: int)
    requires
        0 <= i,
    ensures
        forall|k: int| 0 <= k < plan_from(p, w, raw_event, cloud_event, i).deliveries.len() ==>
            exists|b: int| i <= b < p.rule_bindings.len()
                && #[trigger] p.rule_bindings[b].0 == (#[trigger] plan_from(p, w, raw_event, cloud_event, i).deliveries[k]).broker_name,
    decreases p.rule_bindings.len() - i,
{
    if i < p.rule_bindings.len() {
        lemma_plan_from_later_bindings(p, w, raw_event, cloud_event, i + 1);
        let plan = plan_from(p, w, raw_event, cloud_event, i);
        let rest = plan_from(p, w, raw_event, cloud_event, i + 1);
        let name = p.rule_bindings[i].0;
        if has_key(p.brokers, name) {
            let spec = value_of(p.brokers, name);
            if has_key(w.brokers, spec.kind) {
                match apply_rules_from(p.rules, w.rules, raw_event, p.rule_bindings[i].1, 0, cloud_event->Some_0) {
                    Ok(e) => {
                        assert forall|k: int| 0 <= k < plan.deliveries.len() implies
                            exists|b: int| i <= b < p.rule_bindings.len()
                                && #[trigger] p.rule_bindings[b].0 == (#[trigger] plan.deliveries[k]).broker_name by {
                            if k == 0 {
                                assert(p.rule_bindings[i].0 == plan.deliveries[0].broker_name);
                            } else {
                                assert(plan.deliveries[k] == rest.deliveries[k - 1]);
                                let b = choose|b: int| i + 1 <= b < p.rule_bindings.len()
                                    && #[trigger] p.rule_bindings[b].0 == (#[trigger] rest.deliveries[k - 1]).broker_name;
                                assert(p.rule_bindings[b].0 == plan.deliveries[k].broker_name);
                            }
                        }
                    },
                    Err(_) => {},
                }
            }
        }
    }
}

/// Handling an event delivers to each broker at most once.
pub proof fn lemma_plan_delivers_once(p: ProcessorView, w: WatcherView, raw_event: K8sEvent, cloud_event: Option<CloudEventView>, i: int)
    requires
        keys_unique(p.rule_bindings),
        0 <= i,
    ensures
        forall|k1: int, k2: int|
            0 <= k1 < k2 < plan_from(p, w, raw_event, cloud_event, i).deliveries.len() ==>
                (#[trigger] plan_from(p, w, raw_event, cloud_event, i).deliveries[k1]).broker_name
                    != (#[trigger] plan_from(p, w, raw_event, cloud_event, i).deliveries[k2]).broker_name,
    decreases p.rule_bindings.len() - i,
{
    if i < p.rule_bindings.len() {
        lemma_plan_delivers_once(p, w, raw_event, cloud_event, i + 1);
        lemma_plan_from_later_bindings(p, w, raw_event, cloud_event, i + 1);
        let plan = plan_from(p, w, raw_event, cloud_event, i);
        let rest = plan_from(p, w, raw_event, cloud_event, i + 1);
        let name = p.rule_bindings[i].0;
        if has_key(p.brokers, name) {
            let spec = value_of(p.brokers, name);
            if has_key(w.brokers, spec.kind) {
                match apply_rules_from(p.rules, w.rules, raw_event, p.rule_bindings[i].1, 0, cloud_event->Some_0) {
                    Ok(e) => {
                        assert forall|k1: int, k2: int| 0 <= k1 < k2 < plan.deliveries.len() implies
                            (#[trigger] plan.deliveries[k1]).broker_name != (#[trigger] plan.deliveries[k2]).broker_name by {
                            assert(plan.deliveries[k2] == rest.deliveries[k2 - 1]);
                            if k1 == 0 {
                                let b = choose|b: int| i + 1 <= b < p.rule_bindings.len()
                                    && #[trigger] p.rule_bindings[b].0 == (#[trigger] rest.deliveries[k2 - 1]).broker_name;
                                assert(p.rule_bindings[i].0 != p.rule_bindings[b].0);
                            } else {
                                assert(plan.deliveries[k1] == rest.deliveries[k1 - 1]);
                            }
                        }
                    },
                    Err(_) => {},
                }
            }
        }
    }
}

} // verus!
