use kubevent::brokers::{BrokerInstance, ConsoleBroker};
use kubevent::crd::{BrokerSpec, RuleBindingSpec, RuleSpec};
use kubevent::event::{EventSource, K8sEvent, ObjectReference};
use kubevent::keyed::NameMap;
use kubevent::resource::{Resource, ResourceProcessor};
use kubevent::rules::{RuleInstance, TypeRule};
use kubevent::watcher::EventWatcher;

fn event(type_: &str) -> K8sEvent {
    K8sEvent {
        uid: Some("uid-7".to_string()),
        type_: Some(type_.to_string()),
        reason: Some("Killing".to_string()),
        message: Some("stopping container".to_string()),
        source: Some(EventSource { host: None, component: Some("kubelet".to_string()) }),
        involved_object: ObjectReference {
            namespace: Some("prod".to_string()),
            kind: Some("Pod".to_string()),
            name: Some("api".to_string()),
        },
        last_timestamp: None,
        json: None,
    }
}

fn watcher() -> EventWatcher {
    let mut brokers = NameMap::new();
    brokers.insert("console".to_string(), BrokerInstance::Console(ConsoleBroker::new()));
    let mut rules = NameMap::new();
    rules.insert("type".to_string(), RuleInstance::Type(TypeRule::new()));
    EventWatcher::new(brokers, rules)
}

fn broker(name: &str, kind: &str) -> Resource {
    Resource::Broker {
        name: name.to_string(),
        broker: BrokerSpec { kind: kind.to_string(), uri: None, user: None, password: None, token: None, ca: None },
    }
}

fn rule(name: &str, types: &[&str]) -> Resource {
    Resource::Rule {
        name: name.to_string(),
        rule: RuleSpec { kind: "type".to_string(), types: Some(types.iter().map(|t| t.to_string()).collect()) },
    }
}

fn binding(rule: &str, brokers: &[&str]) -> Resource {
    Resource::RuleBinding {
        binding: RuleBindingSpec { rule: rule.to_string(), brokers: brokers.iter().map(|b| b.to_string()).collect() },
    }
}

fn demo_processor() -> ResourceProcessor {
    let mut p = ResourceProcessor::new();
    p.process(&rule("demo", &["Warning"])).unwrap();
    p.process(&broker("demo", "console")).unwrap();
    p.process(&binding("demo", &["demo"])).unwrap();
    p
}

#[test]
fn warning_event_reaches_console_broker() {
    let p = demo_processor();
    let w = watcher();
    let plan = w.handle_event(&p, &event("Warning")).unwrap();
    assert!(plan.missing_broker.is_none());
    assert_eq!(plan.deliveries.len(), 1);
    let d = &plan.deliveries[0];
    assert_eq!(d.broker_name, "demo");
    assert_eq!(d.broker.kind, "console");
    assert!(matches!(d.instance, BrokerInstance::Console(_)));
    assert_eq!(d.event.id, "uid-7");
    assert_eq!(d.event.source, "k8s://none/kubelet/prod/Pod/api");
    assert_eq!(d.event.ty, "Warning");
    assert_eq!(d.event.subject, "Killing ### stopping container");
    assert_eq!(d.event.data_content_type, "application/json");
    assert_eq!(plan.error_message(), None);
}

#[test]
fn normal_event_is_filtered_out() {
    let p = demo_processor();
    let plan = watcher().handle_event(&p, &event("Normal")).unwrap();
    assert_eq!(plan.deliveries.len(), 0);
    assert!(plan.missing_broker.is_none());
    assert_eq!(plan.refusals.len(), 1);
    assert_eq!(plan.refusals[0].broker_name, "demo");
    assert_eq!(
        plan.refusals[0].error.message(),
        "ignored event because it failed to pass the rule: \"kubevent::rules::TypeRule\" type=Normal"
    );
}

#[test]
fn binding_to_unknown_broker_stops_handling() {
    let mut p = ResourceProcessor::new();
    p.process(&rule("demo", &["Warning"])).unwrap();
    p.process(&broker("known", "console")).unwrap();
    p.process(&binding("demo", &["known", "ghost", "known2"])).unwrap();
    p.process(&broker("known2", "console")).unwrap();
    let plan = watcher().handle_event(&p, &event("Warning")).unwrap();
    assert_eq!(plan.deliveries.len(), 1);
    assert_eq!(plan.deliveries[0].broker_name, "known");
    assert_eq!(plan.missing_broker, Some("ghost".to_string()));
    assert_eq!(plan.error_message(), Some("broker (ghost) is not found, maybe not reconciled yet".to_string()));
}

#[test]
fn broker_of_unregistered_kind_is_skipped() {
    let mut p = ResourceProcessor::new();
    p.process(&rule("demo", &["Warning"])).unwrap();
    p.process(&broker("kafka", "kafka")).unwrap();
    p.process(&broker("demo", "console")).unwrap();
    p.process(&binding("demo", &["kafka", "demo"])).unwrap();
    let plan = watcher().handle_event(&p, &event("Warning")).unwrap();
    assert_eq!(plan.deliveries.len(), 1);
    assert_eq!(plan.deliveries[0].broker_name, "demo");
}

#[test]
fn rule_of_unregistered_kind_lets_events_through() {
    let mut p = ResourceProcessor::new();
    p.process(&Resource::Rule {
        name: "regex".to_string(),
        rule: RuleSpec { kind: "regex".to_string(), types: None },
    })
    .unwrap();
    p.process(&broker("demo", "console")).unwrap();
    p.process(&binding("regex", &["demo"])).unwrap();
    let plan = watcher().handle_event(&p, &event("Normal")).unwrap();
    assert_eq!(plan.deliveries.len(), 1);
}

#[test]
fn incomplete_event_cannot_be_handled_when_needed() {
    let p = demo_processor();
    let mut e = event("Warning");
    e.uid = None;
    assert!(watcher().handle_event(&p, &e).is_none());
    assert!(watcher().needs_cloud_event(&p));
}

#[test]
fn incomplete_event_is_fine_when_nothing_is_bound() {
    let p = ResourceProcessor::new();
    let mut e = event("Warning");
    e.uid = None;
    let w = watcher();
    assert!(!w.needs_cloud_event(&p));
    let plan = w.handle_event(&p, &e).unwrap();
    assert_eq!(plan.deliveries.len(), 0);
    assert!(plan.missing_broker.is_none());
}

#[test]
fn plan_with_given_cloud_event() {
    let p = demo_processor();
    let w = watcher();
    let e = event("Warning");
    let ce = kubevent::rules::CloudEventRule::assemble(&e, kubevent::rules::source(&e));
    let plan = w.plan_deliveries(&p, &e, Some(ce));
    assert_eq!(plan.deliveries.len(), 1);
}
