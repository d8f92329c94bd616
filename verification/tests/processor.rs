use kubevent::crd::{BrokerSpec, RuleBindingSpec, RuleSpec};
use kubevent::resource::{ProcessError, Resource, ResourceController, ResourceProcessor};

fn rule(name: &str, types: &[&str]) -> Resource {
    Resource::Rule {
        name: name.to_string(),
        rule: RuleSpec {
            kind: "type".to_string(),
            types: Some(types.iter().map(|t| t.to_string()).collect()),
        },
    }
}

fn broker(name: &str, kind: &str) -> Resource {
    Resource::Broker {
        name: name.to_string(),
        broker: BrokerSpec {
            kind: kind.to_string(),
            uri: None,
            user: None,
            password: None,
            token: None,
            ca: None,
        },
    }
}

fn binding(rule: &str, brokers: &[&str]) -> Resource {
    Resource::RuleBinding {
        binding: RuleBindingSpec {
            rule: rule.to_string(),
            brokers: brokers.iter().map(|b| b.to_string()).collect(),
        },
    }
}

fn bound(p: &ResourceProcessor, broker: &str) -> Option<Vec<String>> {
    p.rule_bindings().get(broker).cloned()
}

#[test]
fn new_processor_is_empty() {
    let p = ResourceProcessor::new();
    assert_eq!(p.rules().len(), 0);
    assert_eq!(p.brokers().len(), 0);
    assert_eq!(p.rule_bindings().len(), 0);
}

#[test]
fn rule_is_stored_under_its_name() {
    let mut p = ResourceProcessor::new();
    assert!(p.process(&rule("demo", &["Warning"])).is_ok());
    let stored = p.rules().get("demo").unwrap();
    assert_eq!(stored.kind, "type");
    assert_eq!(stored.types, Some(vec!["Warning".to_string()]));
    assert!(p.rules().get("other").is_none());
}

#[test]
fn rule_is_replaced_in_place() {
    let mut p = ResourceProcessor::new();
    p.process(&rule("a", &["Warning"])).unwrap();
    p.process(&rule("b", &["Normal"])).unwrap();
    p.process(&rule("a", &["Normal"])).unwrap();
    assert_eq!(p.rules().len(), 2);
    assert_eq!(p.rules().key_at(0), "a");
    assert_eq!(p.rules().value_at(0).types, Some(vec!["Normal".to_string()]));
    assert_eq!(p.rules().key_at(1), "b");
}

#[test]
fn broker_is_stored_under_its_name() {
    let mut p = ResourceProcessor::new();
    assert!(p.process(&broker("demo", "console")).is_ok());
    assert_eq!(p.brokers().get("demo").unwrap().kind, "console");
}

#[test]
fn binding_of_unknown_rule_is_refused() {
    let mut p = ResourceProcessor::new();
    p.process(&broker("demo", "console")).unwrap();
    match p.process(&binding("demo", &["demo"])) {
        Err(e) => {
            assert_eq!(e.message(), "rule not found: demo");
            match e {
                ProcessError::RuleNotFound(r) => assert_eq!(r, "demo"),
            }
        }
        Ok(_) => panic!("binding accepted"),
    }
    assert_eq!(p.rule_bindings().len(), 0);
}

#[test]
fn binding_binds_rule_to_each_broker_once() {
    let mut p = ResourceProcessor::new();
    p.process(&rule("r1", &["Warning"])).unwrap();
    p.process(&rule("r2", &["Normal"])).unwrap();
    p.process(&binding("r1", &["b1", "b2", "b1"])).unwrap();
    p.process(&binding("r2", &["b2"])).unwrap();
    assert_eq!(bound(&p, "b1"), Some(vec!["r1".to_string()]));
    assert_eq!(bound(&p, "b2"), Some(vec!["r1".to_string(), "r2".to_string()]));
    assert_eq!(p.rule_bindings().key_at(0), "b1");
    assert_eq!(p.rule_bindings().key_at(1), "b2");
}

#[test]
fn processing_twice_changes_nothing_more() {
    let mut p = ResourceProcessor::new();
    p.process(&rule("r1", &["Warning"])).unwrap();
    let b = binding("r1", &["b1", "b2"]);
    p.process(&b).unwrap();
    p.process(&b).unwrap();
    assert_eq!(p.rule_bindings().len(), 2);
    assert_eq!(bound(&p, "b1"), Some(vec!["r1".to_string()]));
    assert_eq!(bound(&p, "b2"), Some(vec!["r1".to_string()]));
    let r = rule("r1", &["Warning"]);
    p.process(&r).unwrap();
    p.process(&r).unwrap();
    assert_eq!(p.rules().len(), 1);
}

#[test]
fn other_resources_change_nothing() {
    let mut p = ResourceProcessor::new();
    assert!(p.process(&Resource::Other).is_ok());
    assert_eq!(p.rules().len() + p.brokers().len() + p.rule_bindings().len(), 0);
    assert!(p.sync_resource_meta_finalizer(&Resource::Other).is_ok());
}

#[test]
fn reconcile_requeues_refused_resources() {
    let _controller = ResourceController::new();
    let mut p = ResourceProcessor::new();
    let (refused, result) = ResourceController::reconcile(&mut p, &binding("r1", &["b1"]));
    assert_eq!(refused.requeue_after_secs, Some(1));
    assert_eq!(result.unwrap_err().message(), "rule not found: r1");
    let (accepted, result) = ResourceController::reconcile(&mut p, &rule("r1", &["Warning"]));
    assert_eq!(accepted.requeue_after_secs, None);
    assert!(result.is_ok());
    let (accepted, _) = ResourceController::reconcile(&mut p, &binding("r1", &["b1"]));
    assert_eq!(accepted.requeue_after_secs, None);
    assert_eq!(bound(&p, "b1"), Some(vec!["r1".to_string()]));
    assert_eq!(ResourceController::error_policy().requeue_after_secs, Some(1));
}
