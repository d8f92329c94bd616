use kubevent::crd::RuleSpec;
use kubevent::event::{CloudEvent, EventData, EventSource, K8sEvent, ObjectReference};
use kubevent::rules::{
    create_cloud_event_data, source, subject, time, CloudEventRule, RuleError, RuleInstance, TypeRule,
};

fn event(type_: Option<&str>) -> K8sEvent {
    K8sEvent {
        uid: Some("uid-1".to_string()),
        type_: type_.map(|t| t.to_string()),
        reason: Some("BackOff".to_string()),
        message: Some("restarting".to_string()),
        source: Some(EventSource { host: Some("node1".to_string()), component: Some("kubelet".to_string()) }),
        involved_object: ObjectReference {
            namespace: Some("default".to_string()),
            kind: Some("Pod".to_string()),
            name: Some("web".to_string()),
        },
        last_timestamp: Some(1_600_000_000),
        json: Some("{\"a\":1}".to_string()),
    }
}

fn cloud(id: &str) -> CloudEvent {
    CloudEvent {
        id: id.to_string(),
        source: "k8s://x".to_string(),
        ty: "Warning".to_string(),
        subject: "s".to_string(),
        time: None,
        data_content_type: "application/json".to_string(),
        data: EventData::Text(String::new()),
    }
}

fn type_spec(types: Option<&[&str]>) -> RuleSpec {
    RuleSpec { kind: "type".to_string(), types: types.map(|ts| ts.iter().map(|t| t.to_string()).collect()) }
}

#[test]
fn source_joins_origin_and_object() {
    assert_eq!(source(&event(Some("Warning"))), "k8s://node1/kubelet/default/Pod/web");
}

#[test]
fn source_fills_missing_parts_with_none() {
    let mut e = event(Some("Warning"));
    e.source = Some(EventSource { host: None, component: None });
    e.involved_object = ObjectReference { namespace: None, kind: None, name: None };
    assert_eq!(source(&e), "k8s://none/none/none/none/none");
}

#[test]
fn subject_joins_reason_and_message() {
    assert_eq!(subject(&event(None)), "BackOff ### restarting");
}

#[test]
fn time_and_data_come_from_the_event() {
    let mut e = event(None);
    assert_eq!(time(&e), Some(1_600_000_000));
    match create_cloud_event_data(&e) {
        EventData::Json(j) => assert_eq!(j, "{\"a\":1}"),
        EventData::Text(_) => panic!("expected JSON"),
    }
    e.json = None;
    match create_cloud_event_data(&e) {
        EventData::Text(t) => assert_eq!(t, ""),
        EventData::Json(_) => panic!("expected text"),
    }
}

#[test]
fn cloud_event_rule_builds_event() {
    let rule = CloudEventRule::new();
    let ce = match rule.process(&event(Some("Warning"))) {
        Ok(ce) => ce,
        Err(_) => panic!("refused"),
    };
    assert_eq!(ce.id, "uid-1");
    assert_eq!(ce.source, "k8s://node1/kubelet/default/Pod/web");
    assert_eq!(ce.ty, "Warning");
    assert_eq!(ce.subject, "BackOff ### restarting");
    assert_eq!(ce.time, Some(1_600_000_000));
    assert_eq!(ce.data_content_type, "application/json");
}

#[test]
fn cloud_event_rule_refuses_invalid_source() {
    let mut e = event(Some("Warning"));
    e.source = Some(EventSource { host: Some("bad host".to_string()), component: None });
    match CloudEventRule::new().process(&e) {
        Err(RuleError::InvalidCloudEvent(err)) => {
            let text = RuleError::InvalidCloudEvent(err).message();
            assert!(text.starts_with("Error while setting attribute 'source' with uri/uriref type"));
        }
        _ => panic!("an event whose source is no URI was accepted"),
    }
}

#[test]
fn finish_follows_the_sdk_verdict() {
    let e = event(Some("Warning"));
    match CloudEventRule::finish(&e, Ok("k8s://parsed/x".to_string())) {
        Ok(ce) => {
            assert_eq!(ce.source, "k8s://parsed/x");
            assert_eq!(ce.id, "uid-1");
        }
        Err(_) => panic!("refused"),
    }
    let err = cloudevents::event::EventBuilderError::MissingRequiredAttribute { attribute_name: "source" };
    assert!(matches!(CloudEventRule::finish(&e, Err(err)), Err(RuleError::InvalidCloudEvent(_))));
}

#[test]
fn cloud_event_source_is_the_parsed_url() {
    let mut e = event(Some("Warning"));
    e.source = Some(EventSource { host: Some("node1".to_string()), component: Some("kube let".to_string()) });
    match CloudEventRule::new().process(&e) {
        Ok(ce) => assert_eq!(ce.source, "k8s://node1/kube%20let/default/Pod/web"),
        Err(_) => panic!("refused"),
    }
}

#[test]
fn type_rule_passes_listed_types_unchanged() {
    let r = TypeRule::new().process(&type_spec(Some(&["Warning"])), &event(Some("Warning")), &cloud("x"));
    match r {
        Ok(ce) => assert_eq!(ce.id, "x"),
        Err(_) => panic!("refused"),
    }
}

#[test]
fn type_rule_refuses_other_types() {
    let r = TypeRule::new().process(&type_spec(Some(&["Warning"])), &event(Some("Normal")), &cloud("x"));
    match r {
        Err(RuleError::TypeNotAllowed(t)) => assert_eq!(t, "Normal"),
        _ => panic!("not refused"),
    }
}

#[test]
fn type_rule_without_types_refuses_everything() {
    let r = TypeRule::new().process(&type_spec(None), &event(Some("Warning")), &cloud("x"));
    assert!(matches!(r, Err(RuleError::TypeNotAllowed(_))));
}

#[test]
fn type_rule_refuses_untyped_events() {
    let r = RuleInstance::Type(TypeRule::new()).process(&type_spec(Some(&["Warning"])), &event(None), &cloud("x"));
    assert!(matches!(r, Err(RuleError::MissingType)));
}

#[test]
fn type_rule_refusal_messages() {
    let r = TypeRule::new().process(&type_spec(Some(&["Warning"])), &event(Some("Normal")), &cloud("x"));
    match r {
        Err(e) => assert_eq!(
            e.message(),
            "ignored event because it failed to pass the rule: \"kubevent::rules::TypeRule\" type=Normal"
        ),
        Ok(_) => panic!("not refused"),
    }
    let r = TypeRule::new().process(&type_spec(Some(&["Warning"])), &event(None), &cloud("x"));
    match r {
        Err(e) => assert_eq!(
            e.message(),
            "ignored event because it failed to pass the rule: the event has no type attribute"
        ),
        Ok(_) => panic!("not refused"),
    }
}
