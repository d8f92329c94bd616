//! Rules: the built-in rule that turns a Kubernetes event into a CloudEvent,
//! and the rules that `Rule` resources configure.
use vstd::prelude::*;
use cloudevents::{AttributesReader, EventBuilder};
use crate::crd::{RuleSpec, RuleSpecView};
use crate::event::{CloudEvent, CloudEventView, EventData, EventDataView, K8sEvent};
use crate::keyed::contains_name;

verus! {

#[verifier::external_type_specification]
#[verifier::external_body]
pub struct ExEventBuilderError(cloudevents::event::EventBuilderError);

/// The source of the version 1.0 CloudEvent that the CloudEvents SDK builds
/// with this source text: the text as parsed into a URL, or none when it does
/// not parse.
pub uninterp spec fn sdk_event_source(source: Seq<char>) -> Option<Seq<char>>;

/// Builds a version 1.0 CloudEvent with `cloudevents::EventBuilderV10`
/// (`new`, `id`, `source`, `ty`, `subject`, `build`) and gives the built
/// event's source (`AttributesReader::source`) as text, or the builder's error.
///
/// Claimed: the outcome depends on the source text alone, as in the SDK's
/// source the URL parse of `source` is the only step that can fail (`id`,
/// `ty` and `subject` only store their text); the built source is named by
/// `sdk_event_source`. The parse itself is not stated. The event's data and
/// time are not handed to the builder: setting them has no failure path in
/// the SDK.
#[verifier::external_body]
fn build_v10(id: &str, source: &str, ty: &str, subject: &str) -> (r: Result<String, cloudevents::event::EventBuilderError>)
    ensures
        match sdk_event_source(source@) {
            Some(s) => r matches Ok(t) && t@ == s,
            None => r is Err,
        },
{
    match cloudevents::EventBuilderV10::new().id(id).source(source).ty(ty).subject(subject).build() {
        Ok(event) => Ok(event.source().to_string()),
        Err(e) => Err(e),
    }
}

/// The text of an error of the CloudEvents SDK's builder, by its `Display`.
///
/// Nothing is claimed of the text.
#[verifier::external_body]
fn builder_error_text(e: &cloudevents::event::EventBuilderError) -> String {
    format!("{}", e)
}

/// Why a rule refused an event.
#[derive(Debug)]
pub enum RuleError {
    /// The event's type is not among the types the rule lets pass.
    TypeNotAllowed(String),
    /// The event has no type.
    MissingType,
    /// The CloudEvents SDK refused the CloudEvent made of the event.
    InvalidCloudEvent(cloudevents::event::EventBuilderError),
}

/// What every refusal of a rule says first.
pub open spec fn refusal_prefix() -> Seq<char> {
    "ignored event because it failed to pass the rule: "@
}

/// The text of a refusal of the type rule.
pub open spec fn type_rule_error_text(e: RuleErrorView) -> Seq<char> {
    match e {
        RuleErrorView::TypeNotAllowed(t) => refusal_prefix() + "\"kubevent::rules::TypeRule\" type="@ + t,
        RuleErrorView::MissingType => refusal_prefix() + "the event has no type attribute"@,
        RuleErrorView::InvalidCloudEvent => Seq::empty(),
    }
}

impl RuleError {
    /// The refusal as text: for the type rule,
    /// `ignored event because it failed to pass the rule: "kubevent::rules::TypeRule" type={type}`
    /// or `ignored event because it failed to pass the rule: the event has no type attribute`;
    /// for a refusal of the SDK, the SDK's own text.
    pub fn message(&self) -> (m: String)
        ensures
            !(self is InvalidCloudEvent) ==> m@ == type_rule_error_text(self@),
    {
        match self {
            RuleError::TypeNotAllowed(t) => {
                let mut m = "ignored event because it failed to pass the rule: ".to_owned();
                m.append("\"kubevent::rules::TypeRule\" type=");
                m.append(t.as_str());
                m
            },
            RuleError::MissingType => {
                let mut m = "ignored event because it failed to pass the rule: ".to_owned();
                m.append("the event has no type attribute");
                m
            },
            RuleError::InvalidCloudEvent(e) => builder_error_text(e),
        }
    }
}

/// The model of a `RuleError`.
pub enum RuleErrorView {
    TypeNotAllowed(Seq<char>),
    MissingType,
    InvalidCloudEvent,
}

impl View for RuleError {
    type V = RuleErrorView;

    open spec fn view(&self) -> RuleErrorView {
        match self {
            RuleError::TypeNotAllowed(t) => RuleErrorView::TypeNotAllowed(t@),
            RuleError::MissingType => RuleErrorView::MissingType,
            RuleError::InvalidCloudEvent(_) => RuleErrorView::InvalidCloudEvent,
        }
    }
}

/// A text, or `none` where there is none.
pub open spec fn or_none(t: Option<String>) -> Seq<char> {
    match t {
        Some(s) => s@,
        None => "none"@,
    }
}

/// `k8s://{host}/{component}/{namespace}/{kind}/{name}`, each part `none`
/// where the event has none.
pub open spec fn source_text(e: K8sEvent) -> Seq<char> {
    let src = e.source.unwrap();
    "k8s://"@ + or_none(src.host) + "/"@ + or_none(src.component) + "/"@
        + or_none(e.involved_object.namespace) + "/"@ + or_none(e.involved_object.kind) + "/"@
        + or_none(e.involved_object.name)
}

/// `{reason} ### {message}`.
pub open spec fn subject_text(e: K8sEvent) -> Seq<char> {
    e.reason.unwrap()@ + " ### "@ + e.message.unwrap()@
}

/// The event's JSON as the payload, or empty text when it has none.
pub open spec fn data_of(e: K8sEvent) -> EventDataView {
    match e.json {
        Some(j) => EventDataView::Json(j@),
        None => EventDataView::Text(Seq::empty()),
    }
}

/// The subject of the CloudEvent made of an event is its reason, ` ### `, and
/// its whole message: the message comes back intact from the subject, whatever
/// its length.
pub proof fn lemma_subject_keeps_message(e: K8sEvent, source: Seq<char>)
    requires
        e.reason is Some,
        e.message is Some,
    ensures
        cloud_event_with_source(e, source).subject == e.reason->Some_0@ + " ### "@ + e.message->Some_0@,
        cloud_event_of(e).subject == e.reason->Some_0@ + " ### "@ + e.message->Some_0@,
        subject_text(e).len() == e.reason->Some_0@.len() + 5 + e.message->Some_0@.len(),
        subject_text(e).subrange(0, e.reason->Some_0@.len() as int) == e.reason->Some_0@,
        subject_text(e).subrange(e.reason->Some_0@.len() + 5 as int, subject_text(e).len() as int) == e.message->Some_0@,
{
    reveal_strlit(" ### ");
    let r = e.reason->Some_0@;
    let m = e.message->Some_0@;
    let t = subject_text(e);
    assert(t.subrange(0, r.len() as int) =~= r);
    assert(t.subrange(r.len() + 5 as int, t.len() as int) =~= m);
}

/// The built-in rule can read what it needs: uid, type, source, reason and message.
pub open spec fn has_cloud_event_fields(e: K8sEvent) -> bool {
    &&& e.uid is Some
    &&& e.type_ is Some
    &&& e.source is Some
    &&& e.reason is Some
    &&& e.message is Some
}

/// The content type of the CloudEvents made of Kubernetes events.
pub open spec fn json_content_type() -> Seq<char> {
    "application/json"@
}

/// The CloudEvent made of a Kubernetes event, with `source` as its source.
pub open spec fn cloud_event_with_source(e: K8sEvent, source: Seq<char>) -> CloudEventView {
    CloudEventView {
        id: e.uid.unwrap()@,
        source: source,
        ty: e.type_.unwrap()@,
        subject: subject_text(e),
        time: e.last_timestamp,
        data_content_type: json_content_type(),
        data: data_of(e),
    }
}

/// The SDK accepts the CloudEvent made of `e`: its source text parses as a URL.
pub open spec fn cloud_event_valid(e: K8sEvent) -> bool {
    sdk_event_source(source_text(e)) is Some
}

/// The CloudEvent made of `e`, with the source as the SDK parsed it.
pub open spec fn cloud_event_of(e: K8sEvent) -> CloudEventView {
    cloud_event_with_source(e, sdk_event_source(source_text(e))->Some_0)
}

fn text_or_none(t: &Option<String>) -> (r: &str)
    ensures
        r@ == or_none(*t),
{
    match t {
        Some(s) => s.as_str(),
        None => "none",
    }
}

/// The CloudEvent source of an event.
pub fn source(event: &K8sEvent) -> (s: String)
    requires
        event.source is Some,
    ensures
        s@ == source_text(*event),
{
    let src = event.source.as_ref().unwrap();
    let mut s = "k8s://".to_owned();
    s.append(text_or_none(&src.host));
    s.append("/");
    s.append(text_or_none(&src.component));
    s.append("/");
    s.append(text_or_none(&event.involved_object.namespace));
    s.append("/");
    s.append(text_or_none(&event.involved_object.kind));
    s.append("/");
    s.append(text_or_none(&event.involved_object.name));
    s
}

/// The CloudEvent subject of an event.
pub fn subject(event: &K8sEvent) -> (s: String)
    requires
        event.reason is Some,
        event.message is Some,
    ensures
        s@ == subject_text(*event),
        s@ == event.reason->Some_0@ + " ### "@ + event.message->Some_0@,
        s@.len() == event.reason->Some_0@.len() + 5 + event.message->Some_0@.len(),
{
    proof {
        reveal_strlit(" ### ");
    }
    let mut s = event.reason.as_ref().unwrap().clone();
    s.append(" ### ");
    s.append(event.message.as_ref().unwrap().as_str());
    s
}

/// The CloudEvent time of an event: its last timestamp.
pub fn time(event: &K8sEvent) -> (t: Option<i64>)
    ensures
        t == event.last_timestamp,
{
    event.last_timestamp
}

/// The CloudEvent payload of an event: its JSON, or empty text when it could
/// not be serialized.
pub fn create_cloud_event_data(event: &K8sEvent) -> (d: EventData)
    ensures
        d@ == data_of(*event),
{
    match &event.json {
        Some(j) => EventData::Json(j.clone()),
        None => EventData::Text(String::new()),
    }
}

/// The built-in rule: makes a CloudEvent of a Kubernetes event.
#[derive(Debug)]
pub struct CloudEventRule;

impl CloudEventRule {
    /// The built-in rule.
    pub fn new() -> Self {
        CloudEventRule
    }

    /// The CloudEvent made of `raw_event`, with `source` as its source.
    pub fn assemble(raw_event: &K8sEvent, source: String) -> (e: CloudEvent)
        requires
            has_cloud_event_fields(*raw_event),
        ensures
            e@ == cloud_event_with_source(*raw_event, source@),
    {
        CloudEvent {
            id: raw_event.uid.as_ref().unwrap().clone(),
            source,
            ty: raw_event.type_.as_ref().unwrap().clone(),
            subject: subject(raw_event),
            time: time(raw_event),
            data_content_type: "application/json".to_owned(),
            data: create_cloud_event_data(raw_event),
        }
    }

    /// The outcome of the rule once the SDK has built the event: the event
    /// with the source the SDK parsed, or the SDK's error.
    pub fn finish(raw_event: &K8sEvent, built: Result<String, cloudevents::event::EventBuilderError>) -> (r: Result<CloudEvent, RuleError>)
        requires
            has_cloud_event_fields(*raw_event),
        ensures
            match built {
                Ok(s) => r matches Ok(e) && e@ == cloud_event_with_source(*raw_event, s@),
                Err(_) => r matches Err(RuleError::InvalidCloudEvent(_)),
            },
    {
        match built {
            Ok(s) => Ok(Self::assemble(raw_event, s)),
            Err(e) => Err(RuleError::InvalidCloudEvent(e)),
        }
    }

    /// Makes a CloudEvent of `raw_event`: id from the uid, source from the
    /// event source and involved object (as the SDK parses it into a URL),
    /// type, subject from reason and message, time from the last timestamp,
    /// and the event's JSON as data of content type `application/json`.
    /// Refused with the SDK's error when the source is not a URL.
    pub fn process(&self, raw_event: &K8sEvent) -> (r: Result<CloudEvent, RuleError>)
        requires
            has_cloud_event_fields(*raw_event),
        ensures
            r is Ok <==> cloud_event_valid(*raw_event),
            r matches Ok(e) ==> e@ == cloud_event_of(*raw_event),
            r matches Ok(e) ==> e.subject@ == raw_event.reason->Some_0@ + " ### "@ + raw_event.message->Some_0@,
            r matches Ok(e) ==> e.id@ == raw_event.uid->Some_0@ && e.ty@ == raw_event.type_->Some_0@
                && e.time == raw_event.last_timestamp,
            r matches Err(err) ==> err is InvalidCloudEvent,
    {
        let src = source(raw_event);
        let built = build_v10(
            raw_event.uid.as_ref().unwrap().as_str(),
            src.as_str(),
            raw_event.type_.as_ref().unwrap().as_str(),
            subject(raw_event).as_str(),
        );
        Self::finish(raw_event, built)
    }
}

/// The types a type rule lets pass; none when it lists none.
pub open spec fn allowed_types(spec: RuleSpecView) -> Seq<Seq<char>> {
    match spec.types {
        Some(ts) => ts,
        None => Seq::empty(),
    }
}

/// What the type rule does: the event passes unchanged when its type is
/// listed, and is refused otherwise.
pub open spec fn type_rule_result(spec: RuleSpecView, event_type: Option<Seq<char>>, current: CloudEventView) -> Result<CloudEventView, RuleErrorView> {
    match event_type {
        Some(t) => if allowed_types(spec).contains(t) {
            Ok(current)
        } else {
            Err(RuleErrorView::TypeNotAllowed(t))
        },
        None => Err(RuleErrorView::MissingType),
    }
}

/// The type rule lets an event pass exactly when the event has a type and the
/// rule's list of types holds it, at any position; what passes is the event as
/// it came in. An event without a type, or a rule without a list, refuses.
pub proof fn lemma_type_rule_filters(spec: RuleSpecView, event_type: Option<Seq<char>>, current: CloudEventView)
    ensures
        type_rule_result(spec, event_type, current) is Ok <==> (event_type is Some && spec.types is Some
            && exists|i: int| 0 <= i < spec.types->Some_0.len() && #[trigger] spec.types->Some_0[i] == event_type->Some_0),
        forall|i: int| event_type is Some && spec.types is Some && 0 <= i < spec.types->Some_0.len()
            && #[trigger] spec.types->Some_0[i] == event_type->Some_0 ==> type_rule_result(spec, event_type, current) == Ok::<CloudEventView, RuleErrorView>(current),
        type_rule_result(spec, event_type, current) matches Ok(v) ==> v == current,
        event_type is None ==> type_rule_result(spec, event_type, current) == Err::<CloudEventView, RuleErrorView>(RuleErrorView::MissingType),
        (event_type matches Some(t) && !(spec.types matches Some(ts) && ts.contains(t)))
            ==> type_rule_result(spec, event_type, current) == Err::<CloudEventView, RuleErrorView>(RuleErrorView::TypeNotAllowed(event_type->Some_0)),
{
    if event_type is Some && spec.types is Some {
        let ts = spec.types->Some_0;
        let t = event_type->Some_0;
        if ts.contains(t) {
            let i = choose|i: int| 0 <= i < ts.len() && ts[i] == t;
            assert(ts[i] == t);
        }
    }
}

/// The rule that filters events by Kubernetes event type.
#[derive(Debug)]
pub struct TypeRule;

impl TypeRule {
    /// The type rule.
    pub fn new() -> Self {
        TypeRule
    }

    /// Lets `event` pass when the type of `raw_event` is among the types of
    /// `spec`, and refuses it otherwise.
    pub fn process(&self, spec: &RuleSpec, raw_event: &K8sEvent, event: &CloudEvent) -> (r: Result<CloudEvent, RuleError>)
        ensures
            match (r, type_rule_result(spec@, raw_event.type_.deep_view(), event@)) {
                (Ok(e), Ok(v)) => e@ == v,
                (Err(e), Err(v)) => e@ == v,
                _ => false,
            },
            r is Ok <==> (raw_event.type_ is Some && spec.types is Some
                && exists|i: int| 0 <= i < spec.types->Some_0@.len()
                    && (#[trigger] spec.types->Some_0@[i])@ == raw_event.type_->Some_0@),
            forall|i: int| raw_event.type_ is Some && spec.types is Some && 0 <= i < spec.types->Some_0@.len()
                && (#[trigger] spec.types->Some_0@[i])@ == raw_event.type_->Some_0@ ==> r is Ok,
            r matches Ok(e) ==> e@ == event@,
    {
        proof {
            lemma_type_rule_filters(spec@, raw_event.type_.deep_view(), event@);
            if raw_event.type_ is Some && spec.types is Some {
                let t = raw_event.type_->Some_0;
                let ts = spec.types->Some_0;
                if ts.deep_view().contains(t@) {
                    let i = choose|i: int| 0 <= i < ts.deep_view().len() && ts.deep_view()[i] == t@;
                    assert(ts@[i]@ == t@);
                }
                assert forall|i: int| 0 <= i < ts@.len() && (#[trigger] ts@[i])@ == t@ implies ts.deep_view().contains(t@) by {
                    assert(ts.deep_view()[i] == t@);
                }
            }
        }
        match &raw_event.type_ {
            Some(t) => {
                let listed = match &spec.types {
                    Some(ts) => contains_name(ts, t.as_str()),
                    None => false,
                };
                if listed {
                    Ok(event.clone())
                } else {
                    Err(RuleError::TypeNotAllowed(t.clone()))
                }
            },
            None => Err(RuleError::MissingType),
        }
    }
}

/// A rule instance that `Rule` resources can name by kind.
#[derive(Debug)]
pub enum RuleInstance {
    Type(TypeRule),
}

impl DeepView for RuleInstance {
    type V = RuleInstance;

    open spec fn deep_view(&self) -> RuleInstance {
        *self
    }
}

/// What applying a rule instance gives.
pub open spec fn rule_instance_result(rule: RuleInstance, spec: RuleSpecView, raw_event: K8sEvent, current: CloudEventView) -> Result<CloudEventView, RuleErrorView> {
    match rule {
        RuleInstance::Type(_) => type_rule_result(spec, raw_event.type_.deep_view(), current),
    }
}

impl RuleInstance {
    /// Applies the rule to `event`, configured by `spec`.
    pub fn process(&self, spec: &RuleSpec, raw_event: &K8sEvent, event: &CloudEvent) -> (r: Result<CloudEvent, RuleError>)
        ensures
            match (r, rule_instance_result(*self, spec@, *raw_event, event@)) {
                (Ok(e), Ok(v)) => e@ == v,
                (Err(e), Err(v)) => e@ == v,
                _ => false,
            },
            r is Ok <==> (raw_event.type_ is Some && spec.types is Some
                && exists|i: int| 0 <= i < spec.types->Some_0@.len()
                    && (#[trigger] spec.types->Some_0@[i])@ == raw_event.type_->Some_0@),
            forall|i: int| raw_event.type_ is Some && spec.types is Some && 0 <= i < spec.types->Some_0@.len()
                && (#[trigger] spec.types->Some_0@[i])@ == raw_event.type_->Some_0@ ==> r is Ok,
            r matches Ok(e) ==> e@ == event@,
    {
        match self {
            RuleInstance::Type(rule) => rule.process(spec, raw_event, event),
        }
    }
}

} // verus!
