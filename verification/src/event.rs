//! Kubernetes events as the library reads them, and the CloudEvents made of them.
use vstd::prelude::*;

verus! {

/// Where a Kubernetes event comes from.
#[derive(Debug)]
pub struct EventSource {
    pub host: Option<String>,
    pub component: Option<String>,
}

/// The object a Kubernetes event is about.
#[derive(Debug)]
pub struct ObjectReference {
    pub namespace: Option<String>,
    pub kind: Option<String>,
    pub name: Option<String>,
}

/// The fields of a Kubernetes `Event` that event processing reads.
#[derive(Debug)]
pub struct K8sEvent {
    /// The event object's `metadata.uid`.
    pub uid: Option<String>,
    /// The event type (`Normal`, `Warning`, ...).
    pub type_: Option<String>,
    pub reason: Option<String>,
    pub message: Option<String>,
    pub source: Option<EventSource>,
    pub involved_object: ObjectReference,
    /// `lastTimestamp`, in seconds since the Unix epoch.
    pub last_timestamp: Option<i64>,
    /// The whole event serialized as JSON, when serialization succeeded.
    pub json: Option<String>,
}

/// The payload of a CloudEvent.
#[derive(Debug)]
pub enum EventData {
    /// JSON text.
    Json(String),
    /// Plain text.
    Text(String),
}

/// The model of an `EventData`.
pub enum EventDataView {
    Json(Seq<char>),
    Text(Seq<char>),
}

impl View for EventData {
    type V = EventDataView;

    open spec fn view(&self) -> EventDataView {
        match self {
            EventData::Json(t) => EventDataView::Json(t@),
            EventData::Text(t) => EventDataView::Text(t@),
        }
    }
}

/// A CloudEvent (specification version 1.0).
#[derive(Debug)]
pub struct CloudEvent {
    pub id: String,
    pub source: String,
    pub ty: String,
    pub subject: String,
    /// Seconds since the Unix epoch.
    pub time: Option<i64>,
    /// Content type of the payload.
    pub data_content_type: String,
    pub data: EventData,
}

/// The model of a `CloudEvent`.
pub struct CloudEventView {
    pub id: Seq<char>,
    pub source: Seq<char>,
    pub ty: Seq<char>,
    pub subject: Seq<char>,
    pub time: Option<i64>,
    pub data_content_type: Seq<char>,
    pub data: EventDataView,
}

impl View for CloudEvent {
    type V = CloudEventView;

    open spec fn view(&self) -> CloudEventView {
        CloudEventView {
            id: self.id@,
            source: self.source@,
            ty: self.ty@,
            subject: self.subject@,
            time: self.time,
            data_content_type: self.data_content_type@,
            data: self.data@,
        }
    }
}

impl Clone for EventData {
    fn clone(&self) -> (res: Self)
        ensures
            res@ == self@,
    {
        match self {
            EventData::Json(t) => EventData::Json(t.clone()),
            EventData::Text(t) => EventData::Text(t.clone()),
        }
    }
}

impl Clone for CloudEvent {
    fn clone(&self) -> (res: Self)
        ensures
            res@ == self@,
    {
        CloudEvent {
            id: self.id.clone(),
            source: self.source.clone(),
            ty: self.ty.clone(),
            subject: self.subject.clone(),
            time: self.time,
            data_content_type: self.data_content_type.clone(),
            data: self.data.clone(),
        }
    }
}

} // verus!
