use vstd::prelude::*;

verus! {

use crate::api::ResourceId;
use crate::api::ResourceIdView;
use crate::json::Json;
use crate::json::JsonValue;
use crate::json::json_get;
use crate::text::dec_val;
use crate::text::parse_u64;
use crate::text::strip_plus;
use crate::text::u64_parse_ok;

/// The kind of one upstream change record.
#[derive(Debug, Clone, Copy, PartialEq, Eq, Structural)]
pub enum EventType {
    Added,
    Modified,
    Deleted,
}

/// Mathematical view of a parsed event.
#[verifier::ext_equal]
pub struct EventView {
    pub event_type: EventType,
    pub resource: ResourceIdView,
    pub value: Json,
    pub resource_version: u64,
}

/// One parsed upstream change record: its kind, the identity and
/// revision it speaks of, and the whole frame as received.
#[derive(Debug, PartialEq, Clone)]
pub struct Event {
    pub event_type: EventType,
    pub resource: ResourceId,
    pub value: JsonValue,
    pub resource_version: u64,
}

impl View for Event {
    type V = EventView;

    open spec fn view(&self) -> EventView {
        (EventView {
            event_type: self.event_type,
            resource: self.resource@,
            value: self.value@,
            resource_version: self.resource_version,
        })
    }
}

/// Why a frame was rejected; each variant carries the offending part.
#[derive(Debug, PartialEq)]
pub enum EventParseError {
    InvalidResourceVersion(String),
    NamespaceNotString(JsonValue),
    MissingNameOrResourceVersion,
    MissingApiVersionKindMetadata,
    ObjectNotObject(JsonValue),
    MissingObject,
    UnknownEvent(String),
    TypeNotString(JsonValue),
    MissingType,
    RootNotObject(JsonValue),
}

/// Mathematical view of a rejection, the offending part included.
pub enum ParseErrorView {
    InvalidResourceVersion(Seq<char>),
    NamespaceNotString(Json),
    MissingNameOrResourceVersion,
    MissingApiVersionKindMetadata,
    ObjectNotObject(Json),
    MissingObject,
    UnknownEvent(Seq<char>),
    TypeNotString(Json),
    MissingType,
    RootNotObject(Json),
}

impl View for EventParseError {
    type V = ParseErrorView;

    open spec fn view(&self) -> ParseErrorView {
        match self {
            EventParseError::InvalidResourceVersion(s) => ParseErrorView::InvalidResourceVersion(
                s@,
            ),
            EventParseError::NamespaceNotString(v) => ParseErrorView::NamespaceNotString(v@),
            EventParseError::MissingNameOrResourceVersion => ParseErrorView::MissingNameOrResourceVersion,
            EventParseError::MissingApiVersionKindMetadata => ParseErrorView::MissingApiVersionKindMetadata,
            EventParseError::ObjectNotObject(v) => ParseErrorView::ObjectNotObject(v@),
            EventParseError::MissingObject => ParseErrorView::MissingObject,
            EventParseError::UnknownEvent(s) => ParseErrorView::UnknownEvent(s@),
            EventParseError::TypeNotString(v) => ParseErrorView::TypeNotString(v@),
            EventParseError::MissingType => ParseErrorView::MissingType,
            EventParseError::RootNotObject(v) => ParseErrorView::RootNotObject(v@),
        }
    }
}

/// What the `object` member of a frame yields: the identity fields
/// and the revision, or the reason it is rejected.
pub open spec fn spec_parse_object(v: Json) -> Result<(ResourceIdView, u64), ParseErrorView> {
    match json_get(v, "object"@) {
        Some(Json::Obj(obj)) => {
            match (
                crate::json::obj_get(obj, "apiVersion"@),
                crate::json::obj_get(obj, "kind"@),
                crate::json::obj_get(obj, "metadata"@),
            ) {
                (Some(Json::Str(av)), Some(Json::Str(kind)), Some(Json::Obj(metadata))) => {
                    match (
                        crate::json::obj_get(metadata, "name"@),
                        crate::json::obj_get(metadata, "resourceVersion"@),
                    ) {
                        (Some(Json::Str(name)), Some(Json::Str(rvs))) => {
                            if !u64_parse_ok(rvs) {
                                Err(ParseErrorView::InvalidResourceVersion(rvs))
                            } else {
                                match crate::json::obj_get(metadata, "namespace"@) {
                                    Some(Json::Str(ns)) => Ok((
                                        ResourceIdView {
                                            api_version: av,
                                            kind: kind,
                                            name: name,
                                            namespace: Some(ns),
                                        },
                                        dec_val(strip_plus(rvs)) as u64,
                                    )),
                                    Some(other) => Err(ParseErrorView::NamespaceNotString(other)),
                                    None => Ok((
                                        ResourceIdView {
                                            api_version: av,
                                            kind: kind,
                                            name: name,
                                            namespace: None,
                                        },
                                        dec_val(strip_plus(rvs)) as u64,
                                    )),
                                }
                            }
                        },
                        _ => Err(ParseErrorView::MissingNameOrResourceVersion),
                    }
                },
                _ => Err(ParseErrorView::MissingApiVersionKindMetadata),
            }
        },
        Some(other) => Err(ParseErrorView::ObjectNotObject(other)),
        None => Err(ParseErrorView::MissingObject),
    }
}

/// What the `type` member of a frame yields.
pub open spec fn spec_parse_type(v: Json) -> Result<EventType, ParseErrorView> {
    match json_get(v, "type"@) {
        Some(Json::Str(t)) => {
            if t == "ADDED"@ {
                Ok(EventType::Added)
            } else if t == "MODIFIED"@ {
                Ok(EventType::Modified)
            } else if t == "DELETED"@ {
                Ok(EventType::Deleted)
            } else {
                Err(ParseErrorView::UnknownEvent(t))
            }
        },
        Some(other) => Err(ParseErrorView::TypeNotString(other)),
        None => Err(ParseErrorView::MissingType),
    }
}

/// What parsing a whole frame yields: the event, or the first reason
/// it is rejected. The object is examined before the type, and a
/// frame that is no object at all is rejected outright.
pub open spec fn spec_parse_event(v: Json) -> Result<EventView, ParseErrorView> {
    if !(v is Obj) {
        Err(ParseErrorView::RootNotObject(v))
    } else {
        match spec_parse_object(v) {
            Err(k) => Err(k),
            Ok((resource, rv)) => match spec_parse_type(v) {
                Err(k) => Err(k),
                Ok(event_type) => Ok(EventView {
                    event_type: event_type,
                    resource: resource,
                    value: v,
                    resource_version: rv,
                }),
            },
        }
    }
}

impl Event {
    /// Parses one upstream watch frame. All fields are validated:
    /// a missing or ill-typed member, an unknown type (a bookmark,
    /// say), or an unparseable revision rejects the frame.
    pub fn try_from(value: JsonValue) -> (r: Result<Event, EventParseError>)
        ensures
            match r {
                Ok(evt) => spec_parse_event(value@) == Ok::<EventView, ParseErrorView>(evt@),
                Err(e) => spec_parse_event(value@) == Err::<EventView, ParseErrorView>(e@),
            },
    {
        if !value.is_object() {
            return Err(EventParseError::RootNotObject(value));
        }
        let (resource, resource_version): (ResourceId, u64) = match value.get("object") {
            Some(obj) => {
                if !obj.is_object() {
                    return Err(EventParseError::ObjectNotObject(obj.deep_clone()));
                }
                let av: &String = match obj.get("apiVersion") {
                    Some(JsonValue::Str(s)) => s,
                    _ => { return Err(EventParseError::MissingApiVersionKindMetadata); },
                };
                let kind: &String = match obj.get("kind") {
                    Some(JsonValue::Str(s)) => s,
                    _ => { return Err(EventParseError::MissingApiVersionKindMetadata); },
                };
                let metadata: &JsonValue = match obj.get("metadata") {
                    Some(m) => {
                        if m.is_object() {
                            m
                        } else {
                            return Err(EventParseError::MissingApiVersionKindMetadata);
                        }
                    },
                    None => { return Err(EventParseError::MissingApiVersionKindMetadata); },
                };
                let name: &String = match metadata.get("name") {
                    Some(JsonValue::Str(s)) => s,
                    _ => { return Err(EventParseError::MissingNameOrResourceVersion); },
                };
                let rvs: &String = match metadata.get("resourceVersion") {
                    Some(JsonValue::Str(s)) => s,
                    _ => { return Err(EventParseError::MissingNameOrResourceVersion); },
                };
                let rv: u64 = match parse_u64(rvs.as_str()) {
                    Some(n) => n,
                    None => {
                        return Err(EventParseError::InvalidResourceVersion(rvs.clone()));
                    },
                };
                let namespace: Option<String> = match metadata.get("namespace") {
                    Some(JsonValue::Str(ns)) => Some(ns.clone()),
                    Some(x) => {
                        return Err(EventParseError::NamespaceNotString(x.deep_clone()));
                    },
                    None => None,
                };
                (
                    ResourceId {
                        api_version: av.clone(),
                        kind: kind.clone(),
                        name: name.clone(),
                        namespace,
                    },
                    rv,
                )
            },
            None => { return Err(EventParseError::MissingObject); },
        };
        let event_type: EventType = match value.get("type") {
            Some(JsonValue::Str(t)) => {
                if *t == "ADDED".to_owned() {
                    EventType::Added
                } else if *t == "MODIFIED".to_owned() {
                    EventType::Modified
                } else if *t == "DELETED".to_owned() {
                    EventType::Deleted
                } else {
                    return Err(EventParseError::UnknownEvent(t.clone()));
                }
            },
            Some(x) => { return Err(EventParseError::TypeNotString(x.deep_clone())); },
            None => { return Err(EventParseError::MissingType); },
        };
        let r = Event { event_type, resource, value, resource_version };
        proof {
            assert(spec_parse_event(r.value@) == Ok::<EventView, ParseErrorView>(r@)) by {
                assert(r@ =~= spec_parse_event(r.value@)->Ok_0);
            }
        }
        Ok(r)
    }
}

} // verus!
