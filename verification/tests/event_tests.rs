use kwatcher::event::{Event, EventParseError, EventType};
use kwatcher::json::JsonValue;

fn obj(pairs: Vec<(&str, JsonValue)>) -> JsonValue {
    JsonValue::Obj(
        pairs
            .into_iter()
            .map(|(k, v)| (k.to_string(), v))
            .collect(),
    )
}

fn s(v: &str) -> JsonValue {
    JsonValue::Str(v.to_string())
}

fn pod_frame(ty: &str) -> JsonValue {
    obj(vec![
        ("type", s(ty)),
        (
            "object",
            obj(vec![
                ("apiVersion", s("v1")),
                ("kind", s("Pod")),
                (
                    "metadata",
                    obj(vec![
                        ("name", s("p")),
                        ("namespace", s("n")),
                        ("resourceVersion", s("42")),
                    ]),
                ),
            ]),
        ),
    ])
}

#[test]
fn parses_modified_pod_frame() {
    let frame = pod_frame("MODIFIED");
    let evt = Event::try_from(frame).expect("frame should parse");
    assert_eq!(evt.event_type, EventType::Modified);
    assert_eq!(evt.resource.api_version, "v1");
    assert_eq!(evt.resource.kind, "Pod");
    assert_eq!(evt.resource.name, "p");
    assert_eq!(evt.resource.namespace, Some("n".to_string()));
    assert_eq!(evt.resource_version, 42);
    assert_eq!(evt.value, pod_frame("MODIFIED"));
}

#[test]
fn parses_added_and_deleted() {
    assert_eq!(
        Event::try_from(pod_frame("ADDED")).unwrap().event_type,
        EventType::Added
    );
    assert_eq!(
        Event::try_from(pod_frame("DELETED")).unwrap().event_type,
        EventType::Deleted
    );
}

#[test]
fn rejects_bookmark_frame() {
    let r = Event::try_from(pod_frame("BOOKMARK"));
    assert_eq!(r, Err(EventParseError::UnknownEvent("BOOKMARK".to_string())));
}

#[test]
fn rejects_missing_name() {
    let frame = obj(vec![
        ("type", s("MODIFIED")),
        (
            "object",
            obj(vec![
                ("apiVersion", s("v1")),
                ("kind", s("Pod")),
                (
                    "metadata",
                    obj(vec![("namespace", s("n")), ("resourceVersion", s("42"))]),
                ),
            ]),
        ),
    ]);
    assert_eq!(
        Event::try_from(frame),
        Err(EventParseError::MissingNameOrResourceVersion)
    );
}

#[test]
fn rejects_non_object_root() {
    assert_eq!(
        Event::try_from(JsonValue::Null),
        Err(EventParseError::RootNotObject(JsonValue::Null))
    );
}

#[test]
fn rejects_missing_object() {
    let frame = obj(vec![("type", s("MODIFIED"))]);
    assert_eq!(Event::try_from(frame), Err(EventParseError::MissingObject));
}

#[test]
fn rejects_object_of_wrong_type() {
    let frame = obj(vec![("type", s("MODIFIED")), ("object", s("hi"))]);
    assert_eq!(
        Event::try_from(frame),
        Err(EventParseError::ObjectNotObject(s("hi")))
    );
}

#[test]
fn rejects_missing_api_version_kind_metadata() {
    let frame = obj(vec![
        ("type", s("MODIFIED")),
        ("object", obj(vec![("kind", s("Pod"))])),
    ]);
    assert_eq!(
        Event::try_from(frame),
        Err(EventParseError::MissingApiVersionKindMetadata)
    );
}

#[test]
fn rejects_bad_revision() {
    let frame = obj(vec![
        ("type", s("MODIFIED")),
        (
            "object",
            obj(vec![
                ("apiVersion", s("v1")),
                ("kind", s("Pod")),
                (
                    "metadata",
                    obj(vec![("name", s("p")), ("resourceVersion", s("4x2"))]),
                ),
            ]),
        ),
    ]);
    assert_eq!(
        Event::try_from(frame),
        Err(EventParseError::InvalidResourceVersion("4x2".to_string()))
    );
}

#[test]
fn rejects_non_string_namespace() {
    let frame = obj(vec![
        ("type", s("MODIFIED")),
        (
            "object",
            obj(vec![
                ("apiVersion", s("v1")),
                ("kind", s("Pod")),
                (
                    "metadata",
                    obj(vec![
                        ("name", s("p")),
                        ("namespace", JsonValue::UInt(3)),
                        ("resourceVersion", s("42")),
                    ]),
                ),
            ]),
        ),
    ]);
    assert_eq!(
        Event::try_from(frame),
        Err(EventParseError::NamespaceNotString(JsonValue::UInt(3)))
    );
}

#[test]
fn rejects_missing_type() {
    let frame = obj(vec![(
        "object",
        obj(vec![
            ("apiVersion", s("v1")),
            ("kind", s("Pod")),
            (
                "metadata",
                obj(vec![("name", s("p")), ("resourceVersion", s("42"))]),
            ),
        ]),
    )]);
    assert_eq!(Event::try_from(frame), Err(EventParseError::MissingType));
}

#[test]
fn rejects_non_string_type() {
    let frame = obj(vec![
        ("type", JsonValue::Bool(true)),
        (
            "object",
            obj(vec![
                ("apiVersion", s("v1")),
                ("kind", s("Pod")),
                (
                    "metadata",
                    obj(vec![("name", s("p")), ("resourceVersion", s("42"))]),
                ),
            ]),
        ),
    ]);
    assert_eq!(
        Event::try_from(frame),
        Err(EventParseError::TypeNotString(JsonValue::Bool(true)))
    );
}

#[test]
fn cluster_scoped_frame_has_no_namespace() {
    let frame = obj(vec![
        ("type", s("ADDED")),
        (
            "object",
            obj(vec![
                ("apiVersion", s("v1")),
                ("kind", s("Node")),
                (
                    "metadata",
                    obj(vec![("name", s("m")), ("resourceVersion", s("7"))]),
                ),
            ]),
        ),
    ]);
    let evt = Event::try_from(frame).unwrap();
    assert_eq!(evt.resource.namespace, None);
    assert_eq!(evt.resource_version, 7);
}
