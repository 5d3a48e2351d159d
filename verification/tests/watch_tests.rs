use kwatcher::api::{
    ApiGroupListItem, ApiGroupVersion, ApiResource, ListMeta, ResourceList,
};
use kwatcher::cache::Cache;
use kwatcher::json::JsonValue;
use kwatcher::watch::{ingest_list, LoopAction, LoopState, WatchLoop};

fn api_resource(name: &str, verbs: Vec<&str>) -> ApiResource {
    ApiResource {
        categories: None,
        group: None,
        kind: "Pod".to_string(),
        name: name.to_string(),
        namespaced: true,
        short_names: None,
        singular_name: "pod".to_string(),
        storage_version_hash: None,
        verbs: verbs.into_iter().map(|v| v.to_string()).collect(),
        version: None,
    }
}

fn obj(pairs: Vec<(&str, JsonValue)>) -> JsonValue {
    JsonValue::Obj(pairs.into_iter().map(|(k, v)| (k.to_string(), v)).collect())
}

fn s(v: &str) -> JsonValue {
    JsonValue::Str(v.to_string())
}

fn pod_item(name: &str, rv: &str) -> JsonValue {
    obj(vec![(
        "metadata",
        obj(vec![
            ("name", s(name)),
            ("namespace", s("ns")),
            ("resourceVersion", s(rv)),
        ]),
    )])
}

fn pod_list(items: Vec<JsonValue>, baseline: &str) -> ResourceList {
    ResourceList {
        api_version: "v1".to_string(),
        kind: "Pod".to_string(),
        metadata: ListMeta { resource_version: baseline.to_string() },
        items,
    }
}

#[test]
fn watchable_requires_watch_verb() {
    assert!(api_resource("pods", vec!["list", "watch", "get"]).watchable());
    assert!(!api_resource("pods/status", vec!["get", "patch"]).watchable());
    assert!(!api_resource("bindings", vec![]).watchable());
}

#[test]
fn preferred_versions_keeps_named_groups() {
    let groups = vec![
        ApiGroupListItem {
            name: "apps".to_string(),
            versions: vec![],
            preferred_version: Some(ApiGroupVersion {
                group_version: "apps/v1".to_string(),
                version: "v1".to_string(),
            }),
        },
        ApiGroupListItem {
            name: "odd".to_string(),
            versions: vec![],
            preferred_version: None,
        },
        ApiGroupListItem {
            name: "batch".to_string(),
            versions: vec![],
            preferred_version: Some(ApiGroupVersion {
                group_version: "batch/v1".to_string(),
                version: "v1".to_string(),
            }),
        },
    ];
    let targets = kwatcher::watch::preferred_versions(&groups);
    assert_eq!(
        targets,
        vec![
            ("apps".to_string(), "v1".to_string()),
            ("batch".to_string(), "v1".to_string()),
        ]
    );
}

#[test]
fn ingest_populates_cache_and_adds_kind() {
    let mut cache = Cache::new();
    let list = pod_list(vec![pod_item("a", "3"), pod_item("b", "5")], "10");
    let baseline = ingest_list(&mut cache, list);
    assert_eq!(baseline, Some(10));
    let (replay, _rx) = cache.stream(None);
    assert_eq!(replay.len(), 2);
    assert_eq!(replay[0].0.name, "a");
    assert_eq!(replay[0].0.api_version, "v1");
    assert_eq!(replay[0].0.kind, "Pod");
    assert_eq!(replay[0].0.namespace, Some("ns".to_string()));
    // the stored document gained the list's apiVersion and kind
    let expected = obj(vec![
        ("apiVersion", s("v1")),
        ("kind", s("Pod")),
        (
            "metadata",
            obj(vec![
                ("name", s("a")),
                ("namespace", s("ns")),
                ("resourceVersion", s("3")),
            ]),
        ),
    ]);
    assert_eq!(replay[0].1.object, expected);
}

#[test]
fn ingest_skips_malformed_items() {
    let mut cache = Cache::new();
    let bad_item = obj(vec![("metadata", s("nope"))]);
    let no_rv = obj(vec![("metadata", obj(vec![("name", s("x"))]))]);
    let list = pod_list(vec![bad_item, pod_item("ok", "4"), no_rv], "9");
    assert_eq!(ingest_list(&mut cache, list), Some(9));
    let (replay, _rx) = cache.stream(None);
    assert_eq!(replay.len(), 1);
    assert_eq!(replay[0].0.name, "ok");
}

#[test]
fn ingest_rejects_bad_baseline() {
    let mut cache = Cache::new();
    let list = pod_list(vec![pod_item("a", "3")], "not-a-number");
    assert_eq!(ingest_list(&mut cache, list), None);
    let (replay, _rx) = cache.stream(None);
    assert_eq!(replay.len(), 0);
}

#[test]
fn loop_lists_then_watches() {
    let mut wl = WatchLoop::new();
    let mut cache = Cache::new();
    assert_eq!(wl.next_action(), LoopAction::List);
    // a transport error keeps listing
    wl.on_list(&mut cache, None);
    assert_eq!(wl.state, LoopState::Listing);
    // a good list moves to watching from its baseline
    wl.on_list(&mut cache, Some(pod_list(vec![pod_item("a", "3")], "10")));
    assert_eq!(wl.state, LoopState::Watching { cursor: 10 });
    assert_eq!(wl.next_action(), LoopAction::Watch { cursor: 10 });
}

#[test]
fn loop_follows_frames_and_reconnects() {
    let mut wl = WatchLoop::new();
    let mut cache = Cache::new();
    wl.on_list(&mut cache, Some(pod_list(vec![], "10")));
    let frame = obj(vec![
        ("type", s("ADDED")),
        (
            "object",
            obj(vec![
                ("apiVersion", s("v1")),
                ("kind", s("Pod")),
                (
                    "metadata",
                    obj(vec![("name", s("p")), ("resourceVersion", s("12"))]),
                ),
            ]),
        ),
    ]);
    wl.on_frame(&mut cache, frame);
    assert_eq!(wl.state, LoopState::Watching { cursor: 12 });
    // a malformed frame changes nothing
    wl.on_frame(&mut cache, JsonValue::Null);
    assert_eq!(wl.state, LoopState::Watching { cursor: 12 });
    // a disconnect keeps the cursor
    wl.on_watch_end();
    assert_eq!(wl.next_action(), LoopAction::Watch { cursor: 12 });
    let (replay, _rx) = cache.stream(None);
    assert_eq!(replay.len(), 1);
    assert_eq!(replay[0].0.name, "p");
}

#[test]
fn deleted_frame_removes_from_cache() {
    let mut wl = WatchLoop::new();
    let mut cache = Cache::new();
    wl.on_list(&mut cache, Some(pod_list(vec![pod_item("p", "3")], "10")));
    let frame = obj(vec![
        ("type", s("DELETED")),
        (
            "object",
            obj(vec![
                ("apiVersion", s("v1")),
                ("kind", s("Pod")),
                (
                    "metadata",
                    obj(vec![
                        ("name", s("p")),
                        ("namespace", s("ns")),
                        ("resourceVersion", s("12")),
                    ]),
                ),
            ]),
        ),
    ]);
    wl.on_frame(&mut cache, frame);
    let (replay, _rx) = cache.stream(None);
    assert_eq!(replay.len(), 0);
}
