use kwatcher::api::ResourceId;
use kwatcher::cache::{deleted_event, Cache, OutputEvent, OutputEventType};
use kwatcher::json::JsonValue;
use tokio::sync::broadcast::error::TryRecvError;

fn make_res(api_version: &str, kind: &str, name: &str, namespace: Option<&str>) -> ResourceId {
    ResourceId {
        api_version: api_version.into(),
        kind: kind.into(),
        name: name.into(),
        namespace: namespace.map(Into::into),
    }
}

fn make_evt_modified(object: JsonValue) -> OutputEvent {
    OutputEvent { ty: OutputEventType::Modified, object }
}

fn make_evt_deleted(res: &ResourceId, rv: u64) -> OutputEvent {
    OutputEvent {
        ty: OutputEventType::Deleted,
        object: deleted_event(res, rv),
    }
}

#[test]
fn changes_add() {
    let mut cache = Cache::new();
    let res1 = make_res("av", "k", "n1", None);
    let res2 = make_res("av", "k", "n2", None);
    cache.update(res1.clone(), 1, JsonValue::Null);
    cache.update(res2.clone(), 2, JsonValue::Null);
    let (replay, mut rx) = cache.stream(None);
    drop(cache);
    assert_eq!(replay.len(), 2);
    assert_eq!(replay[0], (res1, make_evt_modified(JsonValue::Null)));
    assert_eq!(replay[1], (res2, make_evt_modified(JsonValue::Null)));
    assert_eq!(rx.try_recv(), Err(TryRecvError::Closed));
}

#[test]
fn changes_overwrite() {
    let mut cache = Cache::new();
    let res = make_res("av", "k", "n", None);
    cache.update(res.clone(), 1, JsonValue::Null);
    cache.update(res.clone(), 2, JsonValue::Null);
    let (replay, mut rx) = cache.stream(None);
    drop(cache);
    assert_eq!(replay.len(), 1);
    assert_eq!(replay[0], (res, make_evt_modified(JsonValue::Null)));
    assert_eq!(rx.try_recv(), Err(TryRecvError::Closed));
}

#[test]
fn del_before_listening() {
    let res = make_res("av", "k", "n", None);
    let mut cache = Cache::new();
    cache.update(res.clone(), 1, JsonValue::Null);
    cache.remove(res.clone(), 2);
    let (replay, mut rx) = cache.stream(None);
    drop(cache);
    assert_eq!(replay.len(), 0);
    assert_eq!(rx.try_recv(), Err(TryRecvError::Closed));
}

#[test]
fn del_after_listening() {
    let res = make_res("av", "k", "n", None);
    let mut cache = Cache::new();
    cache.update(res.clone(), 1, JsonValue::Null);
    let (replay, mut rx) = cache.stream(None);
    cache.remove(res.clone(), 2);
    drop(cache);
    assert_eq!(replay.len(), 1);
    assert_eq!(replay[0], (res.clone(), make_evt_modified(JsonValue::Null)));
    assert_eq!(rx.try_recv(), Ok((res.clone(), make_evt_deleted(&res, 2))));
    assert_eq!(rx.try_recv(), Err(TryRecvError::Closed));
}

#[test]
fn empty_cache_stream_yields_nothing() {
    let cache = Cache::new();
    let (replay, mut rx) = cache.stream(None);
    drop(cache);
    assert_eq!(replay.len(), 0);
    assert_eq!(rx.try_recv(), Err(TryRecvError::Closed));
}

#[test]
fn subscriber_sees_update_then_tombstone() {
    let res = make_res("v1", "Pod", "p", Some("ns"));
    let mut cache = Cache::new();
    let (replay, mut rx) = cache.stream(None);
    assert_eq!(replay.len(), 0);
    let payload = JsonValue::Str("body".to_string());
    cache.update(res.clone(), 7, payload);
    assert_eq!(
        rx.try_recv(),
        Ok((res.clone(), make_evt_modified(JsonValue::Str("body".to_string()))))
    );
    assert_eq!(rx.try_recv(), Err(TryRecvError::Empty));
    cache.remove(res.clone(), 9);
    assert_eq!(rx.try_recv(), Ok((res.clone(), make_evt_deleted(&res, 9))));
    assert_eq!(rx.try_recv(), Err(TryRecvError::Empty));
}

#[test]
fn replay_respects_cursor() {
    let mut cache = Cache::new();
    let res1 = make_res("av", "k", "n1", None);
    let res2 = make_res("av", "k", "n2", None);
    let res3 = make_res("av", "k", "n3", None);
    cache.update(res1.clone(), 5, JsonValue::Null);
    cache.update(res2.clone(), 10, JsonValue::Null);
    cache.update(res3.clone(), 15, JsonValue::Null);
    let (replay, _rx) = cache.stream(Some(10));
    assert_eq!(replay.len(), 2);
    assert_eq!(replay[0].0, res2);
    assert_eq!(replay[1].0, res3);
}

#[test]
fn replay_in_ascending_revision_order() {
    let mut cache = Cache::new();
    let res1 = make_res("av", "k", "n1", None);
    let res2 = make_res("av", "k", "n2", None);
    let res3 = make_res("av", "k", "n3", None);
    cache.update(res3.clone(), 30, JsonValue::Null);
    cache.update(res1.clone(), 10, JsonValue::Null);
    cache.update(res2.clone(), 20, JsonValue::Null);
    let (replay, _rx) = cache.stream(None);
    let ids: Vec<&ResourceId> = replay.iter().map(|p| &p.0).collect();
    assert_eq!(ids, vec![&res1, &res2, &res3]);
}

#[test]
fn update_carries_latest_payload() {
    let mut cache = Cache::new();
    let res = make_res("av", "k", "n", None);
    cache.update(res.clone(), 1, JsonValue::Str("old".to_string()));
    cache.update(res.clone(), 2, JsonValue::Str("new".to_string()));
    let (replay, _rx) = cache.stream(None);
    assert_eq!(replay.len(), 1);
    assert_eq!(
        replay[0],
        (res, make_evt_modified(JsonValue::Str("new".to_string())))
    );
}

#[test]
fn colliding_revisions_coexist() {
    // two identities given the same revision both stay live and both
    // replay; the later one follows the earlier
    let mut cache = Cache::new();
    let res1 = make_res("av", "k", "n1", None);
    let res2 = make_res("av", "k", "n2", None);
    cache.update(res1.clone(), 5, JsonValue::Null);
    cache.update(res2.clone(), 5, JsonValue::Null);
    let (replay, _rx) = cache.stream(None);
    assert_eq!(replay.len(), 2);
    assert_eq!(replay[0].0, res1);
    assert_eq!(replay[1].0, res2);
}

#[test]
fn tombstone_shape() {
    let res = make_res("v1", "Pod", "p", Some("n"));
    let tomb = deleted_event(&res, 2);
    let expected = JsonValue::Obj(vec![
        ("apiVersion".to_string(), JsonValue::Str("v1".to_string())),
        ("kind".to_string(), JsonValue::Str("Pod".to_string())),
        (
            "metadata".to_string(),
            JsonValue::Obj(vec![
                ("name".to_string(), JsonValue::Str("p".to_string())),
                ("namespace".to_string(), JsonValue::Str("n".to_string())),
                ("resourceVersion".to_string(), JsonValue::Str("2".to_string())),
            ]),
        ),
    ]);
    assert_eq!(tomb, expected);
}

#[test]
fn tombstone_cluster_scoped() {
    let res = make_res("v1", "Node", "m", None);
    let tomb = deleted_event(&res, 11);
    let expected = JsonValue::Obj(vec![
        ("apiVersion".to_string(), JsonValue::Str("v1".to_string())),
        ("kind".to_string(), JsonValue::Str("Node".to_string())),
        (
            "metadata".to_string(),
            JsonValue::Obj(vec![
                ("name".to_string(), JsonValue::Str("m".to_string())),
                ("resourceVersion".to_string(), JsonValue::Str("11".to_string())),
            ]),
        ),
    ]);
    assert_eq!(tomb, expected);
}

#[test]
fn list_renders_live_entries() {
    let mut cache = Cache::new();
    assert_eq!(
        cache.list(),
        "<table><tr><th>apiVersion</th><th>kind</th><th>(namespace)</th><th>name</th><th>resourceVersion</th></tr><tr></tr></table>"
    );
    let res = make_res("v1", "Pod", "p", Some("ns"));
    cache.update(res, 3, JsonValue::Null);
    assert_eq!(
        cache.list(),
        "<table><tr><th>apiVersion</th><th>kind</th><th>(namespace)</th><th>name</th><th>resourceVersion</th></tr><tr><td>v1</td><td>Pod</td><td>Some(\"ns\")</td><td>p</td><td>3</td></tr></table>"
    );
}
