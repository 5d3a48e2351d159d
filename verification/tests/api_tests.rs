use kwatcher::api::{
    expected_status, rewrite_watch_url, ApiGroupGetter, ApiGroupListGetter,
    ApiResourceListGetter, ApiVersionListGetter, CoreResourceListGetter, HttpMethod,
    ResourceId, ResourceListGetter,
};

#[test]
fn group_resource_list_url() {
    let g = ApiResourceListGetter {
        group: Some("apps".to_string()),
        version: "v1".to_string(),
    };
    let req = g.get();
    assert_eq!(req.method, HttpMethod::Get);
    assert_eq!(req.relative_url, "/apis/apps/v1/");
    assert!(req.body.is_empty());
}

#[test]
fn core_resource_list_url() {
    let g = ApiResourceListGetter {
        group: None,
        version: "v1".to_string(),
    };
    assert_eq!(g.get().relative_url, "/api/v1");
}

#[test]
fn discovery_urls() {
    assert_eq!(ApiGroupListGetter.get().relative_url, "/apis");
    assert_eq!(ApiVersionListGetter.get().relative_url, "/api");
    assert_eq!(
        CoreResourceListGetter { version: "v1".to_string() }.get().relative_url,
        "/api/v1"
    );
    assert_eq!(
        ApiGroupGetter { group_name: "apps".to_string() }.get().relative_url,
        "/apis/apps"
    );
}

#[test]
fn listing_urls() {
    let grouped = ResourceListGetter {
        group: Some("apps".to_string()),
        version: "v1".to_string(),
        plural: "deployments".to_string(),
    };
    assert_eq!(grouped.get().relative_url, "/apis/apps/v1/deployments");
    let core = ResourceListGetter {
        group: None,
        version: "v1".to_string(),
        plural: "pods".to_string(),
    };
    assert_eq!(core.get().relative_url, "/api/v1/pods");
}

#[test]
fn watch_url_appends_fresh_parameters() {
    let core = ResourceListGetter {
        group: None,
        version: "v1".to_string(),
        plural: "pods".to_string(),
    };
    let req = core.watch(5);
    assert_eq!(req.relative_url, "/api/v1/pods?watch=true&resourceVersion=5");
}

#[test]
fn watch_rewrite_strips_stale_parameters() {
    let url = "/api/v1/pods?watch=true&resourceVersion=3".to_string();
    assert_eq!(
        rewrite_watch_url(&url, 7),
        "/api/v1/pods?watch=true&resourceVersion=7"
    );
}

#[test]
fn watch_rewrite_keeps_other_parameters() {
    let url = "/api/v1/pods?labelSelector=a%3Db&resourceVersion=3&limit=10".to_string();
    assert_eq!(
        rewrite_watch_url(&url, 9),
        "/api/v1/pods?labelSelector=a%3Db&limit=10&watch=true&resourceVersion=9"
    );
}

#[test]
fn watch_rewrite_handles_bare_path() {
    let url = "/apis/apps/v1/deployments".to_string();
    assert_eq!(
        rewrite_watch_url(&url, 0),
        "/apis/apps/v1/deployments?watch=true&resourceVersion=0"
    );
}

#[test]
fn only_status_200_is_expected() {
    assert!(expected_status(200));
    assert!(!expected_status(404));
    assert!(!expected_status(500));
}

#[test]
fn identity_distinguishes_namespace() {
    let a = ResourceId {
        api_version: "v1".to_string(),
        kind: "Pod".to_string(),
        name: "p".to_string(),
        namespace: None,
    };
    let mut b = a.clone();
    b.namespace = Some("ns".to_string());
    assert!(a.same_id(&a));
    assert!(!a.same_id(&b));
    assert_eq!(a.duplicate(), a);
}
