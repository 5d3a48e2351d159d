use kwatcher::cluster::{
    AuthMethod, Cluster, ClusterConfig, ClusterConfigError, Context, Kubeconfig, NamedCluster,
    NamedContext, NamedUser, User,
};

fn sample_kubeconfig() -> Kubeconfig {
    Kubeconfig {
        clusters: vec![NamedCluster {
            name: "c1".to_string(),
            cluster: Cluster {
                server: "https://example:6443".to_string(),
                // "ca" in base64
                certificate_authority_data: "Y2E=".to_string(),
            },
        }],
        users: vec![NamedUser {
            name: "u1".to_string(),
            user: User {
                // "cert" and "key" in base64
                client_certificate_data: "Y2VydA==".to_string(),
                client_key_data: "a2V5".to_string(),
            },
        }],
        contexts: vec![NamedContext {
            name: "ctx".to_string(),
            context: Context {
                cluster: "c1".to_string(),
                user: "u1".to_string(),
            },
        }],
        current_context: "ctx".to_string(),
    }
}

#[test]
fn selects_context_cluster_and_user() {
    let cc = ClusterConfig::from_kubeconfig(sample_kubeconfig()).expect("should resolve");
    assert_eq!(cc.server, "https://example:6443");
    assert_eq!(cc.cacert, b"ca".to_vec());
    // identity PEM is the key, a newline, then the certificate
    assert_eq!(cc.auth, AuthMethod::Identity(b"key\ncert".to_vec()));
}

#[test]
fn missing_context_is_reported() {
    let mut k = sample_kubeconfig();
    k.current_context = "other".to_string();
    assert_eq!(
        ClusterConfig::from_kubeconfig(k),
        Err(ClusterConfigError::MissingContext("other".to_string()))
    );
}

#[test]
fn missing_cluster_is_reported() {
    let mut k = sample_kubeconfig();
    k.contexts[0].context.cluster = "ghost".to_string();
    assert_eq!(
        ClusterConfig::from_kubeconfig(k),
        Err(ClusterConfigError::MissingCluster("ghost".to_string()))
    );
}

#[test]
fn missing_user_is_reported() {
    let mut k = sample_kubeconfig();
    k.contexts[0].context.user = "ghost".to_string();
    assert_eq!(
        ClusterConfig::from_kubeconfig(k),
        Err(ClusterConfigError::MissingUser("ghost".to_string()))
    );
}

#[test]
fn bad_base64_is_reported_per_field() {
    let mut k = sample_kubeconfig();
    k.users[0].user.client_certificate_data = "!!!".to_string();
    assert_eq!(
        ClusterConfig::from_kubeconfig(k),
        Err(ClusterConfigError::InvalidBase64Cert)
    );
    let mut k = sample_kubeconfig();
    k.users[0].user.client_key_data = "!!!".to_string();
    assert_eq!(
        ClusterConfig::from_kubeconfig(k),
        Err(ClusterConfigError::InvalidBase64Key)
    );
    let mut k = sample_kubeconfig();
    k.clusters[0].cluster.certificate_authority_data = "!!!".to_string();
    assert_eq!(
        ClusterConfig::from_kubeconfig(k),
        Err(ClusterConfigError::InvalidBase64Cacert)
    );
}

#[test]
fn first_matching_name_wins() {
    let mut k = sample_kubeconfig();
    k.clusters.push(NamedCluster {
        name: "c1".to_string(),
        cluster: Cluster {
            server: "https://second:6443".to_string(),
            certificate_authority_data: "Y2E=".to_string(),
        },
    });
    let cc = ClusterConfig::from_kubeconfig(k).unwrap();
    assert_eq!(cc.server, "https://example:6443");
}
