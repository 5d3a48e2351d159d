use vstd::prelude::*;

verus! {

/// A kubeconfig document, reduced to the fields the selection logic
/// reads. The surrounding program parses the file and fills this in.
#[derive(Debug, PartialEq, Clone)]
pub struct Kubeconfig {
    pub clusters: Vec<NamedCluster>,
    pub users: Vec<NamedUser>,
    pub contexts: Vec<NamedContext>,
    pub current_context: String,
}

#[derive(Debug, PartialEq, Clone)]
pub struct NamedCluster {
    pub name: String,
    pub cluster: Cluster,
}

#[derive(Debug, PartialEq, Clone)]
pub struct Cluster {
    pub server: String,
    pub certificate_authority_data: String,
}

#[derive(Debug, PartialEq, Clone)]
pub struct NamedUser {
    pub name: String,
    pub user: User,
}

#[derive(Debug, PartialEq, Clone)]
pub struct User {
    pub client_certificate_data: String,
    pub client_key_data: String,
}

#[derive(Debug, PartialEq, Clone)]
pub struct NamedContext {
    pub name: String,
    pub context: Context,
}

#[derive(Debug, PartialEq, Clone)]
pub struct Context {
    pub cluster: String,
    pub user: String,
}

/// How the client authenticates: a client identity as PEM bytes
/// (key, then certificate), or a bearer token header value.
#[derive(Debug, PartialEq, Clone)]
pub enum AuthMethod {
    Identity(Vec<u8>),
    Token(String),
}

/// Mathematical view of an authentication method.
pub enum AuthMethodView {
    Identity(Seq<u8>),
    Token(Seq<char>),
}

impl View for AuthMethod {
    type V = AuthMethodView;

    open spec fn view(&self) -> AuthMethodView {
        match self {
            AuthMethod::Identity(pem) => AuthMethodView::Identity(pem@),
            AuthMethod::Token(t) => AuthMethodView::Token(t@),
        }
    }
}

/// What the transport needs to reach the cluster: the server URL,
/// the CA certificate as PEM bytes, and the authentication method.
/// The surrounding program builds its TLS client from these values.
#[derive(Debug, PartialEq, Clone)]
pub struct ClusterConfig {
    pub server: String,
    pub cacert: Vec<u8>,
    pub auth: AuthMethod,
}

/// Mathematical view of a cluster configuration.
#[verifier::ext_equal]
pub struct ClusterConfigView {
    pub server: Seq<char>,
    pub cacert: Seq<u8>,
    pub auth: AuthMethodView,
}

impl View for ClusterConfig {
    type V = ClusterConfigView;

    open spec fn view(&self) -> ClusterConfigView {
        (ClusterConfigView { server: self.server@, cacert: self.cacert@, auth: self.auth@ })
    }
}

/// Why a kubeconfig could not be turned into a cluster
/// configuration.
#[derive(Debug, PartialEq, Clone)]
pub enum ClusterConfigError {
    MissingContext(String),
    MissingCluster(String),
    MissingUser(String),
    InvalidBase64Cert,
    InvalidBase64Key,
    InvalidBase64Cacert,
}

/// Mathematical view of a configuration error.
pub enum ClusterConfigErrorView {
    MissingContext(Seq<char>),
    MissingCluster(Seq<char>),
    MissingUser(Seq<char>),
    InvalidBase64Cert,
    InvalidBase64Key,
    InvalidBase64Cacert,
}

impl View for ClusterConfigError {
    type V = ClusterConfigErrorView;

    open spec fn view(&self) -> ClusterConfigErrorView {
        match self {
            ClusterConfigError::MissingContext(n) => ClusterConfigErrorView::MissingContext(n@),
            ClusterConfigError::MissingCluster(n) => ClusterConfigErrorView::MissingCluster(n@),
            ClusterConfigError::MissingUser(n) => ClusterConfigErrorView::MissingUser(n@),
            ClusterConfigError::InvalidBase64Cert => ClusterConfigErrorView::InvalidBase64Cert,
            ClusterConfigError::InvalidBase64Key => ClusterConfigErrorView::InvalidBase64Key,
            ClusterConfigError::InvalidBase64Cacert => ClusterConfigErrorView::InvalidBase64Cacert,
        }
    }
}

/// What standard base64 decoding yields for a string: the bytes, or
/// nothing when the string is not valid base64.
pub uninterp spec fn b64_decoded(s: Seq<char>) -> Option<Seq<u8>>;

/// Relies on base64::decode: decoding with the standard alphabet and
/// padding; the result depends on the input string alone.
#[verifier::external_body]
fn b64_decode(s: &str) -> (r: Option<Vec<u8>>)
    ensures
        match r {
            Some(v) => b64_decoded(s@) == Some(v@),
            None => b64_decoded(s@) is None,
        },
{
    base64::decode(s).ok()
}

/// First position with the given name, among a sequence of names.
pub open spec fn first_named(names: Seq<Seq<char>>, name: Seq<char>) -> Option<int>
    decreases names.len(),
{
    if names.len() == 0 {
        None
    } else if names[0] == name {
        Some(0)
    } else {
        match first_named(names.drop_first(), name) {
            Some(i) => Some(i + 1),
            None => None,
        }
    }
}

proof fn lemma_first_named_at(names: Seq<Seq<char>>, name: Seq<char>, i: int)
    requires
        0 <= i < names.len(),
        names[i] == name,
        forall|j: int| 0 <= j < i ==> names[j] != name,
    ensures
        first_named(names, name) == Some(i),
    decreases i,
{
    if i > 0 {
        lemma_first_named_at(names.drop_first(), name, i - 1);
    }
}

proof fn lemma_first_named_none(names: Seq<Seq<char>>, name: Seq<char>)
    requires
        forall|j: int| 0 <= j < names.len() ==> names[j] != name,
    ensures
        first_named(names, name) is None,
    decreases names.len(),
{
    if names.len() > 0 {
        lemma_first_named_none(names.drop_first(), name);
    }
}

/// The names of the contexts, in order.
pub open spec fn context_names(contexts: Seq<NamedContext>) -> Seq<Seq<char>> {
    contexts.map_values(|c: NamedContext| c.name@)
}

/// The names of the clusters, in order.
pub open spec fn cluster_names(clusters: Seq<NamedCluster>) -> Seq<Seq<char>> {
    clusters.map_values(|c: NamedCluster| c.name@)
}

/// The names of the users, in order.
pub open spec fn user_names(users: Seq<NamedUser>) -> Seq<Seq<char>> {
    users.map_values(|u: NamedUser| u.name@)
}

/// What a kubeconfig yields: the current context is looked up by
/// name, then its cluster and user; the user's certificate and key
/// and the cluster's CA are base64-decoded; the identity PEM is the
/// key, a newline, and the certificate. The first missing name or
/// undecodable field decides the error, in this order: context,
/// cluster, user, certificate, key, CA.
pub open spec fn spec_from_kubeconfig(k: Kubeconfig) -> Result<
    ClusterConfigView,
    ClusterConfigErrorView,
> {
    match first_named(context_names(k.contexts@), k.current_context@) {
        None => Err(ClusterConfigErrorView::MissingContext(k.current_context@)),
        Some(ci) => {
            let ctx = k.contexts@[ci].context;
            match first_named(cluster_names(k.clusters@), ctx.cluster@) {
                None => Err(ClusterConfigErrorView::MissingCluster(ctx.cluster@)),
                Some(li) => {
                    let cluster = k.clusters@[li].cluster;
                    match first_named(user_names(k.users@), ctx.user@) {
                        None => Err(ClusterConfigErrorView::MissingUser(ctx.user@)),
                        Some(ui) => {
                            let user = k.users@[ui].user;
                            match b64_decoded(user.client_certificate_data@) {
                                None => Err(ClusterConfigErrorView::InvalidBase64Cert),
                                Some(cert) => match b64_decoded(user.client_key_data@) {
                                    None => Err(ClusterConfigErrorView::InvalidBase64Key),
                                    Some(key) => match b64_decoded(
                                        cluster.certificate_authority_data@,
                                    ) {
                                        None => Err(ClusterConfigErrorView::InvalidBase64Cacert),
                                        Some(ca) => Ok(ClusterConfigView {
                                            server: cluster.server@,
                                            cacert: ca,
                                            auth: AuthMethodView::Identity(
                                                key + seq![10u8] + cert,
                                            ),
                                        }),
                                    },
                                },
                            }
                        },
                    }
                },
            }
        },
    }
}

fn find_context(contexts: &Vec<NamedContext>, name: &String) -> (r: Option<usize>)
    ensures
        match r {
            Some(i) => i < contexts@.len() && first_named(context_names(contexts@), name@)
                == Some(i as int),
            None => first_named(context_names(contexts@), name@) is None,
        },
{
    let ghost names: Seq<Seq<char>> = context_names(contexts@);
    let mut i: usize = 0;
    while i < contexts.len()
        invariant
            0 <= i <= contexts@.len(),
            names == context_names(contexts@),
            names.len() == contexts@.len(),
            forall|j: int| 0 <= j < i ==> names[j] != name@,
        decreases contexts@.len() - i,
    {
        if contexts[i].name == *name {
            proof {
                lemma_first_named_at(names, name@, i as int);
            }
            return Some(i);
        }
        proof {
            assert(names[i as int] != name@);
        }
        i = i + 1;
    }
    proof {
        lemma_first_named_none(names, name@);
    }
    None
}

fn find_cluster(clusters: &Vec<NamedCluster>, name: &String) -> (r: Option<usize>)
    ensures
        match r {
            Some(i) => i < clusters@.len() && first_named(cluster_names(clusters@), name@)
                == Some(i as int),
            None => first_named(cluster_names(clusters@), name@) is None,
        },
{
    let ghost names: Seq<Seq<char>> = cluster_names(clusters@);
    let mut i: usize = 0;
    while i < clusters.len()
        invariant
            0 <= i <= clusters@.len(),
            names == cluster_names(clusters@),
            names.len() == clusters@.len(),
            forall|j: int| 0 <= j < i ==> names[j] != name@,
        decreases clusters@.len() - i,
    {
        if clusters[i].name == *name {
            proof {
                lemma_first_named_at(names, name@, i as int);
            }
            return Some(i);
        }
        proof {
            assert(names[i as int] != name@);
        }
        i = i + 1;
    }
    proof {
        lemma_first_named_none(names, name@);
    }
    None
}

fn find_user(users: &Vec<NamedUser>, name: &String) -> (r: Option<usize>)
    ensures
        match r {
            Some(i) => i < users@.len() && first_named(user_names(users@), name@) == Some(
                i as int,
            ),
            None => first_named(user_names(users@), name@) is None,
        },
{
    let ghost names: Seq<Seq<char>> = user_names(users@);
    let mut i: usize = 0;
    while i < users.len()
        invariant
            0 <= i <= users@.len(),
            names == user_names(users@),
            names.len() == users@.len(),
            forall|j: int| 0 <= j < i ==> names[j] != name@,
        decreases users@.len() - i,
    {
        if users[i].name == *name {
            proof {
                lemma_first_named_at(names, name@, i as int);
            }
            return Some(i);
        }
        proof {
            assert(names[i as int] != name@);
        }
        i = i + 1;
    }
    proof {
        lemma_first_named_none(names, name@);
    }
    None
}

impl ClusterConfig {
    /// Selects the current context's cluster and user from a
    /// kubeconfig and decodes their credentials.
    pub fn from_kubeconfig(k: Kubeconfig) -> (r: Result<ClusterConfig, ClusterConfigError>)
        ensures
            match r {
                Ok(cc) => spec_from_kubeconfig(k) == Ok::<ClusterConfigView,
                    ClusterConfigErrorView,
                >(cc@),
                Err(e) => spec_from_kubeconfig(k) == Err::<ClusterConfigView,
                    ClusterConfigErrorView,
                >(e@),
            },
    {
        let ci = match find_context(&k.contexts, &k.current_context) {
            Some(i) => i,
            None => {
                return Err(ClusterConfigError::MissingContext(k.current_context));
            },
        };
        let ctx = &k.contexts[ci].context;
        let li = match find_cluster(&k.clusters, &ctx.cluster) {
            Some(i) => i,
            None => {
                return Err(ClusterConfigError::MissingCluster(ctx.cluster.clone()));
            },
        };
        let cluster = &k.clusters[li].cluster;
        let ui = match find_user(&k.users, &ctx.user) {
            Some(i) => i,
            None => {
                return Err(ClusterConfigError::MissingUser(ctx.user.clone()));
            },
        };
        let user = &k.users[ui].user;
        let cert = match b64_decode(user.client_certificate_data.as_str()) {
            Some(v) => v,
            None => {
                return Err(ClusterConfigError::InvalidBase64Cert);
            },
        };
        let key = match b64_decode(user.client_key_data.as_str()) {
            Some(v) => v,
            None => {
                return Err(ClusterConfigError::InvalidBase64Key);
            },
        };
        let ca = match b64_decode(cluster.certificate_authority_data.as_str()) {
            Some(v) => v,
            None => {
                return Err(ClusterConfigError::InvalidBase64Cacert);
            },
        };
        let mut pem = key;
        pem.push(10u8);
        let mut cert = cert;
        pem.append(&mut cert);
        let r = ClusterConfig {
            server: cluster.server.clone(),
            cacert: ca,
            auth: AuthMethod::Identity(pem),
        };
        proof {
            assert(r@.auth->Identity_0 =~= spec_from_kubeconfig(k)->Ok_0.auth->Identity_0);
            assert(r@ =~= spec_from_kubeconfig(k)->Ok_0);
        }
        Ok(r)
    }
}

} // verus!
