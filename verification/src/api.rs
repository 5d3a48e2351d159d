use vstd::prelude::*;
use vstd::string::StrSliceExecFns;
use vstd::string::StringExecFns;

verus! {

use crate::text::dec_str;
use crate::text::u64_to_string;

/// Mathematical view of a resource identity.
#[verifier::ext_equal]
pub struct ResourceIdView {
    pub api_version: Seq<char>,
    pub kind: Seq<char>,
    pub name: Seq<char>,
    pub namespace: Option<Seq<char>>,
}

/// The identity of one resource: apiVersion, kind, name and, for
/// namespaced resources, the namespace. A missing namespace denotes a
/// cluster-scoped resource and differs from every present value.
#[derive(Debug, PartialEq, Eq, Hash, Clone)]
pub struct ResourceId {
    pub api_version: String,
    pub kind: String,
    pub name: String,
    pub namespace: Option<String>,
}

impl View for ResourceId {
    type V = ResourceIdView;

    open spec fn view(&self) -> ResourceIdView {
        (ResourceIdView {
            api_version: self.api_version@,
            kind: self.kind@,
            name: self.name@,
            namespace: match self.namespace {
                Some(ns) => Some(ns@),
                None => None,
            },
        })
    }
}

impl ResourceId {
    /// Whether two identities agree on all four fields.
    pub fn same_id(&self, other: &ResourceId) -> (r: bool)
        ensures
            r == (self@ == other@),
    {
        let ns_eq: bool = match (&self.namespace, &other.namespace) {
            (None, None) => true,
            (Some(a), Some(b)) => *a == *b,
            _ => false,
        };
        let r = ns_eq && self.api_version == other.api_version && self.kind == other.kind
            && self.name == other.name;
        proof {
            if r {
                assert(self@ =~= other@);
            }
        }
        r
    }

    /// A structural copy with the same view.
    pub fn duplicate(&self) -> (r: ResourceId)
        ensures
            r@ == self@,
    {
        ResourceId {
            api_version: self.api_version.clone(),
            kind: self.kind.clone(),
            name: self.name.clone(),
            namespace: match &self.namespace {
                Some(ns) => Some(ns.clone()),
                None => None,
            },
        }
    }
}

/// One version of an API group, as discovery reports it.
#[derive(Debug, PartialEq, Clone)]
pub struct ApiGroupVersion {
    pub group_version: String,
    pub version: String,
}

/// One group in the group list, with its preferred version if any.
#[derive(Debug, PartialEq, Clone)]
pub struct ApiGroupListItem {
    pub name: String,
    pub versions: Vec<ApiGroupVersion>,
    pub preferred_version: Option<ApiGroupVersion>,
}

/// The group list served at the group discovery endpoint.
#[derive(Debug, PartialEq, Clone)]
pub struct ApiGroupList {
    pub api_version: String,
    pub kind: String,
    pub groups: Vec<ApiGroupListItem>,
}

/// One API group fetched on its own.
#[derive(Debug, PartialEq, Clone)]
pub struct ApiGroup {
    pub api_version: String,
    pub kind: String,
    pub name: String,
    pub versions: Vec<ApiGroupVersion>,
    pub preferred_version: ApiGroupVersion,
}

/// One resource type a group version exposes.
#[derive(Debug, PartialEq, Clone)]
pub struct ApiResource {
    pub categories: Option<Vec<String>>,
    pub group: Option<String>,
    pub kind: String,
    pub name: String,
    pub namespaced: bool,
    pub short_names: Option<Vec<String>>,
    pub singular_name: String,
    pub storage_version_hash: Option<String>,
    pub verbs: Vec<String>,
    pub version: Option<String>,
}

/// The resource types of one group version.
#[derive(Debug, PartialEq, Clone)]
pub struct ApiResourceList {
    pub group_version: String,
    pub resources: Vec<ApiResource>,
}

/// The core API versions list.
#[derive(Debug, PartialEq, Clone)]
pub struct ApiVersions {
    pub kind: String,
    pub versions: Vec<String>,
    pub server_address_by_client_cidrs: Vec<Cidr>,
}

/// A server address entry of the core versions list.
#[derive(Debug, PartialEq, Clone)]
pub struct Cidr {
    pub client_cidr: String,
    pub server_address: String,
}

/// The metadata of a list response: its baseline revision.
#[derive(Debug, PartialEq, Clone)]
pub struct ListMeta {
    pub resource_version: String,
}

/// A list response: its kind, its baseline, and the raw items.
#[derive(Debug, PartialEq)]
pub struct ResourceList {
    pub api_version: String,
    pub kind: String,
    pub metadata: ListMeta,
    pub items: Vec<crate::json::JsonValue>,
}

/// The metadata read off one listed or watched object.
#[derive(Debug, PartialEq, Clone)]
pub struct Metadata {
    pub name: String,
    pub namespace: Option<String>,
    pub resource_version: String,
}

/// One list item, reduced to the metadata the engine reads.
#[derive(Debug, PartialEq, Clone)]
pub struct ListItem {
    pub metadata: Metadata,
}

/// A full document for one resource: the original item together with
/// the list's apiVersion and kind.
#[derive(Debug, PartialEq)]
pub struct Resource {
    pub api_version: String,
    pub kind: String,
    pub rest: crate::json::JsonValue,
}

/// The method of an upstream request; only GET is ever issued.
#[derive(Debug, PartialEq, Eq, Clone, Copy)]
pub enum HttpMethod {
    Get,
}

/// One upstream request: method, path relative to the base URL, and
/// body. The transport sends it; the caller decodes the response.
#[derive(Debug, PartialEq)]
pub struct Req {
    pub method: HttpMethod,
    pub relative_url: String,
    pub body: Vec<u8>,
}

/// Whether a response status is the one every request here expects.
pub fn expected_status(code: u16) -> (r: bool)
    ensures
        r == (code == 200),
{
    code == 200
}

fn get_req(relative_url: String) -> (r: Req)
    ensures
        r.method is Get,
        r.relative_url@ == relative_url@,
        r.body@ == Seq::<u8>::empty(),
{
    Req { method: HttpMethod::Get, relative_url, body: Vec::new() }
}

/// Fetches the resource list of one group version.
#[derive(Debug, PartialEq, Clone)]
pub struct ApiResourceListGetter {
    pub group: Option<String>,
    pub version: String,
}

impl ApiResourceListGetter {
    pub fn get(&self) -> (r: Req)
        ensures
            r.method is Get,
            r.body@ == Seq::<u8>::empty(),
            r.relative_url@ == match self.group {
                Some(g) => "/apis/"@ + g@ + "/"@ + self.version@ + "/"@,
                None => "/api/"@ + self.version@,
            },
    {
        match &self.group {
            Some(g) => {
                let mut url: String = "/apis/".to_owned();
                url.append(g.as_str());
                url.append("/");
                url.append(self.version.as_str());
                url.append("/");
                get_req(url)
            },
            None => {
                let mut url: String = "/api/".to_owned();
                url.append(self.version.as_str());
                get_req(url)
            },
        }
    }
}

/// Fetches the list of API groups.
#[derive(Debug, PartialEq, Clone)]
pub struct ApiGroupListGetter;

impl ApiGroupListGetter {
    pub fn get(&self) -> (r: Req)
        ensures
            r.method is Get,
            r.body@ == Seq::<u8>::empty(),
            r.relative_url@ == "/apis"@,
    {
        get_req("/apis".to_owned())
    }
}

/// Fetches the list of core API versions.
#[derive(Debug, PartialEq, Clone)]
pub struct ApiVersionListGetter;

impl ApiVersionListGetter {
    pub fn get(&self) -> (r: Req)
        ensures
            r.method is Get,
            r.body@ == Seq::<u8>::empty(),
            r.relative_url@ == "/api"@,
    {
        get_req("/api".to_owned())
    }
}

/// Fetches the resource list of one core API version.
#[derive(Debug, PartialEq, Clone)]
pub struct CoreResourceListGetter {
    pub version: String,
}

impl CoreResourceListGetter {
    pub fn get(&self) -> (r: Req)
        ensures
            r.method is Get,
            r.body@ == Seq::<u8>::empty(),
            r.relative_url@ == "/api/"@ + self.version@,
    {
        let mut url: String = "/api/".to_owned();
        url.append(self.version.as_str());
        get_req(url)
    }
}

/// Fetches one API group by name.
#[derive(Debug, PartialEq, Clone)]
pub struct ApiGroupGetter {
    pub group_name: String,
}

impl ApiGroupGetter {
    pub fn get(&self) -> (r: Req)
        ensures
            r.method is Get,
            r.body@ == Seq::<u8>::empty(),
            r.relative_url@ == "/apis/"@ + self.group_name@,
    {
        let mut url: String = "/apis/".to_owned();
        url.append(self.group_name.as_str());
        get_req(url)
    }
}

/// Index of the first occurrence of a character, if any.
pub open spec fn find_idx(s: Seq<char>, c: char) -> Option<int>
    decreases s.len(),
{
    if s.len() == 0 {
        None
    } else if s[0] == c {
        Some(0)
    } else {
        match find_idx(s.drop_first(), c) {
            Some(i) => Some(i + 1),
            None => None,
        }
    }
}

proof fn lemma_find_idx_at(s: Seq<char>, c: char, i: int)
    requires
        0 <= i < s.len(),
        s[i] == c,
        forall|j: int| 0 <= j < i ==> s[j] != c,
    ensures
        find_idx(s, c) == Some(i),
    decreases i,
{
    if i > 0 {
        lemma_find_idx_at(s.drop_first(), c, i - 1);
    }
}

proof fn lemma_find_idx_none(s: Seq<char>, c: char)
    requires
        forall|j: int| 0 <= j < s.len() ==> s[j] != c,
    ensures
        find_idx(s, c) is None,
    decreases s.len(),
{
    if s.len() > 0 {
        lemma_find_idx_none(s.drop_first(), c);
    }
}

pub proof fn lemma_find_idx_bounds(s: Seq<char>, c: char)
    ensures
        match find_idx(s, c) {
            Some(i) => 0 <= i < s.len() && s[i] == c,
            None => true,
        },
    decreases s.len(),
{
    if s.len() > 0 && s[0] != c {
        lemma_find_idx_bounds(s.drop_first(), c);
    }
}

/// First occurrence of a character in a string.
#[verifier::loop_isolation(false)]
fn find_char(s: &str, c: char) -> (r: Option<usize>)
    ensures
        match r {
            Some(i) => i < s@.len() && s@[i as int] == c && find_idx(s@, c) == Some(i as int),
            None => find_idx(s@, c) is None,
        },
{
    let len = s.unicode_len();
    let mut i: usize = 0;
    while i < len
        invariant
            0 <= i <= len,
            forall|j: int| 0 <= j < i ==> s@[j] != c,
        decreases len - i,
    {
        if s.get_char(i) == c {
            proof {
                lemma_find_idx_at(s@, c, i as int);
            }
            return Some(i);
        }
        i = i + 1;
    }
    proof {
        lemma_find_idx_none(s@, c);
    }
    None
}

/// The pieces of a sequence split on a separator; the separators
/// themselves are dropped, empty pieces are kept.
pub open spec fn split_seq(s: Seq<char>, sep: char) -> Seq<Seq<char>>
    decreases s.len(),
{
    match find_idx(s, sep) {
        None => seq![s],
        Some(i) => {
            proof {
                lemma_find_idx_bounds(s, sep);
            }
            seq![s.subrange(0, i)] + split_seq(s.subrange(i + 1, s.len() as int), sep)
        },
    }
}

/// Splits a string on a separator character.
pub(crate) fn split_string(s: &str, sep: char) -> (r: Vec<String>)
    ensures
        r@.map_values(|x: String| x@) == split_seq(s@, sep),
    decreases s@.len(),
{
    match find_char(s, sep) {
        None => {
            let mut v: Vec<String> = Vec::new();
            v.push(s.to_owned());
            proof {
                assert(v@.map_values(|x: String| x@) =~= seq![s@]);
            }
            v
        },
        Some(i) => {
            let len = s.unicode_len();
            let head = s.substring_char(0, i).to_owned();
            let rest = s.substring_char(i + 1, len);
            let mut v = split_string(rest, sep);
            v.insert(0, head);
            proof {
                assert(v@.map_values(|x: String| x@) =~= seq![s@.subrange(0, i as int)]
                    + split_seq(s@.subrange(i + 1, s@.len() as int), sep));
            }
            v
        },
    }
}

/// The key of one query parameter: everything before the first `=`,
/// or the whole parameter when there is none.
pub open spec fn param_key(p: Seq<char>) -> Seq<char> {
    match find_idx(p, '=') {
        Some(i) => p.subrange(0, i),
        None => p,
    }
}

/// The value of one query parameter: everything after the first `=`,
/// empty when there is none.
pub open spec fn param_val(p: Seq<char>) -> Seq<char> {
    match find_idx(p, '=') {
        Some(i) => p.subrange(i + 1, p.len() as int),
        None => Seq::empty(),
    }
}

/// One parameter written back out as `key=value`.
pub open spec fn rendered_param(p: Seq<char>) -> Seq<char> {
    param_key(p) + seq!['='] + param_val(p)
}

/// Whether a prior query parameter survives the watch rewrite: the
/// `watch` and `resourceVersion` keys are stripped, fresh ones are
/// appended.
pub open spec fn kept_param(p: Seq<char>) -> bool {
    param_key(p) != "watch"@ && param_key(p) != "resourceVersion"@
}

/// The surviving parameters, rendered, in their original order.
pub open spec fn kept_rendered(ps: Seq<Seq<char>>) -> Seq<Seq<char>>
    decreases ps.len(),
{
    if ps.len() == 0 {
        Seq::empty()
    } else {
        let rest = kept_rendered(ps.drop_first());
        if kept_param(ps[0]) {
            seq![rendered_param(ps[0])] + rest
        } else {
            rest
        }
    }
}

/// Parameters joined with `&`.
pub open spec fn join_amp(ps: Seq<Seq<char>>) -> Seq<char>
    decreases ps.len(),
{
    if ps.len() == 0 {
        Seq::empty()
    } else if ps.len() == 1 {
        ps[0]
    } else {
        ps[0] + seq!['&'] + join_amp(ps.drop_first())
    }
}

/// The query parameters of a relative URL that survive the rewrite.
pub open spec fn surviving_params(u: Seq<char>) -> Seq<Seq<char>> {
    match find_idx(u, '?') {
        Some(i) => kept_rendered(split_seq(u.subrange(i + 1, u.len() as int), '&')),
        None => Seq::empty(),
    }
}

/// The URL a watch request uses: the path of the given URL, its
/// surviving query parameters, and a fresh `watch=true` and
/// `resourceVersion=<cursor>` pair.
pub open spec fn watch_url(u: Seq<char>, rv: u64) -> Seq<char> {
    let path = match find_idx(u, '?') {
        Some(i) => u.subrange(0, i),
        None => u,
    };
    let params = surviving_params(u) + seq![
        "watch=true"@,
        "resourceVersion="@ + dec_str(rv as nat),
    ];
    path + seq!['?'] + join_amp(params)
}

/// Renders one parameter as `key=value`.
fn render_param(p: &String) -> (r: String)
    ensures
        r@ == rendered_param(p@),
{
    match find_char(p.as_str(), '=') {
        Some(_) => {
            let r = p.clone();
            proof {
                reveal_strlit("=");
                assert(r@ =~= rendered_param(p@));
            }
            r
        },
        None => {
            let mut r = p.clone();
            r.append("=");
            proof {
                reveal_strlit("=");
                assert(r@ =~= rendered_param(p@));
            }
            r
        },
    }
}

/// Whether a parameter's key survives the rewrite.
fn is_kept_param(p: &String) -> (r: bool)
    ensures
        r == kept_param(p@),
{
    let key: String = match find_char(p.as_str(), '=') {
        Some(i) => p.as_str().substring_char(0, i).to_owned(),
        None => p.clone(),
    };
    let is_watch: bool = key == "watch".to_owned();
    let is_rv: bool = key == "resourceVersion".to_owned();
    !is_watch && !is_rv
}

/// The surviving parameters among the given ones, rendered.
fn filter_params(raw: Vec<String>) -> (r: Vec<String>)
    ensures
        r@.map_values(|x: String| x@) == kept_rendered(raw@.map_values(|x: String| x@)),
    decreases raw@.len(),
{
    if raw.len() == 0 {
        let r: Vec<String> = Vec::new();
        proof {
            assert(r@.map_values(|x: String| x@)
                =~= kept_rendered(raw@.map_values(|x: String| x@)));
        }
        r
    } else {
        let ghost orig: Seq<Seq<char>> = raw@.map_values(|x: String| x@);
        let mut head_vec = raw;
        let rest = head_vec.split_off(1);
        let first = head_vec.pop().unwrap();
        proof {
            assert(first@ == orig[0]);
            assert(rest@.map_values(|x: String| x@) =~= orig.drop_first());
        }
        let keep = is_kept_param(&first);
        let rendered = render_param(&first);
        let mut r = filter_params(rest);
        if keep {
            r.insert(0, rendered);
        }
        proof {
            assert(r@.map_values(|x: String| x@) =~= kept_rendered(orig));
        }
        r
    }
}

/// Joins the parameters from a given position on with `&`.
fn join_params_from(params: &Vec<String>, i: usize) -> (r: String)
    requires
        i <= params@.len(),
    ensures
        r@ == join_amp(params@.map_values(|x: String| x@).subrange(
            i as int,
            params@.len() as int,
        )),
    decreases params@.len() - i,
{
    let ghost mapped: Seq<Seq<char>> = params@.map_values(|x: String| x@);
    if i >= params.len() {
        let r = String::new();
        proof {
            assert(mapped.subrange(i as int, params@.len() as int) =~= Seq::<Seq<char>>::empty());
        }
        r
    } else if i == params.len() - 1 {
        let r = params[i].clone();
        proof {
            let sub = mapped.subrange(i as int, params@.len() as int);
            assert(sub.len() == 1);
            assert(sub[0] == mapped[i as int]);
        }
        r
    } else {
        let mut r = params[i].clone();
        r.append("&");
        let tail = join_params_from(params, i + 1);
        r.append(tail.as_str());
        proof {
            reveal_strlit("&");
            let sub = mapped.subrange(i as int, params@.len() as int);
            assert(sub.drop_first() =~= mapped.subrange(i + 1, params@.len() as int));
            assert(r@ =~= join_amp(sub));
        }
        r
    }
}

/// Rewrites a relative URL for a watch request: strips any prior
/// `watch` and `resourceVersion` query parameters, keeps the rest,
/// and appends `watch=true&resourceVersion=<cursor>`.
pub fn rewrite_watch_url(u: &String, rv: u64) -> (r: String)
    ensures
        r@ == watch_url(u@, rv),
{
    let len = u.as_str().unicode_len();
    let mut path: String;
    let mut params: Vec<String>;
    match find_char(u.as_str(), '?') {
        Some(i) => {
            path = u.as_str().substring_char(0, i).to_owned();
            let q = u.as_str().substring_char(i + 1, len);
            let raw = split_string(q, '&');
            params = filter_params(raw);
        },
        None => {
            path = u.clone();
            params = Vec::new();
            proof {
                assert(params@.map_values(|x: String| x@) =~= surviving_params(u@));
            }
        },
    }
    params.push("watch=true".to_owned());
    let mut rv_param: String = "resourceVersion=".to_owned();
    rv_param.append(u64_to_string(rv).as_str());
    params.push(rv_param);
    proof {
        assert(params@.map_values(|x: String| x@) =~= surviving_params(u@) + seq![
            "watch=true"@,
            "resourceVersion="@ + dec_str(rv as nat),
        ]);
    }
    let joined = join_params_from(&params, 0);
    path.append("?");
    path.append(joined.as_str());
    proof {
        reveal_strlit("?");
        assert(params@.map_values(|x: String| x@).subrange(0, params@.len() as int)
            =~= params@.map_values(|x: String| x@));
        assert(path@ =~= watch_url(u@, rv));
    }
    path
}

/// Fetches (and watches) the objects of one resource type.
#[derive(Debug, PartialEq, Clone)]
pub struct ResourceListGetter {
    pub group: Option<String>,
    pub version: String,
    pub plural: String,
}

impl ResourceListGetter {
    pub fn get(&self) -> (r: Req)
        ensures
            r.method is Get,
            r.body@ == Seq::<u8>::empty(),
            r.relative_url@ == match self.group {
                Some(g) => "/apis/"@ + g@ + "/"@ + self.version@ + "/"@ + self.plural@,
                None => "/api/"@ + self.version@ + "/"@ + self.plural@,
            },
    {
        match &self.group {
            Some(g) => {
                let mut url: String = "/apis/".to_owned();
                url.append(g.as_str());
                url.append("/");
                url.append(self.version.as_str());
                url.append("/");
                url.append(self.plural.as_str());
                get_req(url)
            },
            None => {
                let mut url: String = "/api/".to_owned();
                url.append(self.version.as_str());
                url.append("/");
                url.append(self.plural.as_str());
                get_req(url)
            },
        }
    }

    /// The long-poll watch request for this resource type, following
    /// changes from the given revision on.
    pub fn watch(&self, rv: u64) -> (r: Req)
        ensures
            r.method is Get,
            r.body@ == Seq::<u8>::empty(),
            r.relative_url@ == watch_url(
                match self.group {
                    Some(g) => "/apis/"@ + g@ + "/"@ + self.version@ + "/"@ + self.plural@,
                    None => "/api/"@ + self.version@ + "/"@ + self.plural@,
                },
                rv,
            ),
    {
        let base = self.get();
        let url = rewrite_watch_url(&base.relative_url, rv);
        get_req(url)
    }
}

} // verus!
