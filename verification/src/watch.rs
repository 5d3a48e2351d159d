use vstd::prelude::*;

verus! {

use crate::api::ApiGroupListItem;
use crate::api::ApiResource;
use crate::api::ResourceId;
use crate::api::ResourceIdView;
use crate::api::ResourceList;
use crate::cache::Cache;
use crate::cache::CacheView;
use crate::cache::cache_wf;
use crate::cache::spec_remove;
use crate::cache::spec_update;
use crate::event::Event;
use crate::event::EventType;
use crate::event::EventView;
use crate::event::spec_parse_event;
use crate::json::Json;
use crate::json::JsonValue;
use crate::json::json_get;
use crate::json::lemma_json_view_pairs;
use crate::json::obj_get;
use crate::text::dec_val;
use crate::text::parse_u64;
use crate::text::strip_plus;
use crate::text::u64_parse_ok;

/// Whether a resource type supports watching: its verbs contain
/// `watch`. Subresources and a few special types do not.
pub open spec fn spec_watchable(verbs: Seq<String>) -> bool {
    exists|i: int| 0 <= i < verbs.len() && (#[trigger] verbs[i])@ == "watch"@
}

impl ApiResource {
    /// Whether this resource type should get a watch loop.
    #[verifier::loop_isolation(false)]
    pub fn watchable(&self) -> (r: bool)
        ensures
            r == spec_watchable(self.verbs@),
    {
        let needle: String = "watch".to_owned();
        let mut i: usize = 0;
        while i < self.verbs.len()
            invariant
                0 <= i <= self.verbs@.len(),
                forall|i2: int| 0 <= i2 < i ==> (#[trigger] self.verbs@[i2])@ != "watch"@,
            decreases self.verbs@.len() - i,
        {
            if self.verbs[i] == needle {
                proof {
                    assert((self.verbs@[i as int])@ == "watch"@);
                }
                return true;
            }
            proof {
                assert((self.verbs@[i as int])@ != "watch"@);
            }
            i = i + 1;
        }
        false
    }
}

/// The group versions discovery selects: each group's name paired
/// with its preferred version, for the groups that name one.
pub open spec fn preferred_targets(groups: Seq<ApiGroupListItem>) -> Seq<
    (Seq<char>, Seq<char>),
>
    decreases groups.len(),
{
    if groups.len() == 0 {
        Seq::empty()
    } else {
        let rest = preferred_targets(groups.drop_first());
        match groups[0].preferred_version {
            Some(pv) => seq![(groups[0].name@, pv.version@)] + rest,
            None => rest,
        }
    }
}

fn preferred_from(groups: &Vec<ApiGroupListItem>, i: usize) -> (r: Vec<(String, String)>)
    requires
        i <= groups@.len(),
    ensures
        r@.map_values(|p: (String, String)| (p.0@, p.1@)) == preferred_targets(
            groups@.subrange(i as int, groups@.len() as int),
        ),
    decreases groups@.len() - i,
{
    let ghost sub: Seq<ApiGroupListItem> = groups@.subrange(i as int, groups@.len() as int);
    if i >= groups.len() {
        let r: Vec<(String, String)> = Vec::new();
        proof {
            assert(sub =~= Seq::<ApiGroupListItem>::empty());
            assert(r@.map_values(|p: (String, String)| (p.0@, p.1@)) =~= preferred_targets(
                sub,
            ));
        }
        r
    } else {
        let mut r = preferred_from(groups, i + 1);
        proof {
            assert(sub.drop_first() =~= groups@.subrange(i + 1, groups@.len() as int));
            assert(sub[0] == groups@[i as int]);
        }
        match &groups[i].preferred_version {
            Some(pv) => {
                r.insert(0, (groups[i].name.clone(), pv.version.clone()));
            },
            None => {},
        }
        proof {
            assert(r@.map_values(|p: (String, String)| (p.0@, p.1@)) =~= preferred_targets(
                sub,
            ));
        }
        r
    }
}

/// Selects, from a discovered group list, the (group, preferred
/// version) pairs whose resources will be watched.
pub fn preferred_versions(groups: &Vec<ApiGroupListItem>) -> (r: Vec<(String, String)>)
    ensures
        r@.map_values(|p: (String, String)| (p.0@, p.1@)) == preferred_targets(groups@),
{
    let r = preferred_from(groups, 0);
    proof {
        assert(groups@.subrange(0, groups@.len() as int) =~= groups@);
    }
    r
}

/// The metadata read off one list item: name, namespace and parsed
/// revision, or nothing if the item lacks the shape. A missing or
/// null namespace means cluster-scoped; any other non-string rejects
/// the item, as do a missing name, a missing revision or one that
/// does not parse.
pub open spec fn spec_item_fields(item: Json) -> Option<(Seq<char>, Option<Seq<char>>, u64)> {
    match json_get(item, "metadata"@) {
        Some(Json::Obj(md)) => {
            match (obj_get(md, "name"@), obj_get(md, "resourceVersion"@)) {
                (Some(Json::Str(name)), Some(Json::Str(rvs))) => {
                    if u64_parse_ok(rvs) {
                        match obj_get(md, "namespace"@) {
                            Some(Json::Str(ns)) => Some(
                                (name, Some(ns), dec_val(strip_plus(rvs)) as u64),
                            ),
                            Some(Json::Null) => Some(
                                (name, None, dec_val(strip_plus(rvs)) as u64),
                            ),
                            Some(_) => None,
                            None => Some((name, None, dec_val(strip_plus(rvs)) as u64)),
                        }
                    } else {
                        None
                    }
                },
                _ => None,
            }
        },
        _ => None,
    }
}

fn item_fields(item: &JsonValue) -> (r: Option<(String, Option<String>, u64)>)
    ensures
        match r {
            Some(f) => spec_item_fields(item@) == Some((f.0@, match f.1 {
                Some(ns) => Some(ns@),
                None => None,
            }, f.2)),
            None => spec_item_fields(item@) is None,
        },
{
    let md = match item.get("metadata") {
        Some(md) => {
            if md.is_object() {
                md
            } else {
                return None;
            }
        },
        None => { return None; },
    };
    let name: &String = match md.get("name") {
        Some(JsonValue::Str(s)) => s,
        _ => { return None; },
    };
    let rvs: &String = match md.get("resourceVersion") {
        Some(JsonValue::Str(s)) => s,
        _ => { return None; },
    };
    let rv: u64 = match parse_u64(rvs.as_str()) {
        Some(n) => n,
        None => { return None; },
    };
    let ns: Option<String> = match md.get("namespace") {
        Some(JsonValue::Str(s)) => Some(s.clone()),
        Some(JsonValue::Null) => None,
        Some(_) => { return None; },
        None => None,
    };
    Some((name.clone(), ns, rv))
}

/// A list item extended with the list's apiVersion and kind, where
/// the item does not carry its own; anything but an object passes
/// through unchanged.
pub open spec fn with_api_kind(item: Json, av: Seq<char>, kind: Seq<char>) -> Json {
    match item {
        Json::Obj(pairs) => {
            let kind_prefix: Seq<(Seq<char>, Json)> = if obj_get(pairs, "kind"@) is None {
                seq![("kind"@, Json::Str(kind))]
            } else {
                Seq::empty()
            };
            let av_prefix: Seq<(Seq<char>, Json)> = if obj_get(pairs, "apiVersion"@) is None {
                seq![("apiVersion"@, Json::Str(av))]
            } else {
                Seq::empty()
            };
            Json::Obj(av_prefix + kind_prefix + pairs)
        },
        _ => item,
    }
}

fn add_api_kind(item: JsonValue, av: &String, kind: &String) -> (r: JsonValue)
    ensures
        r@ == with_api_kind(item@, av@, kind@),
{
    let has_av = match item.get("apiVersion") {
        Some(_) => true,
        None => false,
    };
    let has_kind = match item.get("kind") {
        Some(_) => true,
        None => false,
    };
    match item {
        JsonValue::Obj(pairs) => {
            let ghost pairs0: Seq<(String, JsonValue)> = pairs@;
            let mut pairs = pairs;
            if !has_kind {
                pairs.insert(0, ("kind".to_owned(), JsonValue::Str(kind.clone())));
            }
            if !has_av {
                pairs.insert(0, ("apiVersion".to_owned(), JsonValue::Str(av.clone())));
            }
            let r = JsonValue::Obj(pairs);
            proof {
                let ghost final_pairs: Seq<(String, JsonValue)> = r->Obj_0@;
                lemma_json_view_pairs(pairs0);
                lemma_json_view_pairs(final_pairs);
                assert(r@->Obj_0 =~= with_api_kind(
                    Json::Obj(crate::json::json_view_pairs(pairs0)),
                    av@,
                    kind@,
                )->Obj_0);
            }
            r
        },
        other => other,
    }
}

/// One list item's effect on the cache: an upsert under the list's
/// apiVersion and kind if the item's metadata has the required
/// shape, and nothing otherwise.
pub open spec fn spec_ingest_one(
    c: CacheView,
    av: Seq<char>,
    kind: Seq<char>,
    item: Json,
) -> CacheView {
    match spec_item_fields(item) {
        Some(f) => spec_update(
            c,
            ResourceIdView { api_version: av, kind: kind, name: f.0, namespace: f.1 },
            f.2,
            with_api_kind(item, av, kind),
        ),
        None => c,
    }
}

/// The effect of ingesting the items of a list response, in order.
pub open spec fn spec_ingest_items(
    c: CacheView,
    av: Seq<char>,
    kind: Seq<char>,
    items: Seq<Json>,
) -> CacheView
    decreases items.len(),
{
    if items.len() == 0 {
        c
    } else {
        spec_ingest_items(
            spec_ingest_one(c, av, kind, items[0]),
            av,
            kind,
            items.drop_first(),
        )
    }
}

/// Ingesting a list preserves the cache invariant, item by item.
pub proof fn lemma_ingest_items_wf(c: CacheView, av: Seq<char>, kind: Seq<char>, items: Seq<Json>)
    requires
        cache_wf(c),
    ensures
        cache_wf(spec_ingest_items(c, av, kind, items)),
    decreases items.len(),
{
    if items.len() > 0 {
        match spec_item_fields(items[0]) {
            Some(f) => {
                crate::cache::lemma_spec_update_wf(
                    c,
                    ResourceIdView { api_version: av, kind: kind, name: f.0, namespace: f.1 },
                    f.2,
                    with_api_kind(items[0], av, kind),
                );
            },
            None => {},
        }
        lemma_ingest_items_wf(spec_ingest_one(c, av, kind, items[0]), av, kind, items.drop_first());
    }
}

/// Ingests one list response: for every item whose metadata has the
/// required shape, upserts it under the list's apiVersion and kind;
/// malformed items are skipped. Returns the list's own baseline
/// revision, or nothing (leaving the cache untouched) when that
/// baseline does not parse.
#[verifier::loop_isolation(false)]
pub fn ingest_list(cache: &mut Cache, list: ResourceList) -> (r: Option<u64>)
    requires
        old(cache).wf(),
    ensures
        final(cache).wf(),
        match r {
            Some(b) => u64_parse_ok(list.metadata.resource_version@) && b == dec_val(
                strip_plus(list.metadata.resource_version@),
            ) && final(cache)@ == spec_ingest_items(
                old(cache)@,
                list.api_version@,
                list.kind@,
                list.items@.map_values(|v: JsonValue| v@),
            ),
            None => !u64_parse_ok(list.metadata.resource_version@) && final(cache)@ == old(
                cache,
            )@,
        },
{
    let baseline: u64 = match parse_u64(list.metadata.resource_version.as_str()) {
        Some(b) => b,
        None => { return None; },
    };
    let ghost c0: CacheView = cache@;
    let ghost items_model: Seq<Json> = list.items@.map_values(|v: JsonValue| v@);
    let av = list.api_version;
    let kind = list.kind;
    let items = list.items;
    let n = items.len();
    proof {
        assert(items_model.subrange(0, items_model.len() as int) =~= items_model);
    }
    let mut i: usize = 0;
    while i < n
        invariant
            0 <= i <= n,
            n == items@.len(),
            items_model == items@.map_values(|v: JsonValue| v@),
            cache.wf(),
            spec_ingest_items(c0, av@, kind@, items_model) == spec_ingest_items(
                cache@,
                av@,
                kind@,
                items_model.subrange(i as int, items_model.len() as int),
            ),
        decreases n - i,
    {
        let ghost c_before: CacheView = cache@;
        let ghost suffix: Seq<Json> = items_model.subrange(i as int, items_model.len() as int);
        let item = &items[i];
        match item_fields(item) {
            Some((name, ns, rv)) => {
                let id = ResourceId { api_version: av.clone(), kind: kind.clone(), name, namespace: ns };
                let value = add_api_kind(item.deep_clone(), &av, &kind);
                cache.update(id, rv, value);
            },
            None => {},
        }
        proof {
            assert(suffix[0] == items_model[i as int]);
            assert(cache@ == spec_ingest_one(c_before, av@, kind@, items_model[i as int]));
            assert(suffix.drop_first() =~= items_model.subrange(
                i + 1,
                items_model.len() as int,
            ));
        }
        i = i + 1;
    }
    proof {
        assert(items_model.subrange(items_model.len() as int, items_model.len() as int)
            =~= Seq::<Json>::empty());
    }
    Some(baseline)
}

/// One event's effect on the cache: Added and Modified upsert the
/// event's document at its revision; Deleted removes the identity.
pub open spec fn spec_apply_event(c: CacheView, evt: EventView) -> CacheView {
    match evt.event_type {
        EventType::Added | EventType::Modified => spec_update(
            c,
            evt.resource,
            evt.resource_version,
            evt.value,
        ),
        EventType::Deleted => spec_remove(c, evt.resource),
    }
}

/// Applies one parsed event to the cache.
pub fn apply_event(cache: &mut Cache, evt: Event) -> (r: u64)
    requires
        old(cache).wf(),
    ensures
        final(cache).wf(),
        final(cache)@ == spec_apply_event(old(cache)@, evt@),
        r == evt.resource_version,
{
    let rv = evt.resource_version;
    match evt.event_type {
        EventType::Added | EventType::Modified => {
            cache.update(evt.resource, evt.resource_version, evt.value);
        },
        EventType::Deleted => {
            cache.remove(evt.resource, evt.resource_version);
        },
    }
    rv
}

/// Where one watch loop stands: listing the full state, or following
/// changes from a cursor.
#[derive(Debug, Clone, Copy, PartialEq, Eq, Structural)]
pub enum LoopState {
    Listing,
    Watching { cursor: u64 },
}

/// What the loop asks its transport to do next.
#[derive(Debug, Clone, Copy, PartialEq, Eq, Structural)]
pub enum LoopAction {
    List,
    Watch { cursor: u64 },
}

/// The list-then-watch state machine of one resource type's loop.
/// The surrounding task performs the transport work and feeds every
/// outcome back; all upstream errors are transient and the loop never
/// ends on its own.
#[derive(Debug, Clone, Copy, PartialEq, Eq, Structural)]
pub struct WatchLoop {
    pub state: LoopState,
}

impl WatchLoop {
    /// A fresh loop begins by listing.
    pub fn new() -> (r: WatchLoop)
        ensures
            r.state is Listing,
    {
        WatchLoop { state: LoopState::Listing }
    }

    /// In Listing, issue a list request; in Watching, issue a
    /// long-poll watch request from the cursor.
    pub fn next_action(&self) -> (r: LoopAction)
        ensures
            match self.state {
                LoopState::Listing => r is List,
                LoopState::Watching { cursor } => r == (LoopAction::Watch { cursor }),
            },
    {
        match self.state {
            LoopState::Listing => LoopAction::List,
            LoopState::Watching { cursor } => LoopAction::Watch { cursor },
        }
    }

    /// The outcome of a list request. A transport error (no list)
    /// leaves the loop listing and the cache untouched. A list whose
    /// baseline parses is ingested and the loop starts watching from
    /// that baseline; one whose baseline does not parse is dropped.
    pub fn on_list(&mut self, cache: &mut Cache, result: Option<ResourceList>)
        requires
            old(cache).wf(),
        ensures
            final(cache).wf(),
            match result {
                None => final(self).state is Listing && final(cache)@ == old(cache)@,
                Some(list) => {
                    if u64_parse_ok(list.metadata.resource_version@) {
                        &&& final(self).state == (LoopState::Watching {
                            cursor: dec_val(strip_plus(list.metadata.resource_version@)) as u64,
                        })
                        &&& final(cache)@ == spec_ingest_items(
                            old(cache)@,
                            list.api_version@,
                            list.kind@,
                            list.items@.map_values(|v: JsonValue| v@),
                        )
                    } else {
                        final(self).state is Listing && final(cache)@ == old(cache)@
                    }
                },
            },
    {
        match result {
            None => {
                self.state = LoopState::Listing;
            },
            Some(list) => {
                match ingest_list(cache, list) {
                    Some(baseline) => {
                        self.state = LoopState::Watching { cursor: baseline };
                    },
                    None => {
                        self.state = LoopState::Listing;
                    },
                }
            },
        }
    }

    /// One decoded frame from the watch body. A frame that parses is
    /// applied and advances the cursor to the event's revision; a
    /// malformed or unknown frame is skipped and changes nothing.
    pub fn on_frame(&mut self, cache: &mut Cache, frame: JsonValue)
        requires
            old(cache).wf(),
            old(self).state is Watching,
        ensures
            final(cache).wf(),
            match spec_parse_event(frame@) {
                Ok(m) => final(cache)@ == spec_apply_event(old(cache)@, m) && final(self).state
                    == (LoopState::Watching { cursor: m.resource_version }),
                Err(_) => final(cache)@ == old(cache)@ && *final(self) == *old(self),
            },
    {
        match Event::try_from(frame) {
            Ok(evt) => {
                let cursor = apply_event(cache, evt);
                self.state = LoopState::Watching { cursor };
            },
            Err(_) => {},
        }
    }

    /// The watch body ended or the transport failed: reconnect from
    /// the same cursor; a watch is never downgraded to a fresh list
    /// on a normal disconnect.
    pub fn on_watch_end(&mut self)
        requires
            old(self).state is Watching,
        ensures
            *final(self) == *old(self),
    {
    }
}

} // verus!
