use vstd::prelude::*;

verus! {

use crate::api::ResourceId;
use crate::api::ResourceIdView;
use crate::json::Json;
use crate::json::JsonValue;
use crate::json::lemma_json_view_pairs;
use crate::text::dec_str;
use crate::text::u64_to_string;

/// The kind of an event handed to subscribers.
#[derive(Debug, Clone, Copy, PartialEq, Eq, Structural)]
pub enum OutputEventType {
    Modified,
    Deleted,
}

/// Mathematical view of an output event.
#[verifier::ext_equal]
pub struct OutputEventView {
    pub ty: OutputEventType,
    pub object: Json,
}

/// One event handed to subscribers: a change kind and the document
/// it speaks of. On deletion the document is a synthesized tombstone.
#[derive(Debug, PartialEq, Clone)]
pub struct OutputEvent {
    pub ty: OutputEventType,
    pub object: JsonValue,
}

impl View for OutputEvent {
    type V = OutputEventView;

    open spec fn view(&self) -> OutputEventView {
        (OutputEventView { ty: self.ty, object: self.object@ })
    }
}

/// Mathematical view of one live entry.
#[verifier::ext_equal]
pub struct LiveEntryView {
    pub id: ResourceIdView,
    pub rv: u64,
    pub value: Json,
}

#[derive(Debug)]
struct LiveEntry {
    id: ResourceId,
    rv: u64,
    value: JsonValue,
}

impl View for LiveEntry {
    type V = LiveEntryView;

    closed spec fn view(&self) -> LiveEntryView {
        (LiveEntryView { id: self.id@, rv: self.rv, value: self.value@ })
    }
}

/// Mathematical view of one index entry: a revision and the identity
/// it currently belongs to.
#[verifier::ext_equal]
pub struct IndexEntryView {
    pub rv: u64,
    pub id: ResourceIdView,
}

#[derive(Debug)]
struct IndexEntry {
    rv: u64,
    id: ResourceId,
}

impl View for IndexEntry {
    type V = IndexEntryView;

    closed spec fn view(&self) -> IndexEntryView {
        (IndexEntryView { rv: self.rv, id: self.id@ })
    }
}

/// Mathematical view of the whole cache state: the live mapping and
/// the revision-ordered index.
#[verifier::ext_equal]
pub struct CacheView {
    pub live: Seq<LiveEntryView>,
    pub index: Seq<IndexEntryView>,
}

#[verifier::external_type_specification]
#[verifier::external_body]
#[verifier::reject_recursive_types(T)]
pub struct ExSender<T>(tokio::sync::broadcast::Sender<T>);

#[verifier::external_type_specification]
#[verifier::external_body]
#[verifier::reject_recursive_types(T)]
pub struct ExReceiver<T>(tokio::sync::broadcast::Receiver<T>);

/// Relies on tokio's broadcast Sender::new: creates the sending half
/// of a bounded broadcast channel with the given capacity. The given
/// capacity must be positive and at most half the address space, or
/// the call panics.
#[verifier::external_body]
fn new_sender(capacity: usize) -> tokio::sync::broadcast::Sender<(ResourceId, OutputEvent)>
    requires
        0 < capacity <= usize::MAX / 2,
{
    tokio::sync::broadcast::Sender::new(capacity)
}

/// Relies on tokio's broadcast Sender::send: hands the event to every
/// receiver subscribed now; reports failure only when there are none.
/// Nothing is promised of delivery: a subscriber that lags may miss it.
#[verifier::external_body]
fn publish(
    tx: &tokio::sync::broadcast::Sender<(ResourceId, OutputEvent)>,
    item: (ResourceId, OutputEvent),
) -> bool {
    tx.send(item).is_ok()
}

/// Relies on tokio's broadcast Sender::subscribe: a new receiver that
/// sees the values sent after this call, in publication order.
#[verifier::external_body]
fn subscribe(
    tx: &tokio::sync::broadcast::Sender<(ResourceId, OutputEvent)>,
) -> tokio::sync::broadcast::Receiver<(ResourceId, OutputEvent)> {
    tx.subscribe()
}

/// The metadata pairs of a tombstone: the name, the namespace where
/// there is one, and the deletion's revision rendered in decimal.
pub open spec fn tombstone_meta(id: ResourceIdView, rv: u64) -> Seq<(Seq<char>, Json)> {
    match id.namespace {
        Some(ns) => seq![
            ("name"@, Json::Str(id.name)),
            ("namespace"@, Json::Str(ns)),
            ("resourceVersion"@, Json::Str(dec_str(rv as nat))),
        ],
        None => seq![
            ("name"@, Json::Str(id.name)),
            ("resourceVersion"@, Json::Str(dec_str(rv as nat))),
        ],
    }
}

/// The minimal synthesized document that stands for a deletion:
/// enough for a client to identify the deleted resource without the
/// full body.
pub open spec fn tombstone_view(id: ResourceIdView, rv: u64) -> Json {
    Json::Obj(
        seq![
            ("apiVersion"@, Json::Str(id.api_version)),
            ("kind"@, Json::Str(id.kind)),
            ("metadata"@, Json::Obj(tombstone_meta(id, rv))),
        ],
    )
}

/// Builds the tombstone document for a deleted resource.
pub fn deleted_event(res: &ResourceId, rv: u64) -> (r: JsonValue)
    ensures
        r@ == tombstone_view(res@, rv),
{
    let mut meta: Vec<(String, JsonValue)> = Vec::new();
    meta.push(("name".to_owned(), JsonValue::Str(res.name.clone())));
    match &res.namespace {
        Some(ns) => {
            meta.push(("namespace".to_owned(), JsonValue::Str(ns.clone())));
        },
        None => {},
    }
    meta.push(("resourceVersion".to_owned(), JsonValue::Str(u64_to_string(rv))));
    let ghost meta_seq: Seq<(String, JsonValue)> = meta@;
    let mut obj: Vec<(String, JsonValue)> = Vec::new();
    obj.push(("apiVersion".to_owned(), JsonValue::Str(res.api_version.clone())));
    obj.push(("kind".to_owned(), JsonValue::Str(res.kind.clone())));
    obj.push(("metadata".to_owned(), JsonValue::Obj(meta)));
    let ghost obj_seq: Seq<(String, JsonValue)> = obj@;
    let r = JsonValue::Obj(obj);
    proof {
        lemma_json_view_pairs(meta_seq);
        lemma_json_view_pairs(obj_seq);
        assert(crate::json::json_view_pairs(meta_seq) =~= tombstone_meta(res@, rv));
        assert(crate::json::json_view_pairs(obj_seq).len() == 3);
        assert(crate::json::json_view_pairs(obj_seq)[0] == ("apiVersion"@, Json::Str(
            res@.api_version,
        )));
        assert(crate::json::json_view_pairs(obj_seq)[1] == ("kind"@, Json::Str(res@.kind)));
        assert(crate::json::json_view_pairs(obj_seq)[2] == ("metadata"@, Json::Obj(
            tombstone_meta(res@, rv),
        )));
        assert(crate::json::json_view_pairs(obj_seq) =~= tombstone_view(res@, rv)->Obj_0);
        assert(r@ == tombstone_view(res@, rv));
    }
    r
}

/// First live entry holding the given identity.
pub open spec fn find_live(live: Seq<LiveEntryView>, id: ResourceIdView) -> Option<int>
    decreases live.len(),
{
    if live.len() == 0 {
        None
    } else if live[0].id == id {
        Some(0)
    } else {
        match find_live(live.drop_first(), id) {
            Some(j) => Some(j + 1),
            None => None,
        }
    }
}

/// First index entry holding the given identity.
pub open spec fn find_index(index: Seq<IndexEntryView>, id: ResourceIdView) -> Option<int>
    decreases index.len(),
{
    if index.len() == 0 {
        None
    } else if index[0].id == id {
        Some(0)
    } else {
        match find_index(index.drop_first(), id) {
            Some(k) => Some(k + 1),
            None => None,
        }
    }
}

/// Where a fresh entry with the given revision goes: after every
/// entry whose revision does not exceed it.
pub open spec fn insert_pos(index: Seq<IndexEntryView>, rv: u64) -> int
    decreases index.len(),
{
    if index.len() == 0 {
        0
    } else if index[0].rv > rv {
        0
    } else {
        1 + insert_pos(index.drop_first(), rv)
    }
}

/// Whether some live entry carries this identity at this revision.
pub open spec fn live_has(live: Seq<LiveEntryView>, id: ResourceIdView, rv: u64) -> bool {
    exists|j: int| 0 <= j < live.len() && (#[trigger] live[j]).id == id && live[j].rv == rv
}

/// Whether some index entry carries this identity at this revision.
pub open spec fn index_has(index: Seq<IndexEntryView>, id: ResourceIdView, rv: u64) -> bool {
    exists|k: int| 0 <= k < index.len() && (#[trigger] index[k]).id == id && index[k].rv == rv
}

/// No identity twice among the live entries.
pub open spec fn live_distinct(live: Seq<LiveEntryView>) -> bool {
    forall|i: int, j: int|
        0 <= i < j < live.len() ==> (#[trigger] live[i]).id != (#[trigger] live[j]).id
}

/// No identity twice among the index entries.
pub open spec fn index_distinct(index: Seq<IndexEntryView>) -> bool {
    forall|i: int, j: int|
        0 <= i < j < index.len() ==> (#[trigger] index[i]).id != (#[trigger] index[j]).id
}

/// Index entries stand in non-decreasing revision order.
pub open spec fn index_sorted(index: Seq<IndexEntryView>) -> bool {
    forall|i: int, j: int|
        0 <= i < j < index.len() ==> (#[trigger] index[i]).rv <= (#[trigger] index[j]).rv
}

/// No revision twice among the index entries.
pub open spec fn rv_unique(index: Seq<IndexEntryView>) -> bool {
    forall|i: int, j: int|
        0 <= i < j < index.len() ==> (#[trigger] index[i]).rv != (#[trigger] index[j]).rv
}

/// The cache invariant: live and index have equal size, each side is
/// free of duplicate identities, the index is ordered by revision,
/// and the two sides carry exactly the same (identity, revision)
/// pairs.
pub open spec fn cache_wf(c: CacheView) -> bool {
    &&& c.live.len() == c.index.len()
    &&& live_distinct(c.live)
    &&& index_distinct(c.index)
    &&& index_sorted(c.index)
    &&& forall|k: int|
        0 <= k < c.index.len() ==> live_has(c.live, (#[trigger] c.index[k]).id, c.index[k].rv)
    &&& forall|j: int|
        0 <= j < c.live.len() ==> index_has(c.index, (#[trigger] c.live[j]).id, c.live[j].rv)
}

/// How a namespace is shown in the listing: bare names in quotes,
/// cluster-scoped entries as None.
pub open spec fn ns_shown(ns: Option<Seq<char>>) -> Seq<char> {
    match ns {
        Some(s) => "Some(\""@ + s + "\")"@,
        None => "None"@,
    }
}

/// One listing row: the identity's fields and the revision, each in
/// its own cell.
pub open spec fn row_view(e: LiveEntryView) -> Seq<char> {
    "<td>"@ + e.id.api_version + "</td><td>"@ + e.id.kind + "</td><td>"@ + ns_shown(
        e.id.namespace,
    ) + "</td><td>"@ + e.id.name + "</td><td>"@ + dec_str(e.rv as nat) + "</td>"@
}

/// The listing rows, joined with row separators.
pub open spec fn joined_rows(live: Seq<LiveEntryView>) -> Seq<char>
    decreases live.len(),
{
    if live.len() == 0 {
        Seq::empty()
    } else if live.len() == 1 {
        row_view(live[0])
    } else {
        row_view(live[0]) + "</tr><tr>"@ + joined_rows(live.drop_first())
    }
}

/// The whole listing: a table head naming the columns, one row per
/// live entry, and the closing tags.
pub open spec fn list_view(live: Seq<LiveEntryView>) -> Seq<char> {
    "<table><tr><th>apiVersion</th><th>kind</th><th>(namespace)</th><th>name</th><th>resourceVersion</th></tr><tr>"@
        + joined_rows(live) + "</tr></table>"@
}

/// The replay prefix for a subscription: for every index entry at or
/// past the cursor, in index order, one MODIFIED event carrying the
/// identity's current document.
pub open spec fn replay_entries(
    live: Seq<LiveEntryView>,
    index: Seq<IndexEntryView>,
    cur: u64,
) -> Seq<(ResourceIdView, OutputEventView)>
    decreases index.len(),
{
    if index.len() == 0 {
        Seq::empty()
    } else {
        let rest = replay_entries(live, index.drop_first(), cur);
        if index[0].rv >= cur {
            match find_live(live, index[0].id) {
                Some(j) => seq![
                    (
                        index[0].id,
                        OutputEventView { ty: OutputEventType::Modified, object: live[j].value },
                    ),
                ] + rest,
                None => rest,
            }
        } else {
            rest
        }
    }
}

/// What a fresh subscription replays: the snapshot from the cursor
/// (inclusive) to the end; no cursor means everything.
pub open spec fn spec_replay(c: CacheView, cursor: Option<u64>) -> Seq<
    (ResourceIdView, OutputEventView),
> {
    replay_entries(
        c.live,
        c.index,
        match cursor {
            Some(v) => v,
            None => 0,
        },
    )
}

proof fn lemma_replay_snoc(
    live: Seq<LiveEntryView>,
    s: Seq<IndexEntryView>,
    e: IndexEntryView,
    cur: u64,
)
    ensures
        replay_entries(live, s.push(e), cur) == replay_entries(live, s, cur) + (if e.rv >= cur {
            match find_live(live, e.id) {
                Some(j) => seq![
                    (e.id, OutputEventView { ty: OutputEventType::Modified, object: live[j].value }),
                ],
                None => Seq::empty(),
            }
        } else {
            Seq::empty()
        }),
    decreases s.len(),
{
    let pushed = s.push(e);
    if s.len() == 0 {
        reveal_with_fuel(replay_entries, 3);
        assert(pushed.drop_first() =~= Seq::<IndexEntryView>::empty());
        assert(s =~= Seq::<IndexEntryView>::empty());
        assert(replay_entries(live, pushed, cur) =~= replay_entries(live, s, cur) + (
        if e.rv >= cur {
            match find_live(live, e.id) {
                Some(j) => seq![
                    (e.id, OutputEventView { ty: OutputEventType::Modified, object: live[j].value }),
                ],
                None => Seq::empty(),
            }
        } else {
            Seq::empty()
        }));
    } else {
        assert(pushed.drop_first() =~= s.drop_first().push(e));
        lemma_replay_snoc(live, s.drop_first(), e, cur);
        assert(replay_entries(live, pushed, cur) =~= replay_entries(live, s, cur) + (
        if e.rv >= cur {
            match find_live(live, e.id) {
                Some(j) => seq![
                    (e.id, OutputEventView { ty: OutputEventType::Modified, object: live[j].value }),
                ],
                None => Seq::empty(),
            }
        } else {
            Seq::empty()
        }));
    }
}

/// The index entries whose revision is at or past the cursor, in
/// index order.
pub open spec fn index_at_least(index: Seq<IndexEntryView>, cur: u64) -> Seq<IndexEntryView>
    decreases index.len(),
{
    if index.len() == 0 {
        Seq::empty()
    } else {
        let rest = index_at_least(index.drop_first(), cur);
        if index[0].rv >= cur {
            seq![index[0]] + rest
        } else {
            rest
        }
    }
}

proof fn lemma_index_at_least_zero(index: Seq<IndexEntryView>)
    ensures
        index_at_least(index, 0) =~= index,
    decreases index.len(),
{
    if index.len() > 0 {
        lemma_index_at_least_zero(index.drop_first());
    }
}

proof fn lemma_index_at_least_props(index: Seq<IndexEntryView>, cur: u64)
    requires
        index_sorted(index),
        index_distinct(index),
    ensures
        ({
            let f = index_at_least(index, cur);
            &&& index_sorted(f)
            &&& index_distinct(f)
            &&& forall|i: int| 0 <= i < f.len() ==> (#[trigger] f[i]).rv >= cur
            &&& forall|i: int|
                0 <= i < f.len() ==> exists|k: int|
                    0 <= k < index.len() && (#[trigger] f[i]) == index[k]
        }),
    decreases index.len(),
{
    let f = index_at_least(index, cur);
    if index.len() > 0 {
        let rest = index.drop_first();
        lemma_index_at_least_props(rest, cur);
        let fr = index_at_least(rest, cur);
        assert forall|i: int| 0 <= i < fr.len() implies exists|k: int|
            0 <= k < index.len() && (#[trigger] fr[i]) == index[k] by {
            let k0 = choose|k0: int| 0 <= k0 < rest.len() && (#[trigger] fr[i]) == rest[k0];
            assert(fr[i] == index[k0 + 1]);
        }
        if index[0].rv >= cur {
            assert(f == seq![index[0]] + fr);
            assert forall|i1: int, i2: int| 0 <= i1 < i2 < f.len() implies (
            #[trigger] f[i1]).rv <= (#[trigger] f[i2]).rv && f[i1].id != f[i2].id by {
                if i1 == 0 {
                    let k0 = choose|k0: int|
                        0 <= k0 < rest.len() && (#[trigger] fr[i2 - 1]) == rest[k0];
                    assert(f[i2] == rest[k0]);
                    assert(rest[k0] == index[k0 + 1]);
                } else {
                    assert(f[i1] == fr[i1 - 1] && f[i2] == fr[i2 - 1]);
                }
            }
        }
    }
}

proof fn lemma_replay_entries_shape(
    live: Seq<LiveEntryView>,
    index: Seq<IndexEntryView>,
    cur: u64,
)
    requires
        forall|k: int|
            0 <= k < index.len() ==> live_has(live, (#[trigger] index[k]).id, index[k].rv),
    ensures
        ({
            let f = index_at_least(index, cur);
            let r = replay_entries(live, index, cur);
            &&& r.len() == f.len()
            &&& forall|i: int|
                0 <= i < r.len() ==> (#[trigger] r[i]) == (
                    f[i].id,
                    OutputEventView {
                        ty: OutputEventType::Modified,
                        object: live[find_live(live, f[i].id)->0].value,
                    },
                )
        }),
    decreases index.len(),
{
    let f = index_at_least(index, cur);
    let r = replay_entries(live, index, cur);
    if index.len() > 0 {
        let rest = index.drop_first();
        assert forall|k: int| 0 <= k < rest.len() implies live_has(
            live,
            (#[trigger] rest[k]).id,
            rest[k].rv,
        ) by {
            assert(rest[k] == index[k + 1]);
        }
        lemma_replay_entries_shape(live, rest, cur);
        if index[0].rv >= cur {
            assert(live_has(live, index[0].id, index[0].rv));
            lemma_find_live_bounds(live, index[0].id);
            if find_live(live, index[0].id) is None {
                let j2 = choose|j2: int|
                    0 <= j2 < live.len() && (#[trigger] live[j2]).id == index[0].id
                        && live[j2].rv == index[0].rv;
                assert(live_has_id(live, index[0].id));
            }
        }
    }
}

/// A fresh subscription's replay emits each currently-live identity
/// at most once, in ascending revision order, with revisions at or
/// past the cursor; and every event is a MODIFIED event carrying that
/// identity's current document.
pub proof fn lemma_replay_ordered(c: CacheView, cursor: Option<u64>)
    requires
        cache_wf(c),
    ensures
        ({
            let cur: u64 = match cursor {
                Some(v) => v,
                None => 0,
            };
            let f = index_at_least(c.index, cur);
            let r = spec_replay(c, cursor);
            &&& r.len() == f.len()
            &&& forall|i1: int, i2: int|
                0 <= i1 < i2 < r.len() ==> (#[trigger] r[i1]).0 != (#[trigger] r[i2]).0
            &&& forall|i1: int, i2: int| 0 <= i1 < i2 < f.len() ==> f[i1].rv <= f[i2].rv
            &&& forall|i: int| 0 <= i < f.len() ==> (#[trigger] f[i]).rv >= cur
            &&& forall|i: int|
                0 <= i < r.len() ==> (#[trigger] r[i]).0 == f[i].id && r[i].1.ty
                    == OutputEventType::Modified
            &&& forall|i: int|
                0 <= i < r.len() ==> match find_live(c.live, (#[trigger] r[i]).0) {
                    Some(j) => r[i].1.object == c.live[j].value,
                    None => false,
                }
        }),
{
    let cur: u64 = match cursor {
        Some(v) => v,
        None => 0,
    };
    let f = index_at_least(c.index, cur);
    let r = spec_replay(c, cursor);
    lemma_index_at_least_props(c.index, cur);
    lemma_replay_entries_shape(c.live, c.index, cur);
    assert forall|i: int| 0 <= i < r.len() implies match find_live(c.live, (#[trigger] r[i]).0) {
        Some(j) => r[i].1.object == c.live[j].value,
        None => false,
    } by {
        lemma_find_live_bounds(c.live, f[i].id);
        if find_live(c.live, f[i].id) is None {
            let k0 = choose|k0: int| 0 <= k0 < c.index.len() && (#[trigger] f[i]) == c.index[k0];
            assert(live_has(c.live, c.index[k0].id, c.index[k0].rv));
            let j2 = choose|j2: int|
                0 <= j2 < c.live.len() && (#[trigger] c.live[j2]).id == f[i].id && c.live[j2].rv
                    == f[i].rv;
            assert(live_has_id(c.live, f[i].id));
        }
    }
}

/// A full replay (no cursor) emits exactly one event for every
/// currently-live identity, carrying its current document, and no
/// event for any other identity.
pub proof fn lemma_replay_complete(c: CacheView, id: ResourceIdView)
    requires
        cache_wf(c),
    ensures
        ({
            let r = spec_replay(c, None);
            &&& (live_has_id(c.live, id) <==> exists|i: int|
                0 <= i < r.len() && (#[trigger] r[i]).0 == id)
            &&& forall|i1: int, i2: int|
                0 <= i1 < i2 < r.len() ==> (#[trigger] r[i1]).0 != (#[trigger] r[i2]).0
            &&& forall|i: int|
                0 <= i < r.len() && (#[trigger] r[i]).0 == id ==> match find_live(c.live, id) {
                    Some(j) => r[i].1 == (OutputEventView {
                        ty: OutputEventType::Modified,
                        object: c.live[j].value,
                    }),
                    None => false,
                }
        }),
{
    let r = spec_replay(c, None);
    lemma_index_at_least_zero(c.index);
    lemma_replay_entries_shape(c.live, c.index, 0);
    lemma_replay_ordered(c, None);
    if live_has_id(c.live, id) {
        let j = choose|j: int| 0 <= j < c.live.len() && (#[trigger] c.live[j]).id == id;
        assert(index_has(c.index, c.live[j].id, c.live[j].rv));
        let k = choose|k: int|
            0 <= k < c.index.len() && (#[trigger] c.index[k]).id == id && c.index[k].rv
                == c.live[j].rv;
        assert(r[k].0 == id);
    }
    if exists|i: int| 0 <= i < r.len() && (#[trigger] r[i]).0 == id {
        let i = choose|i: int| 0 <= i < r.len() && (#[trigger] r[i]).0 == id;
        assert(c.index[i].id == id);
        assert(live_has(c.live, c.index[i].id, c.index[i].rv));
        let j2 = choose|j2: int|
            0 <= j2 < c.live.len() && (#[trigger] c.live[j2]).id == id && c.live[j2].rv
                == c.index[i].rv;
        assert(live_has_id(c.live, id));
    }
}

/// After an upsert of an identity and then a second upsert of the
/// same identity, a fresh full replay emits exactly one event for
/// that identity, and its document is the second upsert's.
pub proof fn lemma_second_update_wins(
    c: CacheView,
    id: ResourceIdView,
    rv: u64,
    v: Json,
    rv2: u64,
    v2: Json,
)
    requires
        cache_wf(c),
        rv2 > rv,
    ensures
        ({
            let c2 = spec_update(spec_update(c, id, rv, v), id, rv2, v2);
            let r = spec_replay(c2, None);
            &&& exists|i: int|
                0 <= i < r.len() && (#[trigger] r[i]).0 == id && r[i].1 == (OutputEventView {
                    ty: OutputEventType::Modified,
                    object: v2,
                })
            &&& forall|i1: int, i2: int|
                0 <= i1 < i2 < r.len() ==> !((#[trigger] r[i1]).0 == id && (#[trigger] r[i2]).0
                    == id)
        }),
{
    let c1 = spec_update(c, id, rv, v);
    let c2 = spec_update(c1, id, rv2, v2);
    let r = spec_replay(c2, None);
    lemma_spec_update_wf(c, id, rv, v);
    lemma_spec_update_wf(c1, id, rv2, v2);
    let j = find_live(c2.live, id)->0;
    assert(live_has_id(c2.live, id)) by {
        assert(c2.live[j].id == id);
    }
    lemma_replay_complete(c2, id);
    let i = choose|i: int| 0 <= i < r.len() && (#[trigger] r[i]).0 == id;
    assert(r[i].1 == (OutputEventView { ty: OutputEventType::Modified, object: v2 }));
}

/// After an upsert of an identity and then its removal, a fresh full
/// replay emits no event for that identity.
pub proof fn lemma_removed_absent(c: CacheView, id: ResourceIdView, rv: u64, v: Json)
    requires
        cache_wf(c),
    ensures
        ({
            let c2 = spec_remove(spec_update(c, id, rv, v), id);
            forall|i: int|
                0 <= i < spec_replay(c2, None).len() ==> (#[trigger] spec_replay(c2, None)[i]).0
                    != id
        }),
{
    let c1 = spec_update(c, id, rv, v);
    let c2 = spec_remove(c1, id);
    lemma_spec_update_wf(c, id, rv, v);
    lemma_spec_remove_wf(c1, id);
    lemma_replay_complete(c2, id);
}

/// One cache operation, as the watch loops issue them.
pub enum CacheOp {
    Update { id: ResourceIdView, rv: u64, value: Json },
    Remove { id: ResourceIdView },
}

/// The state after a sequence of operations, applied in order.
pub open spec fn apply_ops(c: CacheView, ops: Seq<CacheOp>) -> CacheView
    decreases ops.len(),
{
    if ops.len() == 0 {
        c
    } else {
        let c1 = match ops[0] {
            CacheOp::Update { id, rv, value } => spec_update(c, id, rv, value),
            CacheOp::Remove { id } => spec_remove(c, id),
        };
        apply_ops(c1, ops.drop_first())
    }
}

/// For any sequence of cache operations from a well-formed state,
/// the invariant still holds after the sequence.
pub proof fn lemma_ops_preserve_invariant(c: CacheView, ops: Seq<CacheOp>)
    requires
        cache_wf(c),
    ensures
        cache_wf(apply_ops(c, ops)),
    decreases ops.len(),
{
    if ops.len() > 0 {
        let c1 = match ops[0] {
            CacheOp::Update { id, rv, value } => {
                lemma_spec_update_wf(c, id, rv, value);
                spec_update(c, id, rv, value)
            },
            CacheOp::Remove { id } => {
                lemma_spec_remove_wf(c, id);
                spec_remove(c, id)
            },
        };
        lemma_ops_preserve_invariant(c1, ops.drop_first());
    }
}

/// Under the invariant: `index` and `live` have equal size, and every
/// live identity appears exactly once as an index value.
pub proof fn lemma_cache_invariant(c: CacheView)
    requires
        cache_wf(c),
    ensures
        c.live.len() == c.index.len(),
        forall|j: int| 0 <= j < c.live.len() ==> index_has_id(c.index, (#[trigger] c.live[j]).id),
        forall|k1: int, k2: int|
            0 <= k1 < k2 < c.index.len() ==> (#[trigger] c.index[k1]).id != (
            #[trigger] c.index[k2]).id,
{
    assert forall|j: int| 0 <= j < c.live.len() implies index_has_id(
        c.index,
        (#[trigger] c.live[j]).id,
    ) by {
        assert(index_has(c.index, c.live[j].id, c.live[j].rv));
        let k = choose|k: int|
            0 <= k < c.index.len() && (#[trigger] c.index[k]).id == c.live[j].id && c.index[k].rv
                == c.live[j].rv;
        assert(0 <= k < c.index.len() && c.index[k].id == c.live[j].id);
    }
}

/// An upsert whose revision collides with no other identity's index
/// revision keeps the index's revisions unique; so does any upsert of
/// an identity already indexed at that revision.
pub proof fn lemma_update_preserves_rv_unique(
    c: CacheView,
    id: ResourceIdView,
    rv: u64,
    value: Json,
)
    requires
        cache_wf(c),
        rv_unique(c.index),
        forall|k: int|
            0 <= k < c.index.len() && (#[trigger] c.index[k]).id != id ==> c.index[k].rv != rv,
    ensures
        rv_unique(spec_update(c, id, rv, value).index),
{
    let c2 = spec_update(c, id, rv, value);
    lemma_find_index_bounds(c.index, id);
    let index_removed = match find_index(c.index, id) {
        Some(k) => c.index.remove(k),
        None => c.index,
    };
    let p = insert_pos(index_removed, rv);
    lemma_insert_pos_props(index_removed, rv);
    match find_index(c.index, id) {
        Some(k) => {
            c.index.remove_ensures(k);
            assert forall|a1: int, a2: int| 0 <= a1 < a2 < index_removed.len() implies (
            #[trigger] index_removed[a1]).rv != (#[trigger] index_removed[a2]).rv by {
                let o1: int = if a1 < k { a1 } else { a1 + 1 };
                let o2: int = if a2 < k { a2 } else { a2 + 1 };
                assert(index_removed[a1] == c.index[o1] && index_removed[a2] == c.index[o2]);
            }
            assert forall|a: int| 0 <= a < index_removed.len() implies (
            #[trigger] index_removed[a]).rv != rv by {
                let o: int = if a < k { a } else { a + 1 };
                assert(index_removed[a] == c.index[o]);
                assert(o != k ==> c.index[o].id != c.index[k].id);
            }
        },
        None => {
            assert forall|a: int| 0 <= a < index_removed.len() implies (
            #[trigger] index_removed[a]).rv != rv by {
                if index_removed[a].id == id {
                    assert(index_has_id(c.index, id));
                }
            }
        },
    }
    index_removed.insert_ensures(p, IndexEntryView { rv: rv, id: id });
    let inserted = index_removed.insert(p, IndexEntryView { rv: rv, id: id });
    assert forall|a1: int, a2: int| 0 <= a1 < a2 < inserted.len() implies (
    #[trigger] inserted[a1]).rv != (#[trigger] inserted[a2]).rv by {
        if a1 != p && a2 != p {
            let o1: int = if a1 < p { a1 } else { a1 - 1 };
            let o2: int = if a2 < p { a2 } else { a2 - 1 };
            assert(inserted[a1] == index_removed[o1] && inserted[a2] == index_removed[o2]);
        } else if a1 == p {
            assert(inserted[a2] == index_removed[a2 - 1]);
        } else {
            assert(inserted[a1] == index_removed[a1]);
        }
    }
    assert(c2.index == inserted);
}

/// A removal keeps the index's revisions unique.
pub proof fn lemma_remove_preserves_rv_unique(c: CacheView, id: ResourceIdView)
    requires
        rv_unique(c.index),
    ensures
        rv_unique(spec_remove(c, id).index),
{
    let c2 = spec_remove(c, id);
    match find_live(c.live, id) {
        Some(j) => {
            match find_index(c.index, id) {
                Some(k) => {
                    lemma_find_index_bounds(c.index, id);
                    c.index.remove_ensures(k);
                    let removed = c.index.remove(k);
                    assert forall|a1: int, a2: int| 0 <= a1 < a2 < removed.len() implies (
                    #[trigger] removed[a1]).rv != (#[trigger] removed[a2]).rv by {
                        let o1: int = if a1 < k { a1 } else { a1 + 1 };
                        let o2: int = if a2 < k { a2 } else { a2 + 1 };
                        assert(removed[a1] == c.index[o1] && removed[a2] == c.index[o2]);
                    }
                },
                None => {},
            }
        },
        None => {},
    }
}

/// The state after an upsert: the entry for the identity is replaced
/// or added in `live`, its old index entry is dropped, and a fresh
/// index entry is placed at its revision's position.
pub open spec fn spec_update(c: CacheView, id: ResourceIdView, rv: u64, value: Json) -> CacheView {
    let entry = LiveEntryView { id: id, rv: rv, value: value };
    let live1 = match find_live(c.live, id) {
        Some(j) => c.live.update(j, entry),
        None => c.live.push(entry),
    };
    let index_removed = match find_index(c.index, id) {
        Some(k) => c.index.remove(k),
        None => c.index,
    };
    let index1 = index_removed.insert(
        insert_pos(index_removed, rv),
        IndexEntryView { rv: rv, id: id },
    );
    CacheView { live: live1, index: index1 }
}

/// The state after a removal: the identity's entries leave both
/// `live` and the index; removing an absent identity changes nothing.
pub open spec fn spec_remove(c: CacheView, id: ResourceIdView) -> CacheView {
    match find_live(c.live, id) {
        Some(j) => CacheView {
            live: c.live.remove(j),
            index: match find_index(c.index, id) {
                Some(k) => c.index.remove(k),
                None => c.index,
            },
        },
        None => c,
    }
}

proof fn lemma_find_live_at(live: Seq<LiveEntryView>, id: ResourceIdView, j: int)
    requires
        0 <= j < live.len(),
        live[j].id == id,
        forall|j2: int| 0 <= j2 < j ==> (#[trigger] live[j2]).id != id,
    ensures
        find_live(live, id) == Some(j),
    decreases j,
{
    if j > 0 {
        lemma_find_live_at(live.drop_first(), id, j - 1);
    }
}

proof fn lemma_find_live_none(live: Seq<LiveEntryView>, id: ResourceIdView)
    requires
        forall|j: int| 0 <= j < live.len() ==> (#[trigger] live[j]).id != id,
    ensures
        find_live(live, id) is None,
    decreases live.len(),
{
    if live.len() > 0 {
        lemma_find_live_none(live.drop_first(), id);
    }
}

proof fn lemma_find_live_bounds(live: Seq<LiveEntryView>, id: ResourceIdView)
    ensures
        match find_live(live, id) {
            Some(j) => 0 <= j < live.len() && live[j].id == id,
            None => !live_has_id(live, id),
        },
    decreases live.len(),
{
    if live.len() > 0 && live[0].id != id {
        lemma_find_live_bounds(live.drop_first(), id);
        if find_live(live, id) is None {
            assert forall|j: int| 0 <= j < live.len() implies (#[trigger] live[j]).id != id by {
                if j > 0 {
                    assert(live.drop_first()[j - 1] == live[j]);
                }
            }
        }
    }
}

/// Whether some live entry carries this identity, at any revision.
pub open spec fn live_has_id(live: Seq<LiveEntryView>, id: ResourceIdView) -> bool {
    exists|j: int| 0 <= j < live.len() && (#[trigger] live[j]).id == id
}

proof fn lemma_find_index_at(index: Seq<IndexEntryView>, id: ResourceIdView, k: int)
    requires
        0 <= k < index.len(),
        index[k].id == id,
        forall|k2: int| 0 <= k2 < k ==> (#[trigger] index[k2]).id != id,
    ensures
        find_index(index, id) == Some(k),
    decreases k,
{
    if k > 0 {
        lemma_find_index_at(index.drop_first(), id, k - 1);
    }
}

proof fn lemma_find_index_none(index: Seq<IndexEntryView>, id: ResourceIdView)
    requires
        forall|k: int| 0 <= k < index.len() ==> (#[trigger] index[k]).id != id,
    ensures
        find_index(index, id) is None,
    decreases index.len(),
{
    if index.len() > 0 {
        lemma_find_index_none(index.drop_first(), id);
    }
}

proof fn lemma_insert_pos_at(index: Seq<IndexEntryView>, rv: u64, p: int)
    requires
        0 <= p <= index.len(),
        forall|k: int| 0 <= k < p ==> (#[trigger] index[k]).rv <= rv,
        p < index.len() ==> index[p].rv > rv,
    ensures
        insert_pos(index, rv) == p,
    decreases p,
{
    if p > 0 {
        lemma_insert_pos_at(index.drop_first(), rv, p - 1);
    }
}

proof fn lemma_insert_pos_props(index: Seq<IndexEntryView>, rv: u64)
    ensures
        0 <= insert_pos(index, rv) <= index.len(),
        forall|a: int| 0 <= a < insert_pos(index, rv) ==> (#[trigger] index[a]).rv <= rv,
        insert_pos(index, rv) < index.len() ==> index[insert_pos(index, rv)].rv > rv,
    decreases index.len(),
{
    if index.len() > 0 && !(index[0].rv > rv) {
        lemma_insert_pos_props(index.drop_first(), rv);
        assert forall|a: int| 0 <= a < insert_pos(index, rv) implies (#[trigger] index[a]).rv
            <= rv by {
            if a > 0 {
                assert(index.drop_first()[a - 1] == index[a]);
            }
        }
    }
}

proof fn lemma_live_update_has(live: Seq<LiveEntryView>, j: int, e: LiveEntryView)
    requires
        0 <= j < live.len(),
        live_distinct(live),
        live[j].id == e.id,
    ensures
        live_distinct(live.update(j, e)),
        forall|id: ResourceIdView, rv: u64|
            #[trigger] live_has(live.update(j, e), id, rv) <==> if id == e.id {
                rv == e.rv
            } else {
                live_has(live, id, rv)
            },
{
    let updated = live.update(j, e);
    assert forall|id: ResourceIdView, rv: u64|
        #[trigger] live_has(updated, id, rv) <==> if id == e.id {
            rv == e.rv
        } else {
            live_has(live, id, rv)
        } by {
        if live_has(updated, id, rv) {
            let j2 = choose|j2: int|
                0 <= j2 < updated.len() && (#[trigger] updated[j2]).id == id && updated[j2].rv
                    == rv;
            if j2 != j {
                assert(live[j2].id == id && live[j2].rv == rv);
                assert(id != e.id);
            }
        }
        if id == e.id && rv == e.rv {
            assert(updated[j].id == id && updated[j].rv == rv);
        }
        if id != e.id && live_has(live, id, rv) {
            let j2 = choose|j2: int|
                0 <= j2 < live.len() && (#[trigger] live[j2]).id == id && live[j2].rv == rv;
            assert(updated[j2].id == id && updated[j2].rv == rv);
        }
    }
}

proof fn lemma_live_push_has(live: Seq<LiveEntryView>, e: LiveEntryView)
    requires
        live_distinct(live),
        !live_has_id(live, e.id),
    ensures
        live_distinct(live.push(e)),
        forall|id: ResourceIdView, rv: u64|
            #[trigger] live_has(live.push(e), id, rv) <==> ((id == e.id && rv == e.rv)
                || live_has(live, id, rv)),
{
    let pushed = live.push(e);
    assert forall|i: int| 0 <= i < live.len() implies (#[trigger] live[i]).id != e.id by {}
    assert forall|id: ResourceIdView, rv: u64|
        #[trigger] live_has(pushed, id, rv) <==> ((id == e.id && rv == e.rv) || live_has(
            live,
            id,
            rv,
        )) by {
        if live_has(pushed, id, rv) {
            let j2 = choose|j2: int|
                0 <= j2 < pushed.len() && (#[trigger] pushed[j2]).id == id && pushed[j2].rv
                    == rv;
            if j2 < live.len() {
                assert(live[j2].id == id && live[j2].rv == rv);
            }
        }
        if id == e.id && rv == e.rv {
            assert(pushed[live.len() as int].id == id && pushed[live.len() as int].rv == rv);
        }
        if live_has(live, id, rv) {
            let j2 = choose|j2: int|
                0 <= j2 < live.len() && (#[trigger] live[j2]).id == id && live[j2].rv == rv;
            assert(pushed[j2].id == id && pushed[j2].rv == rv);
        }
    }
}

proof fn lemma_live_remove_has(live: Seq<LiveEntryView>, j: int)
    requires
        0 <= j < live.len(),
        live_distinct(live),
    ensures
        live_distinct(live.remove(j)),
        forall|id: ResourceIdView, rv: u64|
            #[trigger] live_has(live.remove(j), id, rv) <==> (live_has(live, id, rv) && id
                != live[j].id),
{
    let removed = live.remove(j);
    live.remove_ensures(j);
    assert forall|i1: int, i2: int| 0 <= i1 < i2 < removed.len() implies (
    #[trigger] removed[i1]).id != (#[trigger] removed[i2]).id by {
        let o1: int = if i1 < j { i1 } else { i1 + 1 };
        let o2: int = if i2 < j { i2 } else { i2 + 1 };
        assert(removed[i1] == live[o1] && removed[i2] == live[o2]);
    }
    assert forall|id: ResourceIdView, rv: u64|
        #[trigger] live_has(removed, id, rv) <==> (live_has(live, id, rv) && id
            != live[j].id) by {
        if live_has(removed, id, rv) {
            let j2 = choose|j2: int|
                0 <= j2 < removed.len() && (#[trigger] removed[j2]).id == id && removed[j2].rv
                    == rv;
            let o: int = if j2 < j { j2 } else { j2 + 1 };
            assert(live[o].id == id && live[o].rv == rv);
            assert(o != j);
        }
        if live_has(live, id, rv) && id != live[j].id {
            let j2 = choose|j2: int|
                0 <= j2 < live.len() && (#[trigger] live[j2]).id == id && live[j2].rv == rv;
            assert(j2 != j);
            let n: int = if j2 < j { j2 } else { j2 - 1 };
            assert(removed[n] == live[j2]);
        }
    }
}

/// Whether some index entry carries this identity, at any revision.
pub open spec fn index_has_id(index: Seq<IndexEntryView>, id: ResourceIdView) -> bool {
    exists|k: int| 0 <= k < index.len() && (#[trigger] index[k]).id == id
}

proof fn lemma_find_index_bounds(index: Seq<IndexEntryView>, id: ResourceIdView)
    ensures
        match find_index(index, id) {
            Some(k) => 0 <= k < index.len() && index[k].id == id,
            None => !index_has_id(index, id),
        },
    decreases index.len(),
{
    if index.len() > 0 && index[0].id != id {
        lemma_find_index_bounds(index.drop_first(), id);
        if find_index(index, id) is None {
            assert forall|k: int| 0 <= k < index.len() implies (#[trigger] index[k]).id
                != id by {
                if k > 0 {
                    assert(index.drop_first()[k - 1] == index[k]);
                }
            }
        }
    }
}

proof fn lemma_index_remove_has(index: Seq<IndexEntryView>, k: int)
    requires
        0 <= k < index.len(),
        index_distinct(index),
        index_sorted(index),
    ensures
        index.remove(k).len() == index.len() - 1,
        index_distinct(index.remove(k)),
        index_sorted(index.remove(k)),
        forall|k2: int| 0 <= k2 < index.remove(k).len()
            ==> (#[trigger] index.remove(k)[k2]).id != index[k].id,
        forall|id: ResourceIdView, rv: u64|
            #[trigger] index_has(index.remove(k), id, rv) <==> (index_has(index, id, rv) && id
                != index[k].id),
{
    let removed = index.remove(k);
    index.remove_ensures(k);
    assert forall|i1: int, i2: int| 0 <= i1 < i2 < removed.len() implies (
    #[trigger] removed[i1]).id != (#[trigger] removed[i2]).id && removed[i1].rv
        <= removed[i2].rv by {
        let o1: int = if i1 < k { i1 } else { i1 + 1 };
        let o2: int = if i2 < k { i2 } else { i2 + 1 };
        assert(removed[i1] == index[o1] && removed[i2] == index[o2]);
    }
    assert forall|k2: int| 0 <= k2 < removed.len() implies (#[trigger] removed[k2]).id
        != index[k].id by {
        let o: int = if k2 < k { k2 } else { k2 + 1 };
        assert(removed[k2] == index[o]);
    }
    assert forall|id: ResourceIdView, rv: u64|
        #[trigger] index_has(removed, id, rv) <==> (index_has(index, id, rv) && id
            != index[k].id) by {
        if index_has(removed, id, rv) {
            let k2 = choose|k2: int|
                0 <= k2 < removed.len() && (#[trigger] removed[k2]).id == id && removed[k2].rv
                    == rv;
            let o: int = if k2 < k { k2 } else { k2 + 1 };
            assert(index[o].id == id && index[o].rv == rv);
            assert(o != k);
        }
        if index_has(index, id, rv) && id != index[k].id {
            let k2 = choose|k2: int|
                0 <= k2 < index.len() && (#[trigger] index[k2]).id == id && index[k2].rv == rv;
            assert(k2 != k);
            let n: int = if k2 < k { k2 } else { k2 - 1 };
            assert(removed[n] == index[k2]);
        }
    }
}

proof fn lemma_index_insert_has(index: Seq<IndexEntryView>, p: int, e: IndexEntryView)
    requires
        0 <= p <= index.len(),
        index_distinct(index),
        index_sorted(index),
        forall|k: int| 0 <= k < index.len() ==> (#[trigger] index[k]).id != e.id,
        forall|a: int| 0 <= a < p ==> (#[trigger] index[a]).rv <= e.rv,
        p < index.len() ==> index[p].rv >= e.rv,
    ensures
        index.insert(p, e).len() == index.len() + 1,
        index_distinct(index.insert(p, e)),
        index_sorted(index.insert(p, e)),
        forall|id: ResourceIdView, rv: u64|
            #[trigger] index_has(index.insert(p, e), id, rv) <==> ((id == e.id && rv == e.rv)
                || index_has(index, id, rv)),
{
    let inserted = index.insert(p, e);
    index.insert_ensures(p, e);
    assert forall|i1: int, i2: int| 0 <= i1 < i2 < inserted.len() implies (
    #[trigger] inserted[i1]).id != (#[trigger] inserted[i2]).id && inserted[i1].rv
        <= inserted[i2].rv by {
        if i1 < p && i2 == p {
            assert(inserted[i1] == index[i1]);
        } else if i1 == p && i2 > p {
            assert(inserted[i2] == index[i2 - 1]);
            assert(index[p].rv <= index[i2 - 1].rv || p == i2 - 1);
        } else if i1 < p && i2 > p {
            assert(inserted[i1] == index[i1] && inserted[i2] == index[i2 - 1]);
        } else if i1 < p && i2 < p {
            assert(inserted[i1] == index[i1] && inserted[i2] == index[i2]);
        } else if i1 > p && i2 > p {
            assert(inserted[i1] == index[i1 - 1] && inserted[i2] == index[i2 - 1]);
        }
    }
    assert forall|id: ResourceIdView, rv: u64|
        #[trigger] index_has(inserted, id, rv) <==> ((id == e.id && rv == e.rv) || index_has(
            index,
            id,
            rv,
        )) by {
        if index_has(inserted, id, rv) {
            let k2 = choose|k2: int|
                0 <= k2 < inserted.len() && (#[trigger] inserted[k2]).id == id
                    && inserted[k2].rv == rv;
            if k2 != p {
                let o: int = if k2 < p { k2 } else { k2 - 1 };
                assert(index[o].id == id && index[o].rv == rv);
            }
        }
        if id == e.id && rv == e.rv {
            assert(inserted[p].id == id && inserted[p].rv == rv);
        }
        if index_has(index, id, rv) {
            let k2 = choose|k2: int|
                0 <= k2 < index.len() && (#[trigger] index[k2]).id == id && index[k2].rv == rv;
            let n: int = if k2 < p { k2 } else { k2 + 1 };
            assert(inserted[n].id == id && inserted[n].rv == rv);
        }
    }
}

/// An upsert preserves the cache invariant, and afterwards the
/// identity is live at the given revision with the given document.
pub proof fn lemma_spec_update_wf(c: CacheView, id: ResourceIdView, rv: u64, value: Json)
    requires
        cache_wf(c),
    ensures
        cache_wf(spec_update(c, id, rv, value)),
        ({
            let c2 = spec_update(c, id, rv, value);
            match find_live(c2.live, id) {
                Some(j) => 0 <= j < c2.live.len() && c2.live[j] == (LiveEntryView {
                    id: id,
                    rv: rv,
                    value: value,
                }),
                None => false,
            }
        }),
{
    let e = LiveEntryView { id: id, rv: rv, value: value };
    let n = IndexEntryView { rv: rv, id: id };
    let c2 = spec_update(c, id, rv, value);
    lemma_find_live_bounds(c.live, id);
    lemma_find_index_bounds(c.index, id);
    match find_live(c.live, id) {
        Some(j) => {
            assert(index_has(c.index, c.live[j].id, c.live[j].rv));
            if find_index(c.index, id) is None {
                let k2 = choose|k2: int|
                    0 <= k2 < c.index.len() && (#[trigger] c.index[k2]).id == id
                        && c.index[k2].rv == c.live[j].rv;
                assert(index_has_id(c.index, id));
            }
            let k = find_index(c.index, id)->0;
            let removed = c.index.remove(k);
            let p = insert_pos(removed, rv);
            lemma_index_remove_has(c.index, k);
            lemma_insert_pos_props(removed, rv);
            assert forall|a: int| p <= a < removed.len() implies (#[trigger] removed[a]).rv
                >= rv by {
                if a > p {
                    assert(removed[p].rv <= removed[a].rv);
                }
            }
            lemma_index_insert_has(removed, p, n);
            lemma_live_update_has(c.live, j, e);
            assert(c2.live == c.live.update(j, e));
            assert(c2.index == removed.insert(p, n));
            assert forall|k2: int| 0 <= k2 < c2.index.len() implies live_has(
                c2.live,
                (#[trigger] c2.index[k2]).id,
                c2.index[k2].rv,
            ) by {
                let id2 = c2.index[k2].id;
                let rv2 = c2.index[k2].rv;
                assert(index_has(c2.index, id2, rv2));
                if !(id2 == n.id && rv2 == n.rv) {
                    assert(index_has(removed, id2, rv2));
                    assert(index_has(c.index, id2, rv2) && id2 != id);
                    let k3 = choose|k3: int|
                        0 <= k3 < c.index.len() && (#[trigger] c.index[k3]).id == id2
                            && c.index[k3].rv == rv2;
                    assert(live_has(c.live, id2, rv2));
                }
            }
            assert forall|j2: int| 0 <= j2 < c2.live.len() implies index_has(
                c2.index,
                (#[trigger] c2.live[j2]).id,
                c2.live[j2].rv,
            ) by {
                let id2 = c2.live[j2].id;
                let rv2 = c2.live[j2].rv;
                assert(live_has(c2.live, id2, rv2));
                if !(id2 == e.id) {
                    assert(live_has(c.live, id2, rv2));
                    let j3 = choose|j3: int|
                        0 <= j3 < c.live.len() && (#[trigger] c.live[j3]).id == id2
                            && c.live[j3].rv == rv2;
                    assert(index_has(c.index, id2, rv2));
                }
            }
            assert forall|j2: int| 0 <= j2 < j implies (#[trigger] c2.live[j2]).id != id by {
                assert(c2.live[j2] == c.live[j2]);
            }
            lemma_find_live_at(c2.live, id, j);
        },
        None => {
            assert forall|k2: int| 0 <= k2 < c.index.len() implies (#[trigger] c.index[k2]).id
                != id by {
                if c.index[k2].id == id {
                    assert(live_has(c.live, c.index[k2].id, c.index[k2].rv));
                    let j3 = choose|j3: int|
                        0 <= j3 < c.live.len() && (#[trigger] c.live[j3]).id == id
                            && c.live[j3].rv == c.index[k2].rv;
                    assert(live_has_id(c.live, id));
                }
            }
            lemma_find_index_none(c.index, id);
            let p = insert_pos(c.index, rv);
            lemma_insert_pos_props(c.index, rv);
            assert forall|a: int| p <= a < c.index.len() implies (#[trigger] c.index[a]).rv
                >= rv by {
                if a > p {
                    assert(c.index[p].rv <= c.index[a].rv);
                }
            }
            lemma_index_insert_has(c.index, p, n);
            assert(!live_has_id(c.live, e.id));
            lemma_live_push_has(c.live, e);
            assert(c2.live == c.live.push(e));
            assert(c2.index == c.index.insert(p, n));
            assert forall|k2: int| 0 <= k2 < c2.index.len() implies live_has(
                c2.live,
                (#[trigger] c2.index[k2]).id,
                c2.index[k2].rv,
            ) by {
                let id2 = c2.index[k2].id;
                let rv2 = c2.index[k2].rv;
                assert(index_has(c2.index, id2, rv2));
                if !(id2 == n.id && rv2 == n.rv) {
                    assert(index_has(c.index, id2, rv2));
                    let k3 = choose|k3: int|
                        0 <= k3 < c.index.len() && (#[trigger] c.index[k3]).id == id2
                            && c.index[k3].rv == rv2;
                    assert(live_has(c.live, id2, rv2));
                }
            }
            assert forall|j2: int| 0 <= j2 < c2.live.len() implies index_has(
                c2.index,
                (#[trigger] c2.live[j2]).id,
                c2.live[j2].rv,
            ) by {
                let id2 = c2.live[j2].id;
                let rv2 = c2.live[j2].rv;
                assert(live_has(c2.live, id2, rv2));
                if !(id2 == e.id && rv2 == e.rv) {
                    assert(live_has(c.live, id2, rv2));
                    let j3 = choose|j3: int|
                        0 <= j3 < c.live.len() && (#[trigger] c.live[j3]).id == id2
                            && c.live[j3].rv == rv2;
                    assert(index_has(c.index, id2, rv2));
                }
            }
            assert forall|j2: int| 0 <= j2 < c.live.len() implies (#[trigger] c2.live[j2]).id
                != id by {
                assert(c2.live[j2] == c.live[j2]);
            }
            lemma_find_live_at(c2.live, id, c.live.len() as int);
        },
    }
}

/// A removal preserves the cache invariant, and afterwards the
/// identity is live nowhere.
pub proof fn lemma_spec_remove_wf(c: CacheView, id: ResourceIdView)
    requires
        cache_wf(c),
    ensures
        cache_wf(spec_remove(c, id)),
        !live_has_id(spec_remove(c, id).live, id),
{
    let c2 = spec_remove(c, id);
    lemma_find_live_bounds(c.live, id);
    lemma_find_index_bounds(c.index, id);
    match find_live(c.live, id) {
        Some(j) => {
            assert(index_has(c.index, c.live[j].id, c.live[j].rv));
            if find_index(c.index, id) is None {
                let k2 = choose|k2: int|
                    0 <= k2 < c.index.len() && (#[trigger] c.index[k2]).id == id
                        && c.index[k2].rv == c.live[j].rv;
                assert(index_has_id(c.index, id));
            }
            let k = find_index(c.index, id)->0;
            lemma_index_remove_has(c.index, k);
            lemma_live_remove_has(c.live, j);
            assert(c2.live == c.live.remove(j));
            assert(c2.index == c.index.remove(k));
            assert forall|k2: int| 0 <= k2 < c2.index.len() implies live_has(
                c2.live,
                (#[trigger] c2.index[k2]).id,
                c2.index[k2].rv,
            ) by {
                let id2 = c2.index[k2].id;
                let rv2 = c2.index[k2].rv;
                assert(index_has(c2.index, id2, rv2));
                assert(index_has(c.index, id2, rv2) && id2 != id);
                let k3 = choose|k3: int|
                    0 <= k3 < c.index.len() && (#[trigger] c.index[k3]).id == id2
                        && c.index[k3].rv == rv2;
                assert(live_has(c.live, id2, rv2));
            }
            assert forall|j2: int| 0 <= j2 < c2.live.len() implies index_has(
                c2.index,
                (#[trigger] c2.live[j2]).id,
                c2.live[j2].rv,
            ) by {
                let id2 = c2.live[j2].id;
                let rv2 = c2.live[j2].rv;
                assert(live_has(c2.live, id2, rv2));
                assert(live_has(c.live, id2, rv2) && id2 != id);
                let j3 = choose|j3: int|
                    0 <= j3 < c.live.len() && (#[trigger] c.live[j3]).id == id2
                        && c.live[j3].rv == rv2;
                assert(index_has(c.index, id2, rv2));
            }
            if live_has_id(c2.live, id) {
                let j2 = choose|j2: int| 0 <= j2 < c2.live.len() && (#[trigger] c2.live[j2]).id
                    == id;
                assert(live_has(c2.live, id, c2.live[j2].rv));
            }
        },
        None => {},
    }
}

proof fn lemma_index_map_remove(s: Seq<IndexEntry>, k: int)
    requires
        0 <= k < s.len(),
    ensures
        s.remove(k).map_values(|e: IndexEntry| e@) =~= s.map_values(|e: IndexEntry| e@).remove(
            k,
        ),
{
    s.remove_ensures(k);
    s.map_values(|e: IndexEntry| e@).remove_ensures(k);
}

proof fn lemma_index_map_insert(s: Seq<IndexEntry>, p: int, e: IndexEntry)
    requires
        0 <= p <= s.len(),
    ensures
        s.insert(p, e).map_values(|e2: IndexEntry| e2@) =~= s.map_values(
            |e2: IndexEntry| e2@,
        ).insert(p, e@),
{
    s.insert_ensures(p, e);
    s.map_values(|e2: IndexEntry| e2@).insert_ensures(p, e@);
}

proof fn lemma_live_map_remove(s: Seq<LiveEntry>, j: int)
    requires
        0 <= j < s.len(),
    ensures
        s.remove(j).map_values(|e: LiveEntry| e@) =~= s.map_values(|e: LiveEntry| e@).remove(j),
{
    s.remove_ensures(j);
    s.map_values(|e: LiveEntry| e@).remove_ensures(j);
}

/// The materialized store plus fan-out publisher: the live mapping,
/// the revision index over it, and the broadcast channel that carries
/// each change to the subscribers.
#[derive(Debug)]
pub struct Cache {
    resources: Vec<LiveEntry>,
    changes: Vec<IndexEntry>,
    tx: tokio::sync::broadcast::Sender<(ResourceId, OutputEvent)>,
}

impl View for Cache {
    type V = CacheView;

    closed spec fn view(&self) -> CacheView {
        (CacheView {
            live: self.resources@.map_values(|e: LiveEntry| e@),
            index: self.changes@.map_values(|e: IndexEntry| e@),
        })
    }
}

impl Cache {
    /// The cache invariant; `new` establishes it and every operation
    /// preserves it.
    pub open spec fn wf(&self) -> bool {
        cache_wf(self@)
    }

    /// An empty cache whose broadcast channel holds up to 1024
    /// undelivered events per subscriber.
    pub fn new() -> (r: Cache)
        ensures
            r.wf(),
            r@.live.len() == 0,
            r@.index.len() == 0,
    {
        let r = Cache { resources: Vec::new(), changes: Vec::new(), tx: new_sender(1024) };
        proof {
            assert(r@.live =~= Seq::<LiveEntryView>::empty());
            assert(r@.index =~= Seq::<IndexEntryView>::empty());
        }
        r
    }

    /// Position of the identity among the live entries, if present.
    fn position_of_live(&self, id: &ResourceId) -> (r: Option<usize>)
        ensures
            match r {
                Some(j) => j < self@.live.len() && find_live(self@.live, id@) == Some(j as int),
                None => find_live(self@.live, id@) is None,
            },
    {
        let ghost live: Seq<LiveEntryView> = self@.live;
        let mut j: usize = 0;
        while j < self.resources.len()
            invariant
                0 <= j <= self.resources.len(),
                live == self@.live,
                live.len() == self.resources@.len(),
                forall|j2: int| 0 <= j2 < j ==> (#[trigger] live[j2]).id != id@,
            decreases self.resources.len() - j,
        {
            if self.resources[j].id.same_id(id) {
                proof {
                    lemma_find_live_at(live, id@, j as int);
                }
                return Some(j);
            }
            proof {
                assert(live[j as int].id != id@);
            }
            j = j + 1;
        }
        proof {
            lemma_find_live_none(live, id@);
        }
        None
    }

    /// Position of the identity among the index entries, if present.
    fn position_in_index(&self, id: &ResourceId) -> (r: Option<usize>)
        ensures
            match r {
                Some(k) => k < self@.index.len() && find_index(self@.index, id@) == Some(
                    k as int,
                ),
                None => find_index(self@.index, id@) is None,
            },
    {
        let ghost index: Seq<IndexEntryView> = self@.index;
        let mut k: usize = 0;
        while k < self.changes.len()
            invariant
                0 <= k <= self.changes.len(),
                index == self@.index,
                index.len() == self.changes@.len(),
                forall|k2: int| 0 <= k2 < k ==> (#[trigger] index[k2]).id != id@,
            decreases self.changes.len() - k,
        {
            if self.changes[k].id.same_id(id) {
                proof {
                    lemma_find_index_at(index, id@, k as int);
                }
                return Some(k);
            }
            proof {
                assert(index[k as int].id != id@);
            }
            k = k + 1;
        }
        proof {
            lemma_find_index_none(index, id@);
        }
        None
    }

    /// Position where a fresh index entry at this revision goes.
    fn position_for_insert(&self, rv: u64) -> (r: usize)
        ensures
            r <= self@.index.len(),
            insert_pos(self@.index, rv) == r as int,
    {
        let ghost index: Seq<IndexEntryView> = self@.index;
        let mut p: usize = 0;
        while p < self.changes.len() && self.changes[p].rv <= rv
            invariant
                0 <= p <= self.changes.len(),
                index == self@.index,
                index.len() == self.changes@.len(),
                forall|k: int| 0 <= k < p ==> (#[trigger] index[k]).rv <= rv,
            decreases self.changes.len() - p,
        {
            p = p + 1;
        }
        proof {
            lemma_insert_pos_at(index, rv, p as int);
        }
        p
    }

    /// Upsert: stores the document for the identity at the given
    /// revision, moves the identity's index entry to that revision,
    /// and publishes one MODIFIED event carrying the document to the
    /// subscribers; publication failure when there are none is not an
    /// error.
    pub fn update(&mut self, res: ResourceId, rv: u64, value: JsonValue)
        requires
            old(self).wf(),
        ensures
            final(self).wf(),
            final(self)@ == spec_update(old(self)@, res@, rv, value@),
    {
        let ghost c0: CacheView = self@;
        let ghost e: LiveEntryView = LiveEntryView { id: res@, rv: rv, value: value@ };
        let ghost n: IndexEntryView = IndexEntryView { rv: rv, id: res@ };
        let out_id = res.duplicate();
        let out_obj = value.deep_clone();
        let j_opt = self.position_of_live(&res);
        match j_opt {
            Some(j) => {
                proof {
                    lemma_find_live_bounds(c0.live, res@);
                    lemma_find_index_bounds(c0.index, res@);
                    assert(index_has(c0.index, c0.live[j as int].id, c0.live[j as int].rv));
                    if find_index(c0.index, res@) is None {
                        let k2 = choose|k2: int|
                            0 <= k2 < c0.index.len() && (#[trigger] c0.index[k2]).id == res@
                                && c0.index[k2].rv == c0.live[j as int].rv;
                        assert(index_has_id(c0.index, res@));
                    }
                }
                let k_opt = self.position_in_index(&res);
                let k = k_opt.unwrap();
                let ghost changes0: Seq<IndexEntry> = self.changes@;
                self.changes.remove(k);
                proof {
                    lemma_index_map_remove(changes0, k as int);
                    assert(self@.index =~= c0.index.remove(k as int));
                    assert(self@.live == c0.live);
                }
                let p = self.position_for_insert(rv);
                let ghost removed: Seq<IndexEntryView> = self@.index;
                let idx_entry = IndexEntry { rv: rv, id: res.duplicate() };
                let ghost changes1: Seq<IndexEntry> = self.changes@;
                self.changes.insert(p, idx_entry);
                let live_entry = LiveEntry { id: res, rv: rv, value: value };
                self.resources.set(j, live_entry);
                proof {
                    lemma_index_map_insert(changes1, p as int, idx_entry);
                    assert(self@.index =~= removed.insert(p as int, n));
                    assert(self@.live =~= c0.live.update(j as int, e));
                    assert(self@ =~= spec_update(c0, res@, rv, value@));
                    lemma_spec_update_wf(c0, res@, rv, value@);
                }
            },
            None => {
                proof {
                    lemma_find_live_bounds(c0.live, res@);
                    assert forall|k2: int| 0 <= k2 < c0.index.len() implies (
                    #[trigger] c0.index[k2]).id != res@ by {
                        if c0.index[k2].id == res@ {
                            assert(live_has(c0.live, c0.index[k2].id, c0.index[k2].rv));
                            let j3 = choose|j3: int|
                                0 <= j3 < c0.live.len() && (#[trigger] c0.live[j3]).id == res@
                                    && c0.live[j3].rv == c0.index[k2].rv;
                            assert(live_has_id(c0.live, res@));
                        }
                    }
                    lemma_find_index_none(c0.index, res@);
                }
                let p = self.position_for_insert(rv);
                let idx_entry = IndexEntry { rv: rv, id: res.duplicate() };
                let ghost changes1: Seq<IndexEntry> = self.changes@;
                self.changes.insert(p, idx_entry);
                let live_entry = LiveEntry { id: res, rv: rv, value: value };
                self.resources.push(live_entry);
                proof {
                    lemma_index_map_insert(changes1, p as int, idx_entry);
                    assert(self@.index =~= c0.index.insert(p as int, n));
                    assert(self@.live =~= c0.live.push(e));
                    assert(self@ =~= spec_update(c0, res@, rv, value@));
                    lemma_spec_update_wf(c0, res@, rv, value@);
                }
            },
        }
        publish(&self.tx, (out_id, OutputEvent { ty: OutputEventType::Modified, object: out_obj }));
    }

    /// Deletion: drops the identity from the live mapping and the
    /// index, and publishes one DELETED event whose document is the
    /// synthesized tombstone carrying the deletion's revision.
    /// Removing an absent identity changes no state; the event is
    /// published regardless.
    pub fn remove(&mut self, res: ResourceId, rv: u64)
        requires
            old(self).wf(),
        ensures
            final(self).wf(),
            final(self)@ == spec_remove(old(self)@, res@),
    {
        let ghost c0: CacheView = self@;
        let tomb = deleted_event(&res, rv);
        let j_opt = self.position_of_live(&res);
        match j_opt {
            Some(j) => {
                proof {
                    lemma_find_live_bounds(c0.live, res@);
                    lemma_find_index_bounds(c0.index, res@);
                    assert(index_has(c0.index, c0.live[j as int].id, c0.live[j as int].rv));
                    if find_index(c0.index, res@) is None {
                        let k2 = choose|k2: int|
                            0 <= k2 < c0.index.len() && (#[trigger] c0.index[k2]).id == res@
                                && c0.index[k2].rv == c0.live[j as int].rv;
                        assert(index_has_id(c0.index, res@));
                    }
                }
                let k_opt = self.position_in_index(&res);
                let k = k_opt.unwrap();
                let ghost changes0: Seq<IndexEntry> = self.changes@;
                self.changes.remove(k);
                let ghost resources0: Seq<LiveEntry> = self.resources@;
                self.resources.remove(j);
                proof {
                    lemma_index_map_remove(changes0, k as int);
                    lemma_live_map_remove(resources0, j as int);
                    assert(self@.index =~= c0.index.remove(k as int));
                    assert(self@.live =~= c0.live.remove(j as int));
                    assert(self@ =~= spec_remove(c0, res@));
                    lemma_spec_remove_wf(c0, res@);
                }
            },
            None => {},
        }
        publish(&self.tx, (res, OutputEvent { ty: OutputEventType::Deleted, object: tomb }));
    }

    fn row_string(&self, j: usize) -> (r: String)
        requires
            j < self@.live.len(),
        ensures
            r@ == row_view(self@.live[j as int]),
    {
        let e = &self.resources[j];
        let mut out: String = "<td>".to_owned();
        out.append(e.id.api_version.as_str());
        out.append("</td><td>");
        out.append(e.id.kind.as_str());
        out.append("</td><td>");
        match &e.id.namespace {
            Some(ns) => {
                out.append("Some(\"");
                out.append(ns.as_str());
                out.append("\")");
            },
            None => {
                out.append("None");
            },
        }
        out.append("</td><td>");
        out.append(e.id.name.as_str());
        out.append("</td><td>");
        out.append(u64_to_string(e.rv).as_str());
        out.append("</td>");
        out
    }

    fn rows_from(&self, j: usize) -> (r: String)
        requires
            j <= self@.live.len(),
        ensures
            r@ == joined_rows(self@.live.subrange(j as int, self@.live.len() as int)),
        decreases self@.live.len() - j,
    {
        let ghost live: Seq<LiveEntryView> = self@.live;
        let n = self.resources.len();
        if j >= n {
            let r = String::new();
            proof {
                assert(live.subrange(j as int, live.len() as int)
                    =~= Seq::<LiveEntryView>::empty());
            }
            r
        } else if j == n - 1 {
            let r = self.row_string(j);
            proof {
                let sub = live.subrange(j as int, live.len() as int);
                assert(sub.len() == 1 && sub[0] == live[j as int]);
            }
            r
        } else {
            let mut r = self.row_string(j);
            r.append("</tr><tr>");
            let tail = self.rows_from(j + 1);
            r.append(tail.as_str());
            proof {
                let sub = live.subrange(j as int, live.len() as int);
                assert(sub[0] == live[j as int]);
                assert(sub.drop_first() =~= live.subrange(j + 1, live.len() as int));
            }
            r
        }
    }

    /// A human-readable table of the currently live entries.
    pub fn list(&self) -> (r: String)
        ensures
            r@ == list_view(self@.live),
    {
        let mut out: String =
            "<table><tr><th>apiVersion</th><th>kind</th><th>(namespace)</th><th>name</th><th>resourceVersion</th></tr><tr>".to_owned();
        let rows = self.rows_from(0);
        out.append(rows.as_str());
        out.append("</tr></table>");
        proof {
            assert(self@.live.subrange(0, self@.live.len() as int) =~= self@.live);
        }
        out
    }

    /// Begins a subscription: subscribes to the broadcast channel
    /// first, then snapshots the replay prefix from the cursor
    /// (inclusive), so that no change falls between the two. The
    /// caller emits the returned events, then follows the receiver.
    pub fn stream(&self, rv: Option<u64>) -> (r: (
        Vec<(ResourceId, OutputEvent)>,
        tokio::sync::broadcast::Receiver<(ResourceId, OutputEvent)>,
    ))
        requires
            self.wf(),
        ensures
            r.0@.map_values(|p: (ResourceId, OutputEvent)| (p.0@, p.1@)) == spec_replay(
                self@,
                rv,
            ),
    {
        let rx = subscribe(&self.tx);
        let cur: u64 = match rv {
            Some(v) => v,
            None => 0,
        };
        let ghost live: Seq<LiveEntryView> = self@.live;
        let ghost index: Seq<IndexEntryView> = self@.index;
        let mut out: Vec<(ResourceId, OutputEvent)> = Vec::new();
        proof {
            assert(out@.map_values(|p: (ResourceId, OutputEvent)| (p.0@, p.1@))
                =~= replay_entries(live, index.subrange(0, 0), cur));
        }
        let mut k: usize = 0;
        while k < self.changes.len()
            invariant
                0 <= k <= self.changes.len(),
                live == self@.live,
                index == self@.index,
                index.len() == self.changes@.len(),
                self.wf(),
                out@.map_values(|p: (ResourceId, OutputEvent)| (p.0@, p.1@)) == replay_entries(
                    live,
                    index.subrange(0, k as int),
                    cur,
                ),
            decreases self.changes.len() - k,
        {
            let ghost prefix: Seq<IndexEntryView> = index.subrange(0, k as int);
            let entry_rv = self.changes[k].rv;
            if entry_rv >= cur {
                let id_ref = &self.changes[k].id;
                let j_opt = self.position_of_live(id_ref);
                match j_opt {
                    Some(j) => {
                        let le = &self.resources[j];
                        out.push(
                            (
                                id_ref.duplicate(),
                                OutputEvent {
                                    ty: OutputEventType::Modified,
                                    object: le.value.deep_clone(),
                                },
                            ),
                        );
                        proof {
                            lemma_find_live_bounds(live, index[k as int].id);
                        }
                    },
                    None => {},
                }
            }
            proof {
                assert(index.subrange(0, k + 1) =~= prefix.push(index[k as int]));
                lemma_replay_snoc(live, prefix, index[k as int], cur);
                assert(out@.map_values(|p: (ResourceId, OutputEvent)| (p.0@, p.1@))
                    =~= replay_entries(live, index.subrange(0, k + 1), cur));
            }
            k = k + 1;
        }
        proof {
            assert(index.subrange(0, index.len() as int) =~= index);
        }
        (out, rx)
    }
}

} // verus!
