use vstd::prelude::*;

verus! {

broadcast use vstd::std_specs::vec::axiom_vec_index_decreases;

/// Mathematical model of a JSON document: the view of `JsonValue`.
///
/// A float is carried opaquely by its bit pattern; the engine never
/// interprets numeric payloads, it only moves them through.
#[verifier::ext_equal]
pub enum Json {
    Null,
    Bool(bool),
    Int(i64),
    UInt(u64),
    FloatBits(u64),
    Str(Seq<char>),
    Arr(Seq<Json>),
    Obj(Seq<(Seq<char>, Json)>),
}

/// A structured JSON-like document: object, array, string, number,
/// bool, null. This is the single internal tree type; conversion from
/// any decoder's representation happens at ingress, outside this crate.
#[derive(Debug, PartialEq)]
pub enum JsonValue {
    Null,
    Bool(bool),
    Int(i64),
    UInt(u64),
    FloatBits(u64),
    Str(String),
    Arr(Vec<JsonValue>),
    Obj(Vec<(String, JsonValue)>),
}

pub open spec fn json_view(v: JsonValue) -> Json
    decreases v, 1int,
{
    match v {
        JsonValue::Null => Json::Null,
        JsonValue::Bool(b) => Json::Bool(b),
        JsonValue::Int(i) => Json::Int(i),
        JsonValue::UInt(u) => Json::UInt(u),
        JsonValue::FloatBits(u) => Json::FloatBits(u),
        JsonValue::Str(s) => Json::Str(s@),
        JsonValue::Arr(items) => {
            proof {
                assert(decreases_to!(v => v->Arr_0));
                assert(decreases_to!(v->Arr_0 => v->Arr_0@));
            }
            Json::Arr(json_view_seq(items@))
        },
        JsonValue::Obj(pairs) => {
            proof {
                assert(decreases_to!(v => v->Obj_0));
                assert(decreases_to!(v->Obj_0 => v->Obj_0@));
            }
            Json::Obj(json_view_pairs(pairs@))
        },
    }
}

pub open spec fn json_view_seq(s: Seq<JsonValue>) -> Seq<Json>
    decreases s, 0int,
{
    if s.len() == 0 {
        Seq::empty()
    } else {
        seq![json_view(s[0])] + json_view_seq(s.drop_first())
    }
}

pub open spec fn json_view_pairs(s: Seq<(String, JsonValue)>) -> Seq<(Seq<char>, Json)>
    decreases s, 0int,
{
    if s.len() == 0 {
        Seq::empty()
    } else {
        proof {
            assert(decreases_to!(s => s[0]));
            assert(decreases_to!(s[0] => s[0].1));
        }
        seq![(s[0].0@, json_view(s[0].1))] + json_view_pairs(s.drop_first())
    }
}

pub proof fn lemma_json_view_seq(s: Seq<JsonValue>)
    ensures
        json_view_seq(s).len() == s.len(),
        forall|i: int| 0 <= i < s.len() ==> json_view_seq(s)[i] == json_view(s[i]),
    decreases s.len(),
{
    if s.len() > 0 {
        lemma_json_view_seq(s.drop_first());
    }
}

pub proof fn lemma_json_view_pairs(s: Seq<(String, JsonValue)>)
    ensures
        json_view_pairs(s).len() == s.len(),
        forall|i: int| 0 <= i < s.len()
            ==> json_view_pairs(s)[i] == (s[i].0@, json_view(s[i].1)),
    decreases s.len(),
{
    if s.len() > 0 {
        lemma_json_view_pairs(s.drop_first());
    }
}

impl View for JsonValue {
    type V = Json;

    open spec fn view(&self) -> Json {
        json_view(*self)
    }
}

impl Clone for JsonValue {
    /// A structural copy; the clone has the same view.
    fn clone(&self) -> (r: JsonValue)
        ensures
            r@ == self@,
    {
        self.deep_clone()
    }
}

/// First binding of `key` among the pairs of an object, if any.
pub open spec fn obj_get(pairs: Seq<(Seq<char>, Json)>, key: Seq<char>) -> Option<Json>
    decreases pairs.len(),
{
    if pairs.len() == 0 {
        None
    } else if pairs[0].0 == key {
        Some(pairs[0].1)
    } else {
        obj_get(pairs.drop_first(), key)
    }
}

/// Field lookup on a document: `None` unless the document is an object
/// with a binding for `key`.
pub open spec fn json_get(j: Json, key: Seq<char>) -> Option<Json> {
    match j {
        Json::Obj(pairs) => obj_get(pairs, key),
        _ => None,
    }
}

proof fn lemma_obj_get_found(pairs: Seq<(Seq<char>, Json)>, key: Seq<char>, i: int)
    requires
        0 <= i < pairs.len(),
        pairs[i].0 == key,
        forall|j: int| 0 <= j < i ==> pairs[j].0 != key,
    ensures
        obj_get(pairs, key) == Some(pairs[i].1),
    decreases i,
{
    if i > 0 {
        lemma_obj_get_found(pairs.drop_first(), key, i - 1);
    }
}

proof fn lemma_obj_get_missing(pairs: Seq<(Seq<char>, Json)>, key: Seq<char>)
    requires
        forall|j: int| 0 <= j < pairs.len() ==> pairs[j].0 != key,
    ensures
        obj_get(pairs, key) is None,
    decreases pairs.len(),
{
    if pairs.len() > 0 {
        lemma_obj_get_missing(pairs.drop_first(), key);
    }
}

impl JsonValue {
    /// Whether the document is an object.
    pub fn is_object(&self) -> (r: bool)
        ensures
            r == (self@ is Obj),
    {
        match self {
            JsonValue::Obj(_) => true,
            _ => false,
        }
    }

    /// Looks a key up in an object document, returning the first binding.
    #[verifier::loop_isolation(false)]
    pub fn get<'a>(&'a self, key: &str) -> (r: Option<&'a JsonValue>)
        ensures
            match r {
                Some(v) => json_get(self@, key@) == Some(v@),
                None => json_get(self@, key@) is None,
            },
    {
        match self {
            JsonValue::Obj(pairs) => {
                let k: String = key.to_owned();
                let ghost model: Seq<(Seq<char>, Json)> = self@->Obj_0;
                proof {
                    lemma_json_view_pairs(pairs@);
                }
                let mut i: usize = 0;
                while i < pairs.len()
                    invariant
                        0 <= i <= pairs.len(),
                        model.len() == pairs@.len(),
                        forall|j: int| 0 <= j < pairs@.len()
                            ==> model[j] == (pairs@[j].0@, json_view(pairs@[j].1)),
                        k@ == key@,
                        forall|j: int| 0 <= j < i ==> model[j].0 != key@,
                    decreases pairs.len() - i,
                {
                    if pairs[i].0 == k {
                        proof {
                            lemma_obj_get_found(model, key@, i as int);
                        }
                        return Some(&pairs[i].1);
                    }
                    i = i + 1;
                }
                proof {
                    lemma_obj_get_missing(model, key@);
                }
                None
            },
            _ => None,
        }
    }

    /// Structural copy of a document; the copy has the same view.
    #[verifier::loop_isolation(false)]
    pub fn deep_clone(&self) -> (r: JsonValue)
        ensures
            r@ == self@,
        decreases self,
    {
        match self {
            JsonValue::Null => JsonValue::Null,
            JsonValue::Bool(b) => JsonValue::Bool(*b),
            JsonValue::Int(i) => JsonValue::Int(*i),
            JsonValue::UInt(u) => JsonValue::UInt(*u),
            JsonValue::FloatBits(u) => JsonValue::FloatBits(*u),
            JsonValue::Str(s) => JsonValue::Str(s.clone()),
            JsonValue::Arr(items) => {
                let mut out: Vec<JsonValue> = Vec::new();
                let mut i: usize = 0;
                while i < items.len()
                    invariant
                        0 <= i <= items.len(),
                        out@.len() == i,
                        forall|j: int| 0 <= j < i
                            ==> #[trigger] json_view(out@[j]) == json_view(items@[j]),
                    decreases items.len() - i,
                {
                    proof {
                        assert(decreases_to!(*self => (*self)->Arr_0));
                        assert(decreases_to!((*self)->Arr_0 => (*self)->Arr_0@));
                        assert(decreases_to!((*self)->Arr_0@ => (*self)->Arr_0@[i as int]));
                    }
                    out.push(items[i].deep_clone());
                    i = i + 1;
                }
                let r = JsonValue::Arr(out);
                proof {
                    lemma_json_view_seq(out@);
                    lemma_json_view_seq(items@);
                    assert(r@->Arr_0 =~= self@->Arr_0);
                }
                r
            },
            JsonValue::Obj(pairs) => {
                let mut out: Vec<(String, JsonValue)> = Vec::new();
                let mut i: usize = 0;
                while i < pairs.len()
                    invariant
                        0 <= i <= pairs.len(),
                        out@.len() == i,
                        forall|j: int| 0 <= j < i
                            ==> #[trigger] out@[j].0@ == pairs@[j].0@
                                && json_view(out@[j].1) == json_view(pairs@[j].1),
                    decreases pairs.len() - i,
                {
                    proof {
                        assert(decreases_to!(*self => (*self)->Obj_0));
                        assert(decreases_to!((*self)->Obj_0 => (*self)->Obj_0@));
                        assert(decreases_to!((*self)->Obj_0@ => (*self)->Obj_0@[i as int]));
                        assert(decreases_to!(
                            (*self)->Obj_0@[i as int] => (*self)->Obj_0@[i as int].1
                        ));
                    }
                    let entry = &pairs[i];
                    out.push((entry.0.clone(), entry.1.deep_clone()));
                    i = i + 1;
                }
                let r = JsonValue::Obj(out);
                proof {
                    lemma_json_view_pairs(out@);
                    lemma_json_view_pairs(pairs@);
                    assert(r@->Obj_0 =~= self@->Obj_0);
                }
                r
            },
        }
    }
}

} // verus!
