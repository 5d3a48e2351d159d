use vstd::prelude::*;

verus! {

use crate::api::split_seq;
use crate::api::split_string;

/// A served stream's kind filter: only the named kinds, or all but
/// the named kinds. The two are mutually exclusive; no filter at all
/// passes everything.
#[derive(Debug, PartialEq, Clone)]
pub enum Filter {
    Include(Vec<String>),
    Exclude(Vec<String>),
}

/// Whether one of the names is the given kind.
pub open spec fn names_contain(names: Seq<String>, kind: Seq<char>) -> bool {
    exists|i: int| 0 <= i < names.len() && (#[trigger] names[i])@ == kind
}

/// Whether an event of this kind passes the filter.
pub open spec fn spec_kind_allowed(filter: Option<Filter>, kind: Seq<char>) -> bool {
    match filter {
        None => true,
        Some(Filter::Include(names)) => names_contain(names@, kind),
        Some(Filter::Exclude(names)) => !names_contain(names@, kind),
    }
}

#[verifier::loop_isolation(false)]
fn contains_name(names: &Vec<String>, kind: &String) -> (r: bool)
    ensures
        r == names_contain(names@, kind@),
{
    let mut i: usize = 0;
    while i < names.len()
        invariant
            0 <= i <= names@.len(),
            forall|i2: int| 0 <= i2 < i ==> (#[trigger] names@[i2])@ != kind@,
        decreases names@.len() - i,
    {
        if names[i] == *kind {
            proof {
                assert((names@[i as int])@ == kind@);
            }
            return true;
        }
        proof {
            assert((names@[i as int])@ != kind@);
        }
        i = i + 1;
    }
    false
}

/// Whether an event for an object of this kind is served to a
/// subscriber with this filter.
pub fn kind_allowed(filter: &Option<Filter>, kind: &String) -> (r: bool)
    ensures
        r == spec_kind_allowed(*filter, kind@),
{
    match filter {
        None => true,
        Some(Filter::Include(names)) => contains_name(names, kind),
        Some(Filter::Exclude(names)) => !contains_name(names, kind),
    }
}

/// The filter a request's query names: the comma-separated kinds to
/// keep, the comma-separated kinds to drop, none at all, or a
/// rejection when both are given — they are mutually exclusive.
pub fn filter_from_query(keep: Option<&String>, drop_kinds: Option<&String>) -> (r: Result<
    Option<Filter>,
    (),
>)
    ensures
        match (keep, drop_kinds) {
            (Some(_), Some(_)) => r is Err,
            (Some(csv), None) => r matches Ok(Some(Filter::Include(names)))
                && names@.map_values(|x: String| x@) == split_seq(csv@, ','),
            (None, Some(csv)) => r matches Ok(Some(Filter::Exclude(names)))
                && names@.map_values(|x: String| x@) == split_seq(csv@, ','),
            (None, None) => r matches Ok(f) && f is None,
        },
{
    match (keep, drop_kinds) {
        (Some(_), Some(_)) => Err(()),
        (Some(csv), None) => Ok(Some(Filter::Include(split_string(csv.as_str(), ',')))),
        (None, Some(csv)) => Ok(Some(Filter::Exclude(split_string(csv.as_str(), ',')))),
        (None, None) => Ok(None),
    }
}

} // verus!
