use vstd::prelude::*;

use crate::attrs::{AttrPairs, Attributes, clone_values};

verus! {

/// What `str::to_lowercase` gives for a string.
pub uninterp spec fn lower_of(s: Seq<char>) -> Seq<char>;

/// Relies on `str::to_lowercase`: its result depends on the characters alone.
#[verifier::external_body]
pub(crate) fn to_lower(s: &str) -> (r: String)
    ensures
        r@ == lower_of(s@),
{
    s.to_lowercase()
}

/// Two names that are equal once lowercased.
pub open spec fn same_name_ci(a: Seq<char>, b: Seq<char>) -> bool {
    lower_of(a) == lower_of(b)
}

/// The values of the first pair at or after position `i` whose name matches
/// `key` case-insensitively.
pub open spec fn lookup_from(s: AttrPairs, key: Seq<char>, i: int) -> Option<Seq<Seq<char>>>
    decreases s.len() - i,
{
    if i < 0 || i >= s.len() {
        None
    } else if same_name_ci(s[i].0, key) {
        Some(s[i].1)
    } else {
        lookup_from(s, key, i + 1)
    }
}

/// The values of the first attribute, in canonical order, whose name matches
/// `key` case-insensitively.
pub open spec fn lookup_ci(s: AttrPairs, key: Seq<char>) -> Option<Seq<Seq<char>>> {
    lookup_from(s, key, 0)
}

/// The values of the first attribute whose name matches `key`
/// case-insensitively, borrowed.
pub fn find_values_ci<'a>(attrs: &'a Attributes, key: &str) -> (r: Option<&'a Vec<String>>)
    ensures
        match r {
            Some(v) => lookup_ci(attrs@, key@) == Some(v.deep_view()),
            None => lookup_ci(attrs@, key@) is None,
        },
{
    let key_lower = to_lower(key);
    let pairs = attrs.pairs();
    let n = pairs.len();
    let mut i: usize = 0;
    while i < n
        invariant
            n == pairs@.len(),
            pairs.deep_view() == attrs@,
            i <= n,
            key_lower@ == lower_of(key@),
            lookup_ci(attrs@, key@) == lookup_from(attrs@, key@, i as int),
        decreases n - i,
    {
        let k_lower = to_lower(pairs[i].0.as_str());
        assert(attrs@[i as int] == (pairs@[i as int].0@, pairs@[i as int].1.deep_view()));
        if k_lower == key_lower {
            return Some(&pairs[i].1);
        }
        i = i + 1;
    }
    None
}

/// A copy of the values of the first attribute whose name matches `key`
/// case-insensitively; empty if there is none.
pub fn get_values(attrs: &Attributes, key: &str) -> (r: Vec<String>)
    ensures
        r.deep_view() == match lookup_ci(attrs@, key@) {
            Some(v) => v,
            None => Seq::<Seq<char>>::empty(),
        },
{
    match find_values_ci(attrs, key) {
        Some(v) => clone_values(v),
        None => {
            let r: Vec<String> = Vec::new();
            assert(r.deep_view() =~= Seq::<Seq<char>>::empty());
            r
        },
    }
}

/// The first of the values found, if any.
pub open spec fn first_value(found: Option<Seq<Seq<char>>>) -> Option<Seq<char>> {
    match found {
        Some(v) => if v.len() > 0 {
            Some(v[0])
        } else {
            None
        },
        None => None,
    }
}

/// The first value of the attribute that `get_values` finds, if any.
pub fn get_first(attrs: &Attributes, key: &str) -> (r: Option<String>)
    ensures
        match r {
            Some(x) => first_value(lookup_ci(attrs@, key@)) == Some(x@),
            None => first_value(lookup_ci(attrs@, key@)) is None,
        },
{
    let values = get_values(attrs, key);
    assert(values.deep_view().len() == values@.len());
    if values.len() > 0 {
        let first = values[0].clone();
        assert(first@ == values.deep_view()[0]);
        Some(first)
    } else {
        None
    }
}

/// Whether some attribute's name matches `key` case-insensitively.
pub fn has_attr(attrs: &Attributes, key: &str) -> (r: bool)
    ensures
        r == lookup_ci(attrs@, key@) is Some,
{
    find_values_ci(attrs, key).is_some()
}

/// Lookups are case-insensitive: two keys that lowercase alike find the same
/// values (or both find none), whatever the attribute set.
pub proof fn lemma_lookup_case_insensitive(s: AttrPairs, k1: Seq<char>, k2: Seq<char>)
    requires
        lower_of(k1) == lower_of(k2),
    ensures
        lookup_ci(s, k1) == lookup_ci(s, k2),
{
    lemma_lookup_from_case_insensitive(s, k1, k2, 0);
}

proof fn lemma_lookup_from_case_insensitive(s: AttrPairs, k1: Seq<char>, k2: Seq<char>, i: int)
    requires
        lower_of(k1) == lower_of(k2),
    ensures
        lookup_from(s, k1, i) == lookup_from(s, k2, i),
    decreases s.len() - i,
{
    if 0 <= i < s.len() {
        lemma_lookup_from_case_insensitive(s, k1, k2, i + 1);
    }
}

} // verus!
