//! Filtering the elements of a design (devices, splices, connectors, wires)
//! by a wildcard pattern on their names, or on their IDs.

use vstd::prelude::*;

verus! {

/// An element of a design, by ID and name.
pub struct ElementName {
    pub id: String,
    pub name: String,
}

/// Whether the wildcard pattern `pattern` (`*` for a run of characters, `?`
/// for one character, `\` escaping) matches the whole of `text`, as
/// `wildflower` decides it: after a `*` it takes the first occurrence of the
/// text that follows, without backtracking (so `*a` does not match `aba`).
pub uninterp spec fn wildcard_matches(pattern: Seq<char>, text: Seq<char>) -> bool;

/// `wildflower::Pattern::new(pattern).matches(text)`. Trusted: the answer is
/// named `wildcard_matches` of the pattern and the text; the matching rules
/// themselves are left to that crate.
#[verifier::external_body]
fn pattern_matches(pattern: &str, text: &str) -> (r: bool)
    ensures
        r == wildcard_matches(pattern@, text@),
{
    wildflower::Pattern::new(pattern).matches(text)
}

/// Whether an element passes the filter: its name matches the pattern, or,
/// where IDs are searched too, its ID does.
pub open spec fn element_matches(pattern: Seq<char>, e: ElementName, by_id: bool) -> bool {
    wildcard_matches(pattern, e.name@) || (by_id && wildcard_matches(pattern, e.id@))
}

/// The positions of the elements of `es` that pass the filter, in order.
pub open spec fn matching_positions(pattern: Seq<char>, es: Seq<ElementName>, by_id: bool) -> Seq<
    int,
>
    decreases es.len(),
{
    if es.len() == 0 {
        Seq::empty()
    } else {
        let p = matching_positions(pattern, es.drop_last(), by_id);
        if element_matches(pattern, es.last(), by_id) {
            p.push(es.len() - 1)
        } else {
            p
        }
    }
}

/// Whether an element passes the filter `pattern`.
pub fn element_passes(pattern: &str, e: &ElementName, by_id: bool) -> (r: bool)
    ensures
        r == element_matches(pattern@, *e, by_id),
{
    pattern_matches(pattern, e.name.as_str()) || (by_id && pattern_matches(pattern, e.id.as_str()))
}

/// The positions of the elements that pass the filter `pattern`, in order:
/// those whose name matches, or, where `by_id`, whose ID matches.
pub fn filter_elements(pattern: &str, elements: &Vec<ElementName>, by_id: bool) -> (r: Vec<usize>)
    ensures
        r@.map_values(|i: usize| i as int) == matching_positions(pattern@, elements@, by_id),
{
    let mut r: Vec<usize> = Vec::new();
    let mut i: usize = 0;
    while i < elements.len()
        invariant
            i <= elements@.len(),
            r@.map_values(|i: usize| i as int) == matching_positions(
                pattern@,
                elements@.take(i as int),
                by_id,
            ),
        decreases elements@.len() - i,
    {
        let ghost before = r@;
        let ghost t = elements@.take(i + 1);
        assert(t.drop_last() =~= elements@.take(i as int));
        assert(t.last() == elements@[i as int]);
        if element_passes(pattern, &elements[i], by_id) {
            r.push(i);
            assert(r@.map_values(|i: usize| i as int) =~= before.map_values(|i: usize| i as int).push(
                i as int,
            ));
        }
        i = i + 1;
    }
    assert(elements@.take(elements@.len() as int) =~= elements@);
    r
}

/// The label an element is listed under: its name, or its ID when it has no
/// name.
pub fn element_label(e: &ElementName) -> (r: &str)
    ensures
        r@ == if e.name@.len() == 0 {
            e.id@
        } else {
            e.name@
        },
{
    if e.name.unicode_len() == 0 {
        e.id.as_str()
    } else {
        e.name.as_str()
    }
}

} // verus!
