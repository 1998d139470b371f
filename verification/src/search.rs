//! First-match search, by which names and ids are resolved.

use vstd::prelude::*;
use vstd::string::*;

verus! {

/// The index of the first item at or after `start` that meets the test.
pub open spec fn first_from<T>(items: Seq<T>, test: spec_fn(T) -> bool, start: int) -> Option<int>
    decreases items.len() - start,
{
    if start < 0 || start >= items.len() {
        None
    } else if test(items[start]) {
        Some(start)
    } else {
        first_from(items, test, start + 1)
    }
}

/// The index of the first item that meets the test.
pub open spec fn first<T>(items: Seq<T>, test: spec_fn(T) -> bool) -> Option<int> {
    first_from(items, test, 0)
}

/// What the first index is: it meets the test, and nothing before it does.
pub proof fn lemma_first_from<T>(items: Seq<T>, test: spec_fn(T) -> bool, start: int)
    requires
        0 <= start <= items.len(),
    ensures
        match first_from(items, test, start) {
            Some(i) => start <= i < items.len() && test(items[i]) && forall|j: int|
                start <= j < i ==> !test(#[trigger] items[j]),
            None => forall|j: int| start <= j < items.len() ==> !test(#[trigger] items[j]),
        },
    decreases items.len() - start,
{
    if start < items.len() && !test(items[start]) {
        lemma_first_from(items, test, start + 1);
    }
}

/// An index that meets the test, with nothing before it that does, is the
/// first index.
pub proof fn lemma_first_is<T>(items: Seq<T>, test: spec_fn(T) -> bool, i: int)
    requires
        0 <= i < items.len(),
        test(items[i]),
        forall|j: int| 0 <= j < i ==> !test(#[trigger] items[j]),
    ensures
        first(items, test) == Some(i),
{
    lemma_first_from(items, test, 0);
}

/// Where no item meets the test, there is no first index.
pub proof fn lemma_first_none<T>(items: Seq<T>, test: spec_fn(T) -> bool)
    requires
        forall|j: int| 0 <= j < items.len() ==> !test(#[trigger] items[j]),
    ensures
        first(items, test) is None,
{
    lemma_first_from(items, test, 0);
}

/// Whether an executable index stands for a specified one.
pub open spec fn index_is(out: Option<usize>, expected: Option<int>) -> bool {
    match expected {
        Some(i) => out == Some(i as usize) && 0 <= i <= usize::MAX,
        None => out is None,
    }
}

/// Whether two texts are equal.
pub fn text_eq(a: &str, b: &str) -> (out: bool)
    ensures
        out == (a@ == b@),
{
    String::from_str(a) == String::from_str(b)
}

} // verus!
