//! Finding an item by its name.

use vstd::prelude::*;

verus! {

/// The place of the first of `names` that reads `name`, if any does.
pub open spec fn position(names: Seq<Seq<char>>, name: Seq<char>) -> Option<int>
    decreases names.len(),
{
    if names.len() == 0 {
        None
    } else {
        match position(names.drop_last(), name) {
            Some(index) => Some(index),
            None => if names.last() == name {
                Some(names.len() - 1)
            } else {
                None
            },
        }
    }
}

/// No two of `names` read the same.
pub open spec fn distinct(names: Seq<Seq<char>>) -> bool {
    forall|i: int, j: int| 0 <= i < j < names.len() ==> names[i] != names[j]
}

/// Whether `found` is the place `place`.
pub open spec fn place_matches(found: Option<usize>, place: Option<int>) -> bool {
    match found {
        Some(index) => place == Some(index as int),
        None => place is None,
    }
}

/// `position` gives the least place at which the name stands, and none exactly
/// when the name stands nowhere.
pub proof fn lemma_position(names: Seq<Seq<char>>, name: Seq<char>)
    ensures
        match position(names, name) {
            Some(index) => {
                &&& 0 <= index < names.len()
                &&& names[index] == name
                &&& forall|j: int| 0 <= j < index ==> names[j] != name
            },
            None => forall|j: int| 0 <= j < names.len() ==> names[j] != name,
        },
    decreases names.len(),
{
    if names.len() > 0 {
        let front = names.drop_last();
        lemma_position(front, name);
        assert(forall|j: int| 0 <= j < front.len() ==> front[j] == names[j]);
        match position(front, name) {
            Some(index) => {
                assert(names[index] == front[index]);
                assert forall|j: int| 0 <= j < index implies names[j] != name by {
                    assert(front[j] != name);
                }
            },
            None => {
                assert forall|j: int| 0 <= j < names.len() - 1 implies names[j] != name by {
                    assert(front[j] != name);
                }
            },
        }
    }
}

/// The least place at which the name stands is its position.
pub proof fn lemma_position_is(names: Seq<Seq<char>>, name: Seq<char>, index: int)
    requires
        0 <= index < names.len(),
        names[index] == name,
        forall|j: int| 0 <= j < index ==> names[j] != name,
    ensures
        position(names, name) == Some(index),
{
    lemma_position(names, name);
}

/// Among distinct names, any place at which the name stands is its position.
pub proof fn lemma_position_distinct(names: Seq<Seq<char>>, name: Seq<char>, index: int)
    requires
        distinct(names),
        0 <= index < names.len(),
        names[index] == name,
    ensures
        position(names, name) == Some(index),
{
    lemma_position(names, name);
}

/// A name that stands nowhere has no position.
pub proof fn lemma_position_none(names: Seq<Seq<char>>, name: Seq<char>)
    requires
        forall|j: int| 0 <= j < names.len() ==> names[j] != name,
    ensures
        position(names, name) is None,
{
    lemma_position(names, name);
}

} // verus!
