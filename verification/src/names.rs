//! Lookup by exact match: the position of the first entry that equals what is
//! looked for, a name or a number.

use vstd::prelude::*;

verus! {

/// The position of the first of `entries` that equals `wanted`, if there is one.
pub open spec fn first_index<T>(entries: Seq<T>, wanted: T) -> Option<int>
    decreases entries.len(),
{
    if entries.len() == 0 {
        None
    } else {
        match first_index(entries.drop_last(), wanted) {
            Some(i) => Some(i),
            None => if entries.last() == wanted {
                Some(entries.len() - 1)
            } else {
                None
            },
        }
    }
}

/// `first_index` finds an entry that equals what is wanted and has none before it that
/// does; it finds nothing only where no entry equals it.
pub proof fn lemma_first_index<T>(entries: Seq<T>, wanted: T)
    ensures
        match first_index(entries, wanted) {
            Some(i) => 0 <= i < entries.len() && entries[i] == wanted && forall|k: int|
                0 <= k < i ==> entries[k] != wanted,
            None => forall|k: int| 0 <= k < entries.len() ==> entries[k] != wanted,
        },
    decreases entries.len(),
{
    if entries.len() > 0 {
        let init = entries.drop_last();
        lemma_first_index(init, wanted);
        match first_index(init, wanted) {
            Some(i) => {
                assert forall|k: int| 0 <= k < i implies entries[k] != wanted by {
                    assert(init[k] != wanted);
                }
            },
            None => {
                assert forall|k: int| 0 <= k < entries.len() - 1 implies entries[k] != wanted by {
                    assert(init[k] != wanted);
                }
            },
        }
    }
}

/// The first entry that equals what is wanted is what `first_index` finds.
pub proof fn lemma_first_index_is<T>(entries: Seq<T>, wanted: T, at: int)
    requires
        0 <= at < entries.len(),
        entries[at] == wanted,
        forall|k: int| 0 <= k < at ==> entries[k] != wanted,
    ensures
        first_index(entries, wanted) == Some(at),
{
    lemma_first_index(entries, wanted);
}

/// Where no entry equals what is wanted, `first_index` finds nothing.
pub proof fn lemma_first_index_none<T>(entries: Seq<T>, wanted: T)
    requires
        forall|k: int| 0 <= k < entries.len() ==> entries[k] != wanted,
    ensures
        first_index(entries, wanted) is None,
{
    lemma_first_index(entries, wanted);
}

} // verus!
