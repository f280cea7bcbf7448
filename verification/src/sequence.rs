use vstd::prelude::*;

verus! {

/// True where `i` is the place of the first item of `items` that `wanted`
/// holds of.
pub open spec fn spec_is_first<T>(items: Seq<T>, wanted: spec_fn(T) -> bool, i: int) -> bool {
    &&& 0 <= i < items.len()
    &&& wanted(items[i])
    &&& forall|j: int| 0 <= j < i ==> !wanted(#[trigger] items[j])
}

/// Whether `wanted` holds of one of the items.
pub open spec fn spec_any<T>(items: Seq<T>, wanted: spec_fn(T) -> bool) -> bool {
    exists|i: int| 0 <= i < items.len() && wanted(#[trigger] items[i])
}

/// The place of the first item that `wanted` holds of, if there is one.
pub open spec fn spec_first_index<T>(items: Seq<T>, wanted: spec_fn(T) -> bool) -> Option<int> {
    if exists|i: int| spec_is_first(items, wanted, i) {
        Some(choose|i: int| spec_is_first(items, wanted, i))
    } else {
        None
    }
}

/// The items without the first one that `wanted` holds of; all of them where
/// it holds of none.
pub open spec fn spec_remove_first<T>(items: Seq<T>, wanted: spec_fn(T) -> bool) -> Seq<T> {
    if exists|i: int| spec_is_first(items, wanted, i) {
        items.remove(choose|i: int| spec_is_first(items, wanted, i))
    } else {
        items
    }
}

/// Where the first wanted item is at `i`, it is the one that is removed.
pub proof fn lemma_remove_first_at<T>(items: Seq<T>, wanted: spec_fn(T) -> bool, i: int)
    requires
        spec_is_first(items, wanted, i),
    ensures
        spec_remove_first(items, wanted) == items.remove(i),
        spec_first_index(items, wanted) == Some(i),
        spec_any(items, wanted),
{
    let j = choose|j: int| spec_is_first(items, wanted, j);
    assert(spec_is_first(items, wanted, j));
    if j < i {
        assert(!wanted(items[j]));
    } else if i < j {
        assert(!wanted(items[i]));
    }
}

/// Where no item is wanted, none is removed.
pub proof fn lemma_remove_first_none<T>(items: Seq<T>, wanted: spec_fn(T) -> bool)
    requires
        forall|j: int| 0 <= j < items.len() ==> !wanted(#[trigger] items[j]),
    ensures
        spec_remove_first(items, wanted) == items,
        spec_first_index(items, wanted) == None::<int>,
        !spec_any(items, wanted),
{
    if exists|i: int| spec_is_first(items, wanted, i) {
        let i = choose|i: int| spec_is_first(items, wanted, i);
        assert(wanted(items[i]));
    }
}

/// Where at most one item is wanted, none is wanted after the first one is
/// removed.
pub proof fn lemma_remove_first_clears<T>(items: Seq<T>, wanted: spec_fn(T) -> bool)
    requires
        forall|i: int, j: int|
            0 <= i < j < items.len() ==> !(wanted(#[trigger] items[i]) && wanted(
                #[trigger] items[j],
            )),
    ensures
        !spec_any(spec_remove_first(items, wanted), wanted),
{
    let after = spec_remove_first(items, wanted);
    if exists|i: int| spec_is_first(items, wanted, i) {
        let at = choose|i: int| spec_is_first(items, wanted, i);
        assert(spec_is_first(items, wanted, at));
        if spec_any(after, wanted) {
            let k = choose|k: int| 0 <= k < after.len() && wanted(#[trigger] after[k]);
            if k < at {
                assert(after[k] == items[k]);
            } else {
                assert(after[k] == items[k + 1]);
                assert(wanted(items[at]) && wanted(items[k + 1]));
            }
        }
    } else {
        if spec_any(after, wanted) {
            let k = choose|k: int| 0 <= k < items.len() && wanted(#[trigger] items[k]);
            lemma_some_is_first(items, wanted, k);
        }
    }
}

/// Where an item is wanted, some item is the first wanted one.
pub proof fn lemma_some_is_first<T>(items: Seq<T>, wanted: spec_fn(T) -> bool, k: int)
    requires
        0 <= k < items.len(),
        wanted(items[k]),
    ensures
        exists|i: int| spec_is_first(items, wanted, i),
    decreases k,
{
    if exists|j: int| 0 <= j < k && wanted(#[trigger] items[j]) {
        let j = choose|j: int| 0 <= j < k && wanted(#[trigger] items[j]);
        lemma_some_is_first(items, wanted, j);
    } else {
        assert(spec_is_first(items, wanted, k));
    }
}

} // verus!
