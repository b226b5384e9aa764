//! Keeping some rows of a table.
use vstd::prelude::*;

verus! {

/// The items whose mark is set, in order.
pub open spec fn marked<T>(items: Seq<T>, marks: Seq<bool>) -> Seq<T>
    decreases items.len(),
{
    if items.len() == 0 {
        Seq::empty()
    } else {
        let rest = marked(items.drop_last(), marks);
        if marks[items.len() - 1] {
            rest.push(items.last())
        } else {
            rest
        }
    }
}

/// The items with a property, in order.
pub open spec fn having<T>(items: Seq<T>, property: spec_fn(T) -> bool) -> Seq<T>
    decreases items.len(),
{
    if items.len() == 0 {
        Seq::empty()
    } else {
        let rest = having(items.drop_last(), property);
        if property(items.last()) {
            rest.push(items.last())
        } else {
            rest
        }
    }
}

/// Keeps the items whose mark is set.
pub fn keep_marked<T>(items: Vec<T>, marks: &Vec<bool>) -> (r: Vec<T>)
    requires
        marks@.len() == items@.len(),
    ensures
        r@ == marked(items@, marks@),
{
    let ghost all = items@;
    let mut rest = items;
    let mut back: Vec<T> = Vec::new();
    let mut i: usize = rest.len();
    assert(all.take(i as int) =~= all);
    assert(back@.reverse() =~= Seq::empty());
    assert(marked(all, marks@) + back@.reverse() =~= marked(all, marks@));
    while i > 0
        invariant
            i <= all.len(),
            marks@.len() == all.len(),
            rest@ == all.take(i as int),
            marked(all.take(i as int), marks@) + back@.reverse() == marked(all, marks@),
        decreases i,
    {
        let ghost before = back@;
        assert(all.take(i as int).drop_last() =~= all.take(i - 1));
        i -= 1;
        if let Some(item) = rest.pop() {
            if marks[i] {
                back.push(item);
                assert(back@.reverse() =~= seq![item] + before.reverse());
                assert(marked(all.take(i as int), marks@) + back@.reverse() =~= marked(
                    all.take(i + 1),
                    marks@,
                ) + before.reverse());
            }
        }
    }
    let ghost kept = back@.reverse();
    assert(all.take(0) =~= Seq::empty());
    assert(kept =~= marked(all, marks@));
    let mut out: Vec<T> = Vec::new();
    let mut j: usize = back.len();
    assert(back@.reverse() =~= kept);
    while j > 0
        invariant
            j == back@.len(),
            out@ + back@.reverse() == kept,
        decreases j,
    {
        let ghost before = back@;
        let ghost out_before = out@;
        if let Some(item) = back.pop() {
            out.push(item);
            assert(before.reverse() =~= seq![item] + back@.reverse());
            assert(out@ + back@.reverse() =~= out_before + before.reverse());
        }
        j -= 1;
    }
    assert(out@ =~= kept);
    out
}

/// Marks that say of each item whether it has a property keep the items that have it.
pub proof fn lemma_marked_having<T>(items: Seq<T>, marks: Seq<bool>, property: spec_fn(T) -> bool)
    requires
        marks.len() >= items.len(),
        forall|i: int| 0 <= i < items.len() ==> #[trigger] marks[i] == property(items[i]),
    ensures
        marked(items, marks) == having(items, property),
    decreases items.len(),
{
    if items.len() > 0 {
        assert forall|i: int| 0 <= i < items.len() - 1 implies #[trigger] marks[i] == property(
            items.drop_last()[i],
        ) by {
            assert(items.drop_last()[i] == items[i]);
        }
        lemma_marked_having(items.drop_last(), marks, property);
    }
}

/// What is kept was there and has the property, and what was there with the property is kept;
/// the order stays.
pub proof fn lemma_having<T>(items: Seq<T>, property: spec_fn(T) -> bool)
    ensures
        having(items, property).len() <= items.len(),
        forall|i: int|
            0 <= i < having(items, property).len() ==> property(
                #[trigger] having(items, property)[i],
            ) && items.contains(having(items, property)[i]),
        forall|x: T|
            property(x) && #[trigger] items.contains(x) ==> having(items, property).contains(x),
    decreases items.len(),
{
    if items.len() > 0 {
        let start = items.drop_last();
        let rest = having(start, property);
        let all = having(items, property);
        lemma_having(start, property);
        assert forall|i: int| 0 <= i < all.len() implies property(#[trigger] all[i])
            && items.contains(all[i]) by {
            if i < rest.len() {
                assert(all[i] == rest[i]);
                assert(start.contains(rest[i]));
                let k = choose|k: int| 0 <= k < start.len() && start[k] == rest[i];
                assert(items[k] == rest[i]);
            } else {
                assert(items[items.len() - 1] == items.last());
            }
        }
        assert forall|x: T| property(x) && #[trigger] items.contains(x) implies all.contains(x) by {
            let k = choose|k: int| 0 <= k < items.len() && items[k] == x;
            if k < start.len() {
                assert(start[k] == x);
                assert(start.contains(x));
                let j = choose|j: int| 0 <= j < rest.len() && rest[j] == x;
                assert(all[j] == x);
            } else {
                assert(all[rest.len() as int] == x);
            }
        }
    }
}

/// Each kept item stands where some item of the whole stood, and later ones stood later.
pub open spec fn stands_for<T>(items: Seq<T>, kept: Seq<T>, places: Seq<int>) -> bool {
    &&& places.len() == kept.len()
    &&& forall|i: int|
        #![trigger places[i]]
        0 <= i < places.len() ==> 0 <= places[i] < items.len() && items[places[i]] == kept[i]
    &&& forall|i: int, j: int|
        #![trigger places[i], places[j]]
        0 <= i < j < places.len() ==> places[i] < places[j]
}

/// The places where the kept items stood.
pub proof fn lemma_having_places<T>(items: Seq<T>, property: spec_fn(T) -> bool) -> (places: Seq<
    int,
>)
    ensures
        stands_for(items, having(items, property), places),
    decreases items.len(),
{
    if items.len() == 0 {
        Seq::empty()
    } else {
        let start = items.drop_last();
        let before = lemma_having_places(start, property);
        let kept = having(start, property);
        assert forall|i: int| 0 <= i < before.len() implies 0 <= (#[trigger] before[i])
            < start.len() && items[before[i]] == kept[i] by {
            assert(start[before[i]] == kept[i]);
        }
        if property(items.last()) {
            let places = before.push(items.len() - 1);
            assert forall|i: int| 0 <= i < places.len() implies 0 <= (#[trigger] places[i])
                < items.len() && items[places[i]] == having(items, property)[i] by {
                if i < before.len() {
                    assert(places[i] == before[i]);
                }
            }
            assert forall|i: int, j: int|
                #![trigger places[i], places[j]]
                0 <= i < j < places.len() implies places[i] < places[j] by {
                assert(places[i] == before[i]);
                if j < before.len() {
                    assert(places[j] == before[j]);
                }
            }
            places
        } else {
            before
        }
    }
}

/// Whether a number is in a list.
pub fn has_id(list: &Vec<i64>, id: i64) -> (r: bool)
    ensures
        r == list@.contains(id),
{
    let mut i: usize = 0;
    while i < list.len()
        invariant
            i <= list@.len(),
            forall|k: int| 0 <= k < i ==> list@[k] != id,
        decreases list@.len() - i,
    {
        if list[i] == id {
            assert(list@[i as int] == id);
            return true;
        }
        i += 1;
    }
    false
}

/// The numbers of a list, each where it occurs first.
pub open spec fn firsts(list: Seq<i64>) -> Seq<i64>
    decreases list.len(),
{
    if list.len() == 0 {
        Seq::empty()
    } else {
        let rest = firsts(list.drop_last());
        if rest.contains(list.last()) {
            rest
        } else {
            rest.push(list.last())
        }
    }
}

/// The numbers of a list, each where it occurs first.
pub fn first_occurrences(list: &Vec<i64>) -> (r: Vec<i64>)
    ensures
        r@ == firsts(list@),
        r@.no_duplicates(),
        forall|x: i64| r@.contains(x) <==> list@.contains(x),
{
    let mut out: Vec<i64> = Vec::new();
    let mut i: usize = 0;
    while i < list.len()
        invariant
            i <= list@.len(),
            out@ == firsts(list@.take(i as int)),
        decreases list@.len() - i,
    {
        assert(list@.take(i + 1).drop_last() =~= list@.take(i as int));
        if !has_id(&out, list[i]) {
            out.push(list[i]);
        }
        i += 1;
    }
    assert(list@.take(i as int) =~= list@);
    proof {
        lemma_firsts(list@);
    }
    out
}

/// The first occurrences are the numbers of the list without repetition.
pub proof fn lemma_firsts(list: Seq<i64>)
    ensures
        firsts(list).no_duplicates(),
        firsts(list).len() <= list.len(),
        forall|x: i64| #![trigger firsts(list).contains(x)] #![trigger list.contains(x)]
            firsts(list).contains(x) <==> list.contains(x),
    decreases list.len(),
{
    if list.len() > 0 {
        let start = list.drop_last();
        let rest = firsts(start);
        let all = firsts(list);
        lemma_firsts(start);
        assert forall|x: i64| all.contains(x) <==> list.contains(x) by {
            if all.contains(x) {
                let k = choose|k: int| 0 <= k < all.len() && all[k] == x;
                if k < rest.len() {
                    assert(rest[k] == x);
                    assert(rest.contains(x));
                    let j = choose|j: int| 0 <= j < start.len() && start[j] == x;
                    assert(list[j] == x);
                } else {
                    assert(list[list.len() - 1] == x);
                }
            }
            if list.contains(x) {
                let k = choose|k: int| 0 <= k < list.len() && list[k] == x;
                if k < start.len() {
                    assert(start[k] == x);
                    assert(start.contains(x));
                    let j = choose|j: int| 0 <= j < rest.len() && rest[j] == x;
                    assert(all[j] == x);
                } else if !rest.contains(x) {
                    assert(all[rest.len() as int] == x);
                } else {
                    let j = choose|j: int| 0 <= j < rest.len() && rest[j] == x;
                    assert(all[j] == x);
                }
            }
        }
    }
}

} // verus!
