use vstd::prelude::*;

use crate::definition;
use crate::definition::{ExerciseDefinition, OpenedExercise};

verus! {

/// What is ordered by the number of a chapter and the number of an exercise.
pub trait Numbered: View + Sized {
    /// The two numbers.
    spec fn numbers_of(view: Self::V) -> (u16, u16);

    /// The two numbers.
    fn numbers(&self) -> (numbers: (u16, u16))
        ensures
            numbers == Self::numbers_of(self@),
    ;

    /// Whether both say the same.
    fn same(&self, other: &Self) -> (same: bool)
        ensures
            same == (self@ == other@),
    ;
}

impl Numbered for ExerciseDefinition {
    open spec fn numbers_of(view: definition::DefinitionView) -> (u16, u16) {
        view.numbers()
    }

    fn numbers(&self) -> (numbers: (u16, u16)) {
        (self.chapter_number(), self.exercise_number())
    }

    fn same(&self, other: &Self) -> (same: bool) {
        self.equals(other)
    }
}

impl Numbered for OpenedExercise {
    open spec fn numbers_of(view: definition::OpenedView) -> (u16, u16) {
        view.definition.numbers()
    }

    fn numbers(&self) -> (numbers: (u16, u16)) {
        self.definition.numbers()
    }

    fn same(&self, other: &Self) -> (same: bool) {
        self.definition.equals(&other.definition) && self.solved == other.solved
    }
}

/// What the items say, one by one.
pub open spec fn views<T: View>(items: Seq<T>) -> Seq<T::V> {
    items.map_values(|item: T| item@)
}

/// One more item says one more thing.
pub broadcast proof fn lemma_views_push<T: View>(items: Seq<T>, item: T)
    ensures
        #[trigger] views(items.push(item)) == views(items).push(item@),
{
}

/// No item comes before one in front of it, and nothing is there twice.
pub open spec fn in_order<T: Numbered>(items: Seq<T::V>) -> bool {
    forall|i: int, j: int|
        0 <= i < j < items.len() ==> {
            &&& !definition::comes_before(
                T::numbers_of(#[trigger] items[j]),
                T::numbers_of(#[trigger] items[i]),
            )
            &&& items[i] != items[j]
        }
}

/// Some item has these numbers.
pub open spec fn has_numbers<T: Numbered>(items: Seq<T::V>, numbers: (u16, u16)) -> bool {
    exists|i: int| 0 <= i < items.len() && T::numbers_of(#[trigger] items[i]) == numbers
}

/// The index of the first of `items` that is `item`, if it is one of them.
pub open spec fn first_place<V>(items: Seq<V>, item: V) -> int
    decreases items.len(),
{
    if items.len() == 0 {
        0
    } else if items.drop_last().contains(item) {
        first_place(items.drop_last(), item)
    } else {
        items.len() - 1
    }
}

/// In a set of the items, `a` stands before `b`: its numbers come before, or they are the same
/// and it came first.
pub open spec fn precedes<T: Numbered>(items: Seq<T::V>, a: T::V, b: T::V) -> bool {
    ||| definition::comes_before(T::numbers_of(a), T::numbers_of(b))
    ||| T::numbers_of(a) == T::numbers_of(b) && first_place(items, a) < first_place(items, b)
}

/// `set` holds what is among the items, each thing once, in the order of the numbers. Things
/// with the same numbers stay in the order in which they came.
pub open spec fn is_set_of<T: Numbered>(items: Seq<T::V>, set: Seq<T::V>) -> bool {
    &&& forall|item: T::V| #[trigger] set.contains(item) <==> items.contains(item)
    &&& forall|i: int, j: int|
        0 <= i < j < set.len() ==> precedes::<T>(items, #[trigger] set[i], #[trigger] set[j])
}

/// A first place is where the item is, and it is not in front of that.
proof fn lemma_first_place<V>(items: Seq<V>, item: V)
    requires
        items.contains(item),
    ensures
        0 <= first_place(items, item) < items.len(),
        items[first_place(items, item)] == item,
        forall|i: int| 0 <= i < first_place(items, item) ==> items[i] != item,
    decreases items.len(),
{
    let front = items.drop_last();
    if front.contains(item) {
        lemma_first_place(front, item);
        assert forall|i: int| 0 <= i < first_place(items, item) implies items[i] != item by {
            assert(front[i] == items[i]);
        }
    } else {
        let i = items.index_of(item);
        if i < front.len() {
            assert(front[i] == item);
        }
        assert forall|i: int| 0 <= i < front.len() implies items[i] != item by {
            assert(front[i] == items[i]);
        }
    }
}

/// A set is in order.
pub proof fn lemma_set_in_order<T: Numbered>(items: Seq<T::V>, set: Seq<T::V>)
    requires
        is_set_of::<T>(items, set),
    ensures
        in_order::<T>(set),
        set.no_duplicates(),
{
    assert forall|i: int, j: int| 0 <= i < j < set.len() implies {
        &&& !definition::comes_before(
            T::numbers_of(#[trigger] set[j]),
            T::numbers_of(#[trigger] set[i]),
        )
        &&& set[i] != set[j]
    } by {
        assert(precedes::<T>(items, set[i], set[j]));
    }
}

proof fn lemma_set_of_one_more<T: Numbered>(
    items: Seq<T::V>,
    set: Seq<T::V>,
    item: T::V,
    at: int,
    grown: Seq<T::V>,
)
    requires
        is_set_of::<T>(items, set),
        if set.contains(item) {
            grown == set
        } else {
            &&& 0 <= at <= set.len()
            &&& grown == set.insert(at, item)
            &&& forall|i: int|
                0 <= i < at ==> !definition::comes_before(
                    T::numbers_of(item),
                    T::numbers_of(#[trigger] set[i]),
                )
            &&& forall|i: int|
                at <= i < set.len() ==> definition::comes_before(
                    T::numbers_of(item),
                    T::numbers_of(#[trigger] set[i]),
                )
        },
    ensures
        is_set_of::<T>(items.push(item), grown),
{
    let more = items.push(item);
    assert(more.drop_last() =~= items);
    assert forall|one: T::V| #[trigger] grown.contains(one) <==> more.contains(one) by {
        if grown.contains(one) && one != item {
            let k = grown.index_of(one);
            assert(set.contains(one)) by {
                let old_k = if grown == set || k < at { k } else { k - 1 };
                assert(set[old_k] == one);
            }
            let i = items.index_of(one);
            assert(items.contains(one));
            assert(more[i] == one);
        }
        if more.contains(one) {
            let i = more.index_of(one);
            if i < items.len() {
                assert(items[i] == one);
                assert(set.contains(one));
                let k = set.index_of(one);
                let new_k = if grown == set || k < at { k } else { k + 1 };
                assert(grown[new_k] == one);
            } else if !set.contains(item) {
                assert(grown[at] == item);
            }
        }
        if one == item {
            assert(more[items.len() as int] == item);
        }
    }
    assert forall|i: int, j: int| 0 <= i < j < grown.len() implies precedes::<T>(
        more,
        #[trigger] grown[i],
        #[trigger] grown[j],
    ) by {
        if set.contains(item) {
            assert(set.contains(set[i]) && set.contains(set[j]));
            assert(precedes::<T>(items, set[i], set[j]));
        } else {
            let old_i = if i > at { i - 1 } else { i };
            let old_j = if j > at { j - 1 } else { j };
            if i != at {
                assert(set.contains(set[old_i]));
                lemma_first_place(items, set[old_i]);
            }
            if j != at {
                assert(set.contains(set[old_j]));
            }
            if i != at && j != at {
                assert(precedes::<T>(items, set[old_i], set[old_j]));
            }
        }
    }
}

/// There is one set of given items.
pub proof fn law_set_is_determined<T: Numbered>(items: Seq<T::V>, a: Seq<T::V>, b: Seq<T::V>)
    requires
        is_set_of::<T>(items, a),
        is_set_of::<T>(items, b),
    ensures
        a == b,
{
    lemma_same_members_from::<T>(items, a, b, 0);
}

proof fn lemma_same_members_from<T: Numbered>(
    items: Seq<T::V>,
    a: Seq<T::V>,
    b: Seq<T::V>,
    from: int,
)
    requires
        is_set_of::<T>(items, a),
        is_set_of::<T>(items, b),
        0 <= from <= a.len(),
        from <= b.len(),
        forall|k: int| 0 <= k < from ==> a[k] == b[k],
    ensures
        a.len() == b.len(),
        forall|k: int| 0 <= k < a.len() ==> a[k] == b[k],
    decreases a.len() - from,
{
    if from < a.len() {
        assert(a.contains(a[from]));
        assert(b.contains(a[from]));
        let k = b.index_of(a[from]);
        assert(from <= k) by {
            if k < from {
                assert(precedes::<T>(items, a[k], a[from]));
            }
        }
        assert(b.contains(b[from]));
        assert(a.contains(b[from]));
        let m = a.index_of(b[from]);
        assert(from <= m) by {
            if m < from {
                assert(precedes::<T>(items, b[m], b[from]));
            }
        }
        assert(a[from] == b[from]) by {
            if from < k && from < m {
                assert(precedes::<T>(items, b[from], b[k]));
                assert(precedes::<T>(items, a[from], a[m]));
            }
        }
        lemma_same_members_from::<T>(items, a, b, from + 1);
    } else if from < b.len() {
        assert(b.contains(b[from]));
        assert(a.contains(b[from]));
        let m = a.index_of(b[from]);
        assert(precedes::<T>(items, b[m], b[from]));
    }
}

/// A set holds no more than the items that it was made of, and as much where nothing is among
/// them twice.
pub proof fn lemma_set_len<T: Numbered>(items: Seq<T::V>, set: Seq<T::V>)
    requires
        is_set_of::<T>(items, set),
    ensures
        set.len() <= items.len(),
        items.no_duplicates() ==> set.len() == items.len(),
{
    lemma_set_in_order::<T>(items, set);
    set.unique_seq_to_set();
    items.lemma_cardinality_of_set();
    assert(set.to_set() =~= items.to_set()) by {
        assert forall|item: T::V| set.to_set().contains(item) <==> items.to_set().contains(item) by {
            assert(set.contains(item) <==> items.contains(item));
        }
    }
    if items.no_duplicates() {
        items.unique_seq_to_set();
    }
}

/// Puts `item` where it belongs in `set`, unless it is already there.
pub(crate) fn insert<T: Numbered>(set: &mut Vec<T>, item: T, Ghost(items): Ghost<Seq<T::V>>)
    requires
        is_set_of::<T>(items, views(old(set)@)),
    ensures
        is_set_of::<T>(items.push(item@), views(final(set)@)),
{
    let ghost before = views(set@);
    let ghost new = item@;
    let numbers = item.numbers();
    proof {
        lemma_set_in_order::<T>(items, before);
    }
    let mut at: usize = 0;
    while at < set.len()
        invariant
            at <= set.len(),
            set@ == old(set)@,
            before == views(set@),
            new == item@,
            is_set_of::<T>(items, before),
            numbers == T::numbers_of(new),
            forall|k: int|
                0 <= k < at ==> {
                    &&& !definition::comes_before(numbers, T::numbers_of(#[trigger] before[k]))
                    &&& before[k] != new
                },
        ensures
            at == set.len() || definition::comes_before(numbers, T::numbers_of(before[at as int])),
        decreases set.len() - at,
    {
        assert(before[at as int] == set@[at as int]@);
        if set[at].same(&item) {
            proof {
                assert(before.contains(new));
                lemma_set_of_one_more::<T>(items, before, new, 0, before);
            }
            return;
        }
        let there = set[at].numbers();
        if numbers.0 < there.0 || numbers.0 == there.0 && numbers.1 < there.1 {
            break;
        }
        at += 1;
    }
    proof {
        assert forall|k: int| at <= k < before.len() implies definition::comes_before(
            numbers,
            T::numbers_of(#[trigger] before[k]),
        ) by {
            if k > at {
                assert(!definition::comes_before(
                    T::numbers_of(before[k]),
                    T::numbers_of(before[at as int]),
                ));
            }
        }
        assert(!before.contains(new));
    }
    set.insert(at, item);
    proof {
        let grown = before.insert(at as int, new);
        assert(views(set@) =~= grown);
        lemma_set_of_one_more::<T>(items, before, new, at as int, grown);
    }
}

/// What the items say is as long as they are, and each is what the item in its place says.
pub proof fn law_views<T: View>(items: Seq<T>)
    ensures
        views(items).len() == items.len(),
        forall|i: int| 0 <= i < items.len() ==> #[trigger] views(items)[i] == items[i]@,
{
}

/// A set of exercises holds each item once and nothing else, and is sorted by the number of the
/// chapter, then by the number of the exercise. Of two with the same numbers, the one that came
/// first stands first.
pub proof fn law_set_is_sorted(
    items: Seq<definition::DefinitionView>,
    set: Seq<definition::DefinitionView>,
)
    requires
        is_set_of::<ExerciseDefinition>(items, set),
    ensures
        forall|k: int| 0 <= k < set.len() ==> items.contains(#[trigger] set[k]),
        forall|k: int| 0 <= k < items.len() ==> set.contains(#[trigger] items[k]),
        forall|i: int, j: int|
            0 <= i < j < set.len() ==> {
                &&& (#[trigger] set[i]) != (#[trigger] set[j])
                &&& set[i].chapter_number <= set[j].chapter_number
                &&& set[i].chapter_number == set[j].chapter_number ==> set[i].number
                    <= set[j].number
            },
        forall|i: int, j: int|
            0 <= i < j < set.len() && set[i].chapter_number == set[j].chapter_number
                && set[i].number == set[j].number ==> exists|p: int|
                {
                    &&& 0 <= p < items.len()
                    &&& #[trigger] items[p] == #[trigger] set[i]
                    &&& !items.take(p).contains(#[trigger] set[j])
                },
{
    assert forall|k: int| 0 <= k < set.len() implies items.contains(#[trigger] set[k]) by {
        assert(set.contains(set[k]));
    }
    assert forall|k: int| 0 <= k < items.len() implies set.contains(#[trigger] items[k]) by {
        assert(items.contains(items[k]));
    }
    assert forall|i: int, j: int| 0 <= i < j < set.len() implies precedes::<ExerciseDefinition>(
        items,
        #[trigger] set[i],
        #[trigger] set[j],
    ) by {}
    assert forall|i: int, j: int|
        0 <= i < j < set.len() && set[i].chapter_number == set[j].chapter_number && set[i].number
            == set[j].number implies exists|p: int|
        {
            &&& 0 <= p < items.len()
            &&& #[trigger] items[p] == #[trigger] set[i]
            &&& !items.take(p).contains(#[trigger] set[j])
        } by {
        assert(precedes::<ExerciseDefinition>(items, set[i], set[j]));
        assert(items.contains(set[i]) && items.contains(set[j]));
        lemma_first_place(items, set[i]);
        lemma_first_place(items, set[j]);
        let p = first_place(items, set[i]);
        assert(!items.take(p).contains(set[j])) by {
            if items.take(p).contains(set[j]) {
                let q = items.take(p).index_of(set[j]);
                assert(items.take(p)[q] == items[q]);
            }
        }
        assert(items[p] == set[i]);
    }
}

} // verus!
