//! Stable sorting by source offset, and vectors kept strictly ascending.

use vstd::prelude::*;

use crate::span::Span;

verus! {

/// A value that stands at one source offset.
pub trait StartsAt: Sized {
    /// The offset.
    spec fn start_offset(self) -> u32;
}

/// A value whose source offset can be read.
pub trait ReadStart: StartsAt {
    /// Reads the offset.
    fn start(&self) -> (r: u32)
        ensures
            r == self.start_offset(),
    ;
}

/// The values of `s` that start at `offset`, in their order.
pub open spec fn starting_at<T: StartsAt>(s: Seq<T>, offset: u32) -> Seq<T> {
    s.filter(|x: T| x.start_offset() == offset)
}

/// Whether the offsets never descend.
pub open spec fn ascending<T: StartsAt>(s: Seq<T>) -> bool {
    forall|i: int, j: int|
        0 <= i < j < s.len() ==> #[trigger] s[i].start_offset() <= #[trigger] s[j].start_offset()
}

/// `after` holds the values of `before`, ascending, and values that start at the
/// same offset keep the order that they had.
pub open spec fn is_stable_sort<T: StartsAt>(before: Seq<T>, after: Seq<T>) -> bool {
    &&& ascending(after)
    &&& after.len() == before.len()
    &&& forall|offset: u32| #[trigger] starting_at(after, offset) == starting_at(before, offset)
}

/// The values of `s` sorted by start offset, those that start together in the
/// order that they have in `s`.
pub open spec fn stable_sort<T: StartsAt>(s: Seq<T>) -> Seq<T> {
    choose|after: Seq<T>| is_stable_sort(s, after)
}

proof fn lemma_starting_at_last<T: StartsAt>(s: Seq<T>, offset: u32)
    requires
        s.len() > 0,
    ensures
        starting_at(s, offset) == (if s.last().start_offset() == offset {
            starting_at(s.drop_last(), offset).push(s.last())
        } else {
            starting_at(s.drop_last(), offset)
        }),
{
    reveal(Seq::filter);
}

proof fn lemma_starting_at_member<T: StartsAt>(s: Seq<T>, x: T)
    ensures
        s.contains(x) <==> starting_at(s, x.start_offset()).contains(x),
{
    let here = |v: T| v.start_offset() == x.start_offset();
    if s.contains(x) {
        let i = choose|i: int| 0 <= i < s.len() && s[i] == x;
        s.lemma_filter_contains(here, i);
    }
    if s.filter(here).contains(x) {
        s.lemma_filter_contains_rev(here, x);
    }
}

/// Sorting keeps every value and adds none.
pub proof fn law_stable_sort_keeps_values<T: StartsAt>(before: Seq<T>, after: Seq<T>, x: T)
    requires
        is_stable_sort(before, after),
    ensures
        after.contains(x) <==> before.contains(x),
{
    lemma_starting_at_member(before, x);
    lemma_starting_at_member(after, x);
    assert(starting_at(after, x.start_offset()) == starting_at(before, x.start_offset()));
}

proof fn lemma_last_offset_bounds<T: StartsAt>(a: Seq<T>, b: Seq<T>)
    requires
        ascending(a),
        ascending(b),
        a.len() > 0,
        b.len() > 0,
        forall|offset: u32| #[trigger] starting_at(a, offset) == starting_at(b, offset),
    ensures
        a.last().start_offset() <= b.last().start_offset(),
{
    let x = a.last();
    assert(a[a.len() - 1] == x);
    lemma_starting_at_member(a, x);
    lemma_starting_at_member(b, x);
    assert(starting_at(a, x.start_offset()) == starting_at(b, x.start_offset()));
    let i = choose|i: int| 0 <= i < b.len() && b[i] == x;
    if i < b.len() - 1 {
        assert(b[i].start_offset() <= b[b.len() - 1].start_offset());
    }
}

/// A sequence has only one stable sort.
pub proof fn law_stable_sort_is_unique<T: StartsAt>(a: Seq<T>, b: Seq<T>)
    requires
        ascending(a),
        ascending(b),
        a.len() == b.len(),
        forall|offset: u32| #[trigger] starting_at(a, offset) == starting_at(b, offset),
    ensures
        a == b,
    decreases a.len(),
{
    if a.len() == 0 {
        assert(a =~= b);
    } else {
        lemma_last_offset_bounds(a, b);
        lemma_last_offset_bounds(b, a);
        let last = a.last().start_offset();
        assert(last == b.last().start_offset());
        lemma_starting_at_last(a, last);
        lemma_starting_at_last(b, last);
        assert(starting_at(a, last) == starting_at(b, last));
        assert(starting_at(a, last).last() == a.last());
        assert(starting_at(b, last).last() == b.last());
        assert forall|offset: u32| #[trigger]
            starting_at(a.drop_last(), offset) == starting_at(b.drop_last(), offset) by {
            lemma_starting_at_last(a, offset);
            lemma_starting_at_last(b, offset);
            assert(starting_at(a, offset) == starting_at(b, offset));
            if offset == last {
                assert(starting_at(a.drop_last(), offset) =~= starting_at(a, offset).drop_last());
                assert(starting_at(b.drop_last(), offset) =~= starting_at(b, offset).drop_last());
            }
        }
        law_stable_sort_is_unique(a.drop_last(), b.drop_last());
        assert(a =~= a.drop_last().push(a.last()));
        assert(b =~= b.drop_last().push(b.last()));
    }
}

/// A stable sort is the stable sort.
pub proof fn lemma_is_the_stable_sort<T: StartsAt>(before: Seq<T>, after: Seq<T>)
    requires
        is_stable_sort(before, after),
    ensures
        after == stable_sort(before),
{
    let other = stable_sort(before);
    assert(is_stable_sort(before, other));
    assert forall|offset: u32| #[trigger]
        starting_at(after, offset) == starting_at(other, offset) by {
        assert(starting_at(other, offset) == starting_at(before, offset));
    }
    law_stable_sort_is_unique(after, other);
}

proof fn lemma_starting_at_views<T: StartsAt + View>(s: Seq<T>, offset: u32) where T::V: StartsAt
    requires
        forall|x: T| #[trigger] x@.start_offset() == x.start_offset(),
    ensures
        starting_at(views(s), offset) == views(starting_at(s, offset)),
    decreases s.len(),
{
    if s.len() == 0 {
        reveal(Seq::filter);
        assert(starting_at(views(s), offset) =~= views(starting_at(s, offset)));
    } else {
        lemma_starting_at_views(s.drop_last(), offset);
        lemma_starting_at_last(s, offset);
        lemma_starting_at_last(views(s), offset);
        assert(views(s).drop_last() =~= views(s.drop_last()));
        assert(views(s).last() == s.last()@);
        assert(views(starting_at(s.drop_last(), offset).push(s.last())) =~= views(
            starting_at(s.drop_last(), offset),
        ).push(s.last()@));
    }
}

/// Sorting values sorts their views.
pub proof fn lemma_views_of_stable_sort<T: StartsAt + View>(before: Seq<T>, after: Seq<T>) where
    T::V: StartsAt,

    requires
        is_stable_sort(before, after),
        forall|x: T| #[trigger] x@.start_offset() == x.start_offset(),
    ensures
        views(after) == stable_sort(views(before)),
{
    assert forall|i: int, j: int| 0 <= i < j < after.len() implies #[trigger] views(
        after,
    )[i].start_offset() <= #[trigger] views(after)[j].start_offset() by {
        assert(after[i].start_offset() <= after[j].start_offset());
        assert(after[i]@.start_offset() == after[i].start_offset());
        assert(after[j]@.start_offset() == after[j].start_offset());
    }
    assert forall|offset: u32| #[trigger]
        starting_at(views(after), offset) == starting_at(views(before), offset) by {
        lemma_starting_at_views(after, offset);
        lemma_starting_at_views(before, offset);
        assert(starting_at(after, offset) == starting_at(before, offset));
    }
    lemma_is_the_stable_sort(views(before), views(after));
}

/// Moving `s[i]` down to `p` past values that all start later keeps the order of
/// values that start together.
proof fn lemma_move_down<T: StartsAt>(s: Seq<T>, p: int, i: int)
    requires
        0 <= p <= i < s.len(),
        forall|j: int| p <= j < i ==> #[trigger] s[j].start_offset() > s[i].start_offset(),
    ensures
        forall|offset: u32| #[trigger]
            starting_at(s.remove(i).insert(p, s[i]), offset) == starting_at(s, offset),
{
    let moved = s.remove(i).insert(p, s[i]);
    let a = s.subrange(0, p);
    let b = s.subrange(p, i);
    let x = seq![s[i]];
    let c = s.subrange(i + 1, s.len() as int);
    assert(s =~= a + (b + x) + c);
    assert(moved =~= a + (x + b) + c);
    assert forall|offset: u32| #[trigger] starting_at(moved, offset) == starting_at(s, offset) by {
        let here = |v: T| v.start_offset() == offset;
        Seq::filter_distributes_over_add(a + (b + x), c, here);
        Seq::filter_distributes_over_add(a, b + x, here);
        Seq::filter_distributes_over_add(b, x, here);
        Seq::filter_distributes_over_add(a + (x + b), c, here);
        Seq::filter_distributes_over_add(a, x + b, here);
        Seq::filter_distributes_over_add(x, b, here);
        if s[i].start_offset() == offset {
            assert forall|j: int| 0 <= j < b.len() implies !here(b[j]) by {
                assert(b[j] == s[p + j]);
            }
            b.lemma_all_neg_filter_empty(here);
        } else {
            x.lemma_all_neg_filter_empty(here);
        }
        assert((b + x).filter(here) =~= (x + b).filter(here));
    }
}

/// Where a value that starts at `offset` goes in an ascending sequence: behind
/// all values that start at `offset` or before.
spec fn place_for<T: StartsAt>(s: Seq<T>, offset: u32) -> int
    decreases s.len(),
{
    if s.len() == 0 || s.last().start_offset() <= offset {
        s.len() as int
    } else {
        place_for(s.drop_last(), offset)
    }
}

proof fn lemma_place_for<T: StartsAt>(s: Seq<T>, offset: u32)
    requires
        ascending(s),
    ensures
        0 <= place_for(s, offset) <= s.len(),
        forall|i: int|
            0 <= i < place_for(s, offset) ==> #[trigger] s[i].start_offset() <= offset,
        forall|i: int|
            place_for(s, offset) <= i < s.len() ==> #[trigger] s[i].start_offset() > offset,
    decreases s.len(),
{
    if s.len() > 0 {
        assert(s[s.len() - 1] == s.last());
        if s.last().start_offset() > offset {
            let rest = s.drop_last();
            lemma_place_for(rest, offset);
            assert forall|i: int| 0 <= i < place_for(s, offset) implies #[trigger]
                s[i].start_offset() <= offset by {
                assert(rest[i] == s[i]);
            }
            assert forall|i: int| place_for(s, offset) <= i < s.len() implies #[trigger]
                s[i].start_offset() > offset by {
                if i < rest.len() {
                    assert(rest[i] == s[i]);
                }
            }
        }
    }
}

proof fn lemma_stable_sort_exists<T: StartsAt>(s: Seq<T>)
    ensures
        exists|after: Seq<T>| is_stable_sort(s, after),
    decreases s.len(),
{
    if s.len() == 0 {
        assert(is_stable_sort(s, s));
    } else {
        let rest = s.drop_last();
        let x = s.last();
        lemma_stable_sort_exists(rest);
        let sorted = choose|after: Seq<T>| is_stable_sort(rest, after);
        let p = place_for(sorted, x.start_offset());
        lemma_place_for(sorted, x.start_offset());
        let pushed = sorted.push(x);
        let last = sorted.len() as int;
        lemma_move_down(pushed, p, last);
        let after = pushed.remove(last).insert(p, x);
        assert(after =~= sorted.insert(p, x));
        assert forall|offset: u32| #[trigger] starting_at(after, offset) == starting_at(s, offset) by {
            lemma_starting_at_last(s, offset);
            lemma_starting_at_last(pushed, offset);
            assert(pushed.drop_last() =~= sorted);
            assert(starting_at(sorted, offset) == starting_at(rest, offset));
            assert(starting_at(pushed.remove(last).insert(p, pushed[last]), offset) == starting_at(
                pushed,
                offset,
            ));
        }
        assert forall|i: int, j: int| 0 <= i < j < after.len() implies #[trigger]
            after[i].start_offset() <= #[trigger] after[j].start_offset() by {
            let low: int = if i < p { i } else { i - 1 };
            let high: int = if j < p { j } else { j - 1 };
            if i != p {
                assert(after[i] == sorted[low]);
            }
            if j != p {
                assert(after[j] == sorted[high]);
            }
        }
        assert(is_stable_sort(s, after));
    }
}

/// Every sequence has a stable sort.
pub proof fn law_stable_sort_sorts<T: StartsAt>(s: Seq<T>)
    ensures
        is_stable_sort(s, stable_sort(s)),
{
    lemma_stable_sort_exists(s);
}

/// Sorts by start offset; values that start together keep their order.
pub fn sort_by_start<T: ReadStart>(items: &mut Vec<T>)
    ensures
        is_stable_sort(old(items)@, final(items)@),
{
    let ghost before = items@;
    let mut done: usize = 0;
    while done < items.len()
        invariant
            done <= items@.len(),
            items@.len() == before.len(),
            forall|offset: u32| #[trigger]
                starting_at(items@, offset) == starting_at(before, offset),
            forall|i: int, j: int|
                0 <= i < j < done ==> #[trigger] items@[i].start_offset()
                    <= #[trigger] items@[j].start_offset(),
        decreases items@.len() - done,
    {
        let start: u32 = items[done].start();
        let mut at: usize = done;
        while at > 0 && items[at - 1].start() > start
            invariant
                at <= done < items@.len(),
                start == items@[done as int].start_offset(),
                forall|j: int| at <= j < done ==> #[trigger] items@[j].start_offset() > start,
            decreases at,
        {
            at = at - 1;
        }
        if at < done {
            let ghost current = items@;
            proof {
                lemma_move_down(current, at as int, done as int);
            }
            let item = items.remove(done);
            items.insert(at, item);
            assert(items@ =~= current.remove(done as int).insert(at as int, current[done as int]));
            assert forall|i: int, j: int| 0 <= i < j < done + 1 implies #[trigger] items@[i].start_offset()
                <= #[trigger] items@[j].start_offset() by {
                let low: int = if i < at { i } else if i == at { done as int } else { i - 1 };
                let high: int = if j < at { j } else if j == at { done as int } else { j - 1 };
                assert(items@[i] == current[low]);
                assert(items@[j] == current[high]);
                if high == done && at > 0 {
                    assert(current[low].start_offset() <= current[at - 1].start_offset());
                }
            }
        } else {
            assert forall|i: int, j: int| 0 <= i < j < done + 1 implies #[trigger] items@[i].start_offset()
                <= #[trigger] items@[j].start_offset() by {
                assert(items@[i].start_offset() <= items@[done - 1].start_offset());
            }
        }
        done = done + 1;
    }
}

/// A value with a strict total order on its view.
pub trait Ordered: View + Sized {
    /// Whether `a` comes before `b`.
    spec fn before(a: Self::V, b: Self::V) -> bool;

    proof fn before_is_irreflexive(a: Self::V)
        ensures
            !Self::before(a, a),
    ;

    proof fn before_is_transitive(a: Self::V, b: Self::V, c: Self::V)
        requires
            Self::before(a, b),
            Self::before(b, c),
        ensures
            Self::before(a, c),
    ;

    proof fn before_is_total(a: Self::V, b: Self::V)
        ensures
            Self::before(a, b) || a == b || Self::before(b, a),
    ;

    /// Compares two values.
    fn is_before(&self, other: &Self) -> (r: bool)
        ensures
            r == Self::before(self@, other@),
    ;
}

/// The views of the values of `s`.
pub open spec fn views<T: View>(s: Seq<T>) -> Seq<T::V> {
    s.map_values(|x: T| x@)
}

/// Whether each value comes before every value behind it.
pub open spec fn strictly_ascending<T: Ordered>(s: Seq<T::V>) -> bool {
    forall|i: int, j: int| 0 <= i < j < s.len() ==> T::before(#[trigger] s[i], #[trigger] s[j])
}

/// A strictly ascending list is settled by the values in it.
pub proof fn law_ascending_list_is_unique<T: Ordered>(a: Seq<T::V>, b: Seq<T::V>)
    requires
        strictly_ascending::<T>(a),
        strictly_ascending::<T>(b),
        forall|x: T::V| #[trigger] a.contains(x) <==> b.contains(x),
    ensures
        a == b,
    decreases a.len(),
{
    if a.len() == 0 {
        if b.len() > 0 {
            assert(b.contains(b[0]));
            assert(a.contains(b[0]));
        }
        assert(a =~= b);
    } else {
        assert(a.contains(a.last()));
        assert(b.len() > 0);
        assert(b.contains(b.last()));
        assert(a.contains(b.last()));
        let i = choose|i: int| 0 <= i < b.len() && b[i] == a.last();
        let j = choose|j: int| 0 <= j < a.len() && a[j] == b.last();
        if a.last() != b.last() {
            assert(T::before(b[i], b[b.len() - 1]));
            assert(T::before(a[j], a[a.len() - 1]));
            T::before_is_transitive(a.last(), b.last(), a.last());
            T::before_is_irreflexive(a.last());
        }
        let shorter_a = a.drop_last();
        let shorter_b = b.drop_last();
        assert forall|x: T::V| #[trigger] shorter_a.contains(x) <==> shorter_b.contains(x) by {
            T::before_is_irreflexive(x);
            if shorter_a.contains(x) {
                let k = choose|k: int| 0 <= k < shorter_a.len() && shorter_a[k] == x;
                assert(T::before(a[k], a[a.len() - 1]));
                assert(a.contains(x));
                let m = choose|m: int| 0 <= m < b.len() && b[m] == x;
                assert(shorter_b[m] == x);
            }
            if shorter_b.contains(x) {
                let k = choose|k: int| 0 <= k < shorter_b.len() && shorter_b[k] == x;
                assert(T::before(b[k], b[b.len() - 1]));
                assert(b.contains(x));
                assert(a.contains(x));
                let m = choose|m: int| 0 <= m < a.len() && a[m] == x;
                assert(shorter_a[m] == x);
            }
        }
        law_ascending_list_is_unique::<T>(shorter_a, shorter_b);
        assert(a =~= shorter_a.push(a.last()));
        assert(b =~= shorter_b.push(b.last()));
    }
}

/// A value put behind all smaller and before all larger values keeps the order.
pub proof fn lemma_insert_keeps_ascending<T: Ordered>(before: Seq<T::V>, at: int, value: T::V)
    requires
        strictly_ascending::<T>(before),
        0 <= at <= before.len(),
        at > 0 ==> T::before(before[at - 1], value),
        forall|j: int| at <= j < before.len() ==> T::before(value, #[trigger] before[j]),
    ensures
        strictly_ascending::<T>(before.insert(at, value)),
        forall|x: T::V| #[trigger]
            before.insert(at, value).contains(x) <==> before.contains(x) || x == value,
{
    let after = before.insert(at, value);
    assert forall|i: int, j: int| 0 <= i < j < after.len() implies T::before(
        #[trigger] after[i],
        #[trigger] after[j],
    ) by {
        let low: int = if i < at { i } else { i - 1 };
        let high: int = if j < at { j } else { j - 1 };
        if i != at && j != at {
            assert(T::before(before[low], before[high]));
        } else if j == at {
            if i < at - 1 {
                assert(T::before(before[i], before[at - 1]));
                T::before_is_transitive(before[i], before[at - 1], value);
            }
        } else {
            assert(T::before(value, before[high]));
        }
    }
    assert forall|x: T::V| #[trigger] after.contains(x) <==> before.contains(x) || x == value by {
        if before.contains(x) {
            let k = choose|k: int| 0 <= k < before.len() && before[k] == x;
            if k < at {
                assert(after[k] == x);
            } else {
                assert(after[k + 1] == x);
            }
        }
        if x == value {
            assert(after[at] == x);
        }
        if after.contains(x) {
            let k = choose|k: int| 0 <= k < after.len() && after[k] == x;
            if k < at {
                assert(before[k] == x);
            } else if k > at {
                assert(before[k - 1] == x);
            }
        }
    }
}

/// Every value has a place in a strictly ascending list that lacks it.
pub proof fn lemma_place_in_ascending<T: Ordered>(s: Seq<T::V>, value: T::V) -> (at: int)
    requires
        strictly_ascending::<T>(s),
        !s.contains(value),
    ensures
        0 <= at <= s.len(),
        at > 0 ==> T::before(s[at - 1], value),
        forall|j: int| at <= j < s.len() ==> T::before(value, #[trigger] s[j]),
    decreases s.len(),
{
    if s.len() == 0 {
        0
    } else {
        T::before_is_total(s.last(), value);
        assert(s.contains(s.last()));
        if T::before(s.last(), value) {
            s.len() as int
        } else {
            let shorter = s.drop_last();
            assert(forall|k: int| 0 <= k < shorter.len() ==> shorter[k] == s[k]);
            let at = lemma_place_in_ascending::<T>(shorter, value);
            assert forall|j: int| at <= j < s.len() implies T::before(value, #[trigger] s[j]) by {
                if j < s.len() - 1 {
                    assert(T::before(value, shorter[j]));
                }
            }
            at
        }
    }
}

/// Puts `item` in its place, unless an equal value is there already.
pub fn insert_unique<T: Ordered>(items: &mut Vec<T>, item: T)
    requires
        strictly_ascending::<T>(views(old(items)@)),
    ensures
        strictly_ascending::<T>(views(final(items)@)),
        forall|x: T::V| #[trigger]
            views(final(items)@).contains(x) <==> views(old(items)@).contains(x) || x == item@,
{
    let ghost before = views(items@);
    let mut at: usize = items.len();
    while at > 0 && item.is_before(&items[at - 1])
        invariant
            at <= items@.len(),
            before == views(items@),
            forall|j: int| at <= j < items@.len() ==> T::before(item@, #[trigger] before[j]),
        decreases at,
    {
        at = at - 1;
    }
    if at > 0 && !items[at - 1].is_before(&item) {
        proof {
            T::before_is_total(items@[at - 1]@, item@);
            assert(before[at - 1] == item@);
        }
        return ;
    }
    let ghost value = item@;
    items.insert(at, item);
    proof {
        assert(views(items@) =~= before.insert(at as int, value));
        lemma_insert_keeps_ascending::<T>(before, at as int, value);
    }
}

impl Ordered for u32 {
    open spec fn before(a: u32, b: u32) -> bool {
        a < b
    }

    proof fn before_is_irreflexive(a: u32) {
    }

    proof fn before_is_transitive(a: u32, b: u32, c: u32) {
    }

    proof fn before_is_total(a: u32, b: u32) {
    }

    fn is_before(&self, other: &u32) -> (r: bool) {
        *self < *other
    }
}

impl View for Span {
    type V = Span;

    open spec fn view(&self) -> Span {
        *self
    }
}

impl Ordered for Span {
    open spec fn before(a: Span, b: Span) -> bool {
        a.start < b.start || (a.start == b.start && a.end < b.end)
    }

    proof fn before_is_irreflexive(a: Span) {
    }

    proof fn before_is_transitive(a: Span, b: Span, c: Span) {
    }

    proof fn before_is_total(a: Span, b: Span) {
    }

    fn is_before(&self, other: &Span) -> (r: bool) {
        self.start < other.start || (self.start == other.start && self.end < other.end)
    }
}

proof fn lemma_starting_at_is_filter<T: StartsAt>(
    s: Seq<T>,
    offset: u32,
    starts_there: spec_fn(T) -> bool,
)
    requires
        forall|x: T| #[trigger] starts_there(x) <==> x.start_offset() == offset,
    ensures
        s.filter(starts_there) == starting_at(s, offset),
    decreases s.len(),
{
    reveal(Seq::filter);
    if s.len() > 0 {
        lemma_starting_at_is_filter(s.drop_last(), offset, starts_there);
        lemma_starting_at_last(s, offset);
        assert(starts_there(s.last()) <==> s.last().start_offset() == offset);
    }
}

/// Sorting keeps how many values there are, puts them in the order of their
/// offsets, and keeps the values of each offset in the order that they had.
pub proof fn law_stable_sort_keeps_order_of_equals<T: StartsAt>(
    before: Seq<T>,
    after: Seq<T>,
    offset: u32,
    starts_there: spec_fn(T) -> bool,
)
    requires
        is_stable_sort(before, after),
        forall|x: T| #[trigger] starts_there(x) <==> x.start_offset() == offset,
    ensures
        after.len() == before.len(),
        forall|i: int, j: int|
            0 <= i < j < after.len() ==> #[trigger] after[i].start_offset()
                <= #[trigger] after[j].start_offset(),
        after.filter(starts_there) == before.filter(starts_there),
{
    assert(starting_at(after, offset) == starting_at(before, offset));
    lemma_starting_at_is_filter(before, offset, starts_there);
    lemma_starting_at_is_filter(after, offset, starts_there);
}

/// The views of values are one for each value, in the same order.
pub proof fn law_views_are_one_by_one<T: View>(s: Seq<T>, i: int)
    ensures
        views(s).len() == s.len(),
        0 <= i < s.len() ==> views(s)[i] == s[i]@,
{
}

/// In a strictly ascending list each value comes before every later one.
pub proof fn law_strictly_ascending_pairs<T: Ordered>(s: Seq<T::V>)
    ensures
        strictly_ascending::<T>(s) <==> (forall|i: int, j: int|
            0 <= i < j < s.len() ==> T::before(#[trigger] s[i], #[trigger] s[j])),
{
}

/// Numbers are ordered by size, and spans by where they start and then by where
/// they end.
pub proof fn law_numbers_and_spans_are_ordered(a: u32, b: u32, s: Span, t: Span)
    ensures
        <u32 as Ordered>::before(a, b) == (a < b),
        s.start != t.start ==> <Span as Ordered>::before(s, t) == (s.start < t.start),
        s.start == t.start ==> <Span as Ordered>::before(s, t) == (s.end < t.end),
{
}

/// Where all values start at one offset, those that start there are all values.
pub proof fn lemma_all_start_at<T: StartsAt>(s: Seq<T>, offset: u32)
    requires
        forall|i: int| 0 <= i < s.len() ==> (#[trigger] s[i]).start_offset() == offset,
    ensures
        starting_at(s, offset) == s,
    decreases s.len(),
{
    if s.len() == 0 {
        reveal(Seq::filter);
        assert(starting_at(s, offset) =~= s);
    } else {
        assert(forall|i: int| 0 <= i < s.drop_last().len() ==> s.drop_last()[i] == s[i]);
        lemma_all_start_at(s.drop_last(), offset);
        lemma_starting_at_last(s, offset);
        assert(s[s.len() - 1].start_offset() == offset);
        assert(s =~= s.drop_last().push(s.last()));
    }
}

} // verus!
