//! The first value of a sequence that fits.

use vstd::prelude::*;

verus! {

/// The first value of `s` that `fits`.
pub open spec fn first_where<T>(s: Seq<T>, fits: spec_fn(T) -> bool) -> Option<T>
    decreases s.len(),
{
    if s.len() == 0 {
        None
    } else if fits(s[0]) {
        Some(s[0])
    } else {
        first_where(s.drop_first(), fits)
    }
}

/// A value that fits, with none before it that does, is the first.
pub proof fn lemma_first_where_at<T>(s: Seq<T>, fits: spec_fn(T) -> bool, i: int)
    requires
        0 <= i < s.len(),
        fits(s[i]),
        forall|j: int| 0 <= j < i ==> !fits(#[trigger] s[j]),
    ensures
        first_where(s, fits) == Some(s[i]),
    decreases i,
{
    if i > 0 {
        assert forall|j: int| 0 <= j < i - 1 implies !fits(#[trigger] s.drop_first()[j]) by {
            assert(s.drop_first()[j] == s[j + 1]);
        }
        assert(!fits(s[0]));
        lemma_first_where_at(s.drop_first(), fits, i - 1);
    }
}

/// Where nothing fits, there is no first.
pub proof fn lemma_first_where_none<T>(s: Seq<T>, fits: spec_fn(T) -> bool)
    requires
        forall|j: int| 0 <= j < s.len() ==> !fits(#[trigger] s[j]),
    ensures
        first_where(s, fits) is None,
    decreases s.len(),
{
    if s.len() > 0 {
        assert forall|j: int| 0 <= j < s.drop_first().len() implies !fits(
            #[trigger] s.drop_first()[j],
        ) by {
            assert(s.drop_first()[j] == s[j + 1]);
        }
        assert(!fits(s[0]));
        lemma_first_where_none(s.drop_first(), fits);
    }
}

/// The first that fits is a value of the sequence, and it fits.
pub proof fn lemma_first_where_fits<T>(s: Seq<T>, fits: spec_fn(T) -> bool)
    ensures
        first_where(s, fits) matches Some(x) ==> s.contains(x) && fits(x),
    decreases s.len(),
{
    if s.len() > 0 {
        if fits(s[0]) {
            assert(s.contains(s[0]));
        } else {
            lemma_first_where_fits(s.drop_first(), fits);
            if let Some(x) = first_where(s.drop_first(), fits) {
                let i = choose|i: int| 0 <= i < s.drop_first().len() && s.drop_first()[i] == x;
                assert(s[i + 1] == x);
            }
        }
    }
}

/// The first that fits in a concatenation is the one of the first part, or else
/// the one of the second part.
pub proof fn lemma_first_where_concat<T>(a: Seq<T>, b: Seq<T>, fits: spec_fn(T) -> bool)
    ensures
        first_where(a + b, fits) == (match first_where(a, fits) {
            Some(x) => Some(x),
            None => first_where(b, fits),
        }),
    decreases a.len(),
{
    if a.len() == 0 {
        assert(a + b =~= b);
    } else {
        assert((a + b)[0] == a[0]);
        assert((a + b).drop_first() =~= a.drop_first() + b);
        lemma_first_where_concat(a.drop_first(), b, fits);
    }
}

/// A flattened sequence falls into what comes before one value, what that value
/// gives, and what comes behind.
pub proof fn lemma_flat_map_split<T, U>(s: Seq<T>, f: spec_fn(T) -> Seq<U>, i: int)
    requires
        0 <= i < s.len(),
    ensures
        s.flat_map(f) == s.take(i).flat_map(f) + f(s[i]) + s.skip(i + 1).flat_map(f),
{
    let head = s.take(i + 1);
    let tail = s.skip(i + 1);
    assert(s.map_values(f) =~= head.map_values(f) + tail.map_values(f));
    vstd::seq_lib::lemma_flatten_concat(head.map_values(f), tail.map_values(f));
    s.lemma_flat_map_take_append(f, i);
}

/// The first value that fits is one that fits, with none before it that does; there
/// is none only where nothing fits.
pub proof fn law_first_where_is_first<T>(s: Seq<T>, fits: spec_fn(T) -> bool)
    ensures
        match first_where(s, fits) {
            Some(x) => exists|i: int|
                0 <= i < s.len() && #[trigger] s[i] == x && fits(s[i]) && forall|j: int|
                    0 <= j < i ==> !fits(#[trigger] s[j]),
            None => forall|j: int| 0 <= j < s.len() ==> !fits(#[trigger] s[j]),
        },
    decreases s.len(),
{
    if s.len() > 0 {
        let rest = s.drop_first();
        law_first_where_is_first(rest, fits);
        if fits(s[0]) {
            assert(s[0] == first_where(s, fits)->0);
        } else {
            match first_where(rest, fits) {
                Some(x) => {
                    let i = choose|i: int|
                        0 <= i < rest.len() && #[trigger] rest[i] == x && fits(rest[i]) && forall|
                            j: int,
                        |
                            0 <= j < i ==> !fits(#[trigger] rest[j]);
                    assert forall|j: int| 0 <= j < i + 1 implies !fits(#[trigger] s[j]) by {
                        if j > 0 {
                            assert(rest[j - 1] == s[j]);
                        }
                    }
                    assert(s[i + 1] == x);
                },
                None => {
                    assert forall|j: int| 0 <= j < s.len() implies !fits(#[trigger] s[j]) by {
                        if j > 0 {
                            assert(rest[j - 1] == s[j]);
                        }
                    }
                },
            }
        }
    }
}

/// Where nothing fits in what any value gives, nothing fits in what all give.
pub proof fn lemma_first_where_none_in_flat_map<T, U>(
    s: Seq<T>,
    f: spec_fn(T) -> Seq<U>,
    fits: spec_fn(U) -> bool,
)
    requires
        forall|i: int| 0 <= i < s.len() ==> first_where(f(#[trigger] s[i]), fits) is None,
    ensures
        first_where(s.flat_map(f), fits) is None,
    decreases s.len(),
{
    if s.len() == 0 {
        assert(s.flat_map(f) =~= Seq::empty());
    } else {
        let n = s.len() - 1;
        lemma_first_where_none_in_flat_map(s.drop_last(), f, fits);
        s.lemma_flat_map_take_append(f, n);
        assert(s.take(n + 1) =~= s);
        assert(s.take(n) =~= s.drop_last());
        lemma_first_where_concat(s.drop_last().flat_map(f), f(s[n]), fits);
    }
}

} // verus!
