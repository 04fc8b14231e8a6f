//! Counting the entries of a sequence that have a property.

use vstd::prelude::*;

verus! {

/// The number of entries of `s` for which `pred` holds.
pub open spec fn count_where<T>(s: Seq<T>, pred: spec_fn(T) -> bool) -> nat
    decreases s.len(),
{
    if s.len() == 0 {
        0
    } else {
        count_where(s.drop_last(), pred) + if pred(s.last()) {
            1nat
        } else {
            0nat
        }
    }
}

/// Nothing is counted where no entry has the property.
pub proof fn lemma_count_none<T>(s: Seq<T>, pred: spec_fn(T) -> bool)
    requires
        forall|i: int| 0 <= i < s.len() ==> !pred(#[trigger] s[i]),
    ensures
        count_where(s, pred) == 0,
    decreases s.len(),
{
    if s.len() > 0 {
        assert forall|i: int| 0 <= i < s.len() - 1 implies !pred(#[trigger] s.drop_last()[i]) by {
            assert(s.drop_last()[i] == s[i]);
        }
        lemma_count_none(s.drop_last(), pred);
        assert(s.last() == s[s.len() - 1]);
    }
}

/// Every entry is counted where all have the property.
pub proof fn lemma_count_all<T>(s: Seq<T>, pred: spec_fn(T) -> bool)
    requires
        forall|i: int| 0 <= i < s.len() ==> pred(#[trigger] s[i]),
    ensures
        count_where(s, pred) == s.len(),
    decreases s.len(),
{
    if s.len() > 0 {
        assert forall|i: int| 0 <= i < s.len() - 1 implies pred(#[trigger] s.drop_last()[i]) by {
            assert(s.drop_last()[i] == s[i]);
        }
        lemma_count_all(s.drop_last(), pred);
        assert(s.last() == s[s.len() - 1]);
    }
}

/// Where some entry has the property, at least one is counted.
pub proof fn lemma_count_some<T>(s: Seq<T>, pred: spec_fn(T) -> bool, i: int)
    requires
        0 <= i < s.len(),
        pred(s[i]),
    ensures
        count_where(s, pred) >= 1,
    decreases s.len(),
{
    if i < s.len() - 1 {
        lemma_count_some(s.drop_last(), pred, i);
    }
}

/// No more entries have a property than there are entries.
pub proof fn lemma_count_bounded<T>(s: Seq<T>, pred: spec_fn(T) -> bool)
    ensures
        count_where(s, pred) <= s.len(),
    decreases s.len(),
{
    if s.len() > 0 {
        lemma_count_bounded(s.drop_last(), pred);
    }
}

/// Where some entry lacks the property, fewer entries have it than there are
/// entries.
pub proof fn lemma_count_below<T>(s: Seq<T>, pred: spec_fn(T) -> bool, i: int)
    requires
        0 <= i < s.len(),
        !pred(s[i]),
    ensures
        count_where(s, pred) < s.len(),
    decreases s.len(),
{
    if i == s.len() - 1 {
        lemma_count_bounded(s.drop_last(), pred);
    } else {
        lemma_count_below(s.drop_last(), pred, i);
    }
}

/// Replacing one entry changes the count by what that entry contributes.
pub proof fn lemma_count_update<T>(s: Seq<T>, pred: spec_fn(T) -> bool, i: int, value: T)
    requires
        0 <= i < s.len(),
    ensures
        count_where(s.update(i, value), pred) + (if pred(s[i]) {
            1nat
        } else {
            0nat
        }) == count_where(s, pred) + (if pred(value) {
            1nat
        } else {
            0nat
        }),
    decreases s.len(),
{
    if i == s.len() - 1 {
        assert(s.update(i, value).drop_last() =~= s.drop_last());
    } else {
        lemma_count_update(s.drop_last(), pred, i, value);
        assert(s.update(i, value).drop_last() =~= s.drop_last().update(i, value));
    }
}

/// A property that holds wherever another one does is counted at least as
/// often.
pub proof fn lemma_count_monotone<T>(
    a: Seq<T>,
    wide: spec_fn(T) -> bool,
    b: Seq<T>,
    narrow: spec_fn(T) -> bool,
)
    requires
        a.len() == b.len(),
        forall|i: int| 0 <= i < a.len() && narrow(#[trigger] b[i]) ==> wide(a[i]),
    ensures
        count_where(b, narrow) <= count_where(a, wide),
    decreases a.len(),
{
    if a.len() > 0 {
        assert forall|i: int| 0 <= i < a.len() - 1 && narrow(
            #[trigger] b.drop_last()[i],
        ) implies wide(a.drop_last()[i]) by {
            assert(b.drop_last()[i] == b[i]);
        }
        lemma_count_monotone(a.drop_last(), wide, b.drop_last(), narrow);
        assert(b.last() == b[b.len() - 1]);
    }
}

/// Exactly one entry is counted where one entry has the property and no
/// other has.
pub proof fn lemma_count_one<T>(s: Seq<T>, pred: spec_fn(T) -> bool, i: int)
    requires
        0 <= i < s.len(),
        pred(s[i]),
        forall|j: int| 0 <= j < s.len() && j != i ==> !pred(#[trigger] s[j]),
    ensures
        count_where(s, pred) == 1,
    decreases s.len(),
{
    if i == s.len() - 1 {
        assert forall|j: int| 0 <= j < s.len() - 1 implies !pred(#[trigger] s.drop_last()[j]) by {
            assert(s.drop_last()[j] == s[j]);
        }
        lemma_count_none(s.drop_last(), pred);
    } else {
        assert forall|j: int| 0 <= j < s.len() - 1 && j != i implies !pred(
            #[trigger] s.drop_last()[j],
        ) by {
            assert(s.drop_last()[j] == s[j]);
        }
        lemma_count_one(s.drop_last(), pred, i);
        assert(s.last() == s[s.len() - 1]);
    }
}

/// Where every entry with a property has exactly one of four others, the
/// counts of the four add up to the count of the one.
pub proof fn lemma_count_split<T>(
    s: Seq<T>,
    whole: spec_fn(T) -> bool,
    first: spec_fn(T) -> bool,
    second: spec_fn(T) -> bool,
    third: spec_fn(T) -> bool,
    fourth: spec_fn(T) -> bool,
)
    requires
        forall|i: int|
            0 <= i < s.len() ==> whole(#[trigger] s[i]) == (first(s[i]) || second(s[i]) || third(
                s[i],
            ) || fourth(s[i])),
        forall|i: int|
            0 <= i < s.len() ==> {
                &&& !(first(#[trigger] s[i]) && second(s[i]))
                &&& !(first(s[i]) && third(s[i]))
                &&& !(first(s[i]) && fourth(s[i]))
                &&& !(second(s[i]) && third(s[i]))
                &&& !(second(s[i]) && fourth(s[i]))
                &&& !(third(s[i]) && fourth(s[i]))
            },
    ensures
        count_where(s, whole) == count_where(s, first) + count_where(s, second) + count_where(
            s,
            third,
        ) + count_where(s, fourth),
    decreases s.len(),
{
    if s.len() > 0 {
        let rest = s.drop_last();
        assert forall|i: int| 0 <= i < rest.len() implies whole(#[trigger] rest[i]) == (first(
            rest[i],
        ) || second(rest[i]) || third(rest[i]) || fourth(rest[i])) by {
            assert(rest[i] == s[i]);
        }
        assert forall|i: int| 0 <= i < rest.len() implies {
            &&& !(first(#[trigger] rest[i]) && second(rest[i]))
            &&& !(first(rest[i]) && third(rest[i]))
            &&& !(first(rest[i]) && fourth(rest[i]))
            &&& !(second(rest[i]) && third(rest[i]))
            &&& !(second(rest[i]) && fourth(rest[i]))
            &&& !(third(rest[i]) && fourth(rest[i]))
        } by {
            assert(rest[i] == s[i]);
        }
        lemma_count_split(rest, whole, first, second, third, fourth);
        assert(s.last() == s[s.len() - 1]);
    }
}

} // verus!
