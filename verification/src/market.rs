//! Market observations in the abstract, and the chronological merge over
//! per-instrument tick series.
//!
//! The merge holds one pre-sorted series per instrument and repeatedly
//! yields the earliest remaining head; on equal timestamps the series
//! with the smaller input index wins. Construction sorts each series by
//! date first, so an unsorted upstream cannot break the order.

use vstd::prelude::*;

use crate::date::Date;

verus! {

/// A dated market observation. The retrieval of observation series is
/// the caller's concern; the library only consumes their values.
pub trait QuantitativeMarket: Sized + Copy {
    /// The observation's date; combined with the fixed daily valuation
    /// cut-off this is its canonical timestamp.
    spec fn info_date(&self) -> Date;

    /// Fit to consume: the date is a real calendar date and the fields
    /// the ledger divides by are positive.
    spec fn usable(&self) -> bool;

    /// The observation's canonical timestamp.
    fn get_info_datetime(&self) -> (d: Date)
        ensures
            d == self.info_date(),
    ;
}

/// The observation's order key: its date's order key.
pub open spec fn tick_key<T: QuantitativeMarket>(t: T) -> int {
    t.info_date().key_spec()
}

/// Number of observations left over all series.
pub open spec fn total_len<T>(s: Seq<Seq<T>>) -> int
    decreases s.len(),
{
    if s.len() == 0 {
        0
    } else {
        s.first().len() + total_len(s.drop_first())
    }
}

pub proof fn lemma_total_len_nonneg<T>(s: Seq<Seq<T>>)
    ensures
        total_len(s) >= 0,
    decreases s.len(),
{
    if s.len() > 0 {
        lemma_total_len_nonneg(s.drop_first());
    }
}

/// Popping one observation from a nonempty series drops the total by
/// one.
pub proof fn lemma_total_len_update<T>(s: Seq<Seq<T>>, j: int)
    requires
        0 <= j < s.len(),
        s[j].len() > 0,
    ensures
        total_len(s.update(j, s[j].drop_first())) == total_len(s) - 1,
    decreases s.len(),
{
    let s2 = s.update(j, s[j].drop_first());
    if j == 0 {
        assert(s2.drop_first() =~= s.drop_first());
    } else {
        assert(s2.first() == s.first());
        assert(s2.drop_first() =~= s.drop_first().update(j - 1, s.drop_first()[j - 1].drop_first()));
        lemma_total_len_update(s.drop_first(), j - 1);
    }
}

/// The index the merge pops next, looking only at positions at or after
/// `i`: the first index among those whose head has the minimal key, or
/// the length when every series there is spent.
pub open spec fn pick_from<T: QuantitativeMarket>(s: Seq<Seq<T>>, i: int) -> int
    decreases s.len() - i,
    when 0 <= i <= s.len()
{
    if i >= s.len() {
        s.len() as int
    } else {
        let rest = pick_from(s, i + 1);
        if s[i].len() == 0 {
            rest
        } else if rest == s.len() || tick_key(s[i].first()) <= tick_key(s[rest].first()) {
            i
        } else {
            rest
        }
    }
}

/// The index the merge pops next.
pub open spec fn pick<T: QuantitativeMarket>(s: Seq<Seq<T>>) -> int {
    pick_from(s, 0)
}

/// What `pick_from` returns: a nonempty series whose head key is
/// minimal, the first such; or the length when all are spent.
pub proof fn lemma_pick_from<T: QuantitativeMarket>(s: Seq<Seq<T>>, i: int)
    requires
        0 <= i <= s.len(),
    ensures
        i <= pick_from(s, i) <= s.len(),
        pick_from(s, i) == s.len() ==> forall|k: int| i <= k < s.len() ==> (#[trigger] s[k]).len()
            == 0,
        pick_from(s, i) < s.len() ==> s[pick_from(s, i)].len() > 0,
        pick_from(s, i) < s.len() ==> forall|k: int|
            i <= k < s.len() && (#[trigger] s[k]).len() > 0 ==> tick_key(s[pick_from(s, i)].first())
                <= tick_key(s[k].first()),
        pick_from(s, i) < s.len() ==> forall|k: int|
            i <= k < pick_from(s, i) && (#[trigger] s[k]).len() > 0 ==> tick_key(s[k].first())
                > tick_key(s[pick_from(s, i)].first()),
    decreases s.len() - i,
{
    if i < s.len() {
        lemma_pick_from(s, i + 1);
    }
}

/// The merged stream: one pair per remaining observation, earliest
/// first, the lower input index first on equal timestamps, and each
/// series' own order preserved.
pub open spec fn merged<T: QuantitativeMarket>(codes: Seq<u32>, s: Seq<Seq<T>>) -> Seq<(u32, T)>
    decreases total_len(s), s.len()
        via lemma_merged_decreases::<T>
{
    let j = pick(s);
    if 0 <= j < s.len() {
        seq![(codes[j], s[j].first())] + merged(codes, s.update(j, s[j].drop_first()))
    } else {
        Seq::empty()
    }
}

#[via_fn]
proof fn lemma_merged_decreases<T: QuantitativeMarket>(codes: Seq<u32>, s: Seq<Seq<T>>) {
    let j = pick(s);
    if 0 <= j < s.len() {
        lemma_pick_from(s, 0);
        lemma_total_len_update(s, j);
        lemma_total_len_nonneg(s.update(j, s[j].drop_first()));
    }
}

pub proof fn lemma_total_len_all_empty<T>(s: Seq<Seq<T>>)
    requires
        forall|k: int| 0 <= k < s.len() ==> (#[trigger] s[k]).len() == 0,
    ensures
        total_len(s) == 0,
    decreases s.len(),
{
    if s.len() > 0 {
        lemma_total_len_all_empty(s.drop_first());
    }
}

/// Merge completeness: the merged stream has exactly one entry per
/// remaining observation, over all series.
pub proof fn lemma_merged_len<T: QuantitativeMarket>(codes: Seq<u32>, s: Seq<Seq<T>>)
    ensures
        merged(codes, s).len() == total_len(s),
    decreases total_len(s),
{
    lemma_total_len_nonneg(s);
    lemma_pick_from(s, 0);
    let j = pick(s);
    if 0 <= j < s.len() {
        let s2 = s.update(j, s[j].drop_first());
        lemma_total_len_update(s, j);
        lemma_total_len_nonneg(s2);
        lemma_merged_len(codes, s2);
    } else {
        lemma_total_len_all_empty(s);
    }
}

/// No instrument code occurs twice.
pub open spec fn distinct_codes(codes: Seq<u32>) -> bool {
    forall|i: int, j: int| 0 <= i < j < codes.len() ==> codes[i] != codes[j]
}

/// Index of the first occurrence of `c` at or after `i`, or the length.
pub open spec fn code_idx_from(codes: Seq<u32>, c: u32, i: int) -> int
    decreases codes.len() - i,
    when 0 <= i <= codes.len()
{
    if i >= codes.len() {
        codes.len() as int
    } else if codes[i] == c {
        i
    } else {
        code_idx_from(codes, c, i + 1)
    }
}

/// Index of the first occurrence of `c` among the codes, or the length.
pub open spec fn code_idx(codes: Seq<u32>, c: u32) -> int {
    code_idx_from(codes, c, 0)
}

pub proof fn lemma_code_idx_from(codes: Seq<u32>, c: u32, i: int)
    requires
        0 <= i <= codes.len(),
    ensures
        i <= code_idx_from(codes, c, i) <= codes.len(),
        code_idx_from(codes, c, i) < codes.len() ==> codes[code_idx_from(codes, c, i)] == c,
        forall|k: int| i <= k < code_idx_from(codes, c, i) ==> codes[k] != c,
        code_idx_from(codes, c, i) == codes.len() ==> forall|k: int| i <= k < codes.len()
            ==> codes[k] != c,
    decreases codes.len() - i,
{
    if i < codes.len() && codes[i] != c {
        lemma_code_idx_from(codes, c, i + 1);
    }
}

/// With distinct codes, the first occurrence of `codes[j]` is `j`.
pub proof fn lemma_code_idx_of_distinct(codes: Seq<u32>, j: int)
    requires
        distinct_codes(codes),
        0 <= j < codes.len(),
    ensures
        code_idx(codes, codes[j]) == j,
{
    lemma_code_idx_from(codes, codes[j], 0);
    let r = code_idx(codes, codes[j]);
    if r < j {
        assert(codes[r] == codes[j]);
        assert(false);
    }
}

/// Every element of the merged stream has a key of at least `bound`
/// when every (sorted) series starts at or above it.
proof fn lemma_merged_min_bound<T: QuantitativeMarket>(codes: Seq<u32>, s: Seq<Seq<T>>, bound: int)
    requires
        forall|i: int| 0 <= i < s.len() ==> sorted_by_key(#[trigger] s[i]),
        forall|i: int| 0 <= i < s.len() && (#[trigger] s[i]).len() > 0 ==> tick_key(s[i].first())
            >= bound,
    ensures
        forall|m: int| 0 <= m < merged(codes, s).len() ==> tick_key(
            #[trigger] merged(codes, s)[m].1,
        ) >= bound,
    decreases total_len(s),
{
    lemma_total_len_nonneg(s);
    lemma_pick_from(s, 0);
    let j = pick(s);
    if 0 <= j < s.len() {
        let s2 = s.update(j, s[j].drop_first());
        lemma_total_len_update(s, j);
        lemma_total_len_nonneg(s2);
        assert forall|i: int| 0 <= i < s2.len() implies sorted_by_key(#[trigger] s2[i]) by {
            if i == j {
                assert(forall|a: int, b: int|
                    0 <= a < b < s2[j].len() ==> tick_key(#[trigger] s2[j][a]) <= tick_key(
                        #[trigger] s2[j][b],
                    )) by {
                    assert(forall|a: int| 0 <= a < s2[j].len() ==> #[trigger] s2[j][a] == s[j][a
                        + 1]);
                }
            }
        }
        assert forall|i: int|
            0 <= i < s2.len() && (#[trigger] s2[i]).len() > 0 implies tick_key(s2[i].first())
            >= bound by {
            if i == j {
                assert(s2[j].first() == s[j][1]);
                assert(tick_key(s[j][1]) >= tick_key(s[j][0]));
            }
        }
        lemma_merged_min_bound(codes, s2, bound);
        assert forall|m: int| 0 <= m < merged(codes, s).len() implies tick_key(
            #[trigger] merged(codes, s)[m].1,
        ) >= bound by {
            if m > 0 {
                assert(merged(codes, s)[m] == merged(codes, s2)[m - 1]);
            }
        }
    }
}

/// Every element of the merged stream is later than `key0`, or lands on
/// `key0` coming from an input index at or after `j0`, when every
/// series' head does.
proof fn lemma_merged_pair_bound<T: QuantitativeMarket>(
    codes: Seq<u32>,
    s: Seq<Seq<T>>,
    key0: int,
    j0: int,
)
    requires
        codes.len() == s.len(),
        distinct_codes(codes),
        forall|i: int| 0 <= i < s.len() ==> sorted_by_key(#[trigger] s[i]),
        forall|i: int| 0 <= i < s.len() && (#[trigger] s[i]).len() > 0 ==> tick_key(s[i].first())
            > key0 || (tick_key(s[i].first()) == key0 && i >= j0),
    ensures
        forall|m: int| 0 <= m < merged(codes, s).len() ==> tick_key(
            #[trigger] merged(codes, s)[m].1,
        ) > key0 || (tick_key(merged(codes, s)[m].1) == key0 && code_idx(
            codes,
            merged(codes, s)[m].0,
        ) >= j0),
    decreases total_len(s),
{
    lemma_total_len_nonneg(s);
    lemma_pick_from(s, 0);
    let j = pick(s);
    if 0 <= j < s.len() {
        let s2 = s.update(j, s[j].drop_first());
        lemma_total_len_update(s, j);
        lemma_total_len_nonneg(s2);
        lemma_code_idx_of_distinct(codes, j);
        assert forall|i: int| 0 <= i < s2.len() implies sorted_by_key(#[trigger] s2[i]) by {
            if i == j {
                assert(forall|a: int| 0 <= a < s2[j].len() ==> #[trigger] s2[j][a] == s[j][a + 1]);
            }
        }
        assert forall|i: int|
            0 <= i < s2.len() && (#[trigger] s2[i]).len() > 0 implies tick_key(s2[i].first())
            > key0 || (tick_key(s2[i].first()) == key0 && i >= j0) by {
            if i == j {
                assert(s2[j].first() == s[j][1]);
                assert(tick_key(s[j][1]) >= tick_key(s[j][0]));
            }
        }
        lemma_merged_pair_bound(codes, s2, key0, j0);
        assert forall|m: int|
            0 <= m < merged(codes, s).len() implies tick_key(#[trigger] merged(codes, s)[m].1)
            > key0 || (tick_key(merged(codes, s)[m].1) == key0 && code_idx(
            codes,
            merged(codes, s)[m].0,
        ) >= j0) by {
            if m > 0 {
                assert(merged(codes, s)[m] == merged(codes, s2)[m - 1]);
            }
        }
    }
}

/// Merge ordering: with each series sorted and one code per series,
/// the merged stream is chronological, and on equal timestamps the
/// series with the smaller input index comes first.
pub proof fn lemma_merged_chronological<T: QuantitativeMarket>(codes: Seq<u32>, s: Seq<Seq<T>>)
    requires
        codes.len() == s.len(),
        distinct_codes(codes),
        forall|i: int| 0 <= i < s.len() ==> sorted_by_key(#[trigger] s[i]),
    ensures
        forall|a: int, b: int|
            0 <= a < b < merged(codes, s).len() ==> tick_key(#[trigger] merged(codes, s)[a].1)
                < tick_key(#[trigger] merged(codes, s)[b].1) || (tick_key(merged(codes, s)[a].1)
                == tick_key(merged(codes, s)[b].1) && code_idx(codes, merged(codes, s)[a].0)
                <= code_idx(codes, merged(codes, s)[b].0)),
    decreases total_len(s),
{
    lemma_total_len_nonneg(s);
    lemma_pick_from(s, 0);
    let j = pick(s);
    if 0 <= j < s.len() {
        let key0 = tick_key(s[j].first());
        let s2 = s.update(j, s[j].drop_first());
        lemma_total_len_update(s, j);
        lemma_total_len_nonneg(s2);
        lemma_code_idx_of_distinct(codes, j);
        assert forall|i: int| 0 <= i < s2.len() implies sorted_by_key(#[trigger] s2[i]) by {
            if i == j {
                assert(forall|a: int| 0 <= a < s2[j].len() ==> #[trigger] s2[j][a] == s[j][a + 1]);
            }
        }
        assert forall|i: int|
            0 <= i < s2.len() && (#[trigger] s2[i]).len() > 0 implies tick_key(s2[i].first())
            > key0 || (tick_key(s2[i].first()) == key0 && i >= j) by {
            if i == j {
                assert(s2[j].first() == s[j][1]);
                assert(tick_key(s[j][1]) >= tick_key(s[j][0]));
            }
        }
        lemma_merged_pair_bound(codes, s2, key0, j);
        lemma_merged_chronological(codes, s2);
        assert forall|a: int, b: int|
            0 <= a < b < merged(codes, s).len() implies tick_key(#[trigger] merged(codes, s)[a].1)
            < tick_key(#[trigger] merged(codes, s)[b].1) || (tick_key(merged(codes, s)[a].1)
            == tick_key(merged(codes, s)[b].1) && code_idx(codes, merged(codes, s)[a].0)
            <= code_idx(codes, merged(codes, s)[b].0)) by {
            if a == 0 {
                assert(merged(codes, s)[b] == merged(codes, s2)[b - 1]);
            } else {
                assert(merged(codes, s)[a] == merged(codes, s2)[a - 1]);
                assert(merged(codes, s)[b] == merged(codes, s2)[b - 1]);
            }
        }
    }
}

/// A series in strictly increasing date order.
pub open spec fn strictly_sorted_by_key<T: QuantitativeMarket>(s: Seq<T>) -> bool {
    forall|a: int, b: int| 0 <= a < b < s.len() ==> tick_key(#[trigger] s[a]) < tick_key(
        #[trigger] s[b],
    )
}

/// No date occurs in two different series.
pub open spec fn cross_distinct_keys<T: QuantitativeMarket>(s: Seq<Seq<T>>) -> bool {
    forall|i: int, j: int, a: int, b: int|
        0 <= i < s.len() && 0 <= j < s.len() && i != j && 0 <= a < s[i].len() && 0 <= b
            < s[j].len() ==> tick_key(#[trigger] s[i][a]) != tick_key(#[trigger] s[j][b])
}

/// Merge ordering on disjoint dates: when no date repeats anywhere,
/// the merged stream is strictly chronological.
pub proof fn lemma_merged_strictly_chronological<T: QuantitativeMarket>(
    codes: Seq<u32>,
    s: Seq<Seq<T>>,
)
    requires
        codes.len() == s.len(),
        forall|i: int| 0 <= i < s.len() ==> strictly_sorted_by_key(#[trigger] s[i]),
        cross_distinct_keys(s),
    ensures
        forall|a: int, b: int|
            0 <= a < b < merged(codes, s).len() ==> tick_key(#[trigger] merged(codes, s)[a].1)
                < tick_key(#[trigger] merged(codes, s)[b].1),
    decreases total_len(s),
{
    lemma_total_len_nonneg(s);
    lemma_pick_from(s, 0);
    let j = pick(s);
    if 0 <= j < s.len() {
        let key0 = tick_key(s[j].first());
        let s2 = s.update(j, s[j].drop_first());
        lemma_total_len_update(s, j);
        lemma_total_len_nonneg(s2);
        assert forall|i: int| 0 <= i < s2.len() implies strictly_sorted_by_key(
            #[trigger] s2[i],
        ) by {
            if i == j {
                assert(forall|a: int| 0 <= a < s2[j].len() ==> #[trigger] s2[j][a] == s[j][a + 1]);
            }
        }
        assert forall|i: int| 0 <= i < s2.len() implies sorted_by_key(#[trigger] s2[i]) by {
            assert(strictly_sorted_by_key(s2[i]));
        }
        assert(cross_distinct_keys(s2)) by {
            assert forall|i: int, j2: int, a: int, b: int|
                0 <= i < s2.len() && 0 <= j2 < s2.len() && i != j2 && 0 <= a < s2[i].len() && 0 <= b
                    < s2[j2].len() implies tick_key(#[trigger] s2[i][a]) != tick_key(
                #[trigger] s2[j2][b],
            ) by {
                let a0 = if i == j { a + 1 } else { a };
                let b0 = if j2 == j { b + 1 } else { b };
                assert(s2[i][a] == s[i][a0]);
                assert(s2[j2][b] == s[j2][b0]);
            }
        }
        assert forall|i: int|
            0 <= i < s2.len() && (#[trigger] s2[i]).len() > 0 implies tick_key(s2[i].first())
            >= key0 + 1 by {
            if i == j {
                assert(s2[j].first() == s[j][1]);
                assert(tick_key(s[j][1]) > tick_key(s[j][0]));
            } else {
                assert(tick_key(s[i].first()) >= key0);
                assert(tick_key(s[i][0]) != tick_key(s[j][0]));
            }
        }
        lemma_merged_min_bound(codes, s2, key0 + 1);
        lemma_merged_strictly_chronological(codes, s2);
        assert forall|a: int, b: int|
            0 <= a < b < merged(codes, s).len() implies tick_key(#[trigger] merged(codes, s)[a].1)
            < tick_key(#[trigger] merged(codes, s)[b].1) by {
            if a == 0 {
                assert(merged(codes, s)[b] == merged(codes, s2)[b - 1]);
            } else {
                assert(merged(codes, s)[a] == merged(codes, s2)[a - 1]);
                assert(merged(codes, s)[b] == merged(codes, s2)[b - 1]);
            }
        }
    }
}

/// The observations of the stream that carry `code`, in stream order.
pub open spec fn project_code<T>(stream: Seq<(u32, T)>, code: u32) -> Seq<T>
    decreases stream.len(),
{
    if stream.len() == 0 {
        Seq::empty()
    } else if stream.first().0 == code {
        seq![stream.first().1] + project_code(stream.drop_first(), code)
    } else {
        project_code(stream.drop_first(), code)
    }
}

/// Merge keeps each instrument's own order: restricting the merged
/// stream to one code gives back exactly that instrument's series,
/// nothing lost, nothing duplicated.
pub proof fn lemma_merged_projection<T: QuantitativeMarket>(codes: Seq<u32>, s: Seq<Seq<T>>, i: int)
    requires
        codes.len() == s.len(),
        distinct_codes(codes),
        0 <= i < s.len(),
    ensures
        project_code(merged(codes, s), codes[i]) == s[i],
    decreases total_len(s),
{
    lemma_total_len_nonneg(s);
    lemma_pick_from(s, 0);
    let j = pick(s);
    if 0 <= j < s.len() {
        let e0 = (codes[j], s[j].first());
        let s2 = s.update(j, s[j].drop_first());
        lemma_total_len_update(s, j);
        lemma_total_len_nonneg(s2);
        let tail = merged(codes, s2);
        assert(merged(codes, s) == seq![e0] + tail);
        assert((seq![e0] + tail).first() == e0);
        assert((seq![e0] + tail).drop_first() =~= tail);
        lemma_merged_projection(codes, s2, i);
        if i == j {
            assert(s2[i] == s[i].drop_first());
            assert(seq![s[i].first()] + s[i].drop_first() =~= s[i]);
        } else {
            assert(codes[i] != codes[j]);
            assert(s2[i] == s[i]);
        }
    } else {
        assert(s[i].len() == 0);
    }
}

/// A series in nondecreasing date order.
pub open spec fn sorted_by_key<T: QuantitativeMarket>(s: Seq<T>) -> bool {
    forall|a: int, b: int| 0 <= a < b < s.len() ==> tick_key(#[trigger] s[a]) <= tick_key(
        #[trigger] s[b],
    )
}

/// Where a new observation goes: after every element whose key is at
/// most `key`, before the (sorted) tail of strictly larger keys.
pub open spec fn insert_pos<T: QuantitativeMarket>(s: Seq<T>, key: int) -> int
    decreases s.len(),
{
    if s.len() == 0 {
        0
    } else if tick_key(s.last()) > key {
        insert_pos(s.drop_last(), key)
    } else {
        s.len() as int
    }
}

pub proof fn lemma_insert_pos_bounds<T: QuantitativeMarket>(s: Seq<T>, key: int)
    ensures
        0 <= insert_pos(s, key) <= s.len(),
    decreases s.len(),
{
    if s.len() > 0 && tick_key(s.last()) > key {
        lemma_insert_pos_bounds(s.drop_last(), key);
    }
}

/// One observation placed into a sorted series, keeping it sorted and
/// placing it after its equals (a stable insertion).
pub open spec fn insert_sorted<T: QuantitativeMarket>(s: Seq<T>, x: T) -> Seq<T> {
    s.insert(insert_pos(s, tick_key(x)), x)
}

/// The series sorted by date: each observation inserted, in input
/// order, after every one that does not exceed it (insertion sort, so
/// equal dates keep their input order).
pub open spec fn sort_spec<T: QuantitativeMarket>(s: Seq<T>) -> Seq<T>
    decreases s.len(),
{
    if s.len() == 0 {
        Seq::empty()
    } else {
        insert_sorted(sort_spec(s.drop_last()), s.last())
    }
}

/// Everything at or past the insertion point is strictly later than the
/// key; what stands just before it is not.
pub proof fn lemma_insert_pos_props<T: QuantitativeMarket>(s: Seq<T>, key: int)
    requires
        sorted_by_key(s),
    ensures
        0 <= insert_pos(s, key) <= s.len(),
        forall|m: int| insert_pos(s, key) <= m < s.len() ==> tick_key(#[trigger] s[m]) > key,
        insert_pos(s, key) > 0 ==> tick_key(s[insert_pos(s, key) - 1]) <= key,
    decreases s.len(),
{
    if s.len() > 0 && tick_key(s.last()) > key {
        assert(sorted_by_key(s.drop_last())) by {
            assert(forall|a: int| 0 <= a < s.len() - 1 ==> #[trigger] s.drop_last()[a] == s[a]);
        }
        lemma_insert_pos_props(s.drop_last(), key);
        let p = insert_pos(s, key);
        assert forall|m: int| p <= m < s.len() implies tick_key(#[trigger] s[m]) > key by {
            if m < s.len() - 1 {
                assert(s.drop_last()[m] == s[m]);
            }
        }
    }
}

/// A stable insertion keeps a sorted series sorted.
#[verifier::rlimit(50)]
pub proof fn lemma_insert_sorted_sorted<T: QuantitativeMarket>(s: Seq<T>, x: T)
    requires
        sorted_by_key(s),
    ensures
        sorted_by_key(insert_sorted(s, x)),
        insert_sorted(s, x).len() == s.len() + 1,
{
    let key = tick_key(x);
    let p = insert_pos(s, key);
    lemma_insert_pos_props(s, key);
    s.insert_ensures(p, x);
    let t = insert_sorted(s, x);
    assert forall|a: int, b: int| 0 <= a < b < t.len() implies tick_key(#[trigger] t[a])
        <= tick_key(#[trigger] t[b]) by {
        if a < p {
            assert(t[a] == s[a]);
        } else if a == p {
            assert(t[a] == x);
        } else {
            assert(t[a] == s[a - 1]);
        }
        if b < p {
            assert(t[b] == s[b]);
        } else if b == p {
            assert(t[b] == x);
        } else {
            assert(t[b] == s[b - 1]);
        }
        if a < p && b == p {
            assert(tick_key(s[a]) <= tick_key(s[p - 1]));
        }
        if a == p && b > p {
            assert(tick_key(s[b - 1]) > key);
        }
    }
}

/// The defensive sort sorts.
pub proof fn lemma_sort_spec_sorted<T: QuantitativeMarket>(s: Seq<T>)
    ensures
        sorted_by_key(sort_spec(s)),
        sort_spec(s).len() == s.len(),
    decreases s.len(),
{
    if s.len() > 0 {
        lemma_sort_spec_sorted(s.drop_last());
        lemma_insert_sorted_sorted(sort_spec(s.drop_last()), s.last());
    }
}

/// The defensive sort keeps exactly the input's observations, counted
/// with multiplicity.
pub proof fn lemma_sort_spec_multiset<T: QuantitativeMarket>(s: Seq<T>)
    ensures
        sort_spec(s).to_multiset() == s.to_multiset(),
    decreases s.len(),
{
    broadcast use vstd::seq_lib::group_to_multiset_ensures;

    if s.len() > 0 {
        lemma_sort_spec_multiset(s.drop_last());
        let u = sort_spec(s.drop_last());
        let x = s.last();
        let key = tick_key(x);
        let p = insert_pos(u, key);
        lemma_insert_pos_bounds(u, key);
        u.insert_ensures(p, x);
        let t = insert_sorted(u, x);
        assert(t.remove(p) =~= u);
        assert(t.remove(p).to_multiset() =~= t.to_multiset().remove(t[p]));
        assert(t.to_multiset() =~= u.to_multiset().insert(x));
        assert(s.drop_last().push(x) =~= s);
        assert(s.to_multiset() =~= s.drop_last().to_multiset().insert(x));
    }
}

/// Sorting a series that is already in date order gives it back
/// unchanged: each element lands at the end, after its equals.
pub proof fn lemma_sort_spec_identity<T: QuantitativeMarket>(s: Seq<T>)
    requires
        sorted_by_key(s),
    ensures
        sort_spec(s) == s,
    decreases s.len(),
{
    if s.len() > 0 {
        let u = s.drop_last();
        let x = s.last();
        assert(sorted_by_key(u)) by {
            assert(forall|a: int| 0 <= a < u.len() ==> #[trigger] u[a] == s[a]);
        }
        lemma_sort_spec_identity(u);
        assert(insert_pos(u, tick_key(x)) == u.len()) by {
            if u.len() > 0 {
                assert(tick_key(u.last()) == tick_key(s[s.len() - 2]));
                assert(tick_key(s[s.len() - 2]) <= tick_key(s[s.len() - 1]));
            }
        }
        assert(insert_sorted(u, x) =~= s);
    }
}

/// The concurrent retrievals' results, merged into one time-ordered
/// stream. `code[i]` names the instrument whose remaining observations
/// are `info[i]`.
#[derive(Debug)]
pub struct InfoMixer<T: QuantitativeMarket> {
    pub code: Vec<u32>,
    pub info: Vec<Vec<T>>,
}

impl<T: QuantitativeMarket> InfoMixer<T> {
    /// The remaining series, as sequences.
    pub open spec fn views(self) -> Seq<Seq<T>> {
        self.info@.map_values(|v: Vec<T>| v@)
    }

    /// One code per series.
    pub open spec fn wf(self) -> bool {
        self.code@.len() == self.info@.len()
    }

    /// The stream still to come.
    pub open spec fn remaining(self) -> Seq<(u32, T)> {
        merged(self.code@, self.views())
    }

    /// Pair each instrument with its fetched series, sorting every
    /// series by date (stably) so that an unsorted upstream cannot
    /// break the merge order.
    pub fn from_series(codes: Vec<u32>, series: Vec<Vec<T>>) -> (r: InfoMixer<T>)
        requires
            codes@.len() == series@.len(),
        ensures
            r.wf(),
            r.code@ == codes@,
            r.views().len() == series@.len(),
            forall|i: int| 0 <= i < series@.len() ==> r.views()[i] == sort_spec(
                (#[trigger] series@[i])@,
            ),
    {
        let ghost orig = series@;
        let mut series = series;
        let mut info: Vec<Vec<T>> = Vec::new();
        while series.len() > 0
            invariant
                orig.len() == info@.len() + series@.len(),
                series@ =~= orig.subrange(info@.len() as int, orig.len() as int),
                forall|j: int| 0 <= j < info@.len() ==> (#[trigger] info@[j])@ == sort_spec(
                    orig[j]@,
                ),
            decreases series@.len(),
        {
            let v = series.remove(0);
            let done = info.len();
            info.push(sort_by_date(v));
            proof {
                assert(orig[done as int]@ == v@);
                assert(series@ =~= orig.subrange(info@.len() as int, orig.len() as int));
            }
        }
        let r = InfoMixer { code: codes, info };
        proof {
            assert(r.views().len() == orig.len());
        }
        r
    }
}

impl<T: QuantitativeMarket> InfoMixer<T> {
    /// Yield the earliest remaining observation with its instrument
    /// code, or nothing once every series is spent. On equal
    /// timestamps the series with the smaller input index goes first.
    pub fn next(&mut self) -> (r: Option<(u32, T)>)
        requires
            old(self).wf(),
        ensures
            final(self).wf(),
            final(self).code@ == old(self).code@,
            match r {
                None => old(self).remaining().len() == 0 && final(self).info@ == old(self).info@,
                Some(e) => ({
                    let j = pick(old(self).views());
                    &&& 0 <= j < old(self).views().len()
                    &&& old(self).views()[j].len() > 0
                    &&& e.0 == old(self).code@[j]
                    &&& e.1 == old(self).views()[j].first()
                    &&& final(self).views() == old(self).views().update(
                        j,
                        old(self).views()[j].drop_first(),
                    )
                    &&& old(self).remaining().len() > 0
                    &&& e == old(self).remaining().first()
                    &&& final(self).remaining() == old(self).remaining().drop_first()
                    &&& total_len(final(self).views()) == total_len(old(self).views()) - 1
                }),
            },
    {
        let n = self.info.len();
        let ghost s = self.views();
        let mut best: usize = n;
        let mut best_key: u32 = 0;
        let mut k: usize = n;
        while k > 0
            invariant
                *self == *old(self),
                self.wf(),
                n == self.info@.len(),
                s == self.views(),
                k <= n,
                best == pick_from(s, k as int),
                best <= n,
                best < n ==> s[best as int].len() > 0 && best_key == tick_key(
                    s[best as int].first(),
                ),
            decreases k,
        {
            k = k - 1;
            if self.info[k].len() > 0 {
                let t = self.info[k][0];
                let td = t.get_info_datetime();
                let key = td.key();
                if best == n || key <= best_key {
                    best = k;
                    best_key = key;
                }
            }
        }
        proof {
            lemma_pick_from(s, 0);
        }
        if best == n {
            None
        } else {
            let code = self.code[best];
            let mut row = self.info.remove(best);
            let e = row.remove(0);
            self.info.insert(best, row);
            proof {
                let s2 = s.update(best as int, s[best as int].drop_first());
                assert(self.views() =~= s2);
                lemma_total_len_update(s, best as int);
                let m = merged(old(self).code@, s);
                assert(m == seq![(old(self).code@[best as int], s[best as int].first())] + merged(
                    old(self).code@,
                    s2,
                ));
                assert(m.drop_first() =~= merged(old(self).code@, s2));
            }
            Some((code, e))
        }
    }
}

/// Position scanned from the end: everything at or past `k` is
/// strictly later than `key`, and the element before `k` (if any) is
/// not.
proof fn lemma_insert_pos_is<T: QuantitativeMarket>(s: Seq<T>, key: int, k: int)
    requires
        0 <= k <= s.len(),
        forall|m: int| k <= m < s.len() ==> tick_key(#[trigger] s[m]) > key,
        k == 0 || tick_key(s[k - 1]) <= key,
    ensures
        insert_pos(s, key) == k,
    decreases s.len(),
{
    if s.len() > k {
        assert(tick_key(s.last()) > key);
        assert(forall|m: int| k <= m < s.drop_last().len() ==> tick_key(#[trigger] s.drop_last()[m])
            > key);
        if k > 0 {
            assert(s.drop_last()[k - 1] == s[k - 1]);
        }
        lemma_insert_pos_is(s.drop_last(), key, k);
    }
}

/// Sort one series by date with a stable insertion sort.
fn sort_by_date<T: QuantitativeMarket>(src: Vec<T>) -> (r: Vec<T>)
    ensures
        r@ == sort_spec(src@),
{
    let n = src.len();
    let mut out: Vec<T> = Vec::new();
    let mut idx: usize = 0;
    proof {
        assert(src@.subrange(0, 0) =~= Seq::<T>::empty());
    }
    while idx < n
        invariant
            n == src@.len(),
            idx <= n,
            out@ == sort_spec(src@.subrange(0, idx as int)),
        decreases n - idx,
    {
        let x = src[idx];
        let xd = x.get_info_datetime();
        let xkey = xd.key();
        let mut k: usize = out.len();
        loop
            invariant
                k <= out@.len(),
                xkey == tick_key(x),
                forall|m: int| k <= m < out@.len() ==> tick_key(#[trigger] out@[m]) > tick_key(x),
            ensures
                k <= out@.len(),
                forall|m: int| k <= m < out@.len() ==> tick_key(#[trigger] out@[m]) > tick_key(x),
                k == 0 || tick_key(out@[k - 1]) <= tick_key(x),
            decreases k,
        {
            if k == 0 {
                break;
            }
            let prev = out[k - 1];
            let pd = prev.get_info_datetime();
            if pd.key() <= xkey {
                break;
            }
            k = k - 1;
        }
        proof {
            lemma_insert_pos_is(out@, tick_key(x), k as int);
            assert(src@.subrange(0, idx + 1).drop_last() =~= src@.subrange(0, idx as int));
        }
        out.insert(k, x);
        idx = idx + 1;
    }
    proof {
        assert(src@.subrange(0, n as int) =~= src@);
    }
    out
}

} // verus!
