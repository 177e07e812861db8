//! What a variant spells: the sequence that results when an allele takes the
//! place of the interval. Normalization changes how a variant is written and
//! not what any of its alleles spells.
use crate::normalize::{
    anchored, expanded, left_reach, normal_form, rejection, right_reach, shuffled_left,
    shuffled_right, trimmed, turned_left, turned_right, with_reference, Mode,
};
use crate::normalize::{lemma_normal_form_within_bounds, lemma_trimmed_keeps_reference};
use crate::roll::{
    allele_rolls_left, allele_rolls_right, left_offset, right_offset, rolls_left, rolls_right,
};
use crate::roll::{lemma_left_roll_is_roll, lemma_right_roll_is_roll};
use crate::trim::{agrees_from_end, agrees_from_start, drop_prefix, prefix_len, suffix_len};
use crate::trim::{
    lemma_prefix_fits, lemma_prefix_len_is_longest, lemma_suffix_fits, lemma_suffix_len_is_longest,
};
use vstd::arithmetic::div_mod::{
    lemma_fundamental_div_mod, lemma_fundamental_div_mod_converse, lemma_mod_bound,
    lemma_mod_self_0, lemma_mod_sub_multiples_vanish, lemma_small_mod,
};
use vstd::prelude::*;

verus! {

/// The sequence that results when `allele` takes the place of `interval`.
pub open spec fn spelled(sequence: Seq<char>, interval: (int, int), allele: Seq<char>) -> Seq<char> {
    sequence.subrange(0, interval.0) + allele + sequence.subrange(
        interval.1,
        sequence.len() as int,
    )
}

/// An allele with reference on both sides, over the wider interval, spells
/// what it spelled alone.
pub proof fn lemma_flanked_spells_the_same(
    sequence: Seq<char>,
    allele: Seq<char>,
    from: int,
    start: int,
    end: int,
    to: int,
)
    requires
        0 <= from <= start <= end <= to <= sequence.len(),
    ensures
        spelled(
            sequence,
            (from, to),
            sequence.subrange(from, start) + allele + sequence.subrange(end, to),
        ) == spelled(sequence, (start, end), allele),
{
    assert(spelled(
        sequence,
        (from, to),
        sequence.subrange(from, start) + allele + sequence.subrange(end, to),
    ) =~= spelled(sequence, (start, end), allele));
}

/// A trimmed allele, over the trimmed interval, spells what it spelled
/// before.
pub proof fn lemma_trimmed_spells_the_same(
    sequence: Seq<char>,
    interval: (int, int),
    alleles: Seq<Seq<char>>,
    i: int,
)
    requires
        0 <= interval.0 <= interval.1 <= sequence.len(),
        0 <= i < alleles.len(),
        alleles[0] == sequence.subrange(interval.0, interval.1),
    ensures
        spelled(sequence, trimmed(interval, alleles).0, trimmed(interval, alleles).1[i]) == spelled(
            sequence,
            interval,
            alleles[i],
        ),
{
    let left = prefix_len(alleles);
    let rest = drop_prefix(alleles, left);
    let right = suffix_len(rest);
    let cut = trimmed(interval, alleles);
    lemma_prefix_len_is_longest(alleles);
    lemma_prefix_fits(alleles, left);
    lemma_suffix_len_is_longest(rest);
    lemma_suffix_fits(rest, right);
    assert(rest[0].len() == alleles[0].len() - left);
    assert forall|j: int| 0 <= j < left implies alleles[i][j] == sequence[interval.0 + j] by {
        assert(agrees_from_start(alleles, i, j));
    }
    assert forall|p: int| rest[i].len() - right <= p < rest[i].len() implies #[trigger] rest[i][p]
        == sequence[interval.1 - (rest[i].len() - p)] by {
        assert(agrees_from_end(rest, i, rest[i].len() - 1 - p));
    }
    let half = spelled(sequence, (interval.0 + left, interval.1), rest[i]);
    assert(half =~= spelled(sequence, interval, alleles[i]));
    assert(spelled(sequence, cut.0, cut.1[i]) =~= half);
}

/// The remainder of a successor: one more than the remainder, or 0 where
/// that would be the divisor.
proof fn lemma_mod_successor(k: int, m: int)
    requires
        0 < m,
        0 <= k,
    ensures
        0 <= k % m < m,
        (k + 1) % m == if k % m == m - 1 {
            0
        } else {
            k % m + 1
        },
{
    lemma_fundamental_div_mod(k, m);
    lemma_mod_bound(k, m);
    let q = k / m;
    let r = k % m;
    if r == m - 1 {
        assert(k + 1 == (q + 1) * m + 0) by (nonlinear_arith)
            requires
                k == m * q + r,
                r == m - 1,
        ;
        lemma_fundamental_div_mod_converse(k + 1, m, q + 1, 0);
    } else {
        assert(k + 1 == q * m + (r + 1)) by (nonlinear_arith)
            requires
                k == m * q + r,
        ;
        lemma_fundamental_div_mod_converse(k + 1, m, q, r + 1);
    }
}

/// The offset from which an allele of `m` symbols reads after `k` steps to
/// the left: 0 after none, and one less, cyclically, after each step.
proof fn lemma_left_turn_offsets(m: int, k: int)
    requires
        0 < m,
        0 <= k,
    ensures
        0 <= (m - k % m) % m < m,
        0 <= left_offset(m, k) < m,
        k == 0 ==> (m - k % m) % m == 0,
        left_offset(m, k) == if (m - k % m) % m == 0 {
            m - 1
        } else {
            (m - k % m) % m - 1
        },
{
    lemma_mod_successor(k, m);
    lemma_mod_bound(k + 1, m);
    lemma_mod_self_0(m);
    if k % m != 0 {
        lemma_small_mod((m - k % m) as nat, m as nat);
    }
    if (k + 1) % m != 0 {
        lemma_small_mod((m - (k + 1) % m) as nat, m as nat);
    }
    if k == 0 {
        lemma_small_mod(0, m as nat);
    }
}

/// One more step to the left brings the last symbol to the front; that
/// symbol is the one that the roll holds against the reference.
proof fn lemma_turned_left_step(allele: Seq<char>, k: int)
    requires
        allele.len() > 0,
        0 <= k,
    ensures
        turned_left(allele, k).len() == allele.len(),
        turned_left(allele, k).last() == allele[left_offset(allele.len() as int, k)],
        turned_left(allele, k + 1) == seq![allele[left_offset(allele.len() as int, k)]]
            + turned_left(allele, k).drop_last(),
{
    let m = allele.len() as int;
    lemma_left_turn_offsets(m, k);
    lemma_left_turn_offsets(m, k + 1);
    assert(turned_left(allele, k + 1) =~= seq![allele[left_offset(m, k)]] + turned_left(
        allele,
        k,
    ).drop_last());
}

/// One more step to the right brings the first symbol to the back; that
/// symbol is the one that the roll holds against the reference.
proof fn lemma_turned_right_step(allele: Seq<char>, k: int)
    requires
        allele.len() > 0,
        0 <= k,
    ensures
        turned_right(allele, k).len() == allele.len(),
        turned_right(allele, k).first() == allele[right_offset(allele.len() as int, k)],
        turned_right(allele, k + 1) == turned_right(allele, k).drop_first() + seq![
            allele[right_offset(allele.len() as int, k)],
        ],
{
    let m = allele.len() as int;
    lemma_mod_successor(k, m);
    assert(turned_right(allele, k + 1) =~= turned_right(allele, k).drop_first() + seq![
        allele[right_offset(m, k)],
    ]);
}

/// Where the reference allele lets the steps `0 ..= d` to the left pass, the
/// reference repeats itself there: the symbol `d` before the interval's
/// start is the symbol `d` before its end.
proof fn lemma_reference_repeats_left(sequence: Seq<char>, interval: (int, int), d: int)
    requires
        0 <= d < interval.0 <= interval.1 <= sequence.len(),
        forall|k: int|
            0 <= k <= d ==> #[trigger] allele_rolls_left(
                sequence,
                sequence.subrange(interval.0, interval.1),
                interval.0 - 1,
                k,
            ),
    ensures
        sequence[interval.0 - 1 - d] == sequence[interval.1 - 1 - d],
{
    let reference = sequence.subrange(interval.0, interval.1);
    let n = interval.1 - interval.0;
    if n > 0 {
        assert(allele_rolls_left(sequence, reference, interval.0 - 1, d));
        if d < n {
            lemma_mod_self_0(n);
            if d + 1 < n {
                lemma_small_mod((d + 1) as nat, n as nat);
                lemma_small_mod((n - (d + 1)) as nat, n as nat);
            }
            assert(left_offset(n, d) == n - 1 - d);
        } else {
            assert(allele_rolls_left(sequence, reference, interval.0 - 1, d - n));
            lemma_mod_sub_multiples_vanish(d + 1, n);
            assert(left_offset(n, d - n) == left_offset(n, d));
            lemma_left_turn_offsets(n, d);
        }
    }
}

/// Where the reference allele lets the steps `0 ..= d` to the right pass,
/// the reference repeats itself there: the symbol `d` after the interval's
/// start is the symbol `d` after its end.
proof fn lemma_reference_repeats_right(sequence: Seq<char>, interval: (int, int), d: int)
    requires
        0 <= interval.0 <= interval.1,
        0 <= d,
        interval.1 + d < sequence.len(),
        forall|k: int|
            0 <= k <= d ==> #[trigger] allele_rolls_right(
                sequence,
                sequence.subrange(interval.0, interval.1),
                interval.1,
                k,
            ),
    ensures
        sequence[interval.0 + d] == sequence[interval.1 + d],
{
    let reference = sequence.subrange(interval.0, interval.1);
    let n = interval.1 - interval.0;
    if n > 0 {
        assert(allele_rolls_right(sequence, reference, interval.1, d));
        if d < n {
            lemma_small_mod(d as nat, n as nat);
        } else {
            assert(allele_rolls_right(sequence, reference, interval.1, d - n));
            lemma_mod_sub_multiples_vanish(d, n);
            lemma_mod_bound(d, n);
        }
    }
}

/// An allele moved `dist` to the left, over the interval moved with it,
/// spells what it spelled before, where every allele lets the steps before
/// `dist` pass and the first allele is the reference.
proof fn lemma_turned_left_spells_the_same(
    sequence: Seq<char>,
    interval: (int, int),
    alleles: Seq<Seq<char>>,
    i: int,
    dist: int,
)
    requires
        0 <= dist <= interval.0 <= interval.1 <= sequence.len(),
        0 <= i < alleles.len(),
        alleles[0] == sequence.subrange(interval.0, interval.1),
        forall|d: int| 0 <= d < dist ==> #[trigger] rolls_left(sequence, alleles, interval.0 - 1, d),
    ensures
        spelled(sequence, (interval.0 - dist, interval.1 - dist), turned_left(alleles[i], dist))
            == spelled(sequence, interval, alleles[i]),
    decreases dist,
{
    let allele = alleles[i];
    let m = allele.len() as int;
    if dist == 0 {
        if m > 0 {
            lemma_left_turn_offsets(m, 0);
        }
        assert(turned_left(allele, 0) =~= allele);
    } else {
        let k = dist - 1;
        lemma_turned_left_spells_the_same(sequence, interval, alleles, i, k);
        assert forall|j: int| 0 <= j <= k implies #[trigger] allele_rolls_left(
            sequence,
            sequence.subrange(interval.0, interval.1),
            interval.0 - 1,
            j,
        ) by {
            assert(rolls_left(sequence, alleles, interval.0 - 1, j));
            assert(allele_rolls_left(sequence, alleles[0], interval.0 - 1, j));
        }
        lemma_reference_repeats_left(sequence, interval, k);
        assert(rolls_left(sequence, alleles, interval.0 - 1, k));
        assert(allele_rolls_left(sequence, alleles[i], interval.0 - 1, k));
        if m > 0 {
            lemma_turned_left_step(allele, k);
        }
        assert(spelled(
            sequence,
            (interval.0 - dist, interval.1 - dist),
            turned_left(allele, dist),
        ) =~= spelled(sequence, (interval.0 - k, interval.1 - k), turned_left(allele, k)));
    }
}

/// An allele moved `dist` to the right, over the interval moved with it,
/// spells what it spelled before, where every allele lets the steps before
/// `dist` pass and the first allele is the reference.
proof fn lemma_turned_right_spells_the_same(
    sequence: Seq<char>,
    interval: (int, int),
    alleles: Seq<Seq<char>>,
    i: int,
    dist: int,
)
    requires
        0 <= interval.0 <= interval.1,
        0 <= dist,
        interval.1 + dist <= sequence.len(),
        0 <= i < alleles.len(),
        alleles[0] == sequence.subrange(interval.0, interval.1),
        forall|d: int| 0 <= d < dist ==> #[trigger] rolls_right(sequence, alleles, interval.1, d),
    ensures
        spelled(sequence, (interval.0 + dist, interval.1 + dist), turned_right(alleles[i], dist))
            == spelled(sequence, interval, alleles[i]),
    decreases dist,
{
    let allele = alleles[i];
    let m = allele.len() as int;
    if dist == 0 {
        if m > 0 {
            lemma_small_mod(0, m as nat);
        }
        assert(turned_right(allele, 0) =~= allele);
    } else {
        let k = dist - 1;
        lemma_turned_right_spells_the_same(sequence, interval, alleles, i, k);
        assert forall|j: int| 0 <= j <= k implies #[trigger] allele_rolls_right(
            sequence,
            sequence.subrange(interval.0, interval.1),
            interval.1,
            j,
        ) by {
            assert(rolls_right(sequence, alleles, interval.1, j));
            assert(allele_rolls_right(sequence, alleles[0], interval.1, j));
        }
        lemma_reference_repeats_right(sequence, interval, k);
        assert(rolls_right(sequence, alleles, interval.1, k));
        assert(allele_rolls_right(sequence, alleles[i], interval.1, k));
        if m > 0 {
            lemma_turned_right_step(allele, k);
        }
        assert(spelled(
            sequence,
            (interval.0 + dist, interval.1 + dist),
            turned_right(allele, dist),
        ) =~= spelled(sequence, (interval.0 + k, interval.1 + k), turned_right(allele, k)));
    }
}

/// A variant moved as far left as it goes stays within the bounds, and each
/// of its alleles spells what it spelled before.
pub proof fn lemma_shuffled_left_spells_the_same(
    sequence: Seq<char>,
    interval: (int, int),
    alleles: Seq<Seq<char>>,
    low: int,
    i: int,
)
    requires
        0 <= low <= interval.0 <= interval.1 <= sequence.len(),
        0 <= i < alleles.len(),
        alleles[0] == sequence.subrange(interval.0, interval.1),
    ensures
        ({
            let moved = shuffled_left(sequence, interval, alleles, low);
            &&& low <= moved.0.0 <= interval.0
            &&& moved.0.1 - moved.0.0 == interval.1 - interval.0
            &&& moved.1.len() == alleles.len()
            &&& spelled(sequence, moved.0, moved.1[i]) == spelled(sequence, interval, alleles[i])
        }),
{
    let dist = left_reach(sequence, alleles, interval.0, low);
    if low < interval.0 {
        lemma_left_roll_is_roll(sequence, alleles, interval.0 - 1, low);
    }
    lemma_turned_left_spells_the_same(sequence, interval, alleles, i, dist);
}

/// A variant moved as far right as it goes stays within the bounds, and each
/// of its alleles spells what it spelled before.
pub proof fn lemma_shuffled_right_spells_the_same(
    sequence: Seq<char>,
    interval: (int, int),
    alleles: Seq<Seq<char>>,
    high: int,
    i: int,
)
    requires
        0 <= interval.0 <= interval.1 <= high <= sequence.len(),
        0 <= i < alleles.len(),
        alleles[0] == sequence.subrange(interval.0, interval.1),
    ensures
        ({
            let moved = shuffled_right(sequence, interval, alleles, high);
            &&& interval.1 <= moved.0.1 <= high
            &&& moved.0.1 - moved.0.0 == interval.1 - interval.0
            &&& moved.1.len() == alleles.len()
            &&& spelled(sequence, moved.0, moved.1[i]) == spelled(sequence, interval, alleles[i])
        }),
{
    let dist = right_reach(sequence, alleles, interval.1, high);
    if interval.1 < high {
        lemma_right_roll_is_roll(sequence, alleles, interval.1, high - 1);
    }
    lemma_turned_right_spells_the_same(sequence, interval, alleles, i, dist);
}

/// A variant grown over every placement stays within the bounds, and each of
/// its alleles spells what it spelled before.
pub proof fn lemma_expanded_spells_the_same(
    sequence: Seq<char>,
    interval: (int, int),
    alleles: Seq<Seq<char>>,
    bounds: (int, int),
    i: int,
)
    requires
        0 <= bounds.0 <= interval.0 <= interval.1 <= bounds.1 <= sequence.len(),
        0 <= i < alleles.len(),
    ensures
        ({
            let wide = expanded(sequence, interval, alleles, bounds);
            &&& bounds.0 <= wide.0.0 <= interval.0
            &&& interval.1 <= wide.0.1 <= bounds.1
            &&& wide.1.len() == alleles.len()
            &&& spelled(sequence, wide.0, wide.1[i]) == spelled(sequence, interval, alleles[i])
        }),
{
    if bounds.0 < interval.0 {
        lemma_left_roll_is_roll(sequence, alleles, interval.0 - 1, bounds.0);
    }
    if interval.1 < bounds.1 {
        lemma_right_roll_is_roll(sequence, alleles, interval.1, bounds.1 - 1);
    }
    let wide = expanded(sequence, interval, alleles, bounds);
    lemma_flanked_spells_the_same(sequence, alleles[i], wide.0.0, interval.0, interval.1, wide.0.1);
}

/// A variant with anchors stays within the bounds, and each of its alleles
/// spells what it spelled before.
pub proof fn lemma_anchored_spells_the_same(
    sequence: Seq<char>,
    interval: (int, int),
    alleles: Seq<Seq<char>>,
    bounds: (int, int),
    left: int,
    right: int,
    i: int,
)
    requires
        0 <= bounds.0 <= interval.0 <= interval.1 <= bounds.1 <= sequence.len(),
        0 <= left,
        0 <= right,
        0 <= i < alleles.len(),
    ensures
        ({
            let wide = anchored(sequence, interval, alleles, bounds, left, right);
            &&& bounds.0 <= wide.0.0 <= interval.0
            &&& interval.1 <= wide.0.1 <= bounds.1
            &&& wide.1.len() == alleles.len()
            &&& spelled(sequence, wide.0, wide.1[i]) == spelled(sequence, interval, alleles[i])
        }),
{
    let wide = anchored(sequence, interval, alleles, bounds, left, right);
    lemma_flanked_spells_the_same(sequence, alleles[i], wide.0.0, interval.0, interval.1, wide.0.1);
}

/// Normalization does not change what a variant says: in the normal form of
/// an accepted request each allele, put in place of the interval, spells the
/// sequence that it spelled in the request, where the first allele of the
/// request is the reference.
pub proof fn lemma_normal_form_spells_the_same(
    sequence: Seq<char>,
    interval: (usize, usize),
    alleles: Seq<Seq<char>>,
    bounds: (int, int),
    mode: Mode,
    anchor_length: int,
    trim: bool,
    i: int,
)
    requires
        rejection(sequence.len(), interval, alleles.len(), bounds, mode, anchor_length, trim) is None,
        0 <= bounds.0,
        0 <= anchor_length,
        0 <= i < alleles.len(),
    ensures
        ({
            let at = (interval.0 as int, interval.1 as int);
            let found = normal_form(sequence, at, alleles, bounds, mode, anchor_length, trim);
            spelled(sequence, found.0, found.1[i]) == spelled(
                sequence,
                at,
                with_reference(sequence, at, alleles)[i],
            )
        }),
{
    let at = (interval.0 as int, interval.1 as int);
    let given = with_reference(sequence, at, alleles);
    let cut = if trim {
        trimmed(at, given)
    } else {
        (at, given)
    };
    if trim {
        lemma_trimmed_keeps_reference(sequence, at, given);
        lemma_trimmed_spells_the_same(sequence, at, given, i);
    }
    match mode {
        Mode::TrimOnly => {},
        Mode::Expand => {
            let placed = expanded(sequence, cut.0, cut.1, bounds);
            lemma_expanded_spells_the_same(sequence, cut.0, cut.1, bounds, i);
            lemma_anchored_spells_the_same(
                sequence,
                placed.0,
                placed.1,
                bounds,
                anchor_length,
                anchor_length,
                i,
            );
        },
        Mode::RightShuffle => {
            let placed = shuffled_right(sequence, cut.0, cut.1, bounds.1);
            lemma_shuffled_right_spells_the_same(sequence, cut.0, cut.1, bounds.1, i);
            lemma_anchored_spells_the_same(
                sequence,
                placed.0,
                placed.1,
                bounds,
                anchor_length,
                anchor_length,
                i,
            );
        },
        Mode::LeftShuffle => {
            let placed = shuffled_left(sequence, cut.0, cut.1, bounds.0);
            lemma_shuffled_left_spells_the_same(sequence, cut.0, cut.1, bounds.0, i);
            lemma_anchored_spells_the_same(
                sequence,
                placed.0,
                placed.1,
                bounds,
                anchor_length,
                anchor_length,
                i,
            );
        },
        Mode::Vcf => {
            let placed = shuffled_left(sequence, cut.0, cut.1, bounds.0);
            lemma_shuffled_left_spells_the_same(sequence, cut.0, cut.1, bounds.0, i);
            lemma_anchored_spells_the_same(sequence, placed.0, placed.1, bounds, 1, 0, i);
        },
    }
}

/// The first allele of a normal form is the reference over its interval, so
/// a normal form is a variant that can be normalized again.
pub proof fn lemma_normal_form_keeps_reference(
    sequence: Seq<char>,
    interval: (usize, usize),
    alleles: Seq<Seq<char>>,
    bounds: (int, int),
    mode: Mode,
    anchor_length: int,
    trim: bool,
)
    requires
        rejection(sequence.len(), interval, alleles.len(), bounds, mode, anchor_length, trim) is None,
        0 <= bounds.0,
        0 <= anchor_length,
    ensures
        ({
            let at = (interval.0 as int, interval.1 as int);
            let found = normal_form(sequence, at, alleles, bounds, mode, anchor_length, trim);
            &&& 0 <= found.0.0 <= found.0.1 <= sequence.len()
            &&& found.1.len() == alleles.len()
            &&& found.1[0] == sequence.subrange(found.0.0, found.0.1)
        }),
{
    let at = (interval.0 as int, interval.1 as int);
    let found = normal_form(sequence, at, alleles, bounds, mode, anchor_length, trim);
    lemma_normal_form_spells_the_same(sequence, interval, alleles, bounds, mode, anchor_length, trim, 0);
    lemma_normal_form_within_bounds(
        sequence,
        interval,
        alleles,
        bounds,
        mode,
        anchor_length,
        trim,
    );
    let whole = spelled(sequence, at, with_reference(sequence, at, alleles)[0]);
    assert(whole =~= sequence);
    let again = spelled(sequence, found.0, found.1[0]);
    assert(again.len() == sequence.len());
    assert forall|j: int| 0 <= j < found.1[0].len() implies found.1[0][j] == sequence[found.0.0
        + j] by {
        assert(again[found.0.0 + j] == found.1[0][j]);
    }
    assert(found.1[0] =~= sequence.subrange(found.0.0, found.0.1));
}

} // verus!
