//! Rolling: how far an insertion or deletion can slide along the reference
//! without changing the sequence that results.
use vstd::prelude::*;
use vstd::string::StrSliceExecFns;

verus! {

/// The offset read in an allele of `len` symbols at step `d` of a slide to
/// the left: the allele is read backwards from its last symbol, cyclically.
pub open spec fn left_offset(len: int, d: int) -> int {
    (len - (d + 1) % len) % len
}

/// The offset read in an allele of `len` symbols at step `d` of a slide to
/// the right: the allele is read forwards from its first symbol, cyclically.
pub open spec fn right_offset(len: int, d: int) -> int {
    d % len
}

/// The allele lets step `d` to the left pass: it is empty, or the symbol it
/// holds at that step's offset is the reference's at `ref_pos - d`.
pub open spec fn allele_rolls_left(sequence: Seq<char>, allele: Seq<char>, ref_pos: int, d: int) -> bool {
    allele.len() > 0 ==> allele[left_offset(allele.len() as int, d)] == sequence[ref_pos - d]
}

/// The allele lets step `d` to the right pass: it is empty, or the symbol it
/// holds at that step's offset is the reference's at `ref_pos + d`.
pub open spec fn allele_rolls_right(sequence: Seq<char>, allele: Seq<char>, ref_pos: int, d: int) -> bool {
    allele.len() > 0 ==> allele[right_offset(allele.len() as int, d)] == sequence[ref_pos + d]
}

/// Every allele lets step `d` to the left pass.
pub open spec fn rolls_left(sequence: Seq<char>, alleles: Seq<Seq<char>>, ref_pos: int, d: int) -> bool {
    forall|i: int|
        0 <= i < alleles.len() ==> allele_rolls_left(sequence, #[trigger] alleles[i], ref_pos, d)
}

/// Every allele lets step `d` to the right pass.
pub open spec fn rolls_right(sequence: Seq<char>, alleles: Seq<Seq<char>>, ref_pos: int, d: int) -> bool {
    forall|i: int|
        0 <= i < alleles.len() ==> allele_rolls_right(sequence, #[trigger] alleles[i], ref_pos, d)
}

/// `dist` is the first step to the left that does not pass, among the steps
/// `0 ..= ref_pos - bound`, or one more than the last of them if all pass.
pub open spec fn is_left_roll(
    sequence: Seq<char>,
    alleles: Seq<Seq<char>>,
    ref_pos: int,
    bound: int,
    dist: int,
) -> bool {
    &&& 0 <= dist <= ref_pos - bound + 1
    &&& forall|d: int| 0 <= d < dist ==> #[trigger] rolls_left(sequence, alleles, ref_pos, d)
    &&& dist <= ref_pos - bound ==> !rolls_left(sequence, alleles, ref_pos, dist)
}

/// `dist` is the first step to the right that does not pass, among the steps
/// `0 ..= bound - ref_pos`, or one more than the last of them if all pass.
pub open spec fn is_right_roll(
    sequence: Seq<char>,
    alleles: Seq<Seq<char>>,
    ref_pos: int,
    bound: int,
    dist: int,
) -> bool {
    &&& 0 <= dist <= bound - ref_pos + 1
    &&& forall|d: int| 0 <= d < dist ==> #[trigger] rolls_right(sequence, alleles, ref_pos, d)
    &&& dist <= bound - ref_pos ==> !rolls_right(sequence, alleles, ref_pos, dist)
}

/// How far the event at `ref_pos` slides to the left before `bound`.
pub open spec fn left_roll(sequence: Seq<char>, alleles: Seq<Seq<char>>, ref_pos: int, bound: int) -> int {
    choose|dist: int| is_left_roll(sequence, alleles, ref_pos, bound, dist)
}

/// How far the event at `ref_pos` slides to the right before `bound`.
pub open spec fn right_roll(sequence: Seq<char>, alleles: Seq<Seq<char>>, ref_pos: int, bound: int) -> int {
    choose|dist: int| is_right_roll(sequence, alleles, ref_pos, bound, dist)
}

/// Some distance, no less than `d`, is the left roll.
proof fn lemma_left_roll_from(
    sequence: Seq<char>,
    alleles: Seq<Seq<char>>,
    ref_pos: int,
    bound: int,
    d: int,
) -> (dist: int)
    requires
        0 <= d <= ref_pos - bound + 1,
        forall|e: int| 0 <= e < d ==> #[trigger] rolls_left(sequence, alleles, ref_pos, e),
    ensures
        is_left_roll(sequence, alleles, ref_pos, bound, dist),
    decreases ref_pos - bound + 1 - d,
{
    if d <= ref_pos - bound && rolls_left(sequence, alleles, ref_pos, d) {
        lemma_left_roll_from(sequence, alleles, ref_pos, bound, d + 1)
    } else {
        d
    }
}

/// Some distance, no less than `d`, is the right roll.
proof fn lemma_right_roll_from(
    sequence: Seq<char>,
    alleles: Seq<Seq<char>>,
    ref_pos: int,
    bound: int,
    d: int,
) -> (dist: int)
    requires
        0 <= d <= bound - ref_pos + 1,
        forall|e: int| 0 <= e < d ==> #[trigger] rolls_right(sequence, alleles, ref_pos, e),
    ensures
        is_right_roll(sequence, alleles, ref_pos, bound, dist),
    decreases bound - ref_pos + 1 - d,
{
    if d <= bound - ref_pos && rolls_right(sequence, alleles, ref_pos, d) {
        lemma_right_roll_from(sequence, alleles, ref_pos, bound, d + 1)
    } else {
        d
    }
}

/// Where the bound is not past the position, there is a left roll, and
/// `left_roll` is it.
pub proof fn lemma_left_roll_is_roll(sequence: Seq<char>, alleles: Seq<Seq<char>>, ref_pos: int, bound: int)
    requires
        bound <= ref_pos,
    ensures
        is_left_roll(sequence, alleles, ref_pos, bound, left_roll(sequence, alleles, ref_pos, bound)),
{
    let dist = lemma_left_roll_from(sequence, alleles, ref_pos, bound, 0);
}

/// Where the bound is not before the position, there is a right roll, and
/// `right_roll` is it.
pub proof fn lemma_right_roll_is_roll(sequence: Seq<char>, alleles: Seq<Seq<char>>, ref_pos: int, bound: int)
    requires
        ref_pos <= bound,
    ensures
        is_right_roll(sequence, alleles, ref_pos, bound, right_roll(sequence, alleles, ref_pos, bound)),
{
    let dist = lemma_right_roll_from(sequence, alleles, ref_pos, bound, 0);
}

/// No other distance is the left roll.
pub proof fn lemma_left_roll_unique(
    sequence: Seq<char>,
    alleles: Seq<Seq<char>>,
    ref_pos: int,
    bound: int,
    dist: int,
)
    requires
        is_left_roll(sequence, alleles, ref_pos, bound, dist),
    ensures
        dist == left_roll(sequence, alleles, ref_pos, bound),
{
}

/// No other distance is the right roll.
pub proof fn lemma_right_roll_unique(
    sequence: Seq<char>,
    alleles: Seq<Seq<char>>,
    ref_pos: int,
    bound: int,
    dist: int,
)
    requires
        is_right_roll(sequence, alleles, ref_pos, bound, dist),
    ensures
        dist == right_roll(sequence, alleles, ref_pos, bound),
{
}

/// Whether every allele lets step `d` to the left pass.
fn step_rolls_left(sequence: &str, alleles: &[String], ref_pos: usize, d: usize) -> (pass: bool)
    requires
        d <= ref_pos < sequence@.len(),
        d < usize::MAX,
    ensures
        pass == rolls_left(sequence@, alleles.deep_view(), ref_pos as int, d as int),
{
    let there: char = sequence.get_char(ref_pos - d);
    let mut n: usize = 0;
    while n < alleles.len()
        invariant
            n <= alleles.len(),
            d <= ref_pos < sequence@.len(),
            d < usize::MAX,
            there == sequence@[ref_pos - d],
            forall|i: int|
                0 <= i < n ==> allele_rolls_left(
                    sequence@,
                    #[trigger] alleles.deep_view()[i],
                    ref_pos as int,
                    d as int,
                ),
        decreases alleles.len() - n,
    {
        let allele: &str = alleles[n].as_str();
        let len: usize = allele.unicode_len();
        if len > 0 {
            let offset: usize = (len - (d + 1) % len) % len;
            if allele.get_char(offset) != there {
                assert(!allele_rolls_left(
                    sequence@,
                    alleles.deep_view()[n as int],
                    ref_pos as int,
                    d as int,
                ));
                return false;
            }
        }
        n += 1;
    }
    true
}

/// Whether every allele lets step `d` to the right pass.
fn step_rolls_right(sequence: &str, alleles: &[String], ref_pos: usize, d: usize) -> (pass: bool)
    requires
        ref_pos + d < sequence@.len(),
        ref_pos + d <= usize::MAX,
    ensures
        pass == rolls_right(sequence@, alleles.deep_view(), ref_pos as int, d as int),
{
    let there: char = sequence.get_char(ref_pos + d);
    let mut n: usize = 0;
    while n < alleles.len()
        invariant
            n <= alleles.len(),
            ref_pos + d < sequence@.len(),
            ref_pos + d <= usize::MAX,
            there == sequence@[ref_pos + d],
            forall|i: int|
                0 <= i < n ==> allele_rolls_right(
                    sequence@,
                    #[trigger] alleles.deep_view()[i],
                    ref_pos as int,
                    d as int,
                ),
        decreases alleles.len() - n,
    {
        let allele: &str = alleles[n].as_str();
        let len: usize = allele.unicode_len();
        if len > 0 {
            let offset: usize = d % len;
            if allele.get_char(offset) != there {
                assert(!allele_rolls_right(
                    sequence@,
                    alleles.deep_view()[n as int],
                    ref_pos as int,
                    d as int,
                ));
                return false;
            }
        }
        n += 1;
    }
    true
}

/// The left roll of `alleles` from `ref_pos` down to `bound`, on a reference
/// held as a string slice.
pub(crate) fn left_roll_in(sequence: &str, alleles: &[String], ref_pos: usize, bound: usize) -> (dist: usize)
    requires
        bound <= ref_pos < sequence@.len(),
    ensures
        is_left_roll(sequence@, alleles.deep_view(), ref_pos as int, bound as int, dist as int),
        dist == left_roll(sequence@, alleles.deep_view(), ref_pos as int, bound as int),
{
    let total: usize = sequence.unicode_len();
    let max_d: usize = ref_pos - bound;
    let mut d: usize = 0;
    while d <= max_d && step_rolls_left(sequence, alleles, ref_pos, d)
        invariant
            d <= max_d + 1,
            max_d == ref_pos - bound,
            ref_pos < total,
            total == sequence@.len(),
            forall|e: int|
                0 <= e < d ==> #[trigger] rolls_left(
                    sequence@,
                    alleles.deep_view(),
                    ref_pos as int,
                    e,
                ),
        decreases max_d + 1 - d,
    {
        d += 1;
    }
    proof {
        lemma_left_roll_unique(
            sequence@,
            alleles.deep_view(),
            ref_pos as int,
            bound as int,
            d as int,
        );
    }
    d
}

/// The right roll of `alleles` from `ref_pos` up to `bound`, on a reference
/// held as a string slice.
pub(crate) fn right_roll_in(sequence: &str, alleles: &[String], ref_pos: usize, bound: usize) -> (dist: usize)
    requires
        ref_pos <= bound < sequence@.len(),
    ensures
        is_right_roll(sequence@, alleles.deep_view(), ref_pos as int, bound as int, dist as int),
        dist == right_roll(sequence@, alleles.deep_view(), ref_pos as int, bound as int),
{
    let total: usize = sequence.unicode_len();
    let max_d: usize = bound - ref_pos;
    let mut d: usize = 0;
    while d <= max_d && step_rolls_right(sequence, alleles, ref_pos, d)
        invariant
            d <= max_d + 1,
            max_d == bound - ref_pos,
            bound < total,
            total == sequence@.len(),
            forall|e: int|
                0 <= e < d ==> #[trigger] rolls_right(
                    sequence@,
                    alleles.deep_view(),
                    ref_pos as int,
                    e,
                ),
        decreases max_d + 1 - d,
    {
        d += 1;
    }
    proof {
        lemma_right_roll_unique(
            sequence@,
            alleles.deep_view(),
            ref_pos as int,
            bound as int,
            d as int,
        );
    }
    d
}

/// How far the event at `ref_pos` can slide to the left: the first step
/// `d`, counted from 0, at which some non-empty allele, read cyclically from
/// its end, differs from the reference at `ref_pos - d`. The slide ends at
/// `bound` at the latest, with the count of the steps `0 ..= ref_pos - bound`.
pub fn roll_left(sequence: &String, alleles: &[String], ref_pos: usize, bound: usize) -> (dist: usize)
    requires
        bound <= ref_pos < sequence@.len(),
    ensures
        is_left_roll(sequence@, alleles.deep_view(), ref_pos as int, bound as int, dist as int),
        dist == left_roll(sequence@, alleles.deep_view(), ref_pos as int, bound as int),
{
    left_roll_in(sequence.as_str(), alleles, ref_pos, bound)
}

/// How far the event at `ref_pos` can slide to the right: the first step
/// `d`, counted from 0, at which some non-empty allele, read cyclically from
/// its start, differs from the reference at `ref_pos + d`. The slide ends at
/// `bound` at the latest, with the count of the steps `0 ..= bound - ref_pos`.
pub fn roll_right(sequence: &String, alleles: &[String], ref_pos: usize, bound: usize) -> (dist: usize)
    requires
        ref_pos <= bound < sequence@.len(),
    ensures
        is_right_roll(sequence@, alleles.deep_view(), ref_pos as int, bound as int, dist as int),
        dist == right_roll(sequence@, alleles.deep_view(), ref_pos as int, bound as int),
{
    right_roll_in(sequence.as_str(), alleles, ref_pos, bound)
}

} // verus!
