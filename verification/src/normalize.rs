//! Normalization: the canonical interval and alleles of a variant.
//!
//! The first allele stands for the reference: whatever is passed in its
//! place, it is read from the sequence over the interval. The others are
//! the alternatives, in the caller's order.
use crate::roll::{left_roll, left_roll_in, right_roll, right_roll_in};
use crate::roll::{lemma_left_roll_is_roll, lemma_right_roll_is_roll};
use crate::trim::{drop_prefix, drop_suffix, prefix_len, suffix_len, trim_left, trim_right};
use crate::trim::{
    lemma_prefix_fits, lemma_prefix_len_is_longest, lemma_suffix_fits, lemma_suffix_len_is_longest,
    lemma_trim_left_maximal, lemma_trim_right_keeps_left_maximal, lemma_trim_right_maximal,
};
use vstd::prelude::*;
use vstd::string::{StrSliceExecFns, StringExecFns};

verus! {

/// Which of a variant's equivalent forms is the canonical one.
#[derive(Clone, Copy, Debug, PartialEq, Eq, Structural)]
pub enum Mode {
    /// The interval grows over every placement of the event, and the
    /// alleles take in the reference on both sides.
    Expand,
    /// The event moves as far left as the reference allows.
    LeftShuffle,
    /// The event moves as far right as the reference allows.
    RightShuffle,
    /// Shared context is trimmed away and nothing else is done.
    TrimOnly,
    /// As `LeftShuffle`, with one reference symbol kept in front.
    Vcf,
}

/// The setting that `Mode::Vcf` does not go with.
#[derive(Clone, Copy, Debug, PartialEq, Eq, Structural)]
pub enum VcfConflict {
    /// An anchor length other than 0 was asked for.
    AnchorLength,
    /// Trimming was switched off.
    TrimDisabled,
}

/// Why a variant was not normalized.
#[derive(Clone, Copy, Debug, PartialEq, Eq, Structural)]
pub enum NormalizeError {
    /// The interval ends before it starts.
    InvalidInterval { start: usize, end: usize },
    /// `Mode::Vcf` was asked for together with a setting it excludes.
    IncompatibleVcfConfiguration(VcfConflict),
    /// The interval leaves the bounds, or the bounds leave the sequence.
    OutOfBounds,
    /// There is no allele.
    EmptyAlleleSet,
}

/// The bounds that hold where none are given: the whole sequence.
pub open spec fn bounds_or_whole(bounds: Option<(usize, usize)>, total: nat) -> (int, int) {
    match bounds {
        Some(b) => (b.0 as int, b.1 as int),
        None => (0, total as int),
    }
}

/// The mode that holds where none is given.
pub open spec fn mode_or_default(mode: Option<Mode>) -> Mode {
    match mode {
        Some(m) => m,
        None => Mode::Expand,
    }
}

/// The anchor length that holds where none is given.
pub open spec fn anchor_or_default(anchor_length: Option<usize>) -> int {
    match anchor_length {
        Some(n) => n as int,
        None => 0,
    }
}

/// Whether to trim where nothing is said.
pub open spec fn trim_or_default(trim: Option<bool>) -> bool {
    match trim {
        Some(t) => t,
        None => true,
    }
}

/// The error that a request meets, if any. The interval is looked at first,
/// then what `Mode::Vcf` excludes, then the alleles, then the bounds.
pub open spec fn rejection(
    total: nat,
    interval: (usize, usize),
    count: nat,
    bounds: (int, int),
    mode: Mode,
    anchor_length: int,
    trim: bool,
) -> Option<NormalizeError> {
    if interval.0 > interval.1 {
        Some(NormalizeError::InvalidInterval { start: interval.0, end: interval.1 })
    } else if mode == Mode::Vcf && anchor_length != 0 {
        Some(NormalizeError::IncompatibleVcfConfiguration(VcfConflict::AnchorLength))
    } else if mode == Mode::Vcf && !trim {
        Some(NormalizeError::IncompatibleVcfConfiguration(VcfConflict::TrimDisabled))
    } else if count == 0 {
        Some(NormalizeError::EmptyAlleleSet)
    } else if !(bounds.0 <= interval.0 && interval.1 <= bounds.1 && bounds.1 <= total) {
        Some(NormalizeError::OutOfBounds)
    } else {
        None
    }
}

/// The alleles with the reference over `interval` in the first place.
pub open spec fn with_reference(sequence: Seq<char>, interval: (int, int), alleles: Seq<Seq<char>>) -> Seq<
    Seq<char>,
> {
    alleles.update(0, sequence.subrange(interval.0, interval.1))
}

/// A variant after trimming on the left, then on the right: the interval
/// starts later by what went on the left and ends earlier by what went on
/// the right.
pub open spec fn trimmed(interval: (int, int), alleles: Seq<Seq<char>>) -> ((int, int), Seq<Seq<char>>) {
    let left = prefix_len(alleles);
    let rest = drop_prefix(alleles, left);
    let right = suffix_len(rest);
    ((interval.0 + left, interval.1 - right), drop_suffix(rest, right))
}

/// How far a variant that starts at `start` can move left without leaving
/// `low`.
pub open spec fn left_reach(sequence: Seq<char>, alleles: Seq<Seq<char>>, start: int, low: int) -> int {
    if low < start {
        left_roll(sequence, alleles, start - 1, low)
    } else {
        0
    }
}

/// How far a variant that ends at `end` can move right without leaving
/// `high`.
pub open spec fn right_reach(sequence: Seq<char>, alleles: Seq<Seq<char>>, end: int, high: int) -> int {
    if end < high {
        right_roll(sequence, alleles, end, high - 1)
    } else {
        0
    }
}

/// The allele read cyclically from offset `k` on.
pub open spec fn rotated(allele: Seq<char>, k: int) -> Seq<char> {
    allele.subrange(k, allele.len() as int) + allele.subrange(0, k)
}

/// The allele as it reads after the event has moved `dist` to the left.
pub open spec fn turned_left(allele: Seq<char>, dist: int) -> Seq<char> {
    if allele.len() == 0 {
        allele
    } else {
        rotated(allele, (allele.len() - dist % (allele.len() as int)) % (allele.len() as int))
    }
}

/// The allele as it reads after the event has moved `dist` to the right.
pub open spec fn turned_right(allele: Seq<char>, dist: int) -> Seq<char> {
    if allele.len() == 0 {
        allele
    } else {
        rotated(allele, dist % (allele.len() as int))
    }
}

/// Every allele as it reads after the event has moved `dist` to the left.
pub open spec fn each_turned_left(alleles: Seq<Seq<char>>, dist: int) -> Seq<Seq<char>> {
    Seq::new(alleles.len(), |i: int| turned_left(alleles[i], dist))
}

/// Every allele as it reads after the event has moved `dist` to the right.
pub open spec fn each_turned_right(alleles: Seq<Seq<char>>, dist: int) -> Seq<Seq<char>> {
    Seq::new(alleles.len(), |i: int| turned_right(alleles[i], dist))
}

/// Each allele between the reference over `from .. start` and the
/// reference over `end .. to`.
pub open spec fn flanked(
    sequence: Seq<char>,
    alleles: Seq<Seq<char>>,
    from: int,
    start: int,
    end: int,
    to: int,
) -> Seq<Seq<char>> {
    Seq::new(
        alleles.len(),
        |i: int| sequence.subrange(from, start) + alleles[i] + sequence.subrange(end, to),
    )
}

/// The variant moved as far left as the reference and `low` allow.
pub open spec fn shuffled_left(
    sequence: Seq<char>,
    interval: (int, int),
    alleles: Seq<Seq<char>>,
    low: int,
) -> ((int, int), Seq<Seq<char>>) {
    let dist = left_reach(sequence, alleles, interval.0, low);
    (
        (interval.0 - dist, interval.1 - dist),
        each_turned_left(alleles, dist),
    )
}

/// The variant moved as far right as the reference and `high` allow.
pub open spec fn shuffled_right(
    sequence: Seq<char>,
    interval: (int, int),
    alleles: Seq<Seq<char>>,
    high: int,
) -> ((int, int), Seq<Seq<char>>) {
    let dist = right_reach(sequence, alleles, interval.1, high);
    (
        (interval.0 + dist, interval.1 + dist),
        each_turned_right(alleles, dist),
    )
}

/// The variant grown over every placement that the reference and the
/// bounds allow.
pub open spec fn expanded(
    sequence: Seq<char>,
    interval: (int, int),
    alleles: Seq<Seq<char>>,
    bounds: (int, int),
) -> ((int, int), Seq<Seq<char>>) {
    let from = interval.0 - left_reach(sequence, alleles, interval.0, bounds.0);
    let to = interval.1 + right_reach(sequence, alleles, interval.1, bounds.1);
    ((from, to), flanked(sequence, alleles, from, interval.0, interval.1, to))
}

/// The variant with up to `left` reference symbols in front and up to
/// `right` behind, as far as the bounds allow.
pub open spec fn anchored(
    sequence: Seq<char>,
    interval: (int, int),
    alleles: Seq<Seq<char>>,
    bounds: (int, int),
    left: int,
    right: int,
) -> ((int, int), Seq<Seq<char>>) {
    let from = if interval.0 - left >= bounds.0 {
        interval.0 - left
    } else {
        bounds.0
    };
    let to = if interval.1 + right <= bounds.1 {
        interval.1 + right
    } else {
        bounds.1
    };
    ((from, to), flanked(sequence, alleles, from, interval.0, interval.1, to))
}

/// The canonical form of a variant: the reference is put in the first
/// place; the alleles are trimmed, if asked; the event is placed as the mode
/// says; and anchors are added. `Mode::TrimOnly` ends after trimming, with
/// no anchors. `Mode::Vcf` is `Mode::LeftShuffle` with one symbol in front
/// and none behind.
pub open spec fn normal_form(
    sequence: Seq<char>,
    interval: (int, int),
    alleles: Seq<Seq<char>>,
    bounds: (int, int),
    mode: Mode,
    anchor_length: int,
    trim: bool,
) -> ((int, int), Seq<Seq<char>>) {
    let given = with_reference(sequence, interval, alleles);
    let cut = if trim {
        trimmed(interval, given)
    } else {
        (interval, given)
    };
    match mode {
        Mode::TrimOnly => cut,
        Mode::Expand => {
            let at = expanded(sequence, cut.0, cut.1, bounds);
            anchored(sequence, at.0, at.1, bounds, anchor_length, anchor_length)
        },
        Mode::LeftShuffle => {
            let at = shuffled_left(sequence, cut.0, cut.1, bounds.0);
            anchored(sequence, at.0, at.1, bounds, anchor_length, anchor_length)
        },
        Mode::RightShuffle => {
            let at = shuffled_right(sequence, cut.0, cut.1, bounds.1);
            anchored(sequence, at.0, at.1, bounds, anchor_length, anchor_length)
        },
        Mode::Vcf => {
            let at = shuffled_left(sequence, cut.0, cut.1, bounds.0);
            anchored(sequence, at.0, at.1, bounds, 1, 0)
        },
    }
}

/// Trimming keeps the first allele the reference over the interval, and the
/// interval within the one it came from.
pub proof fn lemma_trimmed_keeps_reference(sequence: Seq<char>, interval: (int, int), alleles: Seq<Seq<char>>)
    requires
        alleles.len() > 0,
        0 <= interval.0 <= interval.1 <= sequence.len(),
        alleles[0] == sequence.subrange(interval.0, interval.1),
    ensures
        ({
            let cut = trimmed(interval, alleles);
            &&& interval.0 <= cut.0.0 <= cut.0.1 <= interval.1
            &&& cut.1.len() == alleles.len()
            &&& cut.1[0] == sequence.subrange(cut.0.0, cut.0.1)
        }),
{
    let left = prefix_len(alleles);
    let rest = drop_prefix(alleles, left);
    let right = suffix_len(rest);
    let cut = trimmed(interval, alleles);
    lemma_prefix_len_is_longest(alleles);
    lemma_prefix_fits(alleles, left);
    lemma_suffix_len_is_longest(rest);
    lemma_suffix_fits(rest, right);
    assert(rest[0].len() == alleles[0].len() - left);
    assert(cut.1[0] =~= sequence.subrange(cut.0.0, cut.0.1));
}

/// Normalizing twice with `Mode::TrimOnly` gives what normalizing once
/// gives: the result of an accepted request is itself an accepted request,
/// and its normal form is itself.
pub proof fn lemma_trim_only_idempotent(
    sequence: Seq<char>,
    interval: (usize, usize),
    alleles: Seq<Seq<char>>,
    bounds: (int, int),
    anchor_length: int,
    trim: bool,
)
    requires
        rejection(sequence.len(), interval, alleles.len(), bounds, Mode::TrimOnly, anchor_length, trim)
            is None,
    ensures
        ({
            let once = normal_form(
                sequence,
                (interval.0 as int, interval.1 as int),
                alleles,
                bounds,
                Mode::TrimOnly,
                anchor_length,
                trim,
            );
            &&& interval.0 <= once.0.0 <= once.0.1 <= interval.1
            &&& rejection(
                sequence.len(),
                (once.0.0 as usize, once.0.1 as usize),
                once.1.len(),
                bounds,
                Mode::TrimOnly,
                anchor_length,
                trim,
            ) is None
            &&& normal_form(sequence, once.0, once.1, bounds, Mode::TrimOnly, anchor_length, trim)
                == once
        }),
{
    let at = (interval.0 as int, interval.1 as int);
    let given = with_reference(sequence, at, alleles);
    let once = normal_form(sequence, at, alleles, bounds, Mode::TrimOnly, anchor_length, trim);
    if trim {
        let rest = drop_prefix(given, prefix_len(given));
        lemma_trimmed_keeps_reference(sequence, at, given);
        lemma_trim_left_maximal(given);
        lemma_trim_right_keeps_left_maximal(rest);
        lemma_trim_right_maximal(rest);
        assert(with_reference(sequence, once.0, once.1) =~= once.1);
        assert(drop_prefix(once.1, 0) =~~= once.1);
        assert(drop_suffix(once.1, 0) =~~= once.1);
    } else {
        assert(with_reference(sequence, once.0, once.1) =~= once.1);
    }
}

/// The normal form of an accepted request has as many alleles as the
/// request, and its interval lies within the bounds.
pub proof fn lemma_normal_form_within_bounds(
    sequence: Seq<char>,
    interval: (usize, usize),
    alleles: Seq<Seq<char>>,
    bounds: (int, int),
    mode: Mode,
    anchor_length: int,
    trim: bool,
)
    requires
        rejection(sequence.len(), interval, alleles.len(), bounds, mode, anchor_length, trim) is None,
        0 <= anchor_length,
    ensures
        ({
            let found = normal_form(
                sequence,
                (interval.0 as int, interval.1 as int),
                alleles,
                bounds,
                mode,
                anchor_length,
                trim,
            );
            &&& bounds.0 <= found.0.0 <= found.0.1 <= bounds.1
            &&& found.1.len() == alleles.len()
        }),
{
    let at = (interval.0 as int, interval.1 as int);
    let given = with_reference(sequence, at, alleles);
    let cut = if trim {
        trimmed(at, given)
    } else {
        (at, given)
    };
    if trim {
        lemma_trimmed_keeps_reference(sequence, at, given);
    }
    if bounds.0 < cut.0.0 {
        lemma_left_roll_is_roll(sequence, cut.1, cut.0.0 - 1, bounds.0);
    }
    if cut.0.1 < bounds.1 {
        lemma_right_roll_is_roll(sequence, cut.1, cut.0.1, bounds.1 - 1);
    }
}

/// The alleles with `reference` in the first place.
fn put_reference<'s>(alleles: Vec<&'s str>, reference: &'s str) -> (given: Vec<&'s str>)
    requires
        alleles.len() > 0,
    ensures
        given.len() == alleles.len(),
        given[0]@ == reference@,
        given.deep_view() == alleles.deep_view().update(0, reference@),
{
    let mut given = alleles;
    given.set(0, reference);
    assert(given.deep_view() =~= alleles.deep_view().update(0, reference@));
    given
}

/// Copies of the alleles that own their symbols.
fn owned_alleles(alleles: &Vec<&str>) -> (copies: Vec<String>)
    ensures
        copies.deep_view() == alleles.deep_view(),
{
    let mut copies: Vec<String> = Vec::new();
    let mut n: usize = 0;
    while n < alleles.len()
        invariant
            n <= alleles.len(),
            copies.len() == n,
            forall|i: int| 0 <= i < n ==> (#[trigger] copies[i])@ == alleles[i]@,
        decreases alleles.len() - n,
    {
        copies.push(alleles[n].to_owned());
        n += 1;
    }
    assert(copies.deep_view() =~= alleles.deep_view());
    copies
}

/// The allele read cyclically from offset `k` on.
fn rotate(allele: &str, k: usize) -> (turned: String)
    requires
        k <= allele@.len(),
    ensures
        turned@ == rotated(allele@, k as int),
{
    let len: usize = allele.unicode_len();
    let mut turned: String = allele.substring_char(k, len).to_owned();
    turned.append(allele.substring_char(0, k));
    turned
}

/// Every allele as it reads after the event has moved `dist` to the left.
fn turn_left(alleles: &Vec<String>, dist: usize) -> (turned: Vec<String>)
    ensures
        turned.deep_view() == each_turned_left(alleles.deep_view(), dist as int),
{
    let mut turned: Vec<String> = Vec::new();
    let mut n: usize = 0;
    while n < alleles.len()
        invariant
            n <= alleles.len(),
            turned.len() == n,
            forall|i: int| 0 <= i < n ==> (#[trigger] turned[i])@ == turned_left(alleles[i]@, dist as int),
        decreases alleles.len() - n,
    {
        let allele: &str = alleles[n].as_str();
        let len: usize = allele.unicode_len();
        if len == 0 {
            turned.push(allele.to_owned());
        } else {
            turned.push(rotate(allele, (len - dist % len) % len));
        }
        n += 1;
    }
    assert(turned.deep_view() =~= each_turned_left(alleles.deep_view(), dist as int));
    turned
}

/// Every allele as it reads after the event has moved `dist` to the right.
fn turn_right(alleles: &Vec<String>, dist: usize) -> (turned: Vec<String>)
    ensures
        turned.deep_view() == each_turned_right(alleles.deep_view(), dist as int),
{
    let mut turned: Vec<String> = Vec::new();
    let mut n: usize = 0;
    while n < alleles.len()
        invariant
            n <= alleles.len(),
            turned.len() == n,
            forall|i: int| 0 <= i < n ==> (#[trigger] turned[i])@ == turned_right(alleles[i]@, dist as int),
        decreases alleles.len() - n,
    {
        let allele: &str = alleles[n].as_str();
        let len: usize = allele.unicode_len();
        if len == 0 {
            turned.push(allele.to_owned());
        } else {
            turned.push(rotate(allele, dist % len));
        }
        n += 1;
    }
    assert(turned.deep_view() =~= each_turned_right(alleles.deep_view(), dist as int));
    turned
}

/// Each allele between the reference over `from .. start` and the
/// reference over `end .. to`.
fn flank(sequence: &str, alleles: &Vec<String>, from: usize, start: usize, end: usize, to: usize) -> (wide:
    Vec<String>)
    requires
        from <= start <= sequence@.len(),
        end <= to <= sequence@.len(),
    ensures
        wide.deep_view() == flanked(
            sequence@,
            alleles.deep_view(),
            from as int,
            start as int,
            end as int,
            to as int,
        ),
{
    let before: &str = sequence.substring_char(from, start);
    let after: &str = sequence.substring_char(end, to);
    let mut wide: Vec<String> = Vec::new();
    let mut n: usize = 0;
    while n < alleles.len()
        invariant
            n <= alleles.len(),
            wide.len() == n,
            before@ == sequence@.subrange(from as int, start as int),
            after@ == sequence@.subrange(end as int, to as int),
            forall|i: int| 0 <= i < n ==> (#[trigger] wide[i])@ == before@ + alleles[i]@ + after@,
        decreases alleles.len() - n,
    {
        let mut allele: String = before.to_owned();
        allele.append(alleles[n].as_str());
        allele.append(after);
        wide.push(allele);
        n += 1;
    }
    assert(wide.deep_view() =~= flanked(
        sequence@,
        alleles.deep_view(),
        from as int,
        start as int,
        end as int,
        to as int,
    ));
    wide
}

/// Trims the alleles on the left, then on the right, and moves the ends of
/// the interval by what went.
fn trim_both<'s>(interval: (usize, usize), alleles: Vec<&'s str>) -> (cut: ((usize, usize), Vec<&'s str>))
    requires
        alleles.len() > 0,
        interval.0 <= interval.1,
        alleles[0]@.len() == interval.1 - interval.0,
    ensures
        ((cut.0.0 as int, cut.0.1 as int), cut.1.deep_view()) == trimmed(
            (interval.0 as int, interval.1 as int),
            alleles.deep_view(),
        ),
        interval.0 <= cut.0.0 <= cut.0.1 <= interval.1,
        cut.1.len() == alleles.len(),
        cut.1[0]@.len() == cut.0.1 - cut.0.0,
{
    let ghost given = alleles.deep_view();
    let (left, rest) = trim_left(alleles);
    proof {
        lemma_prefix_fits(given, left as nat);
    }
    let ghost kept = rest.deep_view();
    let (right, rest) = trim_right(rest);
    proof {
        lemma_suffix_fits(kept, right as nat);
        assert(given[0] == alleles[0]@);
        assert(kept[0].len() == given[0].len() - left);
        assert(rest.deep_view()[0].len() == kept[0].len() - right);
        assert(rest.deep_view()[0] == rest[0]@);
    }
    ((interval.0 + left, interval.1 - right), rest)
}

/// Adds up to `left` reference symbols in front of the variant and up to
/// `right` behind it, as far as the bounds allow.
fn add_anchors(
    sequence: &str,
    interval: (usize, usize),
    alleles: &Vec<String>,
    bounds: (usize, usize),
    left: usize,
    right: usize,
) -> (wide: ((usize, usize), Vec<String>))
    requires
        bounds.0 <= interval.0 <= interval.1 <= bounds.1 <= sequence@.len(),
    ensures
        ((wide.0.0 as int, wide.0.1 as int), wide.1.deep_view()) == anchored(
            sequence@,
            (interval.0 as int, interval.1 as int),
            alleles.deep_view(),
            (bounds.0 as int, bounds.1 as int),
            left as int,
            right as int,
        ),
        bounds.0 <= wide.0.0 <= wide.0.1 <= bounds.1,
{
    let from: usize = if interval.0 - bounds.0 >= left {
        interval.0 - left
    } else {
        bounds.0
    };
    let to: usize = if bounds.1 - interval.1 >= right {
        interval.1 + right
    } else {
        bounds.1
    };
    ((from, to), flank(sequence, alleles, from, interval.0, interval.1, to))
}

/// How far a variant that starts at `start` can move left without leaving
/// `low`.
fn reach_left(sequence: &str, alleles: &Vec<String>, start: usize, low: usize) -> (dist: usize)
    requires
        low <= start <= sequence@.len(),
    ensures
        dist == left_reach(sequence@, alleles.deep_view(), start as int, low as int),
        dist <= start - low,
{
    if low < start {
        left_roll_in(sequence, alleles.as_slice(), start - 1, low)
    } else {
        0
    }
}

/// How far a variant that ends at `end` can move right without leaving
/// `high`.
fn reach_right(sequence: &str, alleles: &Vec<String>, end: usize, high: usize) -> (dist: usize)
    requires
        end <= high <= sequence@.len(),
    ensures
        dist == right_reach(sequence@, alleles.deep_view(), end as int, high as int),
        dist <= high - end,
{
    if end < high {
        right_roll_in(sequence, alleles.as_slice(), end, high - 1)
    } else {
        0
    }
}

/// Brings a variant into its canonical form.
///
/// The variant is `interval`, half-open, in `sequence`, with `alleles` as
/// its possible contents. The first allele is replaced by the reference
/// over the interval. Where an argument is `None`, the bounds are the whole
/// sequence, the mode is `Mode::Expand`, the anchor length is 0, and the
/// alleles are trimmed.
///
/// The request is refused, in this order, if the interval ends before it
/// starts; if `Mode::Vcf` comes with an anchor length other than 0 or with
/// trimming switched off; if there is no allele; if the interval is not
/// within the bounds or the bounds are not within the sequence. Otherwise
/// the result is `normal_form` of the request, and its interval lies within
/// the bounds.
pub fn normalize<'a>(
    sequence: &str,
    interval: (usize, usize),
    alleles: Vec<&'a str>,
    bounds: Option<(usize, usize)>,
    mode: Option<Mode>,
    anchor_length: Option<usize>,
    trim: Option<bool>,
) -> (r: Result<((usize, usize), Vec<String>), NormalizeError>)
    ensures
        match r {
            Ok(found) => {
                &&& rejection(
                    sequence@.len(),
                    interval,
                    alleles@.len(),
                    bounds_or_whole(bounds, sequence@.len()),
                    mode_or_default(mode),
                    anchor_or_default(anchor_length),
                    trim_or_default(trim),
                ) is None
                &&& ((found.0.0 as int, found.0.1 as int), found.1.deep_view()) == normal_form(
                    sequence@,
                    (interval.0 as int, interval.1 as int),
                    alleles.deep_view(),
                    bounds_or_whole(bounds, sequence@.len()),
                    mode_or_default(mode),
                    anchor_or_default(anchor_length),
                    trim_or_default(trim),
                )
                &&& bounds_or_whole(bounds, sequence@.len()).0 <= found.0.0 <= found.0.1
                    <= bounds_or_whole(bounds, sequence@.len()).1
            },
            Err(e) => rejection(
                sequence@.len(),
                interval,
                alleles@.len(),
                bounds_or_whole(bounds, sequence@.len()),
                mode_or_default(mode),
                anchor_or_default(anchor_length),
                trim_or_default(trim),
            ) == Some(e),
        },
{
    let total: usize = sequence.unicode_len();
    let bounds: (usize, usize) = match bounds {
        Some(b) => b,
        None => (0, total),
    };
    let mode: Mode = match mode {
        Some(m) => m,
        None => Mode::Expand,
    };
    let anchor_length: usize = match anchor_length {
        Some(n) => n,
        None => 0,
    };
    let trim: bool = match trim {
        Some(t) => t,
        None => true,
    };
    let (start, end) = interval;
    if start > end {
        return Err(NormalizeError::InvalidInterval { start, end });
    }
    let is_vcf: bool = match mode {
        Mode::Vcf => true,
        _ => false,
    };
    if is_vcf && anchor_length != 0 {
        return Err(NormalizeError::IncompatibleVcfConfiguration(VcfConflict::AnchorLength));
    }
    if is_vcf && !trim {
        return Err(NormalizeError::IncompatibleVcfConfiguration(VcfConflict::TrimDisabled));
    }
    if alleles.len() == 0 {
        return Err(NormalizeError::EmptyAlleleSet);
    }
    if !(bounds.0 <= start && end <= bounds.1 && bounds.1 <= total) {
        return Err(NormalizeError::OutOfBounds);
    }
    let (left_anchor, right_anchor): (usize, usize) = if is_vcf {
        (1, 0)
    } else {
        (anchor_length, anchor_length)
    };
    let given = put_reference(alleles, sequence.substring_char(start, end));
    let (cut, rest) = if trim {
        trim_both(interval, given)
    } else {
        (interval, given)
    };
    let rest: Vec<String> = owned_alleles(&rest);
    match mode {
        Mode::TrimOnly => Ok((cut, rest)),
        Mode::Expand => {
            let from: usize = cut.0 - reach_left(sequence, &rest, cut.0, bounds.0);
            let to: usize = cut.1 + reach_right(sequence, &rest, cut.1, bounds.1);
            let wide = flank(sequence, &rest, from, cut.0, cut.1, to);
            Ok(add_anchors(sequence, (from, to), &wide, bounds, left_anchor, right_anchor))
        },
        Mode::RightShuffle => {
            let dist: usize = reach_right(sequence, &rest, cut.1, bounds.1);
            let moved = turn_right(&rest, dist);
            Ok(
                add_anchors(
                    sequence,
                    (cut.0 + dist, cut.1 + dist),
                    &moved,
                    bounds,
                    left_anchor,
                    right_anchor,
                ),
            )
        },
        _ => {
            let dist: usize = reach_left(sequence, &rest, cut.0, bounds.0);
            let moved = turn_left(&rest, dist);
            Ok(
                add_anchors(
                    sequence,
                    (cut.0 - dist, cut.1 - dist),
                    &moved,
                    bounds,
                    left_anchor,
                    right_anchor,
                ),
            )
        },
    }
}

} // verus!
