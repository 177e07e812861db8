//! Trimming: removal of the context that every allele shares.
use vstd::prelude::*;
use vstd::string::StrSliceExecFns;

verus! {

/// Allele `i` has a symbol at offset `j` from its start, the same as the
/// first allele has there.
pub open spec fn agrees_from_start(alleles: Seq<Seq<char>>, i: int, j: int) -> bool {
    j < alleles[i].len() && j < alleles[0].len() && alleles[i][j] == alleles[0][j]
}

/// Allele `i` has a symbol at offset `j` from its end, the same as the first
/// allele has there.
pub open spec fn agrees_from_end(alleles: Seq<Seq<char>>, i: int, j: int) -> bool {
    j < alleles[i].len() && j < alleles[0].len() && alleles[i][alleles[i].len() - 1 - j]
        == alleles[0][alleles[0].len() - 1 - j]
}

/// Every allele has at least `k` symbols, and all agree on their first `k`.
pub open spec fn shares_prefix(alleles: Seq<Seq<char>>, k: nat) -> bool {
    forall|i: int, j: int|
        0 <= i < alleles.len() && 0 <= j < k ==> #[trigger] agrees_from_start(alleles, i, j)
}

/// Every allele has at least `k` symbols, and all agree on their last `k`.
pub open spec fn shares_suffix(alleles: Seq<Seq<char>>, k: nat) -> bool {
    forall|i: int, j: int|
        0 <= i < alleles.len() && 0 <= j < k ==> #[trigger] agrees_from_end(alleles, i, j)
}

/// `k` is the length of the longest prefix that all alleles share.
pub open spec fn is_longest_prefix(alleles: Seq<Seq<char>>, k: nat) -> bool {
    shares_prefix(alleles, k) && forall|m: nat| #[trigger] shares_prefix(alleles, m) ==> m <= k
}

/// `k` is the length of the longest suffix that all alleles share.
pub open spec fn is_longest_suffix(alleles: Seq<Seq<char>>, k: nat) -> bool {
    shares_suffix(alleles, k) && forall|m: nat| #[trigger] shares_suffix(alleles, m) ==> m <= k
}

/// The alleles without their first `k` symbols.
pub open spec fn drop_prefix(alleles: Seq<Seq<char>>, k: nat) -> Seq<Seq<char>> {
    Seq::new(alleles.len(), |i: int| alleles[i].subrange(k as int, alleles[i].len() as int))
}

/// The alleles without their last `k` symbols.
pub open spec fn drop_suffix(alleles: Seq<Seq<char>>, k: nat) -> Seq<Seq<char>> {
    Seq::new(alleles.len(), |i: int| alleles[i].subrange(0, alleles[i].len() - k))
}

/// The length of the longest prefix that all alleles share; 0 where there
/// are no alleles.
pub open spec fn prefix_len(alleles: Seq<Seq<char>>) -> nat {
    if alleles.len() == 0 {
        0
    } else {
        choose|k: nat| is_longest_prefix(alleles, k)
    }
}

/// The length of the longest suffix that all alleles share; 0 where there
/// are no alleles.
pub open spec fn suffix_len(alleles: Seq<Seq<char>>) -> nat {
    if alleles.len() == 0 {
        0
    } else {
        choose|k: nat| is_longest_suffix(alleles, k)
    }
}

/// Sharing a prefix of some length means sharing every shorter one.
pub proof fn lemma_shares_prefix_shorter(alleles: Seq<Seq<char>>, k: nat, m: nat)
    requires
        shares_prefix(alleles, k),
        m <= k,
    ensures
        shares_prefix(alleles, m),
{
}

/// Sharing a suffix of some length means sharing every shorter one.
pub proof fn lemma_shares_suffix_shorter(alleles: Seq<Seq<char>>, k: nat, m: nat)
    requires
        shares_suffix(alleles, k),
        m <= k,
    ensures
        shares_suffix(alleles, m),
{
}

/// A shared prefix that cannot be extended by one symbol is the longest.
pub proof fn lemma_longest_prefix_by_step(alleles: Seq<Seq<char>>, k: nat)
    requires
        shares_prefix(alleles, k),
        !shares_prefix(alleles, k + 1),
    ensures
        is_longest_prefix(alleles, k),
{
    assert forall|m: nat| #[trigger] shares_prefix(alleles, m) implies m <= k by {
        if m > k {
            lemma_shares_prefix_shorter(alleles, m, k + 1);
        }
    }
}

/// A shared suffix that cannot be extended by one symbol is the longest.
pub proof fn lemma_longest_suffix_by_step(alleles: Seq<Seq<char>>, k: nat)
    requires
        shares_suffix(alleles, k),
        !shares_suffix(alleles, k + 1),
    ensures
        is_longest_suffix(alleles, k),
{
    assert forall|m: nat| #[trigger] shares_suffix(alleles, m) implies m <= k by {
        if m > k {
            lemma_shares_suffix_shorter(alleles, m, k + 1);
        }
    }
}

/// Some shared prefix, no shorter than `k`, is the longest.
proof fn lemma_longest_prefix_from(alleles: Seq<Seq<char>>, k: nat) -> (m: nat)
    requires
        alleles.len() > 0,
        shares_prefix(alleles, k),
    ensures
        is_longest_prefix(alleles, m),
    decreases alleles[0].len() - k,
{
    if shares_prefix(alleles, k + 1) {
        assert(agrees_from_start(alleles, 0, k as int));
        lemma_longest_prefix_from(alleles, k + 1)
    } else {
        lemma_longest_prefix_by_step(alleles, k);
        k
    }
}

/// Some shared suffix, no shorter than `k`, is the longest.
proof fn lemma_longest_suffix_from(alleles: Seq<Seq<char>>, k: nat) -> (m: nat)
    requires
        alleles.len() > 0,
        shares_suffix(alleles, k),
    ensures
        is_longest_suffix(alleles, m),
    decreases alleles[0].len() - k,
{
    if shares_suffix(alleles, k + 1) {
        assert(agrees_from_end(alleles, 0, k as int));
        lemma_longest_suffix_from(alleles, k + 1)
    } else {
        lemma_longest_suffix_by_step(alleles, k);
        k
    }
}

/// One or more alleles have a longest shared prefix, and `prefix_len` is
/// its length.
pub proof fn lemma_prefix_len_is_longest(alleles: Seq<Seq<char>>)
    requires
        alleles.len() > 0,
    ensures
        is_longest_prefix(alleles, prefix_len(alleles)),
{
    let m = lemma_longest_prefix_from(alleles, 0);
}

/// One or more alleles have a longest shared suffix, and `suffix_len` is
/// its length.
pub proof fn lemma_suffix_len_is_longest(alleles: Seq<Seq<char>>)
    requires
        alleles.len() > 0,
    ensures
        is_longest_suffix(alleles, suffix_len(alleles)),
{
    let m = lemma_longest_suffix_from(alleles, 0);
}

/// No other length is that of the longest shared prefix.
pub proof fn lemma_prefix_len_unique(alleles: Seq<Seq<char>>, k: nat)
    requires
        alleles.len() > 0,
        is_longest_prefix(alleles, k),
    ensures
        k == prefix_len(alleles),
{
}

/// No other length is that of the longest shared suffix.
pub proof fn lemma_suffix_len_unique(alleles: Seq<Seq<char>>, k: nat)
    requires
        alleles.len() > 0,
        is_longest_suffix(alleles, k),
    ensures
        k == suffix_len(alleles),
{
}

/// Every allele is at least as long as a prefix that all share.
pub proof fn lemma_prefix_fits(alleles: Seq<Seq<char>>, k: nat)
    requires
        shares_prefix(alleles, k),
    ensures
        forall|i: int| 0 <= i < alleles.len() ==> k <= (#[trigger] alleles[i]).len(),
{
    assert forall|i: int| 0 <= i < alleles.len() implies k <= (#[trigger] alleles[i]).len() by {
        if k > 0 {
            assert(agrees_from_start(alleles, i, k - 1));
        }
    }
}

/// Every allele is at least as long as a suffix that all share.
pub proof fn lemma_suffix_fits(alleles: Seq<Seq<char>>, k: nat)
    requires
        shares_suffix(alleles, k),
    ensures
        forall|i: int| 0 <= i < alleles.len() ==> k <= (#[trigger] alleles[i]).len(),
{
    assert forall|i: int| 0 <= i < alleles.len() implies k <= (#[trigger] alleles[i]).len() by {
        if k > 0 {
            assert(agrees_from_end(alleles, i, k - 1));
        }
    }
}

/// Trimming on the left is maximal: what it leaves shares no prefix, so
/// trimming that again removes nothing.
pub proof fn lemma_trim_left_maximal(alleles: Seq<Seq<char>>)
    ensures
        prefix_len(drop_prefix(alleles, prefix_len(alleles))) == 0,
{
    if alleles.len() > 0 {
        let k = prefix_len(alleles);
        let rest = drop_prefix(alleles, k);
        lemma_prefix_len_is_longest(alleles);
        lemma_prefix_fits(alleles, k);
        assert(!shares_prefix(alleles, k + 1));
        let (i, j) = choose|i: int, j: int|
            0 <= i < alleles.len() && 0 <= j < k + 1 && !agrees_from_start(alleles, i, j);
        assert(j == k) by {
            if j < k {
                assert(agrees_from_start(alleles, i, j));
            }
        }
        if rest[0].len() == 0 {
            assert(!agrees_from_start(rest, 0, 0));
        } else {
            assert(!agrees_from_start(rest, i, 0));
        }
        lemma_longest_prefix_by_step(rest, 0);
        lemma_prefix_len_unique(rest, 0);
    }
}

/// Trimming on the right is maximal: what it leaves shares no suffix, so
/// trimming that again removes nothing.
pub proof fn lemma_trim_right_maximal(alleles: Seq<Seq<char>>)
    ensures
        suffix_len(drop_suffix(alleles, suffix_len(alleles))) == 0,
{
    if alleles.len() > 0 {
        let k = suffix_len(alleles);
        let rest = drop_suffix(alleles, k);
        lemma_suffix_len_is_longest(alleles);
        lemma_suffix_fits(alleles, k);
        assert(!shares_suffix(alleles, k + 1));
        let (i, j) = choose|i: int, j: int|
            0 <= i < alleles.len() && 0 <= j < k + 1 && !agrees_from_end(alleles, i, j);
        assert(j == k) by {
            if j < k {
                assert(agrees_from_end(alleles, i, j));
            }
        }
        if rest[0].len() == 0 {
            assert(!agrees_from_end(rest, 0, 0));
        } else {
            assert(!agrees_from_end(rest, i, 0));
        }
        lemma_longest_suffix_by_step(rest, 0);
        lemma_suffix_len_unique(rest, 0);
    }
}

/// Alleles that share no prefix share none after trimming on the right.
pub proof fn lemma_trim_right_keeps_left_maximal(alleles: Seq<Seq<char>>)
    requires
        prefix_len(alleles) == 0,
    ensures
        prefix_len(drop_suffix(alleles, suffix_len(alleles))) == 0,
{
    if alleles.len() > 0 {
        let k = suffix_len(alleles);
        let rest = drop_suffix(alleles, k);
        lemma_prefix_len_is_longest(alleles);
        lemma_suffix_len_is_longest(alleles);
        lemma_suffix_fits(alleles, k);
        assert(!shares_prefix(alleles, 1));
        let (i, j) = choose|i: int, j: int|
            0 <= i < alleles.len() && 0 <= j < 1 && !agrees_from_start(alleles, i, j);
        if rest[i].len() == 0 {
            assert(!agrees_from_start(rest, i, 0));
        } else if rest[0].len() == 0 {
            assert(!agrees_from_start(rest, 0, 0));
        } else {
            assert(!agrees_from_start(rest, i, 0));
        }
        lemma_longest_prefix_by_step(rest, 0);
        lemma_prefix_len_unique(rest, 0);
    }
}

/// Alleles that share no suffix share none after trimming on the left.
pub proof fn lemma_trim_left_keeps_right_maximal(alleles: Seq<Seq<char>>)
    requires
        suffix_len(alleles) == 0,
    ensures
        suffix_len(drop_prefix(alleles, prefix_len(alleles))) == 0,
{
    if alleles.len() > 0 {
        let k = prefix_len(alleles);
        let rest = drop_prefix(alleles, k);
        lemma_prefix_len_is_longest(alleles);
        lemma_suffix_len_is_longest(alleles);
        lemma_prefix_fits(alleles, k);
        assert(!shares_suffix(alleles, 1));
        let (i, j) = choose|i: int, j: int|
            0 <= i < alleles.len() && 0 <= j < 1 && !agrees_from_end(alleles, i, j);
        if rest[i].len() == 0 {
            assert(!agrees_from_end(rest, i, 0));
        } else if rest[0].len() == 0 {
            assert(!agrees_from_end(rest, 0, 0));
        } else {
            assert(!agrees_from_end(rest, i, 0));
        }
        lemma_longest_suffix_by_step(rest, 0);
        lemma_suffix_len_unique(rest, 0);
    }
}

/// The length of a shortest allele.
fn shortest_len(alleles: &Vec<&str>) -> (m: usize)
    requires
        alleles.len() > 0,
    ensures
        forall|i: int| 0 <= i < alleles.len() ==> m <= (#[trigger] alleles[i])@.len(),
        exists|i: int| 0 <= i < alleles.len() && m == (#[trigger] alleles[i])@.len(),
{
    let mut m: usize = alleles[0].unicode_len();
    let mut n: usize = 1;
    while n < alleles.len()
        invariant
            1 <= n <= alleles.len(),
            forall|i: int| 0 <= i < n ==> m <= (#[trigger] alleles[i])@.len(),
            exists|i: int| 0 <= i < n && m == (#[trigger] alleles[i])@.len(),
        decreases alleles.len() - n,
    {
        let len: usize = alleles[n].unicode_len();
        if len < m {
            m = len;
        }
        n += 1;
    }
    m
}

/// Whether all alleles hold the same symbol at offset `j` from their start.
fn column_agrees_from_start(alleles: &Vec<&str>, j: usize) -> (same: bool)
    requires
        forall|i: int| 0 <= i < alleles.len() ==> j < (#[trigger] alleles[i])@.len(),
    ensures
        same == forall|i: int|
            0 <= i < alleles.len() ==> #[trigger] agrees_from_start(alleles.deep_view(), i, j as int),
{
    let mut n: usize = 0;
    while n < alleles.len()
        invariant
            n <= alleles.len(),
            forall|i: int| 0 <= i < alleles.len() ==> j < (#[trigger] alleles[i])@.len(),
            forall|i: int|
                0 <= i < n ==> #[trigger] agrees_from_start(alleles.deep_view(), i, j as int),
        decreases alleles.len() - n,
    {
        if alleles[n].get_char(j) != alleles[0].get_char(j) {
            assert(!agrees_from_start(alleles.deep_view(), n as int, j as int));
            return false;
        }
        n += 1;
    }
    true
}

/// Removes the longest prefix that all alleles share, and says how long it
/// was. Of no alleles nothing is removed.
pub fn trim_left<'a>(alleles: Vec<&'a str>) -> (r: (usize, Vec<&'a str>))
    ensures
        r.0 == prefix_len(alleles.deep_view()),
        alleles.len() > 0 ==> is_longest_prefix(alleles.deep_view(), r.0 as nat),
        r.1.len() == alleles.len(),
        r.1.deep_view() == drop_prefix(alleles.deep_view(), r.0 as nat),
{
    if alleles.len() == 0 {
        let none: Vec<&'a str> = Vec::new();
        assert(none.deep_view() =~= drop_prefix(alleles.deep_view(), 0));
        return (0, none);
    }
    let min_len: usize = shortest_len(&alleles);
    let mut trimmed: usize = 0;
    while trimmed < min_len && column_agrees_from_start(&alleles, trimmed)
        invariant
            trimmed <= min_len,
            forall|i: int| 0 <= i < alleles.len() ==> min_len <= (#[trigger] alleles[i])@.len(),
            shares_prefix(alleles.deep_view(), trimmed as nat),
        decreases min_len - trimmed,
    {
        trimmed += 1;
    }
    proof {
        let views = alleles.deep_view();
        if trimmed == min_len {
            let i = choose|i: int| 0 <= i < alleles.len() && min_len == (#[trigger] alleles[i])@.len();
            assert(!agrees_from_start(views, i, trimmed as int));
        }
        lemma_longest_prefix_by_step(views, trimmed as nat);
        lemma_prefix_len_unique(views, trimmed as nat);
    }
    let mut rest: Vec<&'a str> = Vec::new();
    let mut n: usize = 0;
    while n < alleles.len()
        invariant
            n <= alleles.len(),
            rest.len() == n,
            forall|i: int| 0 <= i < alleles.len() ==> trimmed <= (#[trigger] alleles[i])@.len(),
            forall|i: int|
                0 <= i < n ==> (#[trigger] rest[i])@ == alleles[i]@.subrange(
                    trimmed as int,
                    alleles[i]@.len() as int,
                ),
        decreases alleles.len() - n,
    {
        let allele: &'a str = alleles[n];
        let len: usize = allele.unicode_len();
        rest.push(allele.substring_char(trimmed, len));
        n += 1;
    }
    assert(rest.deep_view() =~= drop_prefix(alleles.deep_view(), trimmed as nat));
    (trimmed, rest)
}

/// Whether all alleles hold the same symbol at offset `j` from their end.
fn column_agrees_from_end(alleles: &Vec<&str>, j: usize) -> (same: bool)
    requires
        forall|i: int| 0 <= i < alleles.len() ==> j < (#[trigger] alleles[i])@.len(),
    ensures
        same == forall|i: int|
            0 <= i < alleles.len() ==> #[trigger] agrees_from_end(alleles.deep_view(), i, j as int),
{
    let mut n: usize = 0;
    while n < alleles.len()
        invariant
            n <= alleles.len(),
            forall|i: int| 0 <= i < alleles.len() ==> j < (#[trigger] alleles[i])@.len(),
            forall|i: int|
                0 <= i < n ==> #[trigger] agrees_from_end(alleles.deep_view(), i, j as int),
        decreases alleles.len() - n,
    {
        let len: usize = alleles[n].unicode_len();
        let first_len: usize = alleles[0].unicode_len();
        if alleles[n].get_char(len - 1 - j) != alleles[0].get_char(first_len - 1 - j) {
            assert(!agrees_from_end(alleles.deep_view(), n as int, j as int));
            return false;
        }
        n += 1;
    }
    true
}

/// Removes the longest suffix that all alleles share, and says how long it
/// was. Of no alleles nothing is removed.
pub fn trim_right<'a>(alleles: Vec<&'a str>) -> (r: (usize, Vec<&'a str>))
    ensures
        r.0 == suffix_len(alleles.deep_view()),
        alleles.len() > 0 ==> is_longest_suffix(alleles.deep_view(), r.0 as nat),
        r.1.len() == alleles.len(),
        r.1.deep_view() == drop_suffix(alleles.deep_view(), r.0 as nat),
{
    if alleles.len() == 0 {
        let none: Vec<&'a str> = Vec::new();
        assert(none.deep_view() =~= drop_suffix(alleles.deep_view(), 0));
        return (0, none);
    }
    let min_len: usize = shortest_len(&alleles);
    let mut trimmed: usize = 0;
    while trimmed < min_len && column_agrees_from_end(&alleles, trimmed)
        invariant
            trimmed <= min_len,
            forall|i: int| 0 <= i < alleles.len() ==> min_len <= (#[trigger] alleles[i])@.len(),
            shares_suffix(alleles.deep_view(), trimmed as nat),
        decreases min_len - trimmed,
    {
        trimmed += 1;
    }
    proof {
        let views = alleles.deep_view();
        if trimmed == min_len {
            let i = choose|i: int| 0 <= i < alleles.len() && min_len == (#[trigger] alleles[i])@.len();
            assert(!agrees_from_end(views, i, trimmed as int));
        }
        lemma_longest_suffix_by_step(views, trimmed as nat);
        lemma_suffix_len_unique(views, trimmed as nat);
    }
    let mut rest: Vec<&'a str> = Vec::new();
    let mut n: usize = 0;
    while n < alleles.len()
        invariant
            n <= alleles.len(),
            rest.len() == n,
            forall|i: int| 0 <= i < alleles.len() ==> trimmed <= (#[trigger] alleles[i])@.len(),
            forall|i: int|
                0 <= i < n ==> (#[trigger] rest[i])@ == alleles[i]@.subrange(
                    0,
                    alleles[i]@.len() - trimmed,
                ),
        decreases alleles.len() - n,
    {
        let allele: &'a str = alleles[n];
        let len: usize = allele.unicode_len();
        rest.push(allele.substring_char(0, len - trimmed));
        n += 1;
    }
    assert(rest.deep_view() =~= drop_suffix(alleles.deep_view(), trimmed as nat));
    (trimmed, rest)
}

} // verus!
