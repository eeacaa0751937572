//! Reconstruction of one alignment from a flag matrix, walking back from the
//! bottom-right cell and preferring the diagonal move, then up, then left.
use vstd::prelude::*;

use crate::scoring::chars_of;

verus! {

/// `k` copies of the gap character.
pub open spec fn gaps(gap: char, k: nat) -> Seq<char> {
    Seq::new(k, |_x: int| gap)
}

/// The flag matrix has `n` rows of `m` cells.
pub open spec fn has_dims(f: Seq<Seq<u8>>, n: nat, m: nat) -> bool {
    &&& f.len() == n
    &&& forall|r: int| 0 <= r < n ==> #[trigger] f[r].len() == m
}

/// Every cell that the walk back from prefix lengths `(i, j)` visits has one
/// of its three move bits set.
pub open spec fn traceable(f: Seq<Seq<u8>>, i: nat, j: nat) -> bool
    decreases i + j,
{
    if i == 0 || j == 0 {
        true
    } else {
        let b = f[i - 1][j - 1];
        if b & 1u8 == 1u8 {
            traceable(f, (i - 1) as nat, (j - 1) as nat)
        } else if b & 2u8 == 2u8 {
            traceable(f, (i - 1) as nat, j)
        } else {
            b & 4u8 == 4u8 && traceable(f, i, (j - 1) as nat)
        }
    }
}

/// The aligned pair that the walk back from prefix lengths `(i, j)` yields.
/// Once either prefix is used up, the rest of the other stands against gaps.
pub open spec fn trace(
    s1: Seq<char>,
    s2: Seq<char>,
    gap: char,
    f: Seq<Seq<u8>>,
    i: nat,
    j: nat,
) -> (Seq<char>, Seq<char>)
    decreases i + j,
{
    if i == 0 {
        (gaps(gap, j), s2.take(j as int))
    } else if j == 0 {
        (s1.take(i as int), gaps(gap, i))
    } else {
        let b = f[i - 1][j - 1];
        if b & 1u8 == 1u8 {
            let p = trace(s1, s2, gap, f, (i - 1) as nat, (j - 1) as nat);
            (p.0.push(s1[i - 1]), p.1.push(s2[j - 1]))
        } else if b & 2u8 == 2u8 {
            let p = trace(s1, s2, gap, f, (i - 1) as nat, j);
            (p.0.push(s1[i - 1]), p.1.push(gap))
        } else {
            let p = trace(s1, s2, gap, f, i, (j - 1) as nat);
            (p.0.push(gap), p.1.push(s2[j - 1]))
        }
    }
}

/// Relies on String::push: appends one character at the end.
#[verifier::external_body]
fn push_char(s: &mut String, c: char)
    ensures
        final(s)@ == old(s)@.push(c),
{
    s.push(c);
}

/// Writes `gaps(gap, pad)`, then `prefix`, then `rev` read backwards.
fn assemble(gap: char, pad: usize, prefix: &Vec<char>, len: usize, rev: &Vec<char>) -> (r: String)
    requires
        len <= prefix@.len(),
    ensures
        r@ == gaps(gap, pad as nat) + prefix@.take(len as int) + rev@.reverse(),
{
    let mut r = String::new();
    let mut k: usize = 0;
    while k < pad
        invariant
            k <= pad,
            r@ == gaps(gap, k as nat),
        decreases pad - k,
    {
        push_char(&mut r, gap);
        k = k + 1;
        assert(r@ =~= gaps(gap, k as nat));
    }
    let ghost head = r@;
    k = 0;
    while k < len
        invariant
            k <= len,
            len <= prefix@.len(),
            r@ == head + prefix@.take(k as int),
        decreases len - k,
    {
        push_char(&mut r, prefix[k]);
        k = k + 1;
        assert(r@ =~= head + prefix@.take(k as int));
    }
    let ghost mid = r@;
    let t = rev.len();
    k = 0;
    while k < t
        invariant
            k <= t,
            t == rev@.len(),
            r@ == mid + rev@.reverse().take(k as int),
        decreases t - k,
    {
        push_char(&mut r, rev[t - 1 - k]);
        k = k + 1;
        assert(r@ =~= mid + rev@.reverse().take(k as int));
    }
    assert(rev@.reverse().take(t as int) =~= rev@.reverse());
    r
}

/// Walks the flag matrix back from its bottom-right cell and returns the two
/// aligned strings: the first over `str1`, the second over `str2`, with
/// `gap_char` standing for a gap.
pub fn backtrace_best_alignment(
    str1: &str,
    str2: &str,
    gap_char: char,
    best_candidate_sum_flag_matrix: Vec<Vec<u8>>,
) -> (r: [String; 2])
    requires
        has_dims(
            best_candidate_sum_flag_matrix@.map_values(|row: Vec<u8>| row@),
            str1@.len(),
            str2@.len(),
        ),
        traceable(
            best_candidate_sum_flag_matrix@.map_values(|row: Vec<u8>| row@),
            str1@.len(),
            str2@.len(),
        ),
    ensures
        r@[0]@ == trace(
            str1@,
            str2@,
            gap_char,
            best_candidate_sum_flag_matrix@.map_values(|row: Vec<u8>| row@),
            str1@.len(),
            str2@.len(),
        ).0,
        r@[1]@ == trace(
            str1@,
            str2@,
            gap_char,
            best_candidate_sum_flag_matrix@.map_values(|row: Vec<u8>| row@),
            str1@.len(),
            str2@.len(),
        ).1,
{
    let matrix = &best_candidate_sum_flag_matrix;
    let ghost f = matrix@.map_values(|row: Vec<u8>| row@);
    let ghost s1 = str1@;
    let ghost s2 = str2@;
    let ghost whole = trace(s1, s2, gap_char, f, s1.len(), s2.len());
    let c1 = chars_of(str1);
    let c2 = chars_of(str2);
    // filled from the end backward
    let mut rev1: Vec<char> = Vec::new();
    let mut rev2: Vec<char> = Vec::new();
    let mut row: usize = c1.len();
    let mut col: usize = c2.len();
    while row > 0 && col > 0
        invariant
            c1@ == s1,
            c2@ == s2,
            f == matrix@.map_values(|row: Vec<u8>| row@),
            has_dims(f, s1.len(), s2.len()),
            row <= s1.len(),
            col <= s2.len(),
            traceable(f, row as nat, col as nat),
            whole == trace(s1, s2, gap_char, f, s1.len(), s2.len()),
            whole.0 == trace(s1, s2, gap_char, f, row as nat, col as nat).0 + rev1@.reverse(),
            whole.1 == trace(s1, s2, gap_char, f, row as nat, col as nat).1 + rev2@.reverse(),
        decreases row + col,
    {
        let ghost p = trace(s1, s2, gap_char, f, row as nat, col as nat);
        assert(f[row - 1] == matrix@[row - 1]@);
        let flag: u8 = matrix[row - 1][col - 1];
        if flag & 1u8 == 1u8 {
            rev1.push(c1[row - 1]);
            rev2.push(c2[col - 1]);
            row = row - 1;
            col = col - 1;
        } else if flag & 2u8 == 2u8 {
            rev1.push(c1[row - 1]);
            rev2.push(gap_char);
            row = row - 1;
        } else {
            rev1.push(gap_char);
            rev2.push(c2[col - 1]);
            col = col - 1;
        }
        let ghost q = trace(s1, s2, gap_char, f, row as nat, col as nat);
        assert(rev1@.reverse() =~= seq![rev1@.last()] + rev1@.drop_last().reverse());
        assert(rev2@.reverse() =~= seq![rev2@.last()] + rev2@.drop_last().reverse());
        assert(whole.0 =~= q.0 + rev1@.reverse());
        assert(whole.1 =~= q.1 + rev2@.reverse());
    }
    let longer: usize = if row >= col {
        row
    } else {
        col
    };
    let a1 = assemble(gap_char, longer - row, &c1, row, &rev1);
    let a2 = assemble(gap_char, longer - col, &c2, col, &rev2);
    assert(a1@ =~= whole.0);
    assert(a2@ =~= whole.1);
    [a1, a2]
}

} // verus!
