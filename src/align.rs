//! The whole comparison: score both sequences, walk back one optimal
//! alignment, and report both with the score.
use vstd::prelude::*;

use crate::backtrace::{backtrace_best_alignment, has_dims, trace, traceable};
use crate::scoring::{
    cell_flag, chars_of, diag_cand, find_best_alignments, left_cand, max3, score,
    up_cand,
};

verus! {

/// One optimal global alignment of two strings and its score.
pub struct Alignment {
    pub aligned1: String,
    pub aligned2: String,
    pub score: i32,
}

/// Why two strings were not aligned.
#[derive(Debug, Clone, Copy, PartialEq, Eq, Structural)]
pub enum AlignError {
    /// The gap character occurs in one of the sequences, so a gap could not
    /// be told apart from a character of the input.
    GapInSequence,
}

/// The flag matrix of two sequences, cell by cell.
pub open spec fn flag_matrix(s1: Seq<char>, s2: Seq<char>) -> Seq<Seq<u8>> {
    Seq::new(
        s1.len(),
        |r: int| Seq::new(s2.len(), |c: int| cell_flag(s1, s2, (r + 1) as nat, (c + 1) as nat)),
    )
}

/// The alignment reported for two sequences: the walk back through their
/// flag matrix from the bottom-right cell.
pub open spec fn alignment_of(s1: Seq<char>, s2: Seq<char>, gap: char) -> (Seq<char>, Seq<char>) {
    trace(s1, s2, gap, flag_matrix(s1, s2), s1.len(), s2.len())
}

proof fn lemma_flag_bits(x: u8, y: u8, z: u8)
    by (bit_vector)
    requires
        x == 0 || x == 1,
        y == 0 || y == 2,
        z == 0 || z == 4,
    ensures
        ((x | y | z) & 1u8 == 1u8) == (x == 1),
        ((x | y | z) & 2u8 == 2u8) == (y == 2),
        ((x | y | z) & 4u8 == 4u8) == (z == 4),
{
}

/// Which moves the flag of cell `(i, j)` marks: exactly those whose candidate
/// reaches the cell's score.
pub proof fn lemma_cell_flag(s1: Seq<char>, s2: Seq<char>, i: nat, j: nat)
    requires
        1 <= i <= s1.len(),
        1 <= j <= s2.len(),
    ensures
        ({
            let b = flag_matrix(s1, s2)[i - 1][j - 1];
            &&& (b & 1u8 == 1u8) == (diag_cand(s1, s2, i, j) == score(s1, s2, i, j))
            &&& (b & 2u8 == 2u8) == (up_cand(s1, s2, i, j) == score(s1, s2, i, j))
            &&& (b & 4u8 == 4u8) == (left_cand(s1, s2, i, j) == score(s1, s2, i, j))
        }),
        score(s1, s2, i, j) == max3(
            diag_cand(s1, s2, i, j),
            up_cand(s1, s2, i, j),
            left_cand(s1, s2, i, j),
        ),
{
    let d = diag_cand(s1, s2, i, j);
    let u = up_cand(s1, s2, i, j);
    let l = left_cand(s1, s2, i, j);
    let best = max3(d, u, l);
    lemma_flag_bits(
        if d == best { 1u8 } else { 0u8 },
        if u == best { 2u8 } else { 0u8 },
        if l == best { 4u8 } else { 0u8 },
    );
}

/// The walk back through a flag matrix never meets a cell without a move.
pub proof fn lemma_flag_matrix_traceable(s1: Seq<char>, s2: Seq<char>, i: nat, j: nat)
    requires
        i <= s1.len(),
        j <= s2.len(),
    ensures
        traceable(flag_matrix(s1, s2), i, j),
    decreases i + j,
{
    if i > 0 && j > 0 {
        lemma_cell_flag(s1, s2, i, j);
        lemma_flag_matrix_traceable(s1, s2, (i - 1) as nat, (j - 1) as nat);
        lemma_flag_matrix_traceable(s1, s2, (i - 1) as nat, j);
        lemma_flag_matrix_traceable(s1, s2, i, (j - 1) as nat);
    }
}

/// Whether `c` occurs in `v`.
fn contains_char(v: &Vec<char>, c: char) -> (r: bool)
    ensures
        r == v@.contains(c),
{
    let mut k: usize = 0;
    while k < v.len()
        invariant
            k <= v@.len(),
            forall|x: int| 0 <= x < k ==> v@[x] != c,
        decreases v.len() - k,
    {
        if v[k] == c {
            return true;
        }
        k = k + 1;
    }
    false
}

/// Aligns `str1` against `str2`. Fails when `gap_char` occurs in either of
/// them; otherwise returns the alignment that the walk back through the flag
/// matrix yields and the optimal score.
pub fn align(str1: &str, str2: &str, gap_char: char) -> (r: Result<Alignment, AlignError>)
    requires
        str1@.len() + str2@.len() <= i32::MAX,
    ensures
        r is Err <==> (str1@.contains(gap_char) || str2@.contains(gap_char)),
        r is Err ==> r->Err_0 == AlignError::GapInSequence,
        r is Ok ==> ({
            let a = r->Ok_0;
            &&& a.aligned1@ == alignment_of(str1@, str2@, gap_char).0
            &&& a.aligned2@ == alignment_of(str1@, str2@, gap_char).1
            &&& a.score == score(str1@, str2@, str1@.len(), str2@.len())
        }),
{
    let c1 = chars_of(str1);
    let c2 = chars_of(str2);
    if contains_char(&c1, gap_char) || contains_char(&c2, gap_char) {
        return Err(AlignError::GapInSequence);
    }
    let (flags, total) = find_best_alignments(str1, str2);
    let ghost s1 = str1@;
    let ghost s2 = str2@;
    let ghost fv = flags@.map_values(|row: Vec<u8>| row@);
    proof {
        assert forall|r: int| 0 <= r < s1.len() implies #[trigger] fv[r] =~= flag_matrix(s1, s2)[r] by {
            assert forall|c: int| 0 <= c < s2.len() implies #[trigger] fv[r][c] == flag_matrix(
                s1,
                s2,
            )[r][c] by {
                assert(fv[r][c] == cell_flag(s1, s2, (r + 1) as nat, (c + 1) as nat));
            }
        }
        assert(fv =~= flag_matrix(s1, s2));
        lemma_flag_matrix_traceable(s1, s2, s1.len(), s2.len());
        assert(has_dims(fv, s1.len(), s2.len()));
    }
    let pair = backtrace_best_alignment(str1, str2, gap_char, flags);
    let aligned1 = pair[0].clone();
    let aligned2 = pair[1].clone();
    Ok(Alignment { aligned1, aligned2, score: total })
}

} // verus!
