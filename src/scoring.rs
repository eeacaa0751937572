//! The score recurrence, the per-cell flags of optimal moves, and the
//! function that fills both matrices.
use vstd::prelude::*;
use vstd::string::*;

verus! {

/// Score of aligning two characters against each other.
pub open spec fn sub_score(a: char, b: char) -> int {
    if a == b {
        1
    } else {
        -1
    }
}

pub open spec fn max3(a: int, b: int, c: int) -> int {
    if a >= b && a >= c {
        a
    } else if b >= c {
        b
    } else {
        c
    }
}

/// Best score of a global alignment of `s1.take(i)` against `s2.take(j)`.
/// An empty prefix aligned against a prefix of length `k` costs `-k`.
pub open spec fn score(s1: Seq<char>, s2: Seq<char>, i: nat, j: nat) -> int
    decreases i + j,
{
    if i == 0 {
        -(j as int)
    } else if j == 0 {
        -(i as int)
    } else {
        max3(
            score(s1, s2, (i - 1) as nat, (j - 1) as nat) + sub_score(s1[i - 1], s2[j - 1]),
            score(s1, s2, (i - 1) as nat, j) - 1,
            score(s1, s2, i, (j - 1) as nat) - 1,
        )
    }
}

/// Candidate score of cell `(i, j)` by the diagonal move (match or mismatch).
pub open spec fn diag_cand(s1: Seq<char>, s2: Seq<char>, i: nat, j: nat) -> int {
    score(s1, s2, (i - 1) as nat, (j - 1) as nat) + sub_score(s1[i - 1], s2[j - 1])
}

/// Candidate score of cell `(i, j)` by the up move (a gap in the second sequence).
pub open spec fn up_cand(s1: Seq<char>, s2: Seq<char>, i: nat, j: nat) -> int {
    score(s1, s2, (i - 1) as nat, j) - 1
}

/// Candidate score of cell `(i, j)` by the left move (a gap in the first sequence).
pub open spec fn left_cand(s1: Seq<char>, s2: Seq<char>, i: nat, j: nat) -> int {
    score(s1, s2, i, (j - 1) as nat) - 1
}

/// The flag byte of three candidates: bit 0 for the diagonal, bit 1 for up,
/// bit 2 for left, each set iff that candidate reaches the maximum.
pub open spec fn flag_of(d: int, u: int, l: int) -> u8 {
    let b = max3(d, u, l);
    (if d == b { 1u8 } else { 0u8 }) | (if u == b { 2u8 } else { 0u8 }) | (if l == b {
        4u8
    } else {
        0u8
    })
}

/// Flag byte of the cell that ends prefixes of lengths `i` and `j` (both at least 1).
pub open spec fn cell_flag(s1: Seq<char>, s2: Seq<char>, i: nat, j: nat) -> u8 {
    flag_of(diag_cand(s1, s2, i, j), up_cand(s1, s2, i, j), left_cand(s1, s2, i, j))
}

/// The flag matrix of two sequences: `n` rows of `m` cells, where the cell at
/// `(r, c)` holds the flag of prefixes of lengths `r + 1` and `c + 1`.
pub open spec fn is_flag_matrix(f: Seq<Seq<u8>>, s1: Seq<char>, s2: Seq<char>) -> bool {
    &&& f.len() == s1.len()
    &&& forall|r: int| 0 <= r < f.len() ==> #[trigger] f[r].len() == s2.len()
    &&& forall|r: int, c: int|
        0 <= r < s1.len() && 0 <= c < s2.len() ==> #[trigger] f[r][c] == cell_flag(
            s1,
            s2,
            (r + 1) as nat,
            (c + 1) as nat,
        )
}

/// The score lies between the cost of gapping everything and the length of
/// the shorter prefix.
pub proof fn lemma_score_bounds(s1: Seq<char>, s2: Seq<char>, i: nat, j: nat)
    ensures
        -((i + j) as int) <= score(s1, s2, i, j),
        score(s1, s2, i, j) <= i,
        score(s1, s2, i, j) <= j,
    decreases i + j,
{
    if i > 0 && j > 0 {
        lemma_score_bounds(s1, s2, (i - 1) as nat, (j - 1) as nat);
        lemma_score_bounds(s1, s2, (i - 1) as nat, j);
        lemma_score_bounds(s1, s2, i, (j - 1) as nat);
    }
}

/// The characters of a string, in order.
pub fn chars_of(s: &str) -> (r: Vec<char>)
    ensures
        r@ == s@,
{
    let n = s.unicode_len();
    let mut r: Vec<char> = Vec::new();
    let mut k: usize = 0;
    while k < n
        invariant
            n == s@.len(),
            k <= n,
            r@ == s@.take(k as int),
        decreases n - k,
    {
        r.push(s.get_char(k));
        k = k + 1;
        assert(r@ =~= s@.take(k as int));
    }
    assert(r@ =~= s@);
    r
}

/// Builds the flag matrix of `str1` against `str2` and returns it with the
/// score of the whole alignment.
pub fn find_best_alignments(str1: &str, str2: &str) -> (r: (Vec<Vec<u8>>, i32))
    requires
        str1@.len() + str2@.len() <= i32::MAX,
    ensures
        is_flag_matrix(r.0@.map_values(|row: Vec<u8>| row@), str1@, str2@),
        r.1 == score(str1@, str2@, str1@.len(), str2@.len()),
{
    let c1 = chars_of(str1);
    let c2 = chars_of(str2);
    let n = c1.len();
    let m = c2.len();
    let ghost s1 = str1@;
    let ghost s2 = str2@;
    let mut scores: Vec<Vec<i32>> = Vec::new();
    let mut flags: Vec<Vec<u8>> = Vec::new();
    let mut i: usize = 0;
    while i < n
        invariant
            c1@ == s1,
            c2@ == s2,
            n == s1.len(),
            m == s2.len(),
            n + m <= i32::MAX,
            i <= n,
            scores@.len() == i,
            flags@.len() == i,
            forall|r: int| 0 <= r < i ==> #[trigger] scores@[r]@.len() == m,
            forall|r: int| 0 <= r < i ==> #[trigger] flags@[r]@.len() == m,
            forall|r: int, c: int|
                0 <= r < i && 0 <= c < m ==> #[trigger] scores@[r]@[c] == score(
                    s1,
                    s2,
                    (r + 1) as nat,
                    (c + 1) as nat,
                ),
            forall|r: int, c: int|
                0 <= r < i && 0 <= c < m ==> #[trigger] flags@[r]@[c] == cell_flag(
                    s1,
                    s2,
                    (r + 1) as nat,
                    (c + 1) as nat,
                ),
        decreases n - i,
    {
        let mut srow: Vec<i32> = Vec::new();
        let mut frow: Vec<u8> = Vec::new();
        let mut j: usize = 0;
        while j < m
            invariant
                c1@ == s1,
                c2@ == s2,
                n == s1.len(),
                m == s2.len(),
                n + m <= i32::MAX,
                i < n,
                j <= m,
                scores@.len() == i,
                forall|r: int| 0 <= r < i ==> #[trigger] scores@[r]@.len() == m,
                forall|r: int, c: int|
                    0 <= r < i && 0 <= c < m ==> #[trigger] scores@[r]@[c] == score(
                        s1,
                        s2,
                        (r + 1) as nat,
                        (c + 1) as nat,
                    ),
                srow@.len() == j,
                frow@.len() == j,
                forall|c: int|
                    0 <= c < j ==> #[trigger] srow@[c] == score(
                        s1,
                        s2,
                        (i + 1) as nat,
                        (c + 1) as nat,
                    ),
                forall|c: int|
                    0 <= c < j ==> #[trigger] frow@[c] == cell_flag(
                        s1,
                        s2,
                        (i + 1) as nat,
                        (c + 1) as nat,
                    ),
            decreases m - j,
        {
            proof {
                lemma_score_bounds(s1, s2, i as nat, j as nat);
                lemma_score_bounds(s1, s2, i as nat, (j + 1) as nat);
                lemma_score_bounds(s1, s2, (i + 1) as nat, j as nat);
            }
            // scores of the three neighbours, with the boundary row and column
            let diag_base: i32 = if i == 0 {
                -(j as i32)
            } else if j == 0 {
                -(i as i32)
            } else {
                scores[i - 1][j - 1]
            };
            let up_base: i32 = if i == 0 {
                -((j + 1) as i32)
            } else {
                scores[i - 1][j]
            };
            let left_base: i32 = if j == 0 {
                -((i + 1) as i32)
            } else {
                srow[j - 1]
            };
            let d: i32 = if c1[i] == c2[j] {
                diag_base + 1
            } else {
                diag_base - 1
            };
            let u: i32 = up_base - 1;
            let l: i32 = left_base - 1;
            let best: i32 = if d >= u && d >= l {
                d
            } else if u >= l {
                u
            } else {
                l
            };
            let flag: u8 = (if d == best { 1u8 } else { 0u8 }) | (if u == best { 2u8 } else { 0u8 })
                | (if l == best { 4u8 } else { 0u8 });
            assert(d == diag_cand(s1, s2, (i + 1) as nat, (j + 1) as nat));
            assert(u == up_cand(s1, s2, (i + 1) as nat, (j + 1) as nat));
            assert(l == left_cand(s1, s2, (i + 1) as nat, (j + 1) as nat));
            srow.push(best);
            frow.push(flag);
            j = j + 1;
        }
        scores.push(srow);
        flags.push(frow);
        i = i + 1;
    }
    let total: i32 = if n == 0 {
        -(m as i32)
    } else if m == 0 {
        -(n as i32)
    } else {
        scores[n - 1][m - 1]
    };
    let ghost fv = flags@.map_values(|row: Vec<u8>| row@);
    assert forall|r: int, c: int| 0 <= r < n && 0 <= c < m implies #[trigger] fv[r][c] == cell_flag(
        s1,
        s2,
        (r + 1) as nat,
        (c + 1) as nat,
    ) by {
        assert(fv[r] == flags@[r]@);
    }
    assert forall|r: int| 0 <= r < fv.len() implies #[trigger] fv[r].len() == m by {
        assert(fv[r] == flags@[r]@);
    }
    (flags, total)
}

} // verus!
