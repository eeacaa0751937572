//! What holds of every alignment that `align` reports, stated over the spec
//! functions of its contract.
use vstd::prelude::*;

use crate::align::{alignment_of, flag_matrix, lemma_cell_flag};
use crate::backtrace::{gaps, trace};
use crate::scoring::{lemma_score_bounds, score, sub_score};

verus! {

/// `s` with every occurrence of the gap character removed.
pub open spec fn without_gaps(s: Seq<char>, gap: char) -> Seq<char>
    decreases s.len(),
{
    if s.len() == 0 {
        s
    } else {
        let rest = without_gaps(s.drop_last(), gap);
        if s.last() == gap {
            rest
        } else {
            rest.push(s.last())
        }
    }
}

proof fn lemma_without_gaps_push(s: Seq<char>, gap: char, c: char)
    ensures
        without_gaps(s.push(c), gap) == if c == gap {
            without_gaps(s, gap)
        } else {
            without_gaps(s, gap).push(c)
        },
{
    assert(s.push(c).drop_last() =~= s);
}

proof fn lemma_without_gaps_of_gaps(gap: char, k: nat)
    ensures
        without_gaps(gaps(gap, k), gap) == Seq::<char>::empty(),
    decreases k,
{
    if k > 0 {
        assert(gaps(gap, k).drop_last() =~= gaps(gap, (k - 1) as nat));
        lemma_without_gaps_of_gaps(gap, (k - 1) as nat);
    }
}

proof fn lemma_without_gaps_of_prefix(s: Seq<char>, gap: char, i: nat)
    requires
        i <= s.len(),
        !s.contains(gap),
    ensures
        without_gaps(s.take(i as int), gap) == s.take(i as int),
    decreases i,
{
    if i > 0 {
        assert(s.take(i as int).drop_last() =~= s.take(i - 1));
        lemma_without_gaps_of_prefix(s, gap, (i - 1) as nat);
        assert(s.take(i as int).last() == s[i - 1]);
        assert(s.take(i - 1).push(s[i - 1]) =~= s.take(i as int));
    }
}

/// Both halves of any walk back have the same length, at least the longer
/// prefix, and give back the prefixes once the gaps are removed.
pub proof fn lemma_trace_shape(
    s1: Seq<char>,
    s2: Seq<char>,
    gap: char,
    f: Seq<Seq<u8>>,
    i: nat,
    j: nat,
)
    requires
        i <= s1.len(),
        j <= s2.len(),
    ensures
        trace(s1, s2, gap, f, i, j).0.len() == trace(s1, s2, gap, f, i, j).1.len(),
        trace(s1, s2, gap, f, i, j).0.len() >= i,
        trace(s1, s2, gap, f, i, j).0.len() >= j,
        !s1.contains(gap) ==> without_gaps(trace(s1, s2, gap, f, i, j).0, gap) == s1.take(
            i as int,
        ),
        !s2.contains(gap) ==> without_gaps(trace(s1, s2, gap, f, i, j).1, gap) == s2.take(
            j as int,
        ),
    decreases i + j,
{
    let p = trace(s1, s2, gap, f, i, j);
    if i == 0 {
        lemma_without_gaps_of_gaps(gap, j);
        if !s2.contains(gap) {
            lemma_without_gaps_of_prefix(s2, gap, j);
        }
        assert(s1.take(0) =~= Seq::<char>::empty());
    } else if j == 0 {
        lemma_without_gaps_of_gaps(gap, i);
        if !s1.contains(gap) {
            lemma_without_gaps_of_prefix(s1, gap, i);
        }
        assert(s2.take(0) =~= Seq::<char>::empty());
    } else {
        let b = f[i - 1][j - 1];
        let (ni, nj) = if b & 1u8 == 1u8 {
            ((i - 1) as nat, (j - 1) as nat)
        } else if b & 2u8 == 2u8 {
            ((i - 1) as nat, j)
        } else {
            (i, (j - 1) as nat)
        };
        let q = trace(s1, s2, gap, f, ni, nj);
        lemma_trace_shape(s1, s2, gap, f, ni, nj);
        lemma_without_gaps_push(q.0, gap, p.0.last());
        lemma_without_gaps_push(q.1, gap, p.1.last());
        assert(p.0 == q.0.push(p.0.last()));
        assert(p.1 == q.1.push(p.1.last()));
        if !s1.contains(gap) {
            if ni < i {
                assert(p.0.last() == s1[i - 1]);
                assert(s1.take(i - 1).push(s1[i - 1]) =~= s1.take(i as int));
            }
        }
        if !s2.contains(gap) {
            if nj < j {
                assert(p.1.last() == s2[j - 1]);
                assert(s2.take(j - 1).push(s2[j - 1]) =~= s2.take(j as int));
            }
        }
    }
}

proof fn lemma_score_symmetric(s1: Seq<char>, s2: Seq<char>, i: nat, j: nat)
    ensures
        score(s1, s2, i, j) == score(s2, s1, j, i),
    decreases i + j,
{
    if i > 0 && j > 0 {
        lemma_score_symmetric(s1, s2, (i - 1) as nat, (j - 1) as nat);
        lemma_score_symmetric(s1, s2, (i - 1) as nat, j);
        lemma_score_symmetric(s1, s2, i, (j - 1) as nat);
    }
}

/// Swapping the two sequences leaves the alignment score unchanged.
pub proof fn law_score_symmetric(a: Seq<char>, b: Seq<char>)
    ensures
        score(a, b, a.len(), b.len()) == score(b, a, b.len(), a.len()),
{
    lemma_score_symmetric(a, b, a.len(), b.len());
}

proof fn lemma_self_trace(s: Seq<char>, gap: char, i: nat)
    requires
        i <= s.len(),
    ensures
        score(s, s, i, i) == i,
        trace(s, s, gap, flag_matrix(s, s), i, i) == (s.take(i as int), s.take(i as int)),
    decreases i,
{
    if i == 0 {
        assert(gaps(gap, 0) =~= s.take(0));
    } else {
        lemma_self_trace(s, gap, (i - 1) as nat);
        lemma_score_bounds(s, s, i, i);
        lemma_cell_flag(s, s, i, i);
        assert(s.take(i - 1).push(s[i - 1]) =~= s.take(i as int));
    }
}

/// A sequence aligned against itself scores its length, with no gap on
/// either side.
pub proof fn law_identity(s: Seq<char>, gap: char)
    ensures
        score(s, s, s.len(), s.len()) == s.len(),
        alignment_of(s, s, gap).0 == s,
        alignment_of(s, s, gap).1 == s,
{
    lemma_self_trace(s, gap, s.len());
    assert(s.take(s.len() as int) =~= s);
}

/// The score is at most the length of the longer sequence and at least minus
/// the sum of both lengths.
pub proof fn law_score_bounds(a: Seq<char>, b: Seq<char>)
    ensures
        score(a, b, a.len(), b.len()) <= if a.len() >= b.len() {
            a.len()
        } else {
            b.len()
        },
        score(a, b, a.len(), b.len()) >= -((a.len() + b.len()) as int),
{
    lemma_score_bounds(a, b, a.len(), b.len());
}

/// Both aligned sequences have the same length, at least that of the longer
/// input.
pub proof fn law_aligned_lengths(a: Seq<char>, b: Seq<char>, gap: char)
    ensures
        alignment_of(a, b, gap).0.len() == alignment_of(a, b, gap).1.len(),
        alignment_of(a, b, gap).0.len() >= a.len(),
        alignment_of(a, b, gap).0.len() >= b.len(),
{
    lemma_trace_shape(a, b, gap, flag_matrix(a, b), a.len(), b.len());
}

/// Removing the gap characters from each aligned sequence gives back its
/// input, when the gap character does not occur in that input.
pub proof fn law_gap_removal(a: Seq<char>, b: Seq<char>, gap: char)
    ensures
        !a.contains(gap) ==> without_gaps(alignment_of(a, b, gap).0, gap) == a,
        !b.contains(gap) ==> without_gaps(alignment_of(a, b, gap).1, gap) == b,
{
    lemma_trace_shape(a, b, gap, flag_matrix(a, b), a.len(), b.len());
    assert(a.take(a.len() as int) =~= a);
    assert(b.take(b.len() as int) =~= b);
}

/// Score of one column of an alignment: a gap on either side costs one, two
/// characters score as a match or a mismatch.
pub open spec fn column_score(x: char, y: char, gap: char) -> int {
    if x == gap || y == gap {
        -1
    } else {
        sub_score(x, y)
    }
}

/// Sum of the column scores of two aligned sequences of equal length.
pub open spec fn columns_score(x: Seq<char>, y: Seq<char>, gap: char) -> int
    decreases x.len(),
{
    if x.len() == 0 || y.len() == 0 {
        0
    } else {
        columns_score(x.drop_last(), y.drop_last(), gap) + column_score(x.last(), y.last(), gap)
    }
}

proof fn lemma_columns_score_push(x: Seq<char>, y: Seq<char>, gap: char, c: char, d: char)
    ensures
        columns_score(x.push(c), y.push(d), gap) == columns_score(x, y, gap) + column_score(
            c,
            d,
            gap,
        ),
{
    assert(x.push(c).drop_last() =~= x);
    assert(y.push(d).drop_last() =~= y);
}

proof fn lemma_columns_score_against_gaps(s: Seq<char>, gap: char, k: nat)
    requires
        k <= s.len(),
    ensures
        columns_score(gaps(gap, k), s.take(k as int), gap) == -(k as int),
        columns_score(s.take(k as int), gaps(gap, k), gap) == -(k as int),
    decreases k,
{
    if k > 0 {
        lemma_columns_score_against_gaps(s, gap, (k - 1) as nat);
        assert(gaps(gap, k).drop_last() =~= gaps(gap, (k - 1) as nat));
        assert(s.take(k as int).drop_last() =~= s.take(k - 1));
    }
}

proof fn lemma_columns_score_swap(x: Seq<char>, y: Seq<char>, gap: char)
    ensures
        columns_score(x, y, gap) == columns_score(y, x, gap),
    decreases x.len(),
{
    if x.len() > 0 && y.len() > 0 {
        lemma_columns_score_swap(x.drop_last(), y.drop_last(), gap);
    }
}

proof fn lemma_trace_score(s1: Seq<char>, s2: Seq<char>, gap: char, i: nat, j: nat)
    requires
        i <= s1.len(),
        j <= s2.len(),
        !s1.contains(gap),
        !s2.contains(gap),
    ensures
        columns_score(
            trace(s1, s2, gap, flag_matrix(s1, s2), i, j).0,
            trace(s1, s2, gap, flag_matrix(s1, s2), i, j).1,
            gap,
        ) == score(s1, s2, i, j),
    decreases i + j,
{
    let f = flag_matrix(s1, s2);
    if i == 0 {
        lemma_columns_score_against_gaps(s2, gap, j);
    } else if j == 0 {
        lemma_columns_score_against_gaps(s1, gap, i);
    } else {
        lemma_cell_flag(s1, s2, i, j);
        assert(s1.contains(s1[i - 1]) && s2.contains(s2[j - 1]));
        let b = f[i - 1][j - 1];
        if b & 1u8 == 1u8 {
            let q = trace(s1, s2, gap, f, (i - 1) as nat, (j - 1) as nat);
            lemma_trace_score(s1, s2, gap, (i - 1) as nat, (j - 1) as nat);
            lemma_columns_score_push(q.0, q.1, gap, s1[i - 1], s2[j - 1]);
        } else if b & 2u8 == 2u8 {
            let q = trace(s1, s2, gap, f, (i - 1) as nat, j);
            lemma_trace_score(s1, s2, gap, (i - 1) as nat, j);
            lemma_columns_score_push(q.0, q.1, gap, s1[i - 1], gap);
        } else {
            let q = trace(s1, s2, gap, f, i, (j - 1) as nat);
            lemma_trace_score(s1, s2, gap, i, (j - 1) as nat);
            lemma_columns_score_push(q.0, q.1, gap, gap, s2[j - 1]);
        }
    }
}

/// The reported alignment achieves the reported score: its columns, a gap
/// costing one and two characters scoring as match or mismatch, sum to it.
pub proof fn law_alignment_achieves_score(a: Seq<char>, b: Seq<char>, gap: char)
    requires
        !a.contains(gap),
        !b.contains(gap),
    ensures
        columns_score(alignment_of(a, b, gap).0, alignment_of(a, b, gap).1, gap) == score(
            a,
            b,
            a.len(),
            b.len(),
        ),
{
    lemma_trace_score(a, b, gap, a.len(), b.len());
}

/// Aligning the sequences in the other order and swapping the two outputs
/// gives an alignment of the first order: each output gives its input back
/// once the gaps are removed, and its columns sum to the same score. The two
/// alignments can still differ where up and left moves tie.
pub proof fn law_swapped_alignment(a: Seq<char>, b: Seq<char>, gap: char)
    requires
        !a.contains(gap),
        !b.contains(gap),
    ensures
        score(a, b, a.len(), b.len()) == score(b, a, b.len(), a.len()),
        without_gaps(alignment_of(b, a, gap).1, gap) == a,
        without_gaps(alignment_of(b, a, gap).0, gap) == b,
        columns_score(alignment_of(b, a, gap).1, alignment_of(b, a, gap).0, gap)
            == columns_score(alignment_of(a, b, gap).0, alignment_of(a, b, gap).1, gap),
{
    law_score_symmetric(a, b);
    law_gap_removal(b, a, gap);
    law_alignment_achieves_score(a, b, gap);
    law_alignment_achieves_score(b, a, gap);
    lemma_columns_score_swap(alignment_of(b, a, gap).0, alignment_of(b, a, gap).1, gap);
}

} // verus!
