use nwalign::align::{align, AlignError, Alignment};
use nwalign::backtrace::backtrace_best_alignment;
use nwalign::scoring::{chars_of, find_best_alignments};

fn run(a: &str, b: &str) -> Alignment {
    align(a, b, '-').unwrap()
}

fn strip(s: &str) -> String {
    s.chars().filter(|&c| c != '-').collect()
}

#[test]
fn gattaca_scores_zero() {
    let r = run("GATTACA", "GCATGCU");
    assert_eq!(r.score, 0);
    assert_eq!(r.aligned1.chars().count(), r.aligned2.chars().count());
    assert_eq!(strip(&r.aligned1), "GATTACA");
    assert_eq!(strip(&r.aligned2), "GCATGCU");
}

#[test]
fn single_char_against_empty() {
    let r = run("A", "");
    assert_eq!(r.score, -1);
    assert_eq!(r.aligned1, "A");
    assert_eq!(r.aligned2, "-");
}

#[test]
fn empty_against_single_char() {
    let r = run("", "A");
    assert_eq!(r.score, -1);
    assert_eq!(r.aligned1, "-");
    assert_eq!(r.aligned2, "A");
}

#[test]
fn both_empty() {
    let r = run("", "");
    assert_eq!(r.score, 0);
    assert_eq!(r.aligned1, "");
    assert_eq!(r.aligned2, "");
}

#[test]
fn equal_runs_of_a() {
    let r = run("AAAA", "AAAA");
    assert_eq!(r.score, 4);
    assert_eq!(r.aligned1, "AAAA");
    assert_eq!(r.aligned2, "AAAA");
}

#[test]
fn identity_has_no_gaps() {
    let r = run("GATTACA", "GATTACA");
    assert_eq!(r.score, 7);
    assert_eq!(r.aligned1, "GATTACA");
    assert_eq!(r.aligned2, "GATTACA");
}

#[test]
fn score_is_symmetric() {
    for (a, b) in [("GATTACA", "GCATGCU"), ("AC", "CA"), ("A", ""), ("ABCDE", "XBD")] {
        assert_eq!(run(a, b).score, run(b, a).score);
    }
}

#[test]
fn swapped_inputs_can_pick_another_path() {
    // up and left tie at the last cell; the walk prefers up in both orders
    let ab = run("AC", "CA");
    let ba = run("CA", "AC");
    assert_eq!(ab.score, -1);
    assert_eq!(ba.score, -1);
    assert_eq!((ab.aligned1.as_str(), ab.aligned2.as_str()), ("-AC", "CA-"));
    assert_eq!((ba.aligned1.as_str(), ba.aligned2.as_str()), ("-CA", "AC-"));
}

#[test]
fn score_within_bounds() {
    for (a, b) in [("AAAA", "TTTTTTTT"), ("ACGT", "ACGT"), ("", "XYZ"), ("AB", "BA")] {
        let r = run(a, b);
        let (n, m) = (a.len() as i32, b.len() as i32);
        assert!(r.score <= n.max(m));
        assert!(r.score >= -(n + m));
    }
    assert_eq!(run("AAAA", "TTTTTTTT").score, -8);
}

#[test]
fn aligned_lengths_match() {
    for (a, b) in [("GATTACA", "GCATGCU"), ("", "XYZ"), ("ABCDEFG", "B"), ("A", "BCDEF")] {
        let r = run(a, b);
        let len = r.aligned1.chars().count();
        assert_eq!(len, r.aligned2.chars().count());
        assert!(len >= a.len().max(b.len()));
    }
}

#[test]
fn gap_removal_gives_inputs_back() {
    for (a, b) in [("GATTACA", "GCATGCU"), ("ABCDEFG", "B"), ("", "XYZ"), ("TTAG", "TAGG")] {
        let r = run(a, b);
        assert_eq!(strip(&r.aligned1), a);
        assert_eq!(strip(&r.aligned2), b);
    }
}

#[test]
fn columns_sum_to_score() {
    for (a, b) in [("GATTACA", "GCATGCU"), ("AC", "CA"), ("TTAG", "TAGG"), ("", "XY")] {
        let r = run(a, b);
        let total: i32 = r
            .aligned1
            .chars()
            .zip(r.aligned2.chars())
            .map(|(x, y)| if x != '-' && y != '-' && x == y { 1 } else { -1 })
            .sum();
        assert_eq!(total, r.score);
    }
}

#[test]
fn leftover_prefix_is_kept_in_order() {
    let r = run("ABCDEFG", "G");
    assert_eq!(r.score, -5);
    assert_eq!(r.aligned1, "ABCDEFG");
    assert_eq!(r.aligned2, "------G");
}

#[test]
fn gap_char_in_sequence_is_rejected() {
    assert_eq!(align("A-C", "AC", '-').err(), Some(AlignError::GapInSequence));
    assert_eq!(align("AC", "xy", 'y').err(), Some(AlignError::GapInSequence));
    assert!(align("AC", "xy", '_').is_ok());
}

#[test]
fn other_gap_character() {
    let r = align("A", "", '*').unwrap();
    assert_eq!(r.aligned1, "A");
    assert_eq!(r.aligned2, "*");
}

#[test]
fn non_ascii_characters() {
    let r = align("héllo", "hello", '-').unwrap();
    assert_eq!(r.score, 3);
    assert_eq!(r.aligned1, "héllo");
    assert_eq!(r.aligned2, "hello");
}

#[test]
fn flags_mark_every_optimal_move() {
    let (flags, score) = find_best_alignments("A", "A");
    assert_eq!(flags, vec![vec![1u8]]);
    assert_eq!(score, 1);
    // the last cell of AC against CA ties up and left
    let (flags, score) = find_best_alignments("AC", "CA");
    assert_eq!(flags, vec![vec![1u8, 1u8], vec![1u8, 6u8]]);
    assert_eq!(score, -1);
}

#[test]
fn scores_with_empty_sides() {
    let (flags, score) = find_best_alignments("ABC", "");
    assert_eq!(flags, vec![Vec::<u8>::new(), Vec::new(), Vec::new()]);
    assert_eq!(score, -3);
    let (flags, score) = find_best_alignments("", "AB");
    assert!(flags.is_empty());
    assert_eq!(score, -2);
}

#[test]
fn backtrace_prefers_diagonal_then_up() {
    let all = vec![vec![7u8, 7u8], vec![7u8, 7u8]];
    let r = backtrace_best_alignment("AB", "CD", '-', all);
    assert_eq!(r, ["AB".to_string(), "CD".to_string()]);
    let ups = vec![vec![6u8, 6u8], vec![6u8, 6u8]];
    let r = backtrace_best_alignment("AB", "CD", '-', ups);
    assert_eq!(r, ["--AB".to_string(), "CD--".to_string()]);
    let lefts = vec![vec![4u8, 4u8], vec![4u8, 4u8]];
    let r = backtrace_best_alignment("AB", "CD", '-', lefts);
    assert_eq!(r, ["AB--".to_string(), "--CD".to_string()]);
}

#[test]
fn chars_of_reads_each_character() {
    assert_eq!(chars_of("aé€"), vec!['a', 'é', '€']);
    assert!(chars_of("").is_empty());
}
