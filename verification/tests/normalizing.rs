use allele_norm::normalize::{normalize, Mode, NormalizeError, VcfConflict};

const SEQUENCE: &str = "CCCCCCCCACACACACACTAGCAGCAGCA";

#[test]
fn test_normalize() {
    let sequence = "CCCCCCCCACACACACACTAGCAGCAGCA";
    let (bounds, normalized_alleles) = normalize(
        sequence,
        (22, 25),
        vec!["", "GC", "AGCAC"],
        None,
        Some(Mode::TrimOnly),
        None,
        None,
    )
    .unwrap();
    assert_eq!(bounds, (22, 24));
    assert_eq!(normalized_alleles, vec!["AG", "G", "AGCA"]);

    let (bounds, normalized_alleles) = normalize(
        sequence,
        (22, 22),
        vec!["", "AGC"],
        None,
        Some(Mode::RightShuffle),
        None,
        None,
    )
    .unwrap();
    assert_eq!(bounds, (29, 29));
    assert_eq!(normalized_alleles, vec!["", "GCA"]);

    let (bounds, normalized_alleles) = normalize(
        sequence,
        (22, 22),
        vec!["", "AGC"],
        None,
        Some(Mode::Expand),
        None,
        None,
    )
    .unwrap();
    assert_eq!(bounds, (19, 29));
    assert_eq!(normalized_alleles, vec!["AGCAGCAGCA", "AGCAGCAGCAGCA"]);
}

#[test]
fn invalid_interval_is_rejected() {
    let r = normalize(SEQUENCE, (5, 3), vec!["", "A"], None, None, None, None);
    assert_eq!(r, Err(NormalizeError::InvalidInterval { start: 5, end: 3 }));
}

#[test]
fn invalid_interval_is_reported_before_anything_else() {
    let r = normalize(SEQUENCE, (5, 3), vec![], Some((7, 99)), Some(Mode::Vcf), Some(2), Some(false));
    assert_eq!(r, Err(NormalizeError::InvalidInterval { start: 5, end: 3 }));
}

#[test]
fn vcf_with_an_anchor_is_rejected() {
    let r = normalize(SEQUENCE, (22, 22), vec!["", "AGC"], None, Some(Mode::Vcf), Some(2), None);
    assert_eq!(r, Err(NormalizeError::IncompatibleVcfConfiguration(VcfConflict::AnchorLength)));
}

#[test]
fn vcf_without_trimming_is_rejected() {
    let r = normalize(SEQUENCE, (22, 22), vec!["", "AGC"], None, Some(Mode::Vcf), None, Some(false));
    assert_eq!(r, Err(NormalizeError::IncompatibleVcfConfiguration(VcfConflict::TrimDisabled)));
}

#[test]
fn vcf_conflicts_are_told_apart() {
    let r = normalize(SEQUENCE, (22, 22), vec!["", "AGC"], None, Some(Mode::Vcf), Some(1), Some(false));
    assert_eq!(r, Err(NormalizeError::IncompatibleVcfConfiguration(VcfConflict::AnchorLength)));
    let r = normalize(SEQUENCE, (22, 22), vec![], Some((25, 99)), Some(Mode::Vcf), Some(0), Some(false));
    assert_eq!(r, Err(NormalizeError::IncompatibleVcfConfiguration(VcfConflict::TrimDisabled)));
}

#[test]
fn vcf_with_an_anchor_of_zero_is_accepted() {
    let r = normalize(SEQUENCE, (22, 22), vec!["", "AGC"], None, Some(Mode::Vcf), Some(0), Some(true));
    assert_eq!(r, Ok(((18, 19), vec!["T".to_string(), "TAGC".to_string()])));
}

#[test]
fn no_alleles_are_rejected() {
    let r = normalize(SEQUENCE, (22, 22), vec![], None, None, None, None);
    assert_eq!(r, Err(NormalizeError::EmptyAlleleSet));
    let r = normalize(SEQUENCE, (22, 99), vec![], None, Some(Mode::TrimOnly), None, None);
    assert_eq!(r, Err(NormalizeError::EmptyAlleleSet));
}

#[test]
fn an_interval_past_the_sequence_is_rejected() {
    let r = normalize(SEQUENCE, (22, 30), vec!["", "A"], None, None, None, None);
    assert_eq!(r, Err(NormalizeError::OutOfBounds));
    let r = normalize(SEQUENCE, (30, 30), vec!["", "A"], None, Some(Mode::TrimOnly), None, None);
    assert_eq!(r, Err(NormalizeError::OutOfBounds));
}

#[test]
fn an_interval_outside_the_bounds_is_rejected() {
    let r = normalize(SEQUENCE, (10, 12), vec!["", "A"], Some((11, 20)), None, None, None);
    assert_eq!(r, Err(NormalizeError::OutOfBounds));
    let r = normalize(SEQUENCE, (10, 12), vec!["", "A"], Some((5, 11)), None, None, None);
    assert_eq!(r, Err(NormalizeError::OutOfBounds));
}

#[test]
fn bounds_past_the_sequence_are_rejected() {
    let r = normalize(SEQUENCE, (10, 12), vec!["", "A"], Some((0, 30)), None, None, None);
    assert_eq!(r, Err(NormalizeError::OutOfBounds));
    let r = normalize(SEQUENCE, (10, 12), vec!["", "A"], Some((0, 29)), Some(Mode::TrimOnly), None, None);
    assert_eq!(r, Ok(((11, 12), vec!["C".to_string(), "".to_string()])));
}

#[test]
fn defaults_are_whole_sequence_expand_no_anchor_and_trim() {
    let implied = normalize(SEQUENCE, (22, 22), vec!["", "AGC"], None, None, None, None);
    let stated = normalize(
        SEQUENCE,
        (22, 22),
        vec!["", "AGC"],
        Some((0, 29)),
        Some(Mode::Expand),
        Some(0),
        Some(true),
    );
    assert_eq!(implied, stated);
    assert_eq!(
        implied,
        Ok(((19, 29), vec!["AGCAGCAGCA".to_string(), "AGCAGCAGCAGCA".to_string()]))
    );
}

#[test]
fn first_allele_is_read_from_the_sequence() {
    let r = normalize(SEQUENCE, (22, 25), vec!["TTTTTT", "GC", "AGCAC"], None, Some(Mode::TrimOnly), None, None);
    assert_eq!(r, Ok(((22, 24), vec!["AG".to_string(), "G".to_string(), "AGCA".to_string()])));
}

#[test]
fn left_shuffle_moves_an_insertion_left() {
    let r = normalize(SEQUENCE, (22, 22), vec!["", "AGC"], None, Some(Mode::LeftShuffle), None, None);
    assert_eq!(r, Ok(((19, 19), vec!["".to_string(), "AGC".to_string()])));
    let r = normalize(SEQUENCE, (29, 29), vec!["", "GCA"], None, Some(Mode::LeftShuffle), None, None);
    assert_eq!(r, Ok(((19, 19), vec!["".to_string(), "AGC".to_string()])));
}

#[test]
fn left_shuffle_stops_at_the_lower_bound() {
    let r = normalize(SEQUENCE, (22, 22), vec!["", "AGC"], Some((21, 29)), Some(Mode::LeftShuffle), None, None);
    assert_eq!(r, Ok(((21, 21), vec!["".to_string(), "CAG".to_string()])));
}

#[test]
fn right_shuffle_stops_at_the_upper_bound() {
    let r = normalize(SEQUENCE, (22, 22), vec!["", "AGC"], Some((0, 26)), Some(Mode::RightShuffle), None, None);
    assert_eq!(r, Ok(((26, 26), vec!["".to_string(), "GCA".to_string()])));
    let r = normalize(SEQUENCE, (20, 20), vec!["", "GCA"], None, Some(Mode::RightShuffle), None, None);
    assert_eq!(r, Ok(((29, 29), vec!["".to_string(), "GCA".to_string()])));
}

#[test]
fn shuffles_move_a_deletion() {
    let r = normalize(SEQUENCE, (22, 25), vec!["", ""], None, Some(Mode::LeftShuffle), None, None);
    assert_eq!(r, Ok(((19, 22), vec!["AGC".to_string(), "".to_string()])));
    let r = normalize(SEQUENCE, (22, 25), vec!["", ""], None, Some(Mode::RightShuffle), None, None);
    assert_eq!(r, Ok(((26, 29), vec!["GCA".to_string(), "".to_string()])));
    let r = normalize(SEQUENCE, (10, 12), vec!["", ""], None, Some(Mode::LeftShuffle), None, None);
    assert_eq!(r, Ok(((7, 9), vec!["CA".to_string(), "".to_string()])));
}

#[test]
fn expand_covers_a_deletion_in_a_repeat() {
    let r = normalize(SEQUENCE, (22, 25), vec!["", ""], None, Some(Mode::Expand), None, None);
    assert_eq!(r, Ok(((19, 29), vec!["AGCAGCAGCA".to_string(), "AGCAGCA".to_string()])));
    let r = normalize(SEQUENCE, (10, 12), vec!["", ""], None, Some(Mode::Expand), None, None);
    assert_eq!(r, Ok(((7, 18), vec!["CACACACACAC".to_string(), "CACACACAC".to_string()])));
}

#[test]
fn vcf_keeps_one_symbol_in_front() {
    let r = normalize(SEQUENCE, (22, 22), vec!["", "AGC"], None, Some(Mode::Vcf), None, None);
    assert_eq!(r, Ok(((18, 19), vec!["T".to_string(), "TAGC".to_string()])));
    let r = normalize(SEQUENCE, (22, 25), vec!["", ""], None, Some(Mode::Vcf), None, None);
    assert_eq!(r, Ok(((18, 22), vec!["TAGC".to_string(), "T".to_string()])));
}

#[test]
fn nothing_moves_past_the_ends_of_the_sequence() {
    let r = normalize(SEQUENCE, (0, 0), vec!["", "C"], None, Some(Mode::LeftShuffle), None, None);
    assert_eq!(r, Ok(((0, 0), vec!["".to_string(), "C".to_string()])));
    let r = normalize(SEQUENCE, (0, 0), vec!["", "C"], None, Some(Mode::Vcf), None, None);
    assert_eq!(r, Ok(((0, 0), vec!["".to_string(), "C".to_string()])));
    let r = normalize(SEQUENCE, (0, 0), vec!["", "C"], None, Some(Mode::Expand), None, None);
    assert_eq!(r, Ok(((0, 8), vec!["CCCCCCCC".to_string(), "CCCCCCCCC".to_string()])));
    let r = normalize(SEQUENCE, (29, 29), vec!["", "A"], None, Some(Mode::Expand), None, None);
    assert_eq!(r, Ok(((28, 29), vec!["A".to_string(), "AA".to_string()])));
}

#[test]
fn anchors_add_reference_on_both_sides() {
    let r = normalize(SEQUENCE, (22, 22), vec!["", "AGC"], None, Some(Mode::Expand), Some(2), None);
    assert_eq!(r, Ok(((17, 29), vec!["CTAGCAGCAGCA".to_string(), "CTAGCAGCAGCAGCA".to_string()])));
    let r = normalize(SEQUENCE, (22, 22), vec!["", "AGC"], None, Some(Mode::RightShuffle), Some(1), None);
    assert_eq!(r, Ok(((28, 29), vec!["A".to_string(), "AGCA".to_string()])));
    let r = normalize(SEQUENCE, (10, 12), vec!["", ""], None, Some(Mode::LeftShuffle), Some(3), None);
    assert_eq!(r, Ok(((4, 12), vec!["CCCCACAC".to_string(), "CCCCAC".to_string()])));
}

#[test]
fn anchors_stop_at_the_bounds() {
    let r = normalize(SEQUENCE, (22, 22), vec!["", "AGC"], Some((20, 27)), Some(Mode::Expand), Some(2), None);
    assert_eq!(r, Ok(((20, 27), vec!["GCAGCAG".to_string(), "GCAGCAGCAG".to_string()])));
    let r = normalize(SEQUENCE, (22, 22), vec!["", "AGC"], None, Some(Mode::Expand), Some(usize::MAX), None);
    assert_eq!(
        r,
        Ok((
            (0, 29),
            vec![
                "CCCCCCCCACACACACACTAGCAGCAGCA".to_string(),
                "CCCCCCCCACACACACACTAGCAGCAGCAGCA".to_string()
            ]
        ))
    );
}

#[test]
fn trim_only_adds_no_anchors() {
    let r = normalize(SEQUENCE, (22, 25), vec!["", "GC", "AGCAC"], None, Some(Mode::TrimOnly), Some(3), None);
    assert_eq!(r, Ok(((22, 24), vec!["AG".to_string(), "G".to_string(), "AGCA".to_string()])));
}

#[test]
fn without_trimming_the_alleles_pass_through() {
    let r = normalize(SEQUENCE, (22, 25), vec!["", "GC", "AGCAC"], None, Some(Mode::TrimOnly), None, Some(false));
    assert_eq!(r, Ok(((22, 25), vec!["AGC".to_string(), "GC".to_string(), "AGCAC".to_string()])));
    let r = normalize(SEQUENCE, (22, 25), vec!["", "GC", "AGCAC"], None, Some(Mode::Expand), None, Some(false));
    assert_eq!(r, Ok(((21, 25), vec!["CAGC".to_string(), "CGC".to_string(), "CAGCAC".to_string()])));
}

#[test]
fn trim_only_twice_is_trim_only_once() {
    let requests: Vec<((usize, usize), Vec<&str>)> = vec![
        ((22, 25), vec!["", "GC", "AGCAC"]),
        ((22, 22), vec!["", "AGC"]),
        ((8, 18), vec!["", "ACAC", "ACACACACACAC"]),
        ((0, 29), vec!["", "CCCCCCCCACACACACACTAGCAGCAGCA"]),
        ((3, 9), vec!["", "CCGCCA", "CCCCCT"]),
    ];
    for (interval, alleles) in requests {
        for trim in [true, false] {
            let (at, once) =
                normalize(SEQUENCE, interval, alleles.clone(), None, Some(Mode::TrimOnly), None, Some(trim)).unwrap();
            let again: Vec<&str> = once.iter().map(|a| a.as_str()).collect();
            let twice = normalize(SEQUENCE, at, again, None, Some(Mode::TrimOnly), None, Some(trim));
            assert_eq!(twice, Ok((at, once)));
        }
    }
}

#[test]
fn result_lies_within_the_bounds() {
    let modes = [Mode::Expand, Mode::LeftShuffle, Mode::RightShuffle, Mode::TrimOnly, Mode::Vcf];
    let bounds = [None, Some((0, 29)), Some((20, 27)), Some((22, 25)), Some((10, 29))];
    for mode in modes {
        for given in bounds {
            for anchor in [0, 1, 5, 40] {
                if mode == Mode::Vcf && anchor != 0 {
                    continue;
                }
                for alleles in [vec!["", "AGC"], vec!["", ""], vec!["", "GC", "AGCAC"]] {
                    let (low, high) = given.unwrap_or((0, 29));
                    let (at, found) =
                        normalize(SEQUENCE, (22, 25), alleles.clone(), given, Some(mode), Some(anchor), None).unwrap();
                    assert!(low <= at.0 && at.0 <= at.1 && at.1 <= high);
                    assert_eq!(found.len(), alleles.len());
                    assert_eq!(found[0], SEQUENCE[at.0..at.1]);
                }
            }
        }
    }
}

#[test]
fn symbols_are_counted_not_bytes() {
    let sequence = "\u{3b1}\u{3b2}\u{3b1}\u{3b2}\u{3b1}\u{3b2}\u{3b3}";
    let r = normalize(sequence, (2, 2), vec!["", "\u{3b1}\u{3b2}"], None, Some(Mode::Expand), None, None);
    assert_eq!(
        r,
        Ok((
            (0, 6),
            vec![
                "\u{3b1}\u{3b2}\u{3b1}\u{3b2}\u{3b1}\u{3b2}".to_string(),
                "\u{3b1}\u{3b2}\u{3b1}\u{3b2}\u{3b1}\u{3b2}\u{3b1}\u{3b2}".to_string()
            ]
        ))
    );
}

#[test]
fn alleles_spell_the_same_after_normalizing() {
    let modes = [Mode::Expand, Mode::LeftShuffle, Mode::RightShuffle, Mode::TrimOnly, Mode::Vcf];
    let requests: Vec<((usize, usize), Vec<&str>)> = vec![
        ((22, 22), vec!["", "AGC"]),
        ((22, 25), vec!["", ""]),
        ((22, 25), vec!["", "GC", "AGCAC"]),
        ((10, 12), vec!["", "", "ACAC"]),
        ((8, 8), vec!["", "AC", "ACAC"]),
        ((0, 29), vec!["", "CA"]),
    ];
    for mode in modes {
        for (interval, alleles) in requests.iter() {
            for trim in [true, false] {
                if mode == Mode::Vcf && !trim {
                    continue;
                }
                let (at, found) =
                    normalize(SEQUENCE, *interval, alleles.clone(), None, Some(mode), None, Some(trim)).unwrap();
                assert_eq!(found.len(), alleles.len());
                assert_eq!(found[0], SEQUENCE[at.0..at.1]);
                for i in 1..alleles.len() {
                    let before = format!("{}{}{}", &SEQUENCE[..interval.0], alleles[i], &SEQUENCE[interval.1..]);
                    let after = format!("{}{}{}", &SEQUENCE[..at.0], found[i], &SEQUENCE[at.1..]);
                    assert_eq!(after, before);
                }
            }
        }
    }
}

#[test]
fn shuffles_turn_the_alleles() {
    let sequence = "GGACTACTACTACTAGG";
    let r = normalize(sequence, (7, 7), vec!["", "TAC"], None, Some(Mode::LeftShuffle), None, None);
    assert_eq!(r, Ok(((2, 2), vec!["".to_string(), "ACT".to_string()])));
    let r = normalize(sequence, (7, 7), vec!["", "TAC"], None, Some(Mode::RightShuffle), None, None);
    assert_eq!(r, Ok(((15, 15), vec!["".to_string(), "CTA".to_string()])));
    let r = normalize(sequence, (7, 7), vec!["", "TAC"], None, Some(Mode::Expand), None, None);
    assert_eq!(r, Ok(((2, 15), vec!["ACTACTACTACTA".to_string(), "ACTACTACTACTACTA".to_string()])));
    let r = normalize(sequence, (7, 7), vec!["", "TAC"], None, Some(Mode::Vcf), None, None);
    assert_eq!(r, Ok(((1, 2), vec!["G".to_string(), "GACT".to_string()])));
}
