use mtxt::decimal::FixedDecimal;
use mtxt::parser::parse_mtxt;
use mtxt::record::MtxtRecordLine;
use mtxt::transforms::{apply, exclude, extract, group, inclusion, merge, offset, quantize, sort, transpose};
use std::collections::HashSet;

fn assert_eq_records(
    input: &str,
    transform: impl Fn(&[MtxtRecordLine]) -> Vec<MtxtRecordLine>,
    expected: &str,
) {
    let input_parsed = parse_mtxt(input).expect("Failed to parse input");
    let expected_parsed = parse_mtxt(expected).expect("Failed to parse expected");
    let transformed = transform(&input_parsed.records);
    assert_eq!(
        transformed.len(),
        expected_parsed.records.len(),
        "length mismatch, output={:?}",
        mtxt::file::MtxtFile::from_records(transformed.clone()).to_text()
    );
    for (record, expected) in transformed.iter().zip(expected_parsed.records.iter()) {
        assert_eq!(record, expected);
    }
}

fn dec(s: &str) -> FixedDecimal {
    FixedDecimal::parse(s).unwrap()
}

#[test]
fn test_apply_directives() {
    let input = r#"
mtxt 1.0
ch=1
vel=0.8
dur=1
1.0 note C4
2.0 note E4 dur=2
3.0 note G4 vel=0.5
ch=2
4.0 note C5
transition_curve=0.5
5.0 cc volume 1.0
"#;
    let expected = r#"
mtxt 1.0
1.0 note C4 dur=1 vel=0.8 ch=1
2.0 note E4 dur=2 vel=0.8 ch=1
3.0 note G4 dur=1 vel=0.5 ch=1
4.0 note C5 dur=1 vel=0.8 ch=2
5.0 cc volume 1 transition_curve=0.5
"#;
    assert_eq_records(input, apply::transform, expected);
}

#[test]
fn test_extract_directives() {
    let input = r#"
mtxt 1.0
1.0 note C4 ch=1
2.0 note E4 ch=1
3.0 note G4 ch=1

4.0 note C5 ch=2
5.0 note E5 ch=2
6.0 note G5 ch=2
7.0 note C6 ch=3
8.0 note G5 ch=1
9.0 note G5 ch=2
"#;
    let expected = r#"
mtxt 1.0
ch=1
1.0 note C4
2.0 note E4
3.0 note G4

ch=2
4.0 note C5
5.0 note E5
6.0 note G5
7.0 note C6 ch=3
8.0 note G5 ch=1
9.0 note G5
"#;
    assert_eq_records(input, extract::transform, expected);
}

#[test]
fn test_extract_directives_mixed() {
    let input = r#"
mtxt 1.0
1.0 note C4 ch=1 vel=0.5
2.0 note E4 ch=1 vel=0.5
2.5 tempo 120
// comment
3.0 note G4 ch=1 vel=0.5
"#;
    let expected = r#"
mtxt 1.0
ch=1
vel=0.5
1.0 note C4
2.0 note E4
2.5 tempo 120
// comment
3.0 note G4
"#;
    assert_eq_records(input, extract::transform, expected);
}

#[test]
fn test_extract_directives_interrupted() {
    let input = r#"
mtxt 1.0
ch=1
1.0 note C4 ch=1
2.0 note E4
3.0 note G4 ch=1
4.0 note C5 ch=2
"#;
    let expected = r#"
mtxt 1.0
ch=1
1.0 note C4
2.0 note E4
3.0 note G4
4.0 note C5 ch=2
"#;
    assert_eq_records(input, extract::transform, expected);
}

#[test]
fn test_extract_directives_ignore_cc_for_channel() {
    let input = r#"
mtxt 1.0
1.0 cc ch=1 volume 1
1.0 note C4 ch=1
2.0 cc ch=2 volume 0.9
3.0 note E4 ch=1
3.5 cc volume 0.8
4.0 note G4 ch=1
"#;
    let expected = r#"
mtxt 1.0
1.0 cc ch=1 volume 1
ch=1
1.0 note C4
2.0 cc ch=2 volume 0.9
3.0 note E4
3.5 cc volume 0.8
4.0 note G4
"#;
    assert_eq_records(input, extract::transform, expected);
}

#[test]
fn test_group_channels() {
    let input = r#"
mtxt 1.0
1.0 note C4 ch=1
1.5 note C4 ch=2
3.0 note G4 ch=1
2.5 note E4 ch=2
3.5 note G4 ch=2
2.0 note E4 ch=1
"#;
    let expected = r#"
mtxt 1.0
ch=1
1.0 note C4
2.0 note E4
3.0 note G4
ch=2
1.5 note C4
2.5 note E4
3.5 note G4
"#;
    assert_eq_records(input, group::transform, expected);
}

#[test]
fn test_group_channels_with_globals() {
    let input = r#"
mtxt 1.0
0.5 tempo 120
ch=1
1.0 on C4
ch=2
1.5 note D4
1.5 note H4
3.0 note F4 ch=1
ch=1
2.0 note E4
1.0 note G4 ch=3
"#;
    let expected = r#"
mtxt 1.0
0.5 tempo 120
ch=1
1.0 on C4
2.0 note E4
3.0 note F4
1.5 note D4 ch=2
1.5 note H4 ch=2
1.0 note G4 ch=3
"#;
    assert_eq_records(input, group::transform, expected);
}

#[test]
fn test_include_channels() {
    let input = r#"
mtxt 1.0
ch=1
0.0 voice piano
0.0 voice ch=3 trombone
1.0 note C4 dur=1 ch=1
2.0 note E4 dur=1 ch=2
3.0 note G4 dur=1
4.0 note F5 dur=1 ch=3
4.0 cc volume 1
ch=5
5.0 note A5 dur=1
5.0 cc C4 volume 0.5 ch=1
6.0 cc E4 volume 0.5 ch=2
7.0 cc G4 volume 0.5
"#;
    let expected = r#"
mtxt 1.0
0.0 voice ch=3 trombone
4.0 note F5 dur=1 ch=3
4.0 cc volume 1
ch=5
5.0 note A5 dur=1
7.0 cc G4 volume 0.5
"#;
    assert_eq_records(input, |r| inclusion::transform(r, &HashSet::from([3, 5])), expected);
}

#[test]
fn exclude_drops_listed_channels() {
    let input = r#"
mtxt 1.0
ch=1
1.0 note C4
2.0 note E4 ch=2
3.0 cc volume 1
"#;
    let expected = r#"
mtxt 1.0
2.0 note E4 ch=2
3.0 cc volume 1
"#;
    assert_eq_records(input, |r| exclude::transform(r, &HashSet::from([1])), expected);
}

#[test]
fn include_with_empty_set_keeps_everything() {
    let input = "mtxt 1.0\nch=1\n1.0 note C4\n";
    assert_eq_records(input, |r| inclusion::transform(r, &HashSet::new()), input);
}

#[test]
fn test_merge_notes() {
    let input = r#"
mtxt 1.0
ch=1
1.0 on C4 vel=0.5
2.0 off C4 offvel=0.8
"#;
    let expected = r#"
mtxt 1.0
ch=1
1.0 note C4 dur=1.0 vel=0.5 offvel=0.8
"#;
    assert_eq_records(input, merge::transform, expected);
}

#[test]
fn test_merge_notes_interleaved() {
    let input = r#"
mtxt 1.0
ch=1
1.0 on C4
1.5 on E4
2.0 off C4
3.5 off E4
"#;
    let expected = r#"
mtxt 1.0
ch=1
1.0 note C4 dur=1.0
1.5 note E4 dur=2.0
"#;
    assert_eq_records(input, merge::transform, expected);
}

#[test]
fn test_merge_channel_handling() {
    let input = r#"
mtxt 1.0
ch=1
1.0 on C4
ch=2
1.0 on C4
2.0 off C4
ch=1
3.0 off C4
"#;
    let expected = r#"
mtxt 1.0
ch=1
1.0 note C4 dur=2.0
ch=2
1.0 note C4 dur=1.0
ch=1
"#;
    assert_eq_records(input, merge::transform, expected);
}

#[test]
fn test_unmatched_note_on() {
    let input = r#"
mtxt 1.0
1.0 on C4
"#;
    let expected = r#"
mtxt 1.0
1.0 on C4
"#;
    assert_eq_records(input, merge::transform, expected);
}

#[test]
fn test_unmatched_note_off() {
    let input = r#"
mtxt 1.0
1.0 off C4
"#;
    let expected = r#"
mtxt 1.0
1.0 off C4
"#;
    assert_eq_records(input, merge::transform, expected);
}

#[test]
fn merge_retrigger_keeps_first_note_on() {
    let input = "mtxt 1.0\n1.0 on C4\n2.0 on C4\n3.0 off C4\n";
    let expected = "mtxt 1.0\n1.0 on C4\n2.0 note C4 dur=1.0\n";
    assert_eq_records(input, merge::transform, expected);
}

#[test]
fn test_offset_positive() {
    let input = r#"
mtxt 1.0
ch=1
1.0 note C4
2.0 note E4
"#;
    let expected = r#"
mtxt 1.0
ch=1
2.5 note C4
3.5 note E4
"#;
    assert_eq_records(input, |r| offset::transform(r, dec("1.5")), expected);
}

#[test]
fn test_offset_negative() {
    let input = r#"
mtxt 1.0
ch=1
2.0 note C4
3.0 note E4
"#;
    let expected = r#"
mtxt 1.0
ch=1
1.5 note C4
2.5 note E4
"#;
    assert_eq_records(input, |r| offset::transform(r, dec("-0.5")), expected);
}

#[test]
fn test_offset_negative_remove() {
    let input = r#"
mtxt 1.0
ch=1
1.0 note C4
2.0 note E4
3.0 note G4
"#;
    let expected = r#"
mtxt 1.0
ch=1
0.5 note E4
1.5 note G4
"#;
    assert_eq_records(input, |r| offset::transform(r, dec("-1.5")), expected);
}

#[test]
fn offset_there_and_back_restores_lines() {
    let input = "mtxt 1.0\nch=1\n0.0 note C4\n1.25 note E4\n2.0 tempo 90\n";
    assert_eq_records(
        input,
        |r| offset::transform(&offset::transform(r, dec("2.75")), dec("-2.75")),
        input,
    );
}

#[test]
fn quantize_test_quantize() {
    let input = r#"
mtxt 1.0
1.01 note C4
2.02 note E4
3.99 note G4
"#;
    let expected = r#"
mtxt 1.0
1.0 note C4
2.0 note E4
4.0 note G4
"#;
    assert_eq_records(
        input,
        |r| quantize::transform(r, 4, FixedDecimal::zero(), FixedDecimal::zero()),
        expected,
    );
}

#[test]
fn quantize_is_idempotent_without_humanize() {
    let input = "mtxt 1.0\n1.01 note C4\n1.3 note E4\n2.77 on G4\n";
    let once = |r: &[MtxtRecordLine]| quantize::transform(r, 8, dec("0.5"), FixedDecimal::zero());
    let parsed = parse_mtxt(input).unwrap();
    let a = once(&parsed.records);
    let b = once(&a);
    assert_eq!(a, b);
}

#[test]
fn test_sort_by_time() {
    let input = r#"
mtxt 1.0
ch=1
2.0 note C4
1.0 note E4
3.0 note G4
ch=2
5.0 note C5
4.0 note E5
// comment
7.0 note G5
6.0 note C6
"#;
    let expected = r#"
mtxt 1.0
ch=1
1.0 note E4
2.0 note C4
3.0 note G4
ch=2
4.0 note E5
5.0 note C5
// comment
6.0 note C6
7.0 note G5
"#;
    assert_eq_records(input, sort::transform, expected);
}

#[test]
fn sort_is_stable_for_equal_times() {
    let input = "mtxt 1.0\n2.0 note C4\n1.0 note E4\n2.0 note G4\n1.0 note A4\n";
    let expected = "mtxt 1.0\n1.0 note E4\n1.0 note A4\n2.0 note C4\n2.0 note G4\n";
    assert_eq_records(input, sort::transform, expected);
}

#[test]
fn test_transpose() {
    let input = r#"
mtxt 1.0
alias Cmaj C4,E4,G4
1.0 note C4+2 dur=1
2.0 note Cmaj dur=2
3.0 cc C2 volume 0.5
"#;
    let expected = r#"
mtxt 1.0
alias Cmaj B2,Eb3,F#3
1.0 note B2+2 dur=1
2.0 note Cmaj dur=2
3.0 cc B0 volume 0.5
"#;
    assert_eq_records(input, |records| transpose::transform(records, -13), expected);
}

#[test]
fn transpose_by_zero_changes_nothing() {
    let input = "mtxt 1.0\nalias Cmaj C4,E4,G4\n1.0 note C#4 dur=1\n";
    assert_eq_records(input, |r| transpose::transform(r, 0), input);
}

#[test]
fn transpose_adds_up() {
    let input = "mtxt 1.0\nalias Cmaj C4,E4,G4\n1.0 note C#4 dur=1\n2.0 off Bb-1\n";
    let parsed = parse_mtxt(input).unwrap();
    let twice = transpose::transform(&transpose::transform(&parsed.records, 7), -20);
    let once = transpose::transform(&parsed.records, -13);
    assert_eq!(twice, once);
}

#[test]
fn apply_after_extract_gives_apply() {
    let input = "mtxt 1.0\nch=2\nvel=0.5\ndur=1\n1.0 note C4\n2.0 note E4\n3.0 note G4 vel=0.7\n4.0 note C5\n";
    let parsed = parse_mtxt(input).unwrap();
    let flat = apply::transform(&parsed.records);
    let round = apply::transform(&extract::transform(&flat));
    assert_eq!(round, flat);
}
