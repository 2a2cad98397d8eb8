use mtxt::output_record::MtxtOutputRecord;
use mtxt::parser::parse_mtxt;
use mtxt::process::{create_intermediate_records, resolve_note_target};
use mtxt::record::MtxtRecord;
use mtxt::note::{NoteTarget, AliasDefinition, Note, PitchClass};
use mtxt::decimal::FixedDecimal;

fn records(text: &str) -> Vec<MtxtRecord> {
    parse_mtxt(text).unwrap().records.into_iter().map(|l| l.record).collect()
}

#[test]
fn note_becomes_on_and_off() {
    let ir = create_intermediate_records(&records("mtxt 1.0\nch=3\n1.0 note C4 dur=0.5 vel=0.5\n"));
    assert_eq!(ir.len(), 2);
    assert_eq!(ir[0].end_beat_time.to_text(), "1.0");
    assert_eq!(ir[1].end_beat_time.to_text(), "1.5");
    match &ir[0].record {
        MtxtOutputRecord::NoteOn { velocity, channel, .. } => {
            assert_eq!(velocity.units, 50000);
            assert_eq!(*channel, 3);
        }
        other => panic!("unexpected {:?}", other),
    }
    match &ir[1].record {
        MtxtOutputRecord::NoteOff { off_velocity, .. } => assert_eq!(off_velocity.units, 0),
        other => panic!("unexpected {:?}", other),
    }
}

#[test]
fn default_duration_and_velocity() {
    let ir = create_intermediate_records(&records("mtxt 1.0\n2.0 note C4\n"));
    assert_eq!(ir[1].end_beat_time.to_text(), "3.0");
    match &ir[0].record {
        MtxtOutputRecord::NoteOn { velocity, .. } => assert_eq!(velocity.units, 50394),
        other => panic!("unexpected {:?}", other),
    }
}

#[test]
fn aliases_expand_and_tuning_applies() {
    let ir = create_intermediate_records(&records(
        "mtxt 1.0\nalias Cmaj C4,E4,G4\n0.0 tuning E +10\n1.0 on Cmaj\n",
    ));
    assert_eq!(ir.len(), 3);
    match &ir[1].record {
        MtxtOutputRecord::NoteOn { note, .. } => {
            assert_eq!(note.pitch_class, PitchClass::E);
            assert_eq!(note.cents.units, 1000000);
        }
        other => panic!("unexpected {:?}", other),
    }
}

#[test]
fn events_sorted_by_end_time() {
    let ir = create_intermediate_records(&records(
        "mtxt 1.0\n2.0 tempo 100 transition_time=1.0\n1.0 cc volume 0.5\nmeta global title x\n",
    ));
    let ends: Vec<String> = ir.iter().map(|r| r.end_beat_time.to_text()).collect();
    assert_eq!(ends, vec!["0.0", "1.0", "2.0"]);
    assert_eq!(ir[2].start_beat_time.to_text(), "1.0");
    assert_eq!(ir[1].transition_interval.units, 1000);
}

#[test]
fn unknown_alias_resolves_to_nothing() {
    let aliases = vec![AliasDefinition {
        name: "Dm".to_string(),
        notes: vec![Note { pitch_class: PitchClass::D, octave: 4, cents: FixedDecimal::zero() }],
    }];
    assert_eq!(resolve_note_target(&NoteTarget::AliasKey("X".to_string()), &aliases).len(), 0);
    assert_eq!(resolve_note_target(&NoteTarget::AliasKey("Dm".to_string()), &aliases).len(), 1);
}

