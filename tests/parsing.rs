use mtxt::beat_time::BeatTime;
use mtxt::decimal::FixedDecimal;
use mtxt::note::{Note, NoteTarget, PitchClass};
use mtxt::parser::parse_mtxt;
use mtxt::record::{MtxtRecord, MtxtRecordLine, Version, VoiceList};
use mtxt::record_parser::parse_mtxt_line;

#[test]
fn parses_header_and_note() {
    let f = parse_mtxt("mtxt 1.0\n0 note C4 dur=1 vel=0.5 ch=1").unwrap();
    assert_eq!(f.records.len(), 2);
    assert_eq!(
        f.records[0].record,
        MtxtRecord::Header { version: Version { major: 1, minor: 0 } }
    );
    assert_eq!(
        f.records[1].record,
        MtxtRecord::Note {
            time: BeatTime::zero(),
            note: NoteTarget::Note(Note {
                pitch_class: PitchClass::C,
                octave: 4,
                cents: FixedDecimal::zero()
            }),
            duration: Some("1".parse().unwrap()),
            velocity: Some(FixedDecimal::from_units(50000)),
            off_velocity: None,
            channel: Some(1),
        }
    );
}

#[test]
fn missing_header_is_rejected() {
    let e = parse_mtxt("1.0 note C4\n");
    assert_eq!(e.err().unwrap(), "Missing version declaration");
}

#[test]
fn errors_name_the_line() {
    let e = parse_mtxt("mtxt 1.0\n1.0 note C4 vel=2\n").err().unwrap();
    assert!(e.starts_with("Line #2: "));
}

#[test]
fn unsupported_version_is_rejected() {
    assert!(parse_mtxt_line("mtxt 2.0").is_err());
    assert!(parse_mtxt_line("mtxt 1.0 extra").is_err());
}

#[test]
fn velocity_out_of_range_is_rejected() {
    assert!(parse_mtxt_line("1.0 note C4 vel=1.5").is_err());
    assert!(parse_mtxt_line("offvel=-0.1").is_err());
    assert!(parse_mtxt_line("transition_interval=-1").is_err());
    assert!(parse_mtxt_line("transition_time=1").is_err());
    assert!(parse_mtxt_line("ch=1 extra").is_err());
}

#[test]
fn comments_and_urls() {
    let l = parse_mtxt_line("  // hello  ").unwrap();
    assert_eq!(l, MtxtRecordLine { record: MtxtRecord::EmptyLine, comment: Some("hello".to_string()) });
    let l = parse_mtxt_line("meta global url http://example.com // site").unwrap();
    assert_eq!(
        l.record,
        MtxtRecord::GlobalMeta { meta_type: "url".to_string(), value: "http://example.com".to_string() }
    );
    assert_eq!(l.comment, Some("site".to_string()));
    assert_eq!(parse_mtxt_line("   ").unwrap().record, MtxtRecord::EmptyLine);
}

#[test]
fn alias_named_like_a_note_is_rejected() {
    assert!(parse_mtxt_line("alias C4 C4,E4").is_err());
    assert!(parse_mtxt_line("alias Cmaj C4, E4 ,G4").is_ok());
}

#[test]
fn voice_list_parsing() {
    let v = VoiceList::parse(" piano , ,strings ");
    assert_eq!(v.voices, vec!["piano".to_string(), "strings".to_string()]);
}

#[test]
fn format_round_trip() {
    let text = "mtxt 1.0\nmeta global title Song\nch=2\nvel=0.75\n// note\n1.5 note C#4+25 dur=0.5 vel=1 // hi\n2.0 cc volume 0.5 ch=3 transition_curve=1.0 transition_time=0.25 transition_interval=0.01\n3.0 tempo 120 transition_time=1.0\n4.0 timesig 3/4\n5.0 tuning C -10\n6.0 sysex f0 7e 00\n7.0 voice ch=1 piano, strings\n8.0 reset all\nalias Cmaj C4,E4,G4\n";
    let f = parse_mtxt(text).unwrap();
    let out = f.to_text();
    let g = parse_mtxt(&out).unwrap();
    assert_eq!(f.records, g.records);
    assert_eq!(g.to_text(), out);
    assert!(out.contains("1.5 note C#4+25.0 dur=0.5 vel=1.0 // hi\n"));
    assert!(out.contains("5.0 tuning C -10.0\n"));
    assert!(out.contains("6.0 sysex f0 7e 00\n"));
}

#[test]
fn timestamp_width_pads_times() {
    let f = parse_mtxt("mtxt 1.0\n1.5 note C4\n12.0 note D4\n").unwrap();
    let w = f.calculate_auto_timestamp_width();
    assert_eq!(w, 8);
    let out = f.display_with_formatting(Some(w)).to_text();
    assert_eq!(out, "mtxt 1.0\n1.5      note C4\n12.0     note D4\n");
}

#[test]
fn file_queries() {
    let mut f = parse_mtxt("mtxt 1.0\nmeta global title Song\n3.0 note C4\n1.0 note D4\n").unwrap();
    assert_eq!(f.get_version(), Some(Version { major: 1, minor: 0 }));
    assert_eq!(f.get_global_meta_value("title"), Some("Song".to_string()));
    assert_eq!(f.get_global_meta_value("artist"), None);
    assert_eq!(f.duration().unwrap().to_text(), "3.0");
    f.add_global_meta("artist".to_string(), "Me".to_string());
    assert_eq!(f.get_global_meta().len(), 2);
    assert_eq!(f.get_records().len(), 5);
}

#[test]
fn cc_forms_and_attributes() {
    let l = parse_mtxt_line("1.0 cc C4 volume 0.5 ch=2 transition_time=0.5").unwrap();
    match l.record {
        MtxtRecord::ControlChange { note, controller, channel, transition_time, .. } => {
            assert!(note.is_some());
            assert_eq!(controller, "volume");
            assert_eq!(channel, Some(2));
            assert_eq!(transition_time.unwrap().to_text(), "0.5");
        }
        other => panic!("unexpected {:?}", other),
    }
    assert!(parse_mtxt_line("1.0 cc volume").is_err());
    assert!(parse_mtxt_line("1.0 cc volume 1 dur=1").is_err());
    assert!(parse_mtxt_line("1.0 tempo 120 ch=1").is_err());
    assert!(parse_mtxt_line("1.0 note C4 bogus").is_err());
    assert!(parse_mtxt_line("1.0 sysex f0 zz").is_err());
    assert!(parse_mtxt_line("1.0 timesig 3").is_err());
    assert!(parse_mtxt_line("1.0 dance C4").is_err());
    assert!(parse_mtxt_line("hello").is_err());
}

#[test]
fn meta_lines() {
    let l = parse_mtxt_line("meta ch=3 name Lead  Synth").unwrap();
    assert_eq!(
        l.record,
        MtxtRecord::Meta { time: None, channel: Some(3), meta_type: "name".to_string(), value: "Lead Synth".to_string() }
    );
    let l = parse_mtxt_line("2.0 meta text hello").unwrap();
    assert_eq!(
        l.record,
        MtxtRecord::Meta { time: Some("2".parse().unwrap()), channel: None, meta_type: "text".to_string(), value: "hello".to_string() }
    );
    assert!(parse_mtxt_line("meta global title").is_err());
}

#[test]
fn midi_key_numbers() {
    let n = |s: &str| match parse_mtxt_line(&format!("0 note {}", s)).unwrap().record {
        MtxtRecord::Note { note: NoteTarget::Note(n), .. } => n,
        other => panic!("unexpected {:?}", other),
    };
    assert_eq!(n("C4").midi_key(), Some(60));
    assert_eq!(n("C-1").midi_key(), Some(0));
    assert_eq!(n("G9").midi_key(), Some(127));
    assert_eq!(n("G#9").midi_key(), None);
    assert_eq!(n("B-2").midi_key(), None);
}
