use mtxt::beat_time::BeatTime;
use mtxt::decimal::FixedDecimal;
use mtxt::midi::{convert_meta_message, convert_midi_message_to_record, MetaMessage, MidiMessage, TextKind};
use mtxt::note::NoteTarget;
use mtxt::output_record::MtxtOutputRecord;
use mtxt::parser::parse_mtxt;
use mtxt::record::{MtxtRecord, VoiceList};
use mtxt::smf_export::{convert_mtxt_to_midi, record_to_track_event};
use mtxt::smf_import::{convert_smf_to_mtxt, get_midi_single_track_events, MidiTrackEvent, TrackEventKind};

fn t(s: &str) -> BeatTime {
    s.parse().unwrap()
}

fn on(delta: u32, channel: u8, key: u8, vel: u8) -> MidiTrackEvent {
    MidiTrackEvent { delta, kind: TrackEventKind::Midi { channel, message: MidiMessage::NoteOn { key, vel } } }
}

#[test]
fn note_on_with_zero_velocity_is_note_off() {
    let r = convert_midi_message_to_record(&MidiMessage::NoteOn { key: 60, vel: 0 }, 1, t("1")).unwrap();
    match r {
        MtxtRecord::NoteOff { off_velocity, channel, note, .. } => {
            assert_eq!(off_velocity, Some(FixedDecimal::zero()));
            assert_eq!(channel, Some(1));
            assert!(matches!(note, NoteTarget::Note(n) if n.octave == 4));
        }
        other => panic!("unexpected {:?}", other),
    }
}

#[test]
fn drum_channel_uses_aliases() {
    let r = convert_midi_message_to_record(&MidiMessage::NoteOn { key: 36, vel: 127 }, 9, t("0")).unwrap();
    match r {
        MtxtRecord::NoteOn { note, velocity, .. } => {
            assert_eq!(note, NoteTarget::AliasKey("bass_drum".to_string()));
            assert_eq!(velocity, Some(FixedDecimal::from_units(100000)));
        }
        other => panic!("unexpected {:?}", other),
    }
}

#[test]
fn controllers_bend_and_programs() {
    match convert_midi_message_to_record(&MidiMessage::Controller { controller: 7, value: 127 }, 0, t("0")).unwrap() {
        MtxtRecord::ControlChange { controller, .. } => assert_eq!(controller, "volume"),
        other => panic!("unexpected {:?}", other),
    }
    match convert_midi_message_to_record(&MidiMessage::Controller { controller: 3, value: 0 }, 0, t("0")).unwrap() {
        MtxtRecord::ControlChange { controller, .. } => assert_eq!(controller, "3"),
        other => panic!("unexpected {:?}", other),
    }
    match convert_midi_message_to_record(&MidiMessage::PitchBend { bend: 0 }, 0, t("0")).unwrap() {
        MtxtRecord::ControlChange { controller, value, .. } => {
            assert_eq!(controller, "pitch");
            assert_eq!(value.units, -1200000);
        }
        other => panic!("unexpected {:?}", other),
    }
    match convert_midi_message_to_record(&MidiMessage::ProgramChange { program: 5 }, 2, t("0")).unwrap() {
        MtxtRecord::Voice { voices, channel, .. } => {
            assert_eq!(voices.voices, vec!["5".to_string()]);
            assert_eq!(channel, Some(2));
        }
        other => panic!("unexpected {:?}", other),
    }
}

#[test]
fn meta_events() {
    let r = convert_meta_message(&MetaMessage::Tempo(500000), t("0"), true, None).unwrap().unwrap();
    assert!(matches!(r, MtxtRecord::Tempo { bpm, .. } if bpm.units == 12_000_000));
    assert!(convert_meta_message(&MetaMessage::Tempo(0), t("0"), true, None).is_err());
    let r = convert_meta_message(
        &MetaMessage::TextEvent { kind: TextKind::TrackName, data: b"Song\n".to_vec() },
        t("0"),
        true,
        None,
    )
    .unwrap()
    .unwrap();
    assert_eq!(r, MtxtRecord::GlobalMeta { meta_type: "title".to_string(), value: "Song\\x0a".to_string() });
    let r = convert_meta_message(&MetaMessage::TimeSignature(3, 2, 24, 8), t("1"), false, None).unwrap().unwrap();
    assert!(matches!(r, MtxtRecord::TimeSignature { signature, .. } if signature.numerator == 3 && signature.denominator == 4));
    assert!(convert_meta_message(&MetaMessage::EndOfTrack, t("1"), false, None).unwrap().is_none());
}

#[test]
fn formats_and_timing_are_checked() {
    assert!(get_midi_single_track_events(2, Some(480), &vec![]).is_err());
    assert!(get_midi_single_track_events(1, None, &vec![]).is_err());
    assert!(get_midi_single_track_events(1, Some(480), &vec![]).unwrap().is_empty());
}

#[test]
fn tracks_merge_by_time() {
    let tracks = vec![
        vec![on(480, 0, 60, 64), on(480, 0, 60, 0)],
        vec![on(240, 1, 64, 64), on(480, 1, 64, 0)],
    ];
    let lines = get_midi_single_track_events(1, Some(480), &tracks).unwrap();
    let times: Vec<String> = lines.iter().map(|l| l.record.time().unwrap().to_text()).collect();
    assert_eq!(times, vec!["0.5", "1.0", "1.5", "2.0"]);
}

#[test]
fn smf_import_merges_notes_and_defines_drums() {
    let tracks = vec![vec![on(0, 9, 38, 100), on(480, 9, 38, 0), on(0, 0, 60, 100), on(960, 0, 60, 0)]];
    let f = convert_smf_to_mtxt(0, Some(480), &tracks).unwrap();
    let text = f.to_text();
    assert!(text.starts_with("mtxt 1.0\nalias snare D2\n"), "{}", text);
    assert!(text.contains("0.0 note snare dur=1.0"), "{}", text);
    assert!(text.contains("1.0 note C4 dur=2.0"), "{}", text);
}

#[test]
fn track_events_check_ranges() {
    let note = mtxt::note::Note { pitch_class: mtxt::note::PitchClass::C, octave: 4, cents: FixedDecimal::zero() };
    let bad = MtxtOutputRecord::NoteOn { time: 0, note, velocity: FixedDecimal::zero(), channel: 16 };
    assert!(record_to_track_event(&bad, 0).is_err());
    let reset = MtxtOutputRecord::Reset { time: 0, target: "all".to_string() };
    assert!(record_to_track_event(&reset, 3).unwrap().is_none());
    let voice = MtxtOutputRecord::Voice { time: 0, voices: VoiceList { voices: vec!["200".to_string()] }, channel: 0 };
    assert!(record_to_track_event(&voice, 0).is_err());
    let voice = MtxtOutputRecord::Voice { time: 0, voices: VoiceList { voices: vec!["piano".to_string(), "5".to_string()] }, channel: 0 };
    let e = record_to_track_event(&voice, 7).unwrap().unwrap();
    assert_eq!(e.delta, 7);
    assert!(matches!(e.kind, TrackEventKind::Midi { channel: 0, message: MidiMessage::ProgramChange { program: 5 } }));
    let cc = MtxtOutputRecord::ControlChange { time: 0, note: None, controller: "bogus".to_string(), value: FixedDecimal::zero(), channel: 0 };
    assert!(record_to_track_event(&cc, 0).is_err());
}

#[test]
fn written_file_shape() {
    let f = parse_mtxt("mtxt 1.0\n1.0 note C4 dur=0.5\n").unwrap();
    let m = convert_mtxt_to_midi(&f).unwrap();
    assert_eq!(m.format, 0);
    assert_eq!(m.ppqn, 480);
    assert_eq!(m.tracks.len(), 1);
    let track = &m.tracks[0];
    assert_eq!(track.len(), 3);
    assert_eq!(track[0].delta, 480);
    assert_eq!(track[1].delta, 240);
    assert!(matches!(track[2].kind, TrackEventKind::Meta(MetaMessage::EndOfTrack)));
}

#[test]
fn midi_round_trip_keeps_timing() {
    let text = "mtxt 1.0\n0 tempo 90\n1.0 note C4 dur=0.5 vel=0.5 ch=1\n2.25 note E4 dur=1 ch=2\n3.0 tempo 150\n4.1 note G4 dur=0.33 ch=1\n";
    let f = parse_mtxt(text).unwrap();
    let m = convert_mtxt_to_midi(&f).unwrap();
    let back = convert_smf_to_mtxt(m.format, Some(m.ppqn), &m.tracks).unwrap();
    let notes: Vec<(u64, u64)> = back
        .records
        .iter()
        .filter_map(|l| match &l.record {
            MtxtRecord::Note { time, duration, .. } => Some((time.repr, duration.unwrap().repr)),
            _ => None,
        })
        .collect();
    let expect = [("1.0", "0.5"), ("2.25", "1.0"), ("4.1", "0.33")];
    assert_eq!(notes.len(), 3);
    let tick = (1u64 << 32) / 480 + 1;
    for ((a, d), (et, ed)) in notes.iter().zip(expect.iter()) {
        assert!(a.abs_diff(t(et).repr) <= tick, "{} vs {}", a, et);
        assert!(d.abs_diff(t(ed).repr) <= 2 * tick, "{} vs {}", d, ed);
    }
}

#[test]
fn meta_routing_follows_track_channel() {
    let name = MetaMessage::TextEvent { kind: TextKind::TrackName, data: b"Bass".to_vec() };
    let r = convert_meta_message(&name, t("0"), true, Some(2)).unwrap().unwrap();
    assert_eq!(
        r,
        MtxtRecord::Meta { time: Some(t("0")), channel: Some(2), meta_type: "name".to_string(), value: "Bass".to_string() }
    );
    let r = convert_meta_message(&name, t("0"), false, None).unwrap().unwrap();
    assert_eq!(r, MtxtRecord::GlobalMeta { meta_type: "text".to_string(), value: "Bass".to_string() });
    let text = MetaMessage::TextEvent { kind: TextKind::Text, data: b"hi".to_vec() };
    assert_eq!(
        convert_meta_message(&text, t("1"), false, None).unwrap().unwrap(),
        MtxtRecord::GlobalMeta { meta_type: "text".to_string(), value: "hi".to_string() }
    );
    let lyric = MetaMessage::TextEvent { kind: TextKind::Lyric, data: b"la".to_vec() };
    assert_eq!(
        convert_meta_message(&lyric, t("1"), false, Some(3)).unwrap().unwrap(),
        MtxtRecord::Meta { time: Some(t("1")), channel: Some(3), meta_type: "lyric".to_string(), value: "la".to_string() }
    );
    let device = MetaMessage::TextEvent { kind: TextKind::DeviceName, data: b"synth".to_vec() };
    assert_eq!(
        convert_meta_message(&device, t("1"), false, Some(3)).unwrap().unwrap(),
        MtxtRecord::GlobalMeta { meta_type: "device".to_string(), value: "synth".to_string() }
    );
}

#[test]
fn key_signatures_smpte_and_raw_metas() {
    assert_eq!(
        convert_meta_message(&MetaMessage::KeySignature(1, false), t("0"), true, None).unwrap().unwrap(),
        MtxtRecord::GlobalMeta { meta_type: "key".to_string(), value: "G".to_string() }
    );
    assert_eq!(
        convert_meta_message(&MetaMessage::KeySignature(-3, true), t("2"), true, Some(1)).unwrap().unwrap(),
        MtxtRecord::Meta { time: Some(t("2")), channel: None, meta_type: "keysignature".to_string(), value: "Cm".to_string() }
    );
    let smpte = MetaMessage::SmpteOffset { hour: 1, minute: 2, second: 30, frame: 4, subframe: 0, fps: 25 };
    assert_eq!(
        convert_meta_message(&smpte, t("0"), true, None).unwrap().unwrap(),
        MtxtRecord::GlobalMeta { meta_type: "smpte".to_string(), value: "01:02:30:04".to_string() }
    );
    assert_eq!(
        convert_meta_message(&MetaMessage::SequencerSpecific(vec![0x0a, 0xff]), t("1"), true, Some(1)).unwrap().unwrap(),
        MtxtRecord::Meta { time: Some(t("1")), channel: None, meta_type: "sequencerspecific".to_string(), value: "0AFF".to_string() }
    );
    assert_eq!(
        convert_meta_message(&MetaMessage::Unknown(0x7e, vec![1]), t("1"), true, None).unwrap().unwrap(),
        MtxtRecord::Meta { time: Some(t("1")), channel: None, meta_type: "unknown_7E".to_string(), value: "01".to_string() }
    );
}

#[test]
fn note_velocity_is_truncated() {
    let note = mtxt::note::Note { pitch_class: mtxt::note::PitchClass::C, octave: 4, cents: FixedDecimal::zero() };
    let r = MtxtOutputRecord::NoteOn { time: 0, note, velocity: FixedDecimal::from_units(50000), channel: 0 };
    let e = record_to_track_event(&r, 0).unwrap().unwrap();
    assert!(matches!(e.kind, TrackEventKind::Midi { message: MidiMessage::NoteOn { key: 60, vel: 63 }, .. }));
}

#[test]
fn escape_events_become_comments() {
    let tracks = vec![vec![MidiTrackEvent { delta: 0, kind: TrackEventKind::Escape(vec![0xf7, 0x01]) }]];
    let lines = get_midi_single_track_events(0, Some(480), &tracks).unwrap();
    assert_eq!(lines.len(), 1);
    assert_eq!(lines[0].record, MtxtRecord::EmptyLine);
    assert_eq!(lines[0].comment, Some("Escape sequence: f7 01".to_string()));
}
