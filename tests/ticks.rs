use mtxt::decimal::FixedDecimal;
use mtxt::ticks::{schedule_ticks, TickEvent, TimedEvent, MAX_DELTA};

fn ev(micros: u64, emits: bool, tempo: Option<&str>) -> TimedEvent {
    TimedEvent { micros, emits, tempo: tempo.map(|t| FixedDecimal::parse(t).unwrap()) }
}

#[test]
fn deltas_follow_the_running_tempo() {
    let out = schedule_ticks(&vec![
        ev(0, true, None),
        ev(500_000, true, Some("60")),
        ev(1_500_000, true, None),
    ]);
    assert_eq!(
        out,
        vec![
            TickEvent { delta: 0, source: Some(0) },
            TickEvent { delta: 480, source: Some(1) },
            TickEvent { delta: 480, source: Some(2) },
        ]
    );
}

#[test]
fn silent_events_pass_their_delta_on() {
    let out = schedule_ticks(&vec![ev(250_000, false, None), ev(500_000, true, None)]);
    assert_eq!(out, vec![TickEvent { delta: 480, source: Some(1) }]);
}

#[test]
fn long_gaps_get_fillers() {
    // 2^28 ticks at 120 bpm: 2^28 / 480 beats of 500000 microseconds
    let micros = (MAX_DELTA + 1 + 479) / 480 * 500_000;
    let out = schedule_ticks(&vec![ev(micros, true, None)]);
    assert_eq!(out.len(), 2);
    assert_eq!(out[0], TickEvent { delta: MAX_DELTA, source: None });
    assert_eq!(out[1].source, Some(0));
    assert_eq!(out[0].delta + out[1].delta, (micros / 500_000) * 480);
}
