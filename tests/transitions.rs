use mtxt::output_record::MtxtOutputRecord;
use mtxt::parser::parse_mtxt;

fn cc_points(text: &str) -> Vec<(u64, i64)> {
    let f = parse_mtxt(text).unwrap();
    f.get_output_records()
        .iter()
        .filter_map(|r| match r {
            MtxtOutputRecord::ControlChange { time, value, .. } => Some((*time, value.units)),
            _ => None,
        })
        .collect()
}

#[test]
fn linear_ramp_is_split_into_steps() {
    let pts = cc_points("mtxt 1.0\n0 cc volume 0\n2.0 cc volume 1 transition_time=1 transition_interval=0.25\n");
    assert_eq!(
        pts,
        vec![(0, 0), (625000, 25000), (750000, 50000), (875000, 75000), (1000000, 100000)]
    );
}

#[test]
fn curve_one_squares_the_fraction() {
    let pts = cc_points(
        "mtxt 1.0\n0 cc volume 0\n2.0 cc volume 1 transition_time=1 transition_interval=0.5 transition_curve=1\n",
    );
    assert_eq!(pts, vec![(0, 0), (750000, 25000), (1000000, 100000)]);
}

#[test]
fn first_value_of_a_parameter_is_not_ramped() {
    let pts = cc_points("mtxt 1.0\n2.0 cc volume 1 transition_time=1 transition_interval=0.25\n");
    assert_eq!(pts, vec![(1000000, 100000)]);
}

#[test]
fn a_later_change_cuts_a_ramp() {
    let pts = cc_points(
        "mtxt 1.0\n0 cc volume 0\n2.0 cc volume 1 transition_time=1 transition_interval=0.25\n2.0 cc volume 0 transition_time=0.5 transition_interval=0.25\n",
    );
    // the first ramp stops before 1.5 beats; the second ramps from its last value 0.25
    assert_eq!(pts, vec![(0, 0), (625000, 25000), (875000, 12500), (1000000, 0)]);
}
