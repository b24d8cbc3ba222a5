use daw_engine::automation::{AutomationCurve, CurvePoint, InterpKind, ParamTarget};

fn curve(points: Vec<CurvePoint>) -> AutomationCurve {
    AutomationCurve { target: ParamTarget::Volume, points }
}

fn pt(time: u64, value: i64, kind: InterpKind) -> CurvePoint {
    CurvePoint { time, value, kind }
}

#[test]
fn hold_before_first_point() {
    let c = curve(vec![pt(100, 5000, InterpKind::Linear), pt(200, 9000, InterpKind::Linear)]);
    assert_eq!(c.value_at(0), 5000);
    assert_eq!(c.value_at(99), 5000);
}

#[test]
fn hold_after_last_point() {
    let c = curve(vec![pt(100, 5000, InterpKind::Linear), pt(200, 9000, InterpKind::Linear)]);
    assert_eq!(c.value_at(200), 9000);
    assert_eq!(c.value_at(5000), 9000);
    assert_eq!(c.value_at(u64::MAX), 9000);
}

#[test]
fn single_point_holds_everywhere() {
    let c = curve(vec![pt(10, 777, InterpKind::Smooth)]);
    assert_eq!(c.value_at(0), 777);
    assert_eq!(c.value_at(10), 777);
    assert_eq!(c.value_at(1000), 777);
}

#[test]
fn linear_interpolation_exact() {
    let c = curve(vec![pt(100, 5000, InterpKind::Linear), pt(200, 9000, InterpKind::Linear)]);
    assert_eq!(c.value_at(100), 5000);
    assert_eq!(c.value_at(150), 7000);
    assert_eq!(c.value_at(125), 6000);
    assert_eq!(c.value_at(199), 8960);
}

#[test]
fn linear_interpolation_downward() {
    let c = curve(vec![pt(0, 1000, InterpKind::Linear), pt(100, 0, InterpKind::Linear)]);
    assert_eq!(c.value_at(50), 500);
    assert_eq!(c.value_at(75), 250);
}

#[test]
fn step_holds_left_value() {
    let c = curve(vec![pt(100, 5000, InterpKind::Step), pt(200, 9000, InterpKind::Step)]);
    assert_eq!(c.value_at(100), 5000);
    assert_eq!(c.value_at(150), 5000);
    assert_eq!(c.value_at(199), 5000);
    assert_eq!(c.value_at(200), 9000);
}

#[test]
fn smooth_midpoint_is_halfway() {
    let c = curve(vec![pt(0, 0, InterpKind::Smooth), pt(100, 32768, InterpKind::Smooth)]);
    // the cubic ease weight at the midpoint is exactly one half
    assert_eq!(c.value_at(50), 16384);
}

#[test]
fn smooth_quarter_point_exact() {
    let c = curve(vec![pt(0, 0, InterpKind::Smooth), pt(100, 32768, InterpKind::Smooth)]);
    // u = 8192/32768, weight = u^2 (3 - 2u) = 5120/32768
    assert_eq!(c.value_at(25), 5120);
}

#[test]
fn smooth_never_overshoots() {
    let c = curve(vec![pt(0, -4000, InterpKind::Smooth), pt(1000, 6000, InterpKind::Smooth)]);
    let mut t: u64 = 0;
    while t <= 1000 {
        let v = c.value_at(t);
        assert!(v >= -4000 && v <= 6000);
        t += 17;
    }
    assert_eq!(c.value_at(0), -4000);
    assert_eq!(c.value_at(1000), 6000);
}

#[test]
fn three_segments_pick_the_right_pair() {
    let c = curve(vec![
        pt(0, 0, InterpKind::Linear),
        pt(10, 100, InterpKind::Step),
        pt(20, 200, InterpKind::Linear),
        pt(30, 300, InterpKind::Linear),
    ]);
    assert_eq!(c.value_at(5), 50);
    assert_eq!(c.value_at(15), 100);
    assert_eq!(c.value_at(25), 250);
}
