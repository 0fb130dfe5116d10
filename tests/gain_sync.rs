use gain_sync::codec::{format_gain, parse_captured_gain, parse_gain};
use gain_sync::controller::{change_gain, update_gain, ControllerState};
use gain_sync::error::GainError;
use gain_sync::gain::{clamp_gain, different_gain, round_to_tenths, Gain, GAIN_MAX, GAIN_MIN};
use gain_sync::keys::{classify, KeyAction, EV_KEY, VOLUME_DOWN_KEY, VOLUME_UP_KEY};

fn g(hundredths: i64) -> Gain {
    Gain { hundredths }
}

#[test]
fn clamp_keeps_values_in_range() {
    assert_eq!(clamp_gain(g(-2000)), g(-2000));
    assert_eq!(clamp_gain(g(GAIN_MIN)), g(GAIN_MIN));
    assert_eq!(clamp_gain(g(GAIN_MAX)), g(GAIN_MAX));
}

#[test]
fn clamp_saturates_values_outside() {
    assert_eq!(clamp_gain(g(200)), g(0));
    assert_eq!(clamp_gain(g(-12800)), g(-12700));
    assert_eq!(clamp_gain(g(i64::MAX)), g(0));
    assert_eq!(clamp_gain(g(i64::MIN)), g(-12700));
}

#[test]
fn differs_is_irreflexive_and_symmetric() {
    for h in [-12700, -1234, -5, 0, 7, i64::MIN, i64::MAX] {
        assert!(!different_gain(g(h), g(h)));
    }
    assert!(different_gain(g(-1000), g(0)));
    assert!(different_gain(g(0), g(-1000)));
    assert_eq!(different_gain(g(-1234), g(-1236)), different_gain(g(-1236), g(-1234)));
}

#[test]
fn differs_compares_at_one_tenth() {
    assert!(!different_gain(g(-1234), g(-1230)));
    assert!(different_gain(g(-1235), g(-1230)));
    assert!(!different_gain(g(4), g(0)));
    assert!(!different_gain(g(-4), g(0)));
    assert!(different_gain(g(5), g(0)));
}

#[test]
fn rounding_goes_half_away_from_zero() {
    assert_eq!(round_to_tenths(-1235), -124);
    assert_eq!(round_to_tenths(1235), 124);
    assert_eq!(round_to_tenths(-1234), -123);
    assert_eq!(round_to_tenths(i64::MAX), 922337203685477581);
}

#[test]
fn format_writes_one_fractional_digit() {
    assert_eq!(format_gain(g(-1230)), "-12.3");
    assert_eq!(format_gain(g(-1235)), "-12.4");
    assert_eq!(format_gain(g(0)), "0.0");
    assert_eq!(format_gain(g(-4)), "0.0");
    assert_eq!(format_gain(g(-12700)), "-127.0");
    assert_eq!(format_gain(g(1710)), "17.1");
}

#[test]
fn parse_reads_controller_output() {
    let out = "MasterStatus { preset: 0, source: Toslink, volume: Gain(-8.0), mute: false }";
    assert_eq!(parse_gain(out), Ok(g(-800)));
    assert_eq!(parse_gain("Gain(-12.5)"), Ok(g(-1250)));
    assert_eq!(parse_gain("Gain(0)"), Ok(g(0)));
}

#[test]
fn parse_rejects_output_without_gain() {
    assert_eq!(parse_gain("MasterStatus { mute: false }"), Err(GainError::ProtocolParse));
    assert_eq!(parse_gain(""), Err(GainError::ProtocolParse));
    assert_eq!(parse_gain("Gain(abc)"), Err(GainError::ProtocolParse));
    assert_eq!(parse_gain("Gain(--5)"), Err(GainError::ProtocolParse));
}

#[test]
fn parse_captured_number_grammar() {
    assert_eq!(parse_captured_gain("-12.3"), Ok(g(-1230)));
    assert_eq!(parse_captured_gain("5."), Ok(g(500)));
    assert_eq!(parse_captured_gain(".5"), Ok(g(50)));
    assert_eq!(parse_captured_gain("-0.25"), Ok(g(-25)));
    assert_eq!(parse_captured_gain("1.239"), Ok(g(123)));
    assert_eq!(parse_captured_gain(""), Err(GainError::ProtocolParse));
    assert_eq!(parse_captured_gain("-"), Err(GainError::ProtocolParse));
    assert_eq!(parse_captured_gain("."), Err(GainError::ProtocolParse));
    assert_eq!(parse_captured_gain("--5"), Err(GainError::ProtocolParse));
    assert_eq!(parse_captured_gain("1.2.3"), Err(GainError::ProtocolParse));
    assert_eq!(parse_captured_gain("1..2"), Err(GainError::ProtocolParse));
}

#[test]
fn parse_captured_number_bounds() {
    assert_eq!(parse_captured_gain("92233720368547758.07"), Ok(g(i64::MAX)));
    assert_eq!(parse_captured_gain("-92233720368547758.08"), Ok(g(i64::MIN)));
    assert_eq!(parse_captured_gain("92233720368547758.08"), Err(GainError::ProtocolParse));
    assert_eq!(parse_captured_gain("100000000000000000000"), Err(GainError::ProtocolParse));
}

#[test]
fn format_then_parse_rounds_to_tenths() {
    for h in [-12700, -1234, -1235, -1, 0, -650, -12649] {
        let text = format_gain(g(h));
        let expected = g(round_to_tenths(h) * 10);
        assert_eq!(parse_captured_gain(&text), Ok(expected));
        assert_eq!(parse_gain(&format!("Gain({})", text)), Ok(expected));
    }
}

#[test]
fn first_observation_becomes_baseline() {
    let mut s = ControllerState::new();
    assert!(!s.known);
    assert_eq!(s.observe(g(-5000)), None);
    assert_eq!(s, ControllerState { known: true, baseline: g(-5000) });
}

#[test]
fn scaled_correction_is_clamped_and_sent() {
    let mut s = ControllerState { known: true, baseline: g(-1000) };
    let cmd = s.observe(g(-800));
    assert_eq!(cmd, Some(g(0)));
    assert_eq!(format_gain(cmd.unwrap()), "0.0");
    assert!(!s.known);
    assert_eq!(s.baseline, g(-1000));
}

#[test]
fn unchanged_observation_sends_nothing() {
    let mut s = ControllerState { known: true, baseline: g(-5000) };
    assert_eq!(s.observe(g(-5000)), None);
    assert_eq!(s, ControllerState { known: true, baseline: g(-5000) });
    assert_eq!(s.observe(g(-5000)), None);
    assert_eq!(s, ControllerState { known: true, baseline: g(-5000) });
}

#[test]
fn scaled_correction_within_range() {
    assert_eq!(update_gain(g(-3000), g(-2900)), Some(g(-2400)));
    assert_eq!(update_gain(g(-3000), g(-3100)), Some(g(-3600)));
    assert_eq!(update_gain(g(-100), g(-12700)), Some(g(-12700)));
    assert_eq!(update_gain(g(0), g(100)), None);
}

#[test]
fn offset_raises_gain() {
    let cmd = change_gain(g(-2000), true);
    assert_eq!(cmd, Some(g(-1700)));
    assert_eq!(format_gain(cmd.unwrap()), "-17.0");
}

#[test]
fn offset_clamps_at_upper_bound() {
    let cmd = change_gain(g(-100), true);
    assert_eq!(cmd, Some(g(0)));
    assert_eq!(format_gain(cmd.unwrap()), "0.0");
    assert!(different_gain(g(-100), g(0)));
}

#[test]
fn offset_lowers_gain_and_stops_at_bounds() {
    assert_eq!(change_gain(g(-2000), false), Some(g(-2300)));
    assert_eq!(change_gain(g(-12600), false), Some(g(-12700)));
    assert_eq!(change_gain(g(-12700), false), None);
    assert_eq!(change_gain(g(0), true), None);
}

#[test]
fn classify_volume_keys() {
    assert_eq!(classify(EV_KEY, VOLUME_UP_KEY, 1), KeyAction::VolumeUp);
    assert_eq!(classify(EV_KEY, VOLUME_DOWN_KEY, 1), KeyAction::VolumeDown);
    assert_eq!(classify(EV_KEY, VOLUME_UP_KEY, 0), KeyAction::Other);
    assert_eq!(classify(EV_KEY, VOLUME_DOWN_KEY, 2), KeyAction::Other);
    assert_eq!(classify(EV_KEY, 30, 1), KeyAction::Other);
    assert_eq!(classify(0, VOLUME_UP_KEY, 1), KeyAction::Other);
}
