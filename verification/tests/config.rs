use midi_clock_shifter::config::{
    clamp_offset_ms, clamp_trim_ms, InputSource, OutputSettings, MAX_OFFSET_MS, MAX_TRIM_MS,
    MIN_OFFSET_MS, MIN_TRIM_MS,
};

#[test]
fn clamps_offset_range() {
    assert_eq!(clamp_offset_ms(-9000), MIN_OFFSET_MS);
    assert_eq!(clamp_offset_ms(9000), MAX_OFFSET_MS);
    assert_eq!(clamp_offset_ms(200), 200);
}

#[test]
fn clamps_trim_range() {
    assert_eq!(clamp_trim_ms(-100), MIN_TRIM_MS);
    assert_eq!(clamp_trim_ms(100), MAX_TRIM_MS);
    assert_eq!(clamp_trim_ms(10), 10);
}

#[test]
fn clamp_keeps_the_range_ends_and_is_idempotent() {
    assert_eq!(clamp_offset_ms(-4000), -4000);
    assert_eq!(clamp_offset_ms(4000), 4000);
    assert_eq!(clamp_offset_ms(i32::MIN), -4000);
    assert_eq!(clamp_offset_ms(i32::MAX), 4000);
    assert_eq!(clamp_offset_ms(clamp_offset_ms(12345)), clamp_offset_ms(12345));
    assert_eq!(clamp_trim_ms(-50), -50);
    assert_eq!(clamp_trim_ms(51), 50);
    assert_eq!(clamp_trim_ms(clamp_trim_ms(-51)), -50);
}

#[test]
fn output_settings_default_forwards_transport_and_is_disabled() {
    let s = OutputSettings::default();
    assert!(!s.enabled);
    assert_eq!(s.trim_ms, 0);
    assert!(s.forward_transport);
}

#[test]
fn input_source_defaults_to_the_virtual_input() {
    assert_eq!(InputSource::default(), InputSource::VirtualIn);
}
