use midi_params::apply;
use midi_params::choose_port;
use midi_params::contains_ignore_ascii_case;
use midi_params::normalized_from_midi;
use midi_params::parse_control_change;
use midi_params::ControlType;
use midi_params::MidiController;
use midi_params::MidiError;
use midi_params::MidiMapping;
use midi_params::ParamSet;
use midi_params::ParamValue;
use midi_params::NORM_ONE;

fn s(x: &str) -> String {
    x.to_string()
}

#[test]
fn scale_range_endpoints_and_midpoint() {
    let m = MidiMapping::range(Some(16), s("speed"), 0, 10_000_000);
    assert_eq!(m.scale_value(0), 0);
    assert_eq!(m.scale_value(NORM_ONE), 10_000_000);
    assert_eq!(m.scale_value(500_000), 5_000_000);
}

#[test]
fn scale_range_negative_span() {
    let m = MidiMapping::range(None, s("pan"), -1_000_000, 1_000_000);
    assert_eq!(m.scale_value(0), -1_000_000);
    assert_eq!(m.scale_value(NORM_ONE), 1_000_000);
    assert_eq!(m.scale_value(500_000), 0);
    assert_eq!(m.scale_value(250_000), -500_000);
}

#[test]
fn scale_button_threshold() {
    let m = MidiMapping::button(Some(24), s("debug"));
    assert_eq!(m.scale_value(0), 0);
    assert_eq!(m.scale_value(500_000), 0);
    assert_eq!(m.scale_value(500_001), NORM_ONE as i64);
    assert_eq!(m.scale_value(NORM_ONE), NORM_ONE as i64);
}

#[test]
fn mapping_constructors() {
    let r = MidiMapping::range(Some(3), s("a"), 1, 2);
    assert_eq!(r.cc, Some(3));
    assert!(r.has_midi_control());
    assert_eq!(r.control_type, ControlType::Range { min: 1, max: 2 });
    let p = MidiMapping::persist_range(s("b"), 1, 2);
    assert_eq!(p.cc, None);
    assert!(!p.has_midi_control());
    let b = MidiMapping::persist_button(s("c"));
    assert_eq!(b.control_type, ControlType::Button);
    assert_eq!(b.cc, None);
}

#[test]
fn store_default_and_clamp() {
    let mut ctrl = MidiController::new(None, None);
    assert_eq!(ctrl.get_value(100), 0);
    ctrl.ingest(100, 2 * NORM_ONE);
    assert_eq!(ctrl.get_value(100), NORM_ONE);
    ctrl.ingest(100, 123);
    assert_eq!(ctrl.get_value(100), 123);
}

#[test]
fn store_scaled_lookup() {
    let mut ctrl = MidiController::new(None, None);
    assert_eq!(ctrl.get_scaled_value(16), None);
    ctrl.register_mapping(MidiMapping::range(Some(16), s("speed"), 0, 10_000_000));
    assert_eq!(ctrl.get_scaled_value(16), Some(0));
    ctrl.ingest(16, 500_000);
    assert_eq!(ctrl.get_scaled_value(16), Some(5_000_000));
}

#[test]
fn store_last_registration_wins() {
    let mut ctrl = MidiController::new(None, None);
    ctrl.ingest(7, 900_000);
    ctrl.register_mapping(MidiMapping::range(Some(7), s("first"), 0, 1_000_000));
    ctrl.register_mapping(MidiMapping::range(Some(7), s("second"), 0, 2_000_000));
    let slot = ctrl.get_mappings()[7].as_ref().unwrap();
    assert_eq!(slot.field_name, "second");
    // Registration re-initializes the slot's value to zero.
    assert_eq!(ctrl.get_value(7), 0);
}

#[test]
fn store_type_names_kept_once() {
    let mut ctrl = MidiController::new(None, None);
    ctrl.register_type(s("GameSettings"));
    ctrl.register_type(s("GameSettings"));
    ctrl.register_type(s("AudioSettings"));
    assert_eq!(ctrl.number_of_registered_types(), 2);
}

#[test]
fn store_default_persist_path() {
    let ctrl = MidiController::new(None, None);
    assert_eq!(ctrl.persist_path(), "midi_settings.ron");
    let ctrl2 = MidiController::new(Some(s("game.ron")), None);
    assert_eq!(ctrl2.persist_path(), "game.ron");
}

#[test]
fn range_apply_concrete_scenario() {
    // Mapping 0.0..10.0 on control id 16; ingest (16, 0.5); the field
    // becomes 5.0 and the pass reports a change.
    let mut params = ParamSet::new();
    assert!(params.add_field(s("speed"), ParamValue::Num(0)));
    let table = vec![MidiMapping::range(Some(16), s("speed"), 0, 10_000_000)];
    let mut ctrl = MidiController::new(None, None);
    ctrl.register_mapping(MidiMapping::range(Some(16), s("speed"), 0, 10_000_000));
    ctrl.ingest(16, 500_000);
    let changed = apply(&mut params, &table, &mut ctrl);
    assert!(changed);
    assert_eq!(params.get(&s("speed")), Some(ParamValue::Num(5_000_000)));
}

#[test]
fn range_apply_identical_resend_is_quiet() {
    let mut params = ParamSet::new();
    assert!(params.add_field(s("speed"), ParamValue::Num(0)));
    let table = vec![MidiMapping::range(Some(16), s("speed"), 0, 10_000_000)];
    let mut ctrl = MidiController::new(None, None);
    ctrl.ingest(16, 250_000);
    assert!(apply(&mut params, &table, &mut ctrl));
    // Resending the same value changes nothing.
    ctrl.ingest(16, 250_000);
    assert!(!apply(&mut params, &table, &mut ctrl));
    assert_eq!(params.get(&s("speed")), Some(ParamValue::Num(2_500_000)));
}

#[test]
fn toggle_apply_concrete_scenario() {
    // Toggle on control id 24, field starts false; ingest (24, 0.8); the
    // field flips to true and the pass reports a change. A second pass
    // with no new sample reports no change: the engine tracks that it has
    // acted on the sample.
    let mut params = ParamSet::new();
    assert!(params.add_field(s("debug"), ParamValue::Bool(false)));
    let table = vec![MidiMapping::button(Some(24), s("debug"))];
    let mut ctrl = MidiController::new(None, None);
    ctrl.ingest(24, 800_000);
    let changed = apply(&mut params, &table, &mut ctrl);
    assert!(changed);
    assert_eq!(params.get(&s("debug")), Some(ParamValue::Bool(true)));
    let changed_again = apply(&mut params, &table, &mut ctrl);
    assert!(!changed_again);
    assert_eq!(params.get(&s("debug")), Some(ParamValue::Bool(true)));
}

#[test]
fn toggle_below_threshold_never_flips() {
    let mut params = ParamSet::new();
    assert!(params.add_field(s("debug"), ParamValue::Bool(false)));
    let table = vec![MidiMapping::button(Some(24), s("debug"))];
    let mut ctrl = MidiController::new(None, None);
    ctrl.ingest(24, 500_000);
    assert!(!apply(&mut params, &table, &mut ctrl));
    assert_eq!(params.get(&s("debug")), Some(ParamValue::Bool(false)));
    ctrl.ingest(24, 100_000);
    assert!(!apply(&mut params, &table, &mut ctrl));
    assert_eq!(params.get(&s("debug")), Some(ParamValue::Bool(false)));
}

#[test]
fn toggle_fresh_press_flips_again() {
    let mut params = ParamSet::new();
    assert!(params.add_field(s("debug"), ParamValue::Bool(false)));
    let table = vec![MidiMapping::button(Some(24), s("debug"))];
    let mut ctrl = MidiController::new(None, None);
    ctrl.ingest(24, 800_000);
    assert!(apply(&mut params, &table, &mut ctrl));
    ctrl.ingest(24, 900_000);
    assert!(apply(&mut params, &table, &mut ctrl));
    assert_eq!(params.get(&s("debug")), Some(ParamValue::Bool(false)));
}

#[test]
fn apply_twice_unchanged_store_is_idempotent() {
    // A mixed table: the second pass over an unchanged store reports no
    // change and leaves every field as the first pass left it.
    let mut params = ParamSet::new();
    assert!(params.add_field(s("speed"), ParamValue::Num(0)));
    assert!(params.add_field(s("debug"), ParamValue::Bool(false)));
    assert!(params.add_field(s("unmapped"), ParamValue::Num(42)));
    let table = vec![
        MidiMapping::range(Some(16), s("speed"), 0, 10_000_000),
        MidiMapping::button(Some(24), s("debug")),
    ];
    let mut ctrl = MidiController::new(None, None);
    ctrl.ingest(16, 700_000);
    ctrl.ingest(24, 900_000);
    assert!(apply(&mut params, &table, &mut ctrl));
    let speed = params.get(&s("speed"));
    let debug = params.get(&s("debug"));
    assert!(!apply(&mut params, &table, &mut ctrl));
    assert_eq!(params.get(&s("speed")), speed);
    assert_eq!(params.get(&s("debug")), debug);
    // The field with no mapping was untouched by both passes.
    assert_eq!(params.get(&s("unmapped")), Some(ParamValue::Num(42)));
}

#[test]
fn persist_only_mapping_is_never_driven() {
    let mut params = ParamSet::new();
    assert!(params.add_field(s("gain"), ParamValue::Num(123)));
    let table = vec![MidiMapping::persist_range(s("gain"), 0, 10_000_000)];
    let mut ctrl = MidiController::new(None, None);
    ctrl.ingest(0, 999_999);
    assert!(!apply(&mut params, &table, &mut ctrl));
    assert_eq!(params.get(&s("gain")), Some(ParamValue::Num(123)));
}

#[test]
fn param_set_edits() {
    let mut params = ParamSet::new();
    assert_eq!(params.len(), 0);
    assert!(params.add_field(s("a"), ParamValue::Num(1)));
    assert!(!params.add_field(s("a"), ParamValue::Num(2)));
    assert_eq!(params.len(), 1);
    assert!(params.set_existing(&s("a"), ParamValue::Num(5)));
    assert_eq!(params.get(&s("a")), Some(ParamValue::Num(5)));
    // Kind mismatch and unknown names change nothing.
    assert!(!params.set_existing(&s("a"), ParamValue::Bool(true)));
    assert!(!params.set_existing(&s("b"), ParamValue::Num(9)));
    assert_eq!(params.get(&s("a")), Some(ParamValue::Num(5)));
    assert_eq!(params.get(&s("b")), None);
}

#[test]
fn normalized_from_seven_bit_values() {
    assert_eq!(normalized_from_midi(0), 0);
    assert_eq!(normalized_from_midi(127), NORM_ONE);
    // 64 * 1_000_000 / 127, rounded down.
    assert_eq!(normalized_from_midi(64), 503_937);
    // Out-of-protocol bytes saturate.
    assert_eq!(normalized_from_midi(200), NORM_ONE);
}

#[test]
fn parse_control_change_messages() {
    assert_eq!(parse_control_change(&[0xB0, 16, 64]), Some((16, 64)));
    assert_eq!(parse_control_change(&[0xB0, 16, 64, 99]), Some((16, 64)));
    assert_eq!(parse_control_change(&[0x90, 60, 100]), None);
    assert_eq!(parse_control_change(&[0xB0, 16]), None);
    assert_eq!(parse_control_change(&[]), None);
}

#[test]
fn substring_search_ignores_ascii_case() {
    assert!(contains_ignore_ascii_case(b"Arturia MiniLab mkII", b"minilab"));
    assert!(contains_ignore_ascii_case(b"abc", b""));
    assert!(contains_ignore_ascii_case(b"abc", b"ABC"));
    assert!(!contains_ignore_ascii_case(b"abc", b"abcd"));
    assert!(!contains_ignore_ascii_case(b"launchpad", b"minilab"));
}

#[test]
fn port_choice_prefers_matching_name() {
    let names = vec![s("Through Port"), s("AKAI MIDImix"), s("nanoKONTROL")];
    assert_eq!(choose_port(&names, &Some(s("midimix"))), Some(1));
    assert_eq!(choose_port(&names, &Some(s("missing"))), Some(0));
    assert_eq!(choose_port(&names, &None), Some(0));
    assert_eq!(choose_port(&Vec::new(), &Some(s("midimix"))), None);
    assert_eq!(choose_port(&Vec::new(), &None), None);
}

#[test]
fn error_variants_exist() {
    let errs = vec![
        MidiError::NoInputPorts,
        MidiError::ConnectionFailed(s("no device answered")),
        MidiError::PersistenceError(s("disk full")),
        MidiError::InvalidMapping(s("inverted range")),
    ];
    assert!(matches!(errs[0], MidiError::NoInputPorts));
    assert!(matches!(errs[1], MidiError::ConnectionFailed(_)));
    assert!(matches!(errs[2], MidiError::PersistenceError(_)));
    assert!(matches!(errs[3], MidiError::InvalidMapping(_)));
}
