use midi_params::from_load_outcome;
use midi_params::register_midi_control;
use midi_params::ControlType;
use midi_params::LoadOutcome;
use midi_params::MidiController;
use midi_params::MidiError;
use midi_params::MidiMapping;
use midi_params::MidiPersistFile;
use midi_params::ParamSet;
use midi_params::ParamValue;
use midi_params::PersistData;
use midi_params::PersistenceController;
use midi_params::Registry;

fn s(x: &str) -> String {
    x.to_string()
}

#[test]
fn document_insert_and_typed_get() {
    let mut d = PersistData::new();
    d.insert(s("speed"), ParamValue::Num(5_000_000));
    d.insert(s("debug"), ParamValue::Bool(true));
    assert_eq!(d.get(&s("speed")), Some(ParamValue::Num(5_000_000)));
    assert_eq!(d.get_num(&s("speed")), Some(5_000_000));
    // A field holding the other kind of scalar reads as missing, not as an
    // error for the whole document.
    assert_eq!(d.get_bool(&s("speed")), None);
    assert_eq!(d.get_bool(&s("debug")), Some(true));
    assert_eq!(d.get_num(&s("debug")), None);
    assert_eq!(d.get(&s("absent")), None);
    // Insert overwrites per key.
    d.insert(s("speed"), ParamValue::Num(1));
    assert_eq!(d.get_num(&s("speed")), Some(1));
    assert_eq!(d.get_bool(&s("debug")), Some(true));
}

#[test]
fn document_round_trip_restores_params() {
    let mut p = ParamSet::new();
    assert!(p.add_field(s("speed"), ParamValue::Num(5_500_000)));
    assert!(p.add_field(s("debug"), ParamValue::Bool(true)));
    assert!(p.add_field(s("gain"), ParamValue::Num(-250_000)));
    let doc = p.to_persist_data();
    // Disturb the live values, then seed back from the document.
    assert!(p.set_existing(&s("speed"), ParamValue::Num(0)));
    assert!(p.set_existing(&s("debug"), ParamValue::Bool(false)));
    assert!(p.set_existing(&s("gain"), ParamValue::Num(0)));
    p.from_persist_data(&doc);
    assert_eq!(p.get(&s("speed")), Some(ParamValue::Num(5_500_000)));
    assert_eq!(p.get(&s("debug")), Some(ParamValue::Bool(true)));
    assert_eq!(p.get(&s("gain")), Some(ParamValue::Num(-250_000)));
}

#[test]
fn seeding_skips_missing_and_corrupt_fields() {
    let mut p = ParamSet::new();
    assert!(p.add_field(s("speed"), ParamValue::Num(1)));
    assert!(p.add_field(s("debug"), ParamValue::Bool(false)));
    assert!(p.add_field(s("extra"), ParamValue::Num(7)));
    let mut doc = PersistData::new();
    doc.insert(s("speed"), ParamValue::Num(9));
    // Wrong kind for this field: ignored.
    doc.insert(s("debug"), ParamValue::Num(1));
    // No entry at all for "extra": kept at its current value.
    p.from_persist_data(&doc);
    assert_eq!(p.get(&s("speed")), Some(ParamValue::Num(9)));
    assert_eq!(p.get(&s("debug")), Some(ParamValue::Bool(false)));
    assert_eq!(p.get(&s("extra")), Some(ParamValue::Num(7)));
}

#[test]
fn file_merge_keeps_other_types() {
    let mut file = MidiPersistFile::new();
    let mut doc_a = PersistData::new();
    doc_a.insert(s("speed"), ParamValue::Num(5));
    let mut doc_b = PersistData::new();
    doc_b.insert(s("volume"), ParamValue::Num(11));
    file.set_type_data(s("TypeA"), doc_a);
    file.set_type_data(s("TypeB"), doc_b);
    // Writing A again must not disturb B.
    let mut doc_a2 = PersistData::new();
    doc_a2.insert(s("speed"), ParamValue::Num(6));
    file.set_type_data(s("TypeA"), doc_a2);
    let b = file.get_type_data(&s("TypeB")).unwrap();
    assert_eq!(b.get_num(&s("volume")), Some(11));
    let a = file.get_type_data(&s("TypeA")).unwrap();
    assert_eq!(a.get_num(&s("speed")), Some(6));
    assert_eq!(file.get_type_data(&s("TypeC")).map(|_| ()), None);
}

#[test]
fn missing_file_loads_as_empty() {
    let loaded = from_load_outcome(LoadOutcome::Missing);
    let file = loaded.expect("a missing file is not an error");
    assert!(file.get_type_data(&s("Anything")).is_none());
    assert_eq!(file.version, "0.1.0");
}

#[test]
fn unreadable_and_malformed_files_are_errors() {
    match from_load_outcome(LoadOutcome::Unreadable(s("permission denied"))) {
        Err(MidiError::PersistenceError(m)) => assert_eq!(m, "permission denied"),
        _ => panic!("expected a persistence error"),
    }
    match from_load_outcome(LoadOutcome::Malformed(s("bad token at line 3"))) {
        Err(MidiError::PersistenceError(m)) => assert_eq!(m, "bad token at line 3"),
        _ => panic!("expected a persistence error"),
    }
}

#[test]
fn loaded_file_passes_through() {
    let mut file = MidiPersistFile::new();
    let mut doc = PersistData::new();
    doc.insert(s("speed"), ParamValue::Num(3));
    file.set_type_data(s("TypeA"), doc);
    let back = from_load_outcome(LoadOutcome::Loaded(file)).unwrap();
    assert_eq!(back.get_type_data(&s("TypeA")).unwrap().get_num(&s("speed")), Some(3));
}

#[test]
fn prepare_save_touches_only_the_timestamp() {
    let mut file = MidiPersistFile::new();
    let mut doc = PersistData::new();
    doc.insert(s("speed"), ParamValue::Num(3));
    file.set_type_data(s("TypeA"), doc);
    let version_before = file.version.clone();
    file.prepare_save();
    assert_eq!(file.version, version_before);
    assert_eq!(file.get_type_data(&s("TypeA")).unwrap().get_num(&s("speed")), Some(3));
}

#[test]
fn persistence_controller_paths_and_types() {
    let c = PersistenceController::new(None);
    assert_eq!(c.persist_path(), "params.ron");
    let mut c2 = PersistenceController::new(Some(s("my/settings.json")));
    assert_eq!(c2.persist_path(), "my/settings.json");
    c2.register_type(s("TypeA"));
    c2.register_type(s("TypeA"));
    c2.register_type(s("TypeB"));
    assert_eq!(c2.registered_types.len(), 2);
}

#[test]
fn registration_rejects_inverted_range() {
    let mut reg = Registry::new();
    let bad = MidiMapping {
        cc: Some(1),
        field_name: s("speed"),
        control_type: ControlType::Range { min: 5_000_000, max: 1_000_000 },
        min_value: 5_000_000,
        max_value: 1_000_000,
    };
    let r = reg.register_type(s("TypeA"), vec![bad], ParamSet::new());
    assert!(matches!(r, Err(MidiError::InvalidMapping(_))));
    assert_eq!(reg.len(), 0);
}

#[test]
fn registration_rejects_clashing_tables() {
    let mut reg = Registry::new();
    // Two mappings driving one field.
    let r = reg.register_type(
        s("TypeA"),
        vec![
            MidiMapping::range(Some(1), s("speed"), 0, 1_000_000),
            MidiMapping::range(Some(2), s("speed"), 0, 2_000_000),
        ],
        ParamSet::new(),
    );
    assert!(matches!(r, Err(MidiError::InvalidMapping(_))));
    // Two live mappings sharing one control id.
    let r2 = reg.register_type(
        s("TypeA"),
        vec![
            MidiMapping::range(Some(1), s("speed"), 0, 1_000_000),
            MidiMapping::button(Some(1), s("debug")),
        ],
        ParamSet::new(),
    );
    assert!(matches!(r2, Err(MidiError::InvalidMapping(_))));
    assert_eq!(reg.len(), 0);
}

#[test]
fn registration_keeps_first_entry_per_name() {
    let mut reg = Registry::new();
    let mut p1 = ParamSet::new();
    assert!(p1.add_field(s("speed"), ParamValue::Num(1)));
    assert!(reg.register_type(s("TypeA"), vec![], p1).is_ok());
    let mut p2 = ParamSet::new();
    assert!(p2.add_field(s("speed"), ParamValue::Num(2)));
    assert!(reg.register_type(s("TypeA"), vec![], p2).is_ok());
    assert_eq!(reg.len(), 1);
    assert_eq!(reg.entries[0].params.get(&s("speed")), Some(ParamValue::Num(1)));
}

#[test]
fn startup_seeding_runs_once_per_type() {
    let mut reg = Registry::new();
    let mut defaults = ParamSet::new();
    assert!(defaults.add_field(s("speed"), ParamValue::Num(0)));
    assert!(reg.register_type(s("Game"), vec![], defaults).is_ok());

    let mut file = MidiPersistFile::new();
    let mut doc = PersistData::new();
    doc.insert(s("speed"), ParamValue::Num(7_000_000));
    file.set_type_data(s("Game"), doc);

    reg.seed_from_file(&file);
    assert!(reg.entries[0].seeded);
    assert_eq!(reg.entries[0].params.get(&s("speed")), Some(ParamValue::Num(7_000_000)));

    // A later load must not overwrite the live values again.
    let mut file2 = MidiPersistFile::new();
    let mut doc2 = PersistData::new();
    doc2.insert(s("speed"), ParamValue::Num(1));
    file2.set_type_data(s("Game"), doc2);
    reg.seed_from_file(&file2);
    assert_eq!(reg.entries[0].params.get(&s("speed")), Some(ParamValue::Num(7_000_000)));
}

#[test]
fn seeding_without_a_document_keeps_defaults() {
    let mut reg = Registry::new();
    let mut defaults = ParamSet::new();
    assert!(defaults.add_field(s("speed"), ParamValue::Num(42)));
    assert!(reg.register_type(s("Game"), vec![], defaults).is_ok());
    let file = MidiPersistFile::new();
    reg.seed_from_file(&file);
    assert!(reg.entries[0].seeded);
    assert_eq!(reg.entries[0].params.get(&s("speed")), Some(ParamValue::Num(42)));
}

#[test]
fn full_cycle_register_ingest_sync_flush() {
    let mut reg = Registry::new();
    let mut ctrl = MidiController::new(None, None);
    let mut defaults = ParamSet::new();
    assert!(defaults.add_field(s("speed"), ParamValue::Num(0)));
    assert!(defaults.add_field(s("debug"), ParamValue::Bool(false)));
    let table = vec![
        MidiMapping::range(Some(16), s("speed"), 0, 10_000_000),
        MidiMapping::button(Some(24), s("debug")),
    ];
    register_midi_control(&mut reg, &mut ctrl, s("Game"), table, defaults).unwrap();
    assert_eq!(ctrl.number_of_registered_types(), 1);

    // A quiet cycle changes nothing and asks for no save.
    assert!(!reg.sync(&mut ctrl));

    ctrl.ingest(16, 500_000);
    ctrl.ingest(24, 800_000);
    assert!(reg.sync(&mut ctrl));
    assert_eq!(reg.entries[0].params.get(&s("speed")), Some(ParamValue::Num(5_000_000)));
    assert_eq!(reg.entries[0].params.get(&s("debug")), Some(ParamValue::Bool(true)));
    assert!(reg.entries[0].dirty);

    // Merge into a file already holding another type's document.
    let mut file = MidiPersistFile::new();
    let mut other = PersistData::new();
    other.insert(s("volume"), ParamValue::Num(11));
    file.set_type_data(s("Mixer"), other);
    reg.flush_into(&mut file);
    assert!(!reg.entries[0].dirty);
    let game = file.get_type_data(&s("Game")).unwrap();
    assert_eq!(game.get_num(&s("speed")), Some(5_000_000));
    assert_eq!(game.get_bool(&s("debug")), Some(true));
    let mixer = file.get_type_data(&s("Mixer")).unwrap();
    assert_eq!(mixer.get_num(&s("volume")), Some(11));

    // With the store unchanged, the next cycle is quiet again.
    assert!(!reg.sync(&mut ctrl));
}

#[test]
fn invalid_table_registers_nothing_anywhere() {
    let mut reg = Registry::new();
    let mut ctrl = MidiController::new(None, None);
    let table = vec![
        MidiMapping::range(Some(1), s("speed"), 0, 1_000_000),
        MidiMapping::range(Some(1), s("gain"), 0, 1_000_000),
    ];
    let r = register_midi_control(&mut reg, &mut ctrl, s("Game"), table, ParamSet::new());
    assert!(matches!(r, Err(MidiError::InvalidMapping(_))));
    assert_eq!(reg.len(), 0);
    assert_eq!(ctrl.number_of_registered_types(), 0);
    assert!(ctrl.get_mappings()[1].is_none());
}

#[test]
fn ui_rows_pair_fields_with_domains() {
    let mut reg = Registry::new();
    let mut defaults = ParamSet::new();
    assert!(defaults.add_field(s("speed"), ParamValue::Num(2_000_000)));
    assert!(defaults.add_field(s("debug"), ParamValue::Bool(false)));
    assert!(defaults.add_field(s("extra"), ParamValue::Num(1)));
    let table = vec![
        MidiMapping::range(Some(16), s("speed"), 0, 10_000_000),
        MidiMapping::button(Some(24), s("debug")),
    ];
    assert!(reg.register_type(s("Game"), table, defaults).is_ok());
    let rows = reg.entries[0].ui_rows();
    assert_eq!(rows.len(), 3);
    assert_eq!(rows[0].name, "speed");
    assert_eq!(rows[0].domain, Some(ControlType::Range { min: 0, max: 10_000_000 }));
    assert_eq!(rows[0].value, ParamValue::Num(2_000_000));
    assert_eq!(rows[1].name, "debug");
    assert_eq!(rows[1].domain, Some(ControlType::Button));
    assert_eq!(rows[1].value, ParamValue::Bool(false));
    assert_eq!(rows[2].name, "extra");
    assert_eq!(rows[2].domain, None);
    assert_eq!(rows[2].value, ParamValue::Num(1));
}

#[test]
fn ui_edit_converges_through_set_existing() {
    let mut reg = Registry::new();
    let mut ctrl = MidiController::new(None, None);
    let mut defaults = ParamSet::new();
    assert!(defaults.add_field(s("speed"), ParamValue::Num(0)));
    register_midi_control(
        &mut reg,
        &mut ctrl,
        s("Game"),
        vec![MidiMapping::range(Some(16), s("speed"), 0, 10_000_000)],
        defaults,
    )
    .unwrap();
    // An edit applied directly to the live struct, bypassing the value
    // store, is persisted by the same merge path.
    assert!(reg.entries[0].params.set_existing(&s("speed"), ParamValue::Num(1_234_000)));
    reg.entries[0].dirty = true;
    let mut file = MidiPersistFile::new();
    reg.flush_into(&mut file);
    let game = file.get_type_data(&s("Game")).unwrap();
    assert_eq!(game.get_num(&s("speed")), Some(1_234_000));
}
