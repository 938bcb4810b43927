//! Parameter-mapping and persistence core for live-tweakable application
//! settings.
//!
//! A running application exposes a set of named, typed, bounded parameters
//! that can be driven live by a control surface sending discrete
//! `(control id, normalized value)` events, edited externally, and persisted
//! to disk so values survive restarts. This crate holds the core of that
//! system: the mapping table that binds a control id to a field and its
//! value domain, the value store that keeps the latest normalized value per
//! control, the sync engine that turns stored values into typed field
//! updates with change detection, the keyed document store that merges one
//! type's record into a shared persistence file, and the registry that
//! orchestrates seeding and save-on-change per registered type.
//!
//! Continuous quantities are carried as fixed-point integers in millionths
//! (micro-units), so a full-throw normalized value is `NORM_ONE` and a field
//! value of five and a half is `5_500_000`.

use vstd::prelude::*;

mod controller;
mod error;
mod mapping;
mod midi;
mod params;
mod persistence;
mod registry;
mod sync;
mod ui;

pub use controller::MidiController;
pub use controller::CONTROL_SLOTS;
pub use error::MidiError;
pub use error::MidiResult;
pub use mapping::ControlType;
pub use mapping::MidiMapping;
pub use mapping::NORM_HALF;
pub use mapping::NORM_ONE;
pub use mapping::VALUE_LIMIT;
pub use midi::choose_port;
pub use midi::contains_ignore_ascii_case;
pub use midi::normalized_from_midi;
pub use midi::parse_control_change;
pub use params::ParamField;
pub use params::ParamSet;
pub use params::ParamValue;
pub use persistence::from_load_outcome;
pub use persistence::LoadOutcome;
pub use persistence::MidiPersistFile;
pub use persistence::PersistData;
pub use persistence::TypeRecord;
pub use persistence::FILE_VERSION;
pub use registry::register_midi_control;
pub use registry::PersistenceController;
pub use registry::RegisteredParams;
pub use registry::Registry;
pub use sync::apply;
pub use sync::CHANGE_EPSILON;
pub use ui::UiRow;
