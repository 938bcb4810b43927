use vstd::arithmetic::div_mod::lemma_div_is_ordered;
use vstd::arithmetic::div_mod::lemma_div_multiples_vanish;
use vstd::arithmetic::div_mod::lemma_div_of0;
use vstd::arithmetic::div_mod::lemma_div_pos_is_pos;
use vstd::arithmetic::mul::lemma_mul_inequality;
use vstd::arithmetic::mul::lemma_mul_upper_bound;
use vstd::prelude::*;

verus! {

/// One full throw of a control in normalized micro-units: a normalized
/// value lies in `[0, NORM_ONE]`, standing for the real interval `[0, 1]`.
pub const NORM_ONE: u32 = 1_000_000;

/// The press threshold for toggle controls, half of a full throw.
pub const NORM_HALF: u32 = 500_000;

/// Bound on the magnitude of range endpoints and field values, in
/// micro-units (one million whole units). Keeping endpoints within this
/// bound lets the affine scaling law be computed without overflow.
pub const VALUE_LIMIT: i64 = 1_000_000_000_000;

/// The value domain of one control: a continuous range with an affine
/// scaling law, or a toggle button driven by a press threshold.
///
/// Range endpoints are field values in micro-units.
#[derive(Debug, Clone, Copy, PartialEq, Eq, Structural)]
pub enum ControlType {
    /// Continuous range control (knobs, faders).
    Range { min: i64, max: i64 },
    /// Toggle button control.
    Button,
}

/// One row of a mapping table: the declarative binding of one control id
/// to one struct field and its value domain.
///
/// Constructed once at registration time and immutable thereafter. A
/// mapping without a control id is persist-only: it is never driven by
/// live input.
#[derive(Debug, Clone)]
pub struct MidiMapping {
    /// Control id (0-255), `None` for persist-only mappings.
    pub cc: Option<u8>,
    /// Name of the field this mapping drives; doubles as the persistence key.
    pub field_name: String,
    /// The value domain of the control.
    pub control_type: ControlType,
    /// Minimum value for range controls, in micro-units.
    pub min_value: i64,
    /// Maximum value for range controls, in micro-units.
    pub max_value: i64,
}

impl ControlType {
    /// A well-formed domain has an uninverted range whose endpoints stay
    /// within `VALUE_LIMIT`.
    pub open spec fn wf(self) -> bool {
        match self {
            ControlType::Range { min, max } => min < max && -VALUE_LIMIT <= min && max
                <= VALUE_LIMIT,
            ControlType::Button => true,
        }
    }
}

impl MidiMapping {
    /// The mapping's domain is well formed and the cached endpoint fields
    /// agree with it.
    pub open spec fn wf(self) -> bool {
        &&& self.control_type.wf()
        &&& match self.control_type {
            ControlType::Range { min, max } => self.min_value == min && self.max_value == max,
            ControlType::Button => self.min_value == 0 && self.max_value == NORM_ONE as i64,
        }
    }

    /// Create a new range mapping.
    pub fn range(cc: Option<u8>, field_name: String, min: i64, max: i64) -> (r: Self)
        requires
            min < max,
            -VALUE_LIMIT <= min,
            max <= VALUE_LIMIT,
        ensures
            r.wf(),
            r.cc == cc,
            r.field_name == field_name,
            r.control_type == (ControlType::Range { min, max }),
    {
        Self { cc, field_name, control_type: ControlType::Range { min, max }, min_value: min, max_value: max }
    }

    /// Create a new button mapping.
    pub fn button(cc: Option<u8>, field_name: String) -> (r: Self)
        ensures
            r.wf(),
            r.cc == cc,
            r.field_name == field_name,
            r.control_type == ControlType::Button,
    {
        Self {
            cc,
            field_name,
            control_type: ControlType::Button,
            min_value: 0,
            max_value: NORM_ONE as i64,
        }
    }

    /// Create a persist-only range mapping (never driven by live input).
    pub fn persist_range(field_name: String, min: i64, max: i64) -> (r: Self)
        requires
            min < max,
            -VALUE_LIMIT <= min,
            max <= VALUE_LIMIT,
        ensures
            r.wf(),
            r.cc is None,
            r.field_name == field_name,
            r.control_type == (ControlType::Range { min, max }),
    {
        Self::range(None, field_name, min, max)
    }

    /// Create a persist-only button mapping (never driven by live input).
    pub fn persist_button(field_name: String) -> (r: Self)
        ensures
            r.wf(),
            r.cc is None,
            r.field_name == field_name,
            r.control_type == ControlType::Button,
    {
        Self::button(None, field_name)
    }

    /// Check whether this mapping is driven by live input.
    pub fn has_midi_control(&self) -> (b: bool)
        ensures
            b == self.cc is Some,
    {
        self.cc.is_some()
    }

    /// Exec check of `wf`, for validating mappings built from unchecked
    /// field values at registration time.
    pub fn check_wf(&self) -> (b: bool)
        ensures
            b == self.wf(),
    {
        match self.control_type {
            ControlType::Range { min, max } => min < max && -VALUE_LIMIT <= min && max
                <= VALUE_LIMIT && self.min_value == min && self.max_value == max,
            ControlType::Button => self.min_value == 0 && self.max_value == NORM_ONE as i64,
        }
    }

    /// What `scale_value` returns: the affine interpolation law for ranges,
    /// and the hard press threshold for buttons.
    pub open spec fn scale_spec(self, normalized: u32) -> int {
        match self.control_type {
            ControlType::Range { min, max } => min + ((normalized as int) * (max - min)) / (
            NORM_ONE as int),
            ControlType::Button => if normalized > NORM_HALF {
                NORM_ONE as int
            } else {
                0
            },
        }
    }

    /// Scale a normalized value to this mapping's domain.
    ///
    /// For a range, the result is the affine interpolation between the
    /// endpoints; it always lies in `[min, max]`, and the extremes of the
    /// normalized input land exactly on the endpoints. For a button, the
    /// result is a full throw when the value is above the press threshold
    /// and zero otherwise; the boolean interpretation happens one layer up,
    /// in the sync engine.
    pub fn scale_value(&self, normalized: u32) -> (r: i64)
        requires
            self.wf(),
            normalized <= NORM_ONE,
        ensures
            r == self.scale_spec(normalized),
            self.control_type matches ControlType::Range { min, max } ==> {
                &&& min <= r <= max
                &&& (normalized == 0 ==> r == min)
                &&& (normalized == NORM_ONE ==> r == max)
            },
    {
        match self.control_type {
            ControlType::Range { min, max } => {
                let delta: u64 = (max - min) as u64;
                proof {
                    lemma_mul_upper_bound(
                        normalized as int,
                        NORM_ONE as int,
                        delta as int,
                        2 * (VALUE_LIMIT as int),
                    );
                }
                let prod: u64 = (normalized as u64) * delta;
                let q: u64 = prod / (NORM_ONE as u64);
                proof {
                    lemma_div_pos_is_pos(prod as int, NORM_ONE as int);
                    lemma_mul_inequality(normalized as int, NORM_ONE as int, delta as int);
                    lemma_div_is_ordered(
                        prod as int,
                        (delta as int) * (NORM_ONE as int),
                        NORM_ONE as int,
                    );
                    lemma_div_multiples_vanish(delta as int, NORM_ONE as int);
                    assert(q as int <= delta as int);
                    if normalized == 0 {
                        lemma_div_of0(NORM_ONE as int);
                        assert(q == 0);
                    }
                    if normalized == NORM_ONE {
                        assert(q as int == delta as int);
                    }
                }
                min + (q as i64)
            },
            ControlType::Button => {
                if normalized > NORM_HALF {
                    NORM_ONE as i64
                } else {
                    0
                }
            },
        }
    }
}

} // verus!
