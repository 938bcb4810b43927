use crate::mapping::ControlType;
use crate::mapping::MidiMapping;
use crate::mapping::NORM_ONE;
use vstd::prelude::*;

verus! {

/// Number of control-id slots: the full one-byte id space.
pub const CONTROL_SLOTS: usize = 256;

/// Whether some name in `s` reads `n`.
pub open spec fn has_name(s: Seq<String>, n: Seq<char>) -> bool {
    exists|i: int| 0 <= i < s.len() && (#[trigger] s[i])@ == n
}

/// Clamp a raw normalized value into `[0, NORM_ONE]`.
pub open spec fn clamp_norm(raw: u32) -> u32 {
    if raw > NORM_ONE {
        NORM_ONE
    } else {
        raw
    }
}

/// The live control state: latest normalized value per control id, the
/// registered mapping table, and bookkeeping for persistence.
///
/// Value slots exist eagerly for the whole id space, initialized to zero,
/// so `get_value` never needs a sentinel; ingestion overwrites with
/// latest-value-wins semantics and is constant-time and allocation-free.
/// Each value slot carries a pending flag: it is raised when a fresh
/// sample arrives and lowered when the sync engine acts on the sample, so
/// a toggle press is consumed once rather than re-applied on every cycle.
#[derive(Debug)]
pub struct MidiController {
    /// Latest normalized value per control id, in micro-units.
    pub values: Vec<u32>,
    /// Whether the latest sample per control id is not yet acted on.
    pub pending: Vec<bool>,
    /// Mapping table keyed by control id; a given id maps to exactly one
    /// field, last registration wins.
    pub mappings: Vec<Option<MidiMapping>>,
    /// Path of the persistence file.
    pub persist_file_path: String,
    /// Names of the registered parameter-struct types.
    pub registered_types: Vec<String>,
    /// Preferred control-surface name (matched as a substring).
    pub preferred_controller: Option<String>,
}

impl MidiController {
    /// Every slot vector covers the id space, stored values are clamped,
    /// and each registered mapping is well formed and filed under its own
    /// control id.
    pub open spec fn wf(self) -> bool {
        &&& self.values@.len() == CONTROL_SLOTS
        &&& self.pending@.len() == CONTROL_SLOTS
        &&& self.mappings@.len() == CONTROL_SLOTS
        &&& forall|i: int| 0 <= i < CONTROL_SLOTS ==> (#[trigger] self.values@[i]) <= NORM_ONE
        &&& forall|i: int|
            0 <= i < CONTROL_SLOTS ==> ((#[trigger] self.mappings@[i]) matches Some(m) ==> m.wf()
                && m.cc == Some(i as u8))
    }

    /// The registered mapping for a control id, if any.
    pub open spec fn mapping_at(self, cc: u8) -> Option<MidiMapping> {
        self.mappings@[cc as int]
    }

    /// Create a controller with empty state. Without an explicit path the
    /// persistence file defaults to `midi_settings.ron`.
    pub fn new(persist_path: Option<String>, preferred_controller: Option<String>) -> (r: Self)
        ensures
            r.wf(),
            forall|i: int| 0 <= i < CONTROL_SLOTS ==> (#[trigger] r.values@[i]) == 0,
            forall|i: int| 0 <= i < CONTROL_SLOTS ==> !(#[trigger] r.pending@[i]),
            forall|i: int| 0 <= i < CONTROL_SLOTS ==> (#[trigger] r.mappings@[i]) is None,
            r.registered_types@.len() == 0,
            r.persist_file_path@ == (match persist_path {
                Some(p) => p@,
                None => "midi_settings.ron"@,
            }),
            r.preferred_controller == preferred_controller,
    {
        let mut values: Vec<u32> = Vec::new();
        let mut pending: Vec<bool> = Vec::new();
        let mut mappings: Vec<Option<MidiMapping>> = Vec::new();
        let mut i: usize = 0;
        while i < CONTROL_SLOTS
            invariant
                i <= CONTROL_SLOTS,
                values@.len() == i,
                pending@.len() == i,
                mappings@.len() == i,
                forall|j: int| 0 <= j < i ==> (#[trigger] values@[j]) == 0,
                forall|j: int| 0 <= j < i ==> !(#[trigger] pending@[j]),
                forall|j: int| 0 <= j < i ==> (#[trigger] mappings@[j]) is None,
            decreases CONTROL_SLOTS - i,
        {
            values.push(0);
            pending.push(false);
            mappings.push(None);
            i += 1;
        }
        let path = match persist_path {
            Some(p) => p,
            None => "midi_settings.ron".to_owned(),
        };
        Self {
            values,
            pending,
            mappings,
            persist_file_path: path,
            registered_types: Vec::new(),
            preferred_controller,
        }
    }

    /// Latest normalized value for a control id (zero if never driven).
    pub fn get_value(&self, cc: u8) -> (r: u32)
        requires
            self.wf(),
        ensures
            r == self.values@[cc as int],
            r <= NORM_ONE,
    {
        self.values[cc as usize]
    }

    /// Record an incoming `(control id, raw normalized value)` event.
    ///
    /// This is the sole mutation path for values. Out-of-range input is
    /// clamped defensively; the slot is overwritten latest-value-wins and
    /// its sample is marked pending (not yet acted on).
    pub fn ingest(&mut self, cc: u8, raw: u32)
        requires
            old(self).wf(),
        ensures
            final(self).wf(),
            final(self).values@ == old(self).values@.update(cc as int, clamp_norm(raw)),
            final(self).pending@ == old(self).pending@.update(cc as int, true),
            final(self).mappings@ == old(self).mappings@,
            final(self).registered_types@ == old(self).registered_types@,
            final(self).persist_file_path == old(self).persist_file_path,
    {
        let v = if raw > NORM_ONE {
            NORM_ONE
        } else {
            raw
        };
        self.values.set(cc as usize, v);
        self.pending.set(cc as usize, true);
    }

    /// Consume the pending flag for a control id: report whether its latest
    /// sample was not yet acted on, and mark it acted on.
    pub fn take_pending(&mut self, cc: u8) -> (was: bool)
        requires
            old(self).wf(),
        ensures
            final(self).wf(),
            was == old(self).pending@[cc as int],
            final(self).pending@ == old(self).pending@.update(cc as int, false),
            final(self).values@ == old(self).values@,
            final(self).mappings@ == old(self).mappings@,
            final(self).registered_types@ == old(self).registered_types@,
            final(self).persist_file_path == old(self).persist_file_path,
    {
        let was = self.pending[cc as usize];
        self.pending.set(cc as usize, false);
        was
    }

    /// Register a mapping. A live mapping takes the slot of its control id
    /// (overwriting any prior registration for that id, last wins) and the
    /// slot's value is re-initialized to zero; a persist-only mapping has
    /// no slot to take.
    pub fn register_mapping(&mut self, mapping: MidiMapping)
        requires
            old(self).wf(),
            mapping.wf(),
        ensures
            final(self).wf(),
            match mapping.cc {
                Some(cc) => {
                    &&& final(self).values@ == old(self).values@.update(cc as int, 0u32)
                    &&& final(self).pending@ == old(self).pending@.update(cc as int, false)
                    &&& final(self).mappings@ == old(self).mappings@.update(
                        cc as int,
                        Some(mapping),
                    )
                },
                None => {
                    &&& final(self).values@ == old(self).values@
                    &&& final(self).pending@ == old(self).pending@
                    &&& final(self).mappings@ == old(self).mappings@
                },
            },
            final(self).registered_types@ == old(self).registered_types@,
            final(self).persist_file_path == old(self).persist_file_path,
    {
        match mapping.cc {
            Some(cc) => {
                self.values.set(cc as usize, 0);
                self.pending.set(cc as usize, false);
                self.mappings.set(cc as usize, Some(mapping));
            },
            None => {},
        }
    }

    /// Register a type name for persistence tracking; already-known names
    /// are kept once.
    pub fn register_type(&mut self, name: String)
        ensures
            final(self).registered_types@ == if has_name(
                old(self).registered_types@,
                name@,
            ) {
                old(self).registered_types@
            } else {
                old(self).registered_types@.push(name)
            },
            final(self).values@ == old(self).values@,
            final(self).pending@ == old(self).pending@,
            final(self).mappings@ == old(self).mappings@,
            final(self).persist_file_path == old(self).persist_file_path,
            old(self).wf() ==> final(self).wf(),
    {
        let n = self.registered_types.len();
        let mut i: usize = 0;
        while i < n
            invariant
                n == self.registered_types@.len(),
                i <= n,
                forall|j: int| 0 <= j < i ==> (#[trigger] self.registered_types@[j])@ != name@,
            decreases n - i,
        {
            if self.registered_types[i] == name {
                return ;
            }
            i += 1;
        }
        self.registered_types.push(name);
    }

    /// Number of registered types.
    pub fn number_of_registered_types(&self) -> (n: usize)
        ensures
            n == self.registered_types@.len(),
    {
        self.registered_types.len()
    }

    /// The registered mapping table, one slot per control id.
    pub fn get_mappings(&self) -> (r: &Vec<Option<MidiMapping>>)
        ensures
            r@ == self.mappings@,
    {
        &self.mappings
    }

    /// Scale the current value of a control id through its registered
    /// mapping; `None` when the id has no mapping.
    pub fn get_scaled_value(&self, cc: u8) -> (r: Option<i64>)
        requires
            self.wf(),
        ensures
            match self.mapping_at(cc) {
                Some(m) => r matches Some(v) && v == m.scale_spec(self.values@[cc as int]),
                None => r is None,
            },
            match (r, self.mapping_at(cc)) {
                (Some(v), Some(m)) => match m.control_type {
                    ControlType::Range { min, max } => min <= v <= max,
                    ControlType::Button => true,
                },
                _ => true,
            },
    {
        match &self.mappings[cc as usize] {
            Some(mapping) => Some(mapping.scale_value(self.get_value(cc))),
            None => None,
        }
    }

    /// The path of the persistence file this controller was configured
    /// with.
    pub fn persist_path(&self) -> (r: &String)
        ensures
            r == self.persist_file_path,
    {
        &self.persist_file_path
    }
}

} // verus!
