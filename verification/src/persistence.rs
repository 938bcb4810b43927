use crate::error::MidiError;
use crate::error::MidiResult;
use crate::params::field_idx;
use crate::params::field_lookup;
use crate::params::lemma_field_idx_finds;
use crate::params::lemma_field_idx_misses;
use crate::params::lemma_field_idx_props;
use crate::params::lemma_field_idx_push;
use crate::params::lemma_field_idx_same_names;
use crate::params::names_unique;
use crate::params::same_kind;
use crate::params::value_ok;
use crate::params::ParamField;
use crate::params::ParamSet;
use crate::params::ParamValue;
use vstd::prelude::*;

verus! {

/// Version tag written into fresh persistence files.
pub const FILE_VERSION: &'static str = "0.1.0";

/// A persisted document for one parameter-struct type: a flat record of
/// field name to scalar value.
///
/// Unlike a live parameter set, a document makes no promise about its
/// values: what was read from disk is held as it came, and the typed
/// accessors sort it out field by field.
#[derive(Debug)]
pub struct PersistData {
    /// The record's entries, looked up by name (first match wins).
    pub values: Vec<ParamField>,
}

/// `s` with `f` upserted: replacing the first entry of the same name, or
/// appended when there is none.
pub open spec fn doc_upsert(s: Seq<ParamField>, f: ParamField) -> Seq<ParamField> {
    if field_idx(s, f.name@) < 0 {
        s.push(f)
    } else {
        s.update(field_idx(s, f.name@), f)
    }
}

impl PersistData {
    /// An empty document.
    pub fn new() -> (r: Self)
        ensures
            r.values@.len() == 0,
    {
        Self { values: Vec::new() }
    }

    /// Store a value under a key, replacing any prior value of that key.
    pub fn insert(&mut self, key: String, value: ParamValue)
        ensures
            final(self).values@ == doc_upsert(
                old(self).values@,
                (ParamField { name: key, value }),
            ),
            field_lookup(final(self).values@, key@) == Some(value),
            forall|n2: Seq<char>|
                n2 != key@ ==> #[trigger] field_lookup(final(self).values@, n2) == field_lookup(
                    old(self).values@,
                    n2,
                ),
    {
        let ghost s0 = self.values@;
        let ghost fg = ParamField { name: key, value };
        let n = self.values.len();
        let mut i: usize = 0;
        while i < n
            invariant
                self.values@ == s0,
                s0 == old(self).values@,
                n == s0.len(),
                i <= n,
                fg.name == key,
                fg.value == value,
                forall|j: int| 0 <= j < i ==> s0[j].name@ != key@,
            decreases n - i,
        {
            if self.values[i].name == key {
                proof {
                    lemma_field_idx_finds(s0, key@, i as int);
                }
                self.values.set(i, ParamField { name: key, value });
                proof {
                    lemma_upsert_found(s0, i as int, fg);
                }
                return ;
            }
            i += 1;
        }
        proof {
            lemma_field_idx_misses(s0, key@);
        }
        self.values.push(ParamField { name: key, value });
        proof {
            lemma_upsert_fresh(s0, fg);
        }
    }

    /// Look up the raw scalar stored under a key.
    pub fn get(&self, key: &String) -> (r: Option<ParamValue>)
        ensures
            r == field_lookup(self.values@, key@),
    {
        let n = self.values.len();
        let mut i: usize = 0;
        while i < n
            invariant
                n == self.values@.len(),
                i <= n,
                forall|j: int| 0 <= j < i ==> self.values@[j].name@ != key@,
            decreases n - i,
        {
            if self.values[i].name == *key {
                proof {
                    lemma_field_idx_finds(self.values@, key@, i as int);
                }
                return Some(self.values[i].value);
            }
            i += 1;
        }
        proof {
            lemma_field_idx_misses(self.values@, key@);
        }
        None
    }

    /// Typed accessor: the numeric value under a key, or `None` when the
    /// key is missing or holds another kind of scalar.
    pub fn get_num(&self, key: &String) -> (r: Option<i64>)
        ensures
            r == (match field_lookup(self.values@, key@) {
                Some(ParamValue::Num(x)) => Some(x),
                _ => None::<i64>,
            }),
    {
        match self.get(key) {
            Some(ParamValue::Num(x)) => Some(x),
            _ => None,
        }
    }

    /// Typed accessor: the boolean value under a key, or `None` when the
    /// key is missing or holds another kind of scalar.
    pub fn get_bool(&self, key: &String) -> (r: Option<bool>)
        ensures
            r == (match field_lookup(self.values@, key@) {
                Some(ParamValue::Bool(x)) => Some(x),
                _ => None::<bool>,
            }),
    {
        match self.get(key) {
            Some(ParamValue::Bool(x)) => Some(x),
            _ => None,
        }
    }
}

/// Replacing the first entry of a name keeps other lookups as they were.
proof fn lemma_upsert_found(s: Seq<ParamField>, i: int, f: ParamField)
    requires
        0 <= i < s.len(),
        field_idx(s, f.name@) == i,
    ensures
        s.update(i, f) == doc_upsert(s, f),
        field_lookup(doc_upsert(s, f), f.name@) == Some(f.value),
        forall|n2: Seq<char>|
            n2 != f.name@ ==> #[trigger] field_lookup(doc_upsert(s, f), n2) == field_lookup(s, n2),
{
    lemma_field_idx_props(s, f.name@);
    let t = s.update(i, f);
    assert forall|k: int| 0 <= k < s.len() implies (#[trigger] t[k]).name@ == s[k].name@ by {
        if k != i {
            assert(t[k] == s[k]);
        }
    }
    lemma_field_idx_same_names(s, t, f.name@);
    assert forall|n2: Seq<char>| n2 != f.name@ implies #[trigger] field_lookup(t, n2)
        == field_lookup(s, n2) by {
        lemma_field_idx_same_names(s, t, n2);
        lemma_field_idx_props(s, n2);
        let j = field_idx(s, n2);
        if j >= 0 {
            assert(t[j] == s[j]);
        }
    }
}

/// Appending an entry under a fresh name leaves other lookups as they
/// were.
proof fn lemma_upsert_fresh(s: Seq<ParamField>, f: ParamField)
    requires
        field_idx(s, f.name@) < 0,
    ensures
        s.push(f) == doc_upsert(s, f),
        field_lookup(doc_upsert(s, f), f.name@) == Some(f.value),
        forall|n2: Seq<char>|
            n2 != f.name@ ==> #[trigger] field_lookup(doc_upsert(s, f), n2) == field_lookup(s, n2),
{
    let t = s.push(f);
    lemma_field_idx_push(s, f, f.name@);
    assert(t[s.len() as int] == f);
    assert forall|n2: Seq<char>| n2 != f.name@ implies #[trigger] field_lookup(t, n2)
        == field_lookup(s, n2) by {
        lemma_field_idx_push(s, f, n2);
        lemma_field_idx_props(s, n2);
        let j = field_idx(s, n2);
        if j >= 0 {
            assert(t[j] == s[j]);
        }
    }
}

/// One field after seeding from a document: the document's value is taken
/// when the document has this field's name with the same kind of scalar
/// and a bounded value; otherwise the field keeps what it had.
pub open spec fn seed_field(f: ParamField, doc: Seq<ParamField>) -> ParamField {
    match field_lookup(doc, f.name@) {
        Some(v) => if same_kind(f.value, v) && value_ok(v) {
            ParamField { name: f.name, value: v }
        } else {
            f
        },
        None => f,
    }
}

/// A whole parameter sequence after seeding from a document, field by
/// field.
pub open spec fn seeded(fields: Seq<ParamField>, doc: Seq<ParamField>) -> Seq<ParamField> {
    Seq::new(fields.len(), |i: int| seed_field(fields[i], doc))
}

/// Round trip: seeding a well-formed parameter sequence from the document
/// it itself produced restores it exactly. Every field finds its own name
/// in the document, with its own kind and a bounded value.
pub proof fn lemma_seed_round_trip(s: Seq<ParamField>)
    requires
        names_unique(s),
        forall|i: int| 0 <= i < s.len() ==> value_ok((#[trigger] s[i]).value),
    ensures
        seeded(s, s) == s,
{
    assert forall|i: int| 0 <= i < s.len() implies seeded(s, s)[i] == s[i] by {
        assert forall|j: int| 0 <= j < i implies s[j].name@ != s[i].name@ by {}
        lemma_field_idx_finds(s, s[i].name@, i);
        assert(field_lookup(s, s[i].name@) == Some(s[i].value));
        assert(seed_field(s[i], s) == s[i]);
    }
    assert(seeded(s, s) =~= s);
}

impl ParamSet {
    /// Produce this parameter set's persisted document: every field,
    /// mapped or not, under its own name.
    pub fn to_persist_data(&self) -> (r: PersistData)
        ensures
            r.values@ == self.fields@,
    {
        let mut out: Vec<ParamField> = Vec::new();
        let n = self.fields.len();
        let mut i: usize = 0;
        while i < n
            invariant
                n == self.fields@.len(),
                i <= n,
                out@.len() == i,
                forall|j: int| 0 <= j < i ==> out@[j] == self.fields@[j],
            decreases n - i,
        {
            out.push(
                ParamField { name: self.fields[i].name.clone(), value: self.fields[i].value },
            );
            i += 1;
        }
        proof {
            assert(out@ =~= self.fields@);
        }
        PersistData { values: out }
    }

    /// Seed this parameter set from a persisted document: each field takes
    /// the document's value of its own name when the kinds agree and the
    /// value is in bounds, and keeps its current value otherwise. Missing
    /// or corrupt document fields disturb nothing.
    pub fn from_persist_data(&mut self, data: &PersistData)
        ensures
            final(self).fields@ == seeded(old(self).fields@, data.values@),
            old(self).wf() ==> final(self).wf(),
    {
        let ghost s0 = self.fields@;
        let n = self.fields.len();
        let mut i: usize = 0;
        while i < n
            invariant
                n == self.fields@.len(),
                self.fields@.len() == s0.len(),
                s0 == old(self).fields@,
                i <= n,
                forall|j: int| i <= j < n ==> (#[trigger] self.fields@[j]) == s0[j],
                forall|j: int| 0 <= j < i ==> (#[trigger] self.fields@[j]) == seed_field(s0[j], data.values@),
            decreases n - i,
        {
            let name = self.fields[i].name.clone();
            match data.get(&name) {
                Some(v) => {
                    let cur = self.fields[i].value;
                    let kinds_agree = match (cur, v) {
                        (ParamValue::Num(_), ParamValue::Num(_)) => true,
                        (ParamValue::Bool(_), ParamValue::Bool(_)) => true,
                        _ => false,
                    };
                    let in_bounds = match v {
                        ParamValue::Num(x) => -crate::mapping::VALUE_LIMIT <= x
                            && x <= crate::mapping::VALUE_LIMIT,
                        ParamValue::Bool(_) => true,
                    };
                    if kinds_agree && in_bounds {
                        self.fields.set(i, ParamField { name, value: v });
                    }
                },
                None => {},
            }
            i += 1;
        }
        proof {
            assert(self.fields@ =~= seeded(s0, data.values@));
            if old(self).wf() {
                assert forall|a: int, b: int|
                    0 <= a < b < self.fields@.len() implies (#[trigger] self.fields@[a]).name@ != (
                #[trigger] self.fields@[b]).name@ by {
                    assert(s0[a].name@ != s0[b].name@);
                }
                assert forall|a: int| 0 <= a < self.fields@.len() implies value_ok(
                    (#[trigger] self.fields@[a]).value,
                ) by {
                    assert(value_ok(s0[a].value));
                }
            }
        }
    }
}

/// One type's entry in the persistence file: the type's name and its
/// document.
#[derive(Debug)]
pub struct TypeRecord {
    /// The parameter-struct type this document belongs to.
    pub name: String,
    /// The persisted document.
    pub data: PersistData,
}

/// Index of the first record named `name`, or `-1` if there is none.
pub open spec fn record_idx(s: Seq<TypeRecord>, name: Seq<char>) -> int
    decreases s.len(),
{
    if s.len() == 0 {
        -1
    } else if s[0].name@ == name {
        0
    } else {
        let r = record_idx(s.drop_first(), name);
        if r < 0 {
            -1
        } else {
            r + 1
        }
    }
}

/// The document stored under `name`, if present, as its entry view.
pub open spec fn record_lookup(s: Seq<TypeRecord>, name: Seq<char>) -> Option<Seq<ParamField>> {
    if record_idx(s, name) < 0 {
        None
    } else {
        Some(s[record_idx(s, name)].data.values@)
    }
}

/// `record_idx` finds a record within bounds bearing the sought name, with
/// no earlier record bearing it; when it reports `-1`, no record bears it.
proof fn lemma_record_idx_props(s: Seq<TypeRecord>, name: Seq<char>)
    ensures
        -1 <= record_idx(s, name) < s.len(),
        record_idx(s, name) >= 0 ==> s[record_idx(s, name)].name@ == name,
        record_idx(s, name) < 0 ==> forall|j: int| 0 <= j < s.len() ==> s[j].name@ != name,
        record_idx(s, name) >= 0 ==> forall|j: int|
            0 <= j < record_idx(s, name) ==> s[j].name@ != name,
    decreases s.len(),
{
    if s.len() == 0 {
    } else if s[0].name@ == name {
    } else {
        lemma_record_idx_props(s.drop_first(), name);
        let r = record_idx(s.drop_first(), name);
        if r < 0 {
            assert forall|j: int| 0 <= j < s.len() implies s[j].name@ != name by {
                if j > 0 {
                    assert(s[j] == s.drop_first()[j - 1]);
                }
            }
        } else {
            assert(s[r + 1] == s.drop_first()[r]);
            assert forall|j: int| 0 <= j < r + 1 implies s[j].name@ != name by {
                if j > 0 {
                    assert(s[j] == s.drop_first()[j - 1]);
                }
            }
        }
    }
}

/// A record bearing the sought name with no earlier match is the one
/// `record_idx` finds.
proof fn lemma_record_idx_finds(s: Seq<TypeRecord>, name: Seq<char>, i: int)
    requires
        0 <= i < s.len(),
        s[i].name@ == name,
        forall|j: int| 0 <= j < i ==> s[j].name@ != name,
    ensures
        record_idx(s, name) == i,
    decreases i,
{
    if i == 0 {
    } else {
        assert(s[0].name@ != name);
        assert(s.drop_first()[i - 1] == s[i]);
        assert forall|j: int| 0 <= j < i - 1 implies s.drop_first()[j].name@ != name by {
            assert(s.drop_first()[j] == s[j + 1]);
        }
        lemma_record_idx_finds(s.drop_first(), name, i - 1);
    }
}

/// When no record bears the sought name, `record_idx` reports `-1`.
proof fn lemma_record_idx_misses(s: Seq<TypeRecord>, name: Seq<char>)
    requires
        forall|j: int| 0 <= j < s.len() ==> s[j].name@ != name,
    ensures
        record_idx(s, name) == -1,
    decreases s.len(),
{
    if s.len() == 0 {
    } else {
        assert forall|j: int| 0 <= j < s.drop_first().len() implies s.drop_first()[j].name@
            != name by {
            assert(s.drop_first()[j] == s[j + 1]);
        }
        lemma_record_idx_misses(s.drop_first(), name);
    }
}

/// When two sequences bear the same names at the same places, `record_idx`
/// agrees on them.
proof fn lemma_record_idx_same_names(s: Seq<TypeRecord>, t: Seq<TypeRecord>, name: Seq<char>)
    requires
        s.len() == t.len(),
        forall|k: int| 0 <= k < s.len() ==> (#[trigger] s[k]).name@ == (#[trigger] t[k]).name@,
    ensures
        record_idx(s, name) == record_idx(t, name),
    decreases s.len(),
{
    if s.len() == 0 {
    } else {
        assert(s[0].name@ == t[0].name@);
        assert forall|k: int|
            0 <= k < s.drop_first().len() implies (#[trigger] s.drop_first()[k]).name@ == (
        #[trigger] t.drop_first()[k]).name@ by {
            assert(s.drop_first()[k] == s[k + 1]);
            assert(t.drop_first()[k] == t[k + 1]);
        }
        lemma_record_idx_same_names(s.drop_first(), t.drop_first(), name);
    }
}

/// Appending a record changes `record_idx` only for its own name, and only
/// when that name was absent.
proof fn lemma_record_idx_push(s: Seq<TypeRecord>, rec: TypeRecord, name: Seq<char>)
    ensures
        record_idx(s.push(rec), name) == if record_idx(s, name) >= 0 {
            record_idx(s, name)
        } else if rec.name@ == name {
            s.len() as int
        } else {
            -1
        },
    decreases s.len(),
{
    lemma_record_idx_props(s, name);
    let sp = s.push(rec);
    if s.len() == 0 {
        assert(sp[0] == rec);
        assert(sp.drop_first() =~= Seq::<TypeRecord>::empty());
        assert(record_idx(sp.drop_first(), name) == -1);
    } else {
        assert(sp[0] == s[0]);
        assert(sp.drop_first() =~= s.drop_first().push(rec));
        lemma_record_idx_push(s.drop_first(), rec, name);
        lemma_record_idx_props(s.drop_first(), name);
        assert(record_idx(sp, name) == if sp[0].name@ == name {
            0
        } else {
            let r = record_idx(sp.drop_first(), name);
            if r < 0 {
                -1
            } else {
                r + 1
            }
        });
    }
}

/// The whole persistence file: one document per registered type, plus
/// metadata.
///
/// Saving one type's document is a read-modify-write of this structure:
/// `set_type_data` touches only the named entry, so every other type's
/// document survives a load-modify-save cycle untouched.
#[derive(Debug)]
pub struct MidiPersistFile {
    /// One record per type name (first match wins; writers keep names
    /// unique).
    pub type_data: Vec<TypeRecord>,
    /// Wall-clock timestamp of the last save.
    pub last_saved: String,
    /// Schema version tag.
    pub version: String,
}

/// Relies on chrono's `Utc::now` and `DateTime::to_rfc3339`: the current
/// wall-clock time rendered as an RFC 3339 timestamp. Nothing is promised
/// of the result; it depends on the clock.
#[verifier::external_body]
fn now_rfc3339() -> String {
    chrono::Utc::now().to_rfc3339()
}

/// What a load of the persistence file's backing store produced, before
/// the core decides what it means. The backing store and its format are
/// outside collaborators; the core consumes their outcome as plain data.
#[derive(Debug)]
pub enum LoadOutcome {
    /// The backing file does not exist.
    Missing,
    /// The backing file was read and decoded.
    Loaded(MidiPersistFile),
    /// The backing file exists but could not be read; the detail message.
    Unreadable(String),
    /// The backing file was read but could not be decoded; the detail
    /// message.
    Malformed(String),
}

impl MidiPersistFile {
    /// A fresh, empty persistence file, stamped with the current time.
    pub fn new() -> (r: Self)
        ensures
            r.type_data@.len() == 0,
            r.version@ == FILE_VERSION@,
    {
        Self { type_data: Vec::new(), last_saved: now_rfc3339(), version: FILE_VERSION.to_owned() }
    }

    /// The document stored for a type name, if any.
    pub fn get_type_data(&self, name: &String) -> (r: Option<&PersistData>)
        ensures
            match r {
                Some(d) => record_lookup(self.type_data@, name@) == Some(d.values@),
                None => record_lookup(self.type_data@, name@) is None,
            },
    {
        let n = self.type_data.len();
        let mut i: usize = 0;
        while i < n
            invariant
                n == self.type_data@.len(),
                i <= n,
                forall|j: int| 0 <= j < i ==> self.type_data@[j].name@ != name@,
            decreases n - i,
        {
            if self.type_data[i].name == *name {
                proof {
                    lemma_record_idx_finds(self.type_data@, name@, i as int);
                }
                return Some(&self.type_data[i].data);
            }
            i += 1;
        }
        proof {
            lemma_record_idx_misses(self.type_data@, name@);
        }
        None
    }

    /// Store a type's document, replacing only that type's entry: every
    /// other type's document is untouched. This is the merge step of the
    /// read-modify-write save path.
    pub fn set_type_data(&mut self, name: String, data: PersistData)
        ensures
            record_lookup(final(self).type_data@, name@) == Some(data.values@),
            forall|n2: Seq<char>|
                n2 != name@ ==> #[trigger] record_lookup(final(self).type_data@, n2)
                    == record_lookup(old(self).type_data@, n2),
            final(self).last_saved == old(self).last_saved,
            final(self).version == old(self).version,
    {
        let ghost s0 = self.type_data@;
        let ghost dg = data.values@;
        let n = self.type_data.len();
        let mut i: usize = 0;
        while i < n
            invariant
                self.type_data@ == s0,
                s0 == old(self).type_data@,
                self.last_saved == old(self).last_saved,
                self.version == old(self).version,
                dg == data.values@,
                n == s0.len(),
                i <= n,
                forall|j: int| 0 <= j < i ==> s0[j].name@ != name@,
            decreases n - i,
        {
            if self.type_data[i].name == name {
                proof {
                    lemma_record_idx_finds(s0, name@, i as int);
                }
                let ghost rec_name = name@;
                self.type_data.set(i, TypeRecord { name, data });
                proof {
                    let t = self.type_data@;
                    assert forall|k: int| 0 <= k < s0.len() implies (#[trigger] t[k]).name@
                        == s0[k].name@ by {
                        if k != i {
                            assert(t[k] == s0[k]);
                        }
                    }
                    lemma_record_idx_same_names(s0, t, rec_name);
                    assert(record_lookup(t, rec_name) == Some(dg));
                    assert forall|n2: Seq<char>| n2 != rec_name implies #[trigger] record_lookup(
                        t,
                        n2,
                    ) == record_lookup(s0, n2) by {
                        lemma_record_idx_same_names(s0, t, n2);
                        lemma_record_idx_props(s0, n2);
                        let j = record_idx(s0, n2);
                        if j >= 0 {
                            assert(t[j] == s0[j]);
                        }
                    }
                }
                return ;
            }
            i += 1;
        }
        proof {
            lemma_record_idx_misses(s0, name@);
        }
        let ghost rec_name = name@;
        self.type_data.push(TypeRecord { name, data });
        proof {
            let t = self.type_data@;
            let ghost rec = t[s0.len() as int];
            lemma_record_idx_push(s0, rec, rec_name);
            assert(record_lookup(t, rec_name) == Some(dg));
            assert forall|n2: Seq<char>| n2 != rec_name implies #[trigger] record_lookup(t, n2)
                == record_lookup(s0, n2) by {
                lemma_record_idx_push(s0, rec, n2);
                lemma_record_idx_props(s0, n2);
                let j = record_idx(s0, n2);
                if j >= 0 {
                    assert(t[j] == s0[j]);
                }
            }
        }
    }

    /// Refresh the last-saved timestamp, leaving every document and the
    /// version tag untouched: the step the core performs just before the
    /// serialized file is written back.
    pub fn prepare_save(&mut self)
        ensures
            final(self).type_data@ == old(self).type_data@,
            final(self).version == old(self).version,
    {
        self.last_saved = now_rfc3339();
    }
}

/// Decide what a load of the backing store means for startup seeding: a
/// missing file is a fresh empty persistence file, not an error (a first
/// run has no file); a decoded file is taken as is; a file that could not
/// be read or decoded is a persistence error carrying the detail message,
/// and blocks seeding until fixed or deleted.
pub fn from_load_outcome(outcome: LoadOutcome) -> (r: MidiResult<MidiPersistFile>)
    ensures
        match outcome {
            LoadOutcome::Missing => r matches Ok(f) && f.type_data@.len() == 0 && f.version@
                == FILE_VERSION@,
            LoadOutcome::Loaded(f) => r == Ok::<MidiPersistFile, MidiError>(f),
            LoadOutcome::Unreadable(m) => r == Err::<MidiPersistFile, MidiError>(
                MidiError::PersistenceError(m),
            ),
            LoadOutcome::Malformed(m) => r == Err::<MidiPersistFile, MidiError>(
                MidiError::PersistenceError(m),
            ),
        },
{
    match outcome {
        LoadOutcome::Missing => Ok(MidiPersistFile::new()),
        LoadOutcome::Loaded(f) => Ok(f),
        LoadOutcome::Unreadable(m) => Err(MidiError::PersistenceError(m)),
        LoadOutcome::Malformed(m) => Err(MidiError::PersistenceError(m)),
    }
}

} // verus!
