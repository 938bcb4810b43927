use crate::controller::has_name;
use crate::controller::CONTROL_SLOTS;
use crate::controller::MidiController;
use crate::error::MidiError;
use crate::error::MidiResult;
use crate::mapping::MidiMapping;
use crate::params::ParamSet;
use crate::persistence::record_lookup;
use crate::persistence::seeded;
use crate::persistence::MidiPersistFile;
use crate::sync::apply;
use crate::sync::apply_seq_spec;
use crate::sync::mapping_names_unique;
use vstd::prelude::*;

verus! {

/// Lightweight persistence bookkeeping: the backing file's path and the
/// names of the types tracked for persistence.
#[derive(Debug)]
pub struct PersistenceController {
    /// Path of the persistence file; a default is used when absent.
    pub persist_file: Option<String>,
    /// Names of the registered types.
    pub registered_types: Vec<String>,
}

impl PersistenceController {
    /// Create a controller for the given backing path.
    pub fn new(persist_file: Option<String>) -> (r: Self)
        ensures
            r.persist_file == persist_file,
            r.registered_types@.len() == 0,
    {
        Self { persist_file, registered_types: Vec::new() }
    }

    /// Register a type name for persistence tracking; already-known names
    /// are kept once.
    pub fn register_type(&mut self, name: String)
        ensures
            final(self).registered_types@ == if has_name(old(self).registered_types@, name@) {
                old(self).registered_types@
            } else {
                old(self).registered_types@.push(name)
            },
            final(self).persist_file == old(self).persist_file,
    {
        let n = self.registered_types.len();
        let mut i: usize = 0;
        while i < n
            invariant
                n == self.registered_types@.len(),
                self.registered_types@ == old(self).registered_types@,
                self.persist_file == old(self).persist_file,
                i <= n,
                forall|j: int| 0 <= j < i ==> (#[trigger] self.registered_types@[j])@ != name@,
            decreases n - i,
        {
            if self.registered_types[i] == name {
                return ;
            }
            i += 1;
        }
        self.registered_types.push(name);
    }

    /// The effective path of the backing file: the configured one, or the
    /// default.
    pub fn persist_path(&self) -> (r: &str)
        ensures
            r@ == match self.persist_file {
                Some(p) => p@,
                None => "params.ron"@,
            },
    {
        match &self.persist_file {
            Some(p) => p.as_str(),
            None => "params.ron",
        }
    }
}

/// No two live mappings of a table share a control id.
pub open spec fn mapping_ccs_unique(ms: Seq<MidiMapping>) -> bool {
    forall|i: int, j: int|
        0 <= i < j < ms.len() && (#[trigger] ms[i]).cc is Some && (#[trigger] ms[j]).cc is Some
            ==> ms[i].cc != ms[j].cc
}

/// A valid mapping table: every mapping well formed, one field per
/// mapping, one control id per live mapping.
pub open spec fn table_ok(ms: Seq<MidiMapping>) -> bool {
    &&& forall|k: int| 0 <= k < ms.len() ==> (#[trigger] ms[k]).wf()
    &&& mapping_names_unique(ms)
    &&& mapping_ccs_unique(ms)
}

/// Check a mapping table for validity, as `table_ok` states it.
fn check_table(ms: &Vec<MidiMapping>) -> (ok: bool)
    ensures
        ok == table_ok(ms@),
{
    let n = ms.len();
    let mut i: usize = 0;
    while i < n
        invariant
            n == ms@.len(),
            i <= n,
            forall|k: int| 0 <= k < i ==> (#[trigger] ms@[k]).wf(),
        decreases n - i,
    {
        if !ms[i].check_wf() {
            return false;
        }
        i += 1;
    }
    let mut a: usize = 0;
    while a < n
        invariant
            n == ms@.len(),
            a <= n,
            forall|k: int| 0 <= k < n ==> (#[trigger] ms@[k]).wf(),
            forall|x: int, y: int|
                0 <= x < y < n && x < a ==> (#[trigger] ms@[x]).field_name@ != (
                #[trigger] ms@[y]).field_name@,
            forall|x: int, y: int|
                0 <= x < y < n && x < a && (#[trigger] ms@[x]).cc is Some && (
                #[trigger] ms@[y]).cc is Some ==> ms@[x].cc != ms@[y].cc,
        decreases n - a,
    {
        let mut b: usize = a + 1;
        while b < n
            invariant
                n == ms@.len(),
                a < b || a + 1 == b,
                a < n,
                a + 1 <= b <= n,
                forall|k: int| 0 <= k < n ==> (#[trigger] ms@[k]).wf(),
                forall|x: int, y: int|
                    0 <= x < y < n && x < a ==> (#[trigger] ms@[x]).field_name@ != (
                    #[trigger] ms@[y]).field_name@,
                forall|x: int, y: int|
                    0 <= x < y < n && x < a && (#[trigger] ms@[x]).cc is Some && (
                    #[trigger] ms@[y]).cc is Some ==> ms@[x].cc != ms@[y].cc,
                forall|y: int|
                    a < y < b ==> (#[trigger] ms@[y]).field_name@ != ms@[a as int].field_name@,
                forall|y: int|
                    a < y < b && (#[trigger] ms@[y]).cc is Some && ms@[a as int].cc is Some ==> ms@[
                        y
                    ].cc != ms@[a as int].cc,
            decreases n - b,
        {
            if ms[a].field_name == ms[b].field_name {
                return false;
            }
            let cc_clash = match (ms[a].cc, ms[b].cc) {
                (Some(x), Some(y)) => x == y,
                _ => false,
            };
            if cc_clash {
                return false;
            }
            b += 1;
        }
        a += 1;
    }
    true
}

/// One registered parameter-struct type: its stable name, its mapping
/// table, the live parameter set, and the reconciliation state.
///
/// `seeded` records the one-time startup transition from default values to
/// persisted values; `dirty` records that the live values changed since
/// they were last merged into the persistence file.
#[derive(Debug)]
pub struct RegisteredParams {
    /// The type's stable name, keying its persisted document.
    pub name: String,
    /// The type's mapping table.
    pub mappings: Vec<MidiMapping>,
    /// The live parameter set of this type's one instance.
    pub params: ParamSet,
    /// Whether startup seeding has run for this type.
    pub seeded: bool,
    /// Whether the live values await a merge into the persistence file.
    pub dirty: bool,
}

impl RegisteredParams {
    /// The parameter set is well formed and the table is valid.
    pub open spec fn wf(self) -> bool {
        &&& self.params.wf()
        &&& table_ok(self.mappings@)
    }

    /// Run the sync engine for this type and remember a change in the
    /// dirty flag.
    pub fn sync_one(&mut self, ctrl: &mut MidiController) -> (changed: bool)
        requires
            old(self).wf(),
            old(ctrl).wf(),
        ensures
            final(self).wf(),
            final(ctrl).wf(),
            ({
                let r = apply_seq_spec(
                    old(self).mappings@,
                    old(self).params.fields@,
                    old(ctrl).pending@,
                    old(ctrl).values@,
                );
                &&& final(self).params.fields@ == r.0
                &&& final(ctrl).pending@ == r.1
                &&& changed == r.2
            }),
            final(self).name == old(self).name,
            final(self).mappings@ == old(self).mappings@,
            final(self).seeded == old(self).seeded,
            final(self).dirty == (old(self).dirty || changed),
            final(ctrl).values@ == old(ctrl).values@,
            final(ctrl).mappings@ == old(ctrl).mappings@,
            final(ctrl).registered_types@ == old(ctrl).registered_types@,
            final(ctrl).persist_file_path == old(ctrl).persist_file_path,
    {
        let changed = apply(&mut self.params, &self.mappings, ctrl);
        if changed {
            self.dirty = true;
        }
        changed
    }
}

/// No two registry entries bear the same type name.
pub open spec fn entry_names_unique(s: Seq<RegisteredParams>) -> bool {
    forall|i: int, j: int|
        0 <= i < j < s.len() ==> (#[trigger] s[i]).name@ != (#[trigger] s[j]).name@
}

/// Some registry entry bears the name `n`.
pub open spec fn registry_has(s: Seq<RegisteredParams>, n: Seq<char>) -> bool {
    exists|i: int| 0 <= i < s.len() && (#[trigger] s[i]).name@ == n
}

/// The registry of parameter-struct types: one entry per registered type,
/// built explicitly at application bootstrap and reconciled each update
/// cycle.
#[derive(Debug)]
pub struct Registry {
    /// The registered types, in registration order.
    pub entries: Vec<RegisteredParams>,
}

impl Registry {
    /// Entry names are unique and every entry is well formed.
    pub open spec fn wf(self) -> bool {
        &&& entry_names_unique(self.entries@)
        &&& forall|i: int| 0 <= i < self.entries@.len() ==> (#[trigger] self.entries@[i]).wf()
    }

    /// An empty registry.
    pub fn new() -> (r: Self)
        ensures
            r.wf(),
            r.entries@.len() == 0,
    {
        Self { entries: Vec::new() }
    }

    /// Number of registered types.
    pub fn len(&self) -> (n: usize)
        ensures
            n == self.entries@.len(),
    {
        self.entries.len()
    }

    /// Register a parameter-struct type: its name, its mapping table, and
    /// its default values. A malformed table (an ill-formed mapping, two
    /// mappings on one field, or two live mappings on one control id) is
    /// rejected with `InvalidMapping` and registers nothing; a name that
    /// is already registered is kept as it was.
    pub fn register_type(&mut self, name: String, mappings: Vec<MidiMapping>, defaults: ParamSet)
        -> (r: MidiResult<()>)
        requires
            old(self).wf(),
            defaults.wf(),
        ensures
            final(self).wf(),
            r is Ok <==> table_ok(mappings@),
            final(self).entries@ == if table_ok(mappings@) && !registry_has(
                old(self).entries@,
                name@,
            ) {
                old(self).entries@.push(
                    (RegisteredParams { name, mappings, params: defaults, seeded: false, dirty: false }),
                )
            } else {
                old(self).entries@
            },
            r is Err ==> r matches Err(MidiError::InvalidMapping(_)),
    {
        if !check_table(&mappings) {
            return Err(MidiError::InvalidMapping("mapping table is malformed".to_owned()));
        }
        let n = self.entries.len();
        let mut i: usize = 0;
        while i < n
            invariant
                n == self.entries@.len(),
                self.entries@ == old(self).entries@,
                old(self).wf(),
                table_ok(mappings@),
                i <= n,
                forall|j: int| 0 <= j < i ==> (#[trigger] self.entries@[j]).name@ != name@,
            decreases n - i,
        {
            if self.entries[i].name == name {
                return Ok(());
            }
            i += 1;
        }
        let ghost s0 = self.entries@;
        self.entries.push(
            RegisteredParams { name, mappings, params: defaults, seeded: false, dirty: false },
        );
        proof {
            let s1 = self.entries@;
            assert forall|a: int, b: int| 0 <= a < b < s1.len() implies (#[trigger] s1[a]).name@
                != (#[trigger] s1[b]).name@ by {
                if b < s0.len() {
                    assert(s1[a] == s0[a] && s1[b] == s0[b]);
                } else {
                    assert(s1[a] == s0[a]);
                }
            }
            assert forall|k: int| 0 <= k < s1.len() implies (#[trigger] s1[k]).wf() by {
                if k < s0.len() {
                    assert(s1[k] == s0[k]);
                }
            }
        }
        Ok(())
    }
}


/// The pending flags after the engine has run over each entry in turn.
pub open spec fn pending_after(
    entries: Seq<RegisteredParams>,
    pending: Seq<bool>,
    values: Seq<u32>,
) -> Seq<bool>
    decreases entries.len(),
{
    if entries.len() == 0 {
        pending
    } else {
        let p2 = apply_seq_spec(
            entries[0].mappings@,
            entries[0].params.fields@,
            pending,
            values,
        ).1;
        pending_after(entries.drop_first(), p2, values)
    }
}

/// Folding one more entry onto the end runs the engine once more on the
/// flags the earlier entries left behind.
proof fn lemma_pending_after_push(
    s: Seq<RegisteredParams>,
    e: RegisteredParams,
    pending: Seq<bool>,
    values: Seq<u32>,
)
    ensures
        pending_after(s.push(e), pending, values) == apply_seq_spec(
            e.mappings@,
            e.params.fields@,
            pending_after(s, pending, values),
            values,
        ).1,
    decreases s.len(),
{
    if s.len() == 0 {
        let p2 = apply_seq_spec(e.mappings@, e.params.fields@, pending, values).1;
        assert(s.push(e)[0] == e);
        assert(s.push(e).drop_first() =~= Seq::<RegisteredParams>::empty());
        assert(pending_after(Seq::<RegisteredParams>::empty(), p2, values) == p2);
        assert(pending_after(s, pending, values) == pending);
    } else {
        let p2 = apply_seq_spec(s[0].mappings@, s[0].params.fields@, pending, values).1;
        assert(s.push(e)[0] == s[0]);
        assert(s.push(e).drop_first() =~= s.drop_first().push(e));
        assert(pending_after(s, pending, values) == pending_after(s.drop_first(), p2, values));
        assert(pending_after(s.push(e), pending, values) == pending_after(
            s.drop_first().push(e),
            p2,
            values,
        ));
        lemma_pending_after_push(s.drop_first(), e, p2, values);
    }
}

/// Whether the engine run for entry `i` of the fold reports a change.
pub open spec fn entry_changed(
    entries: Seq<RegisteredParams>,
    i: int,
    pending: Seq<bool>,
    values: Seq<u32>,
) -> bool {
    apply_seq_spec(
        entries[i].mappings@,
        entries[i].params.fields@,
        pending_after(entries.take(i), pending, values),
        values,
    ).2
}

/// Some entry of `s` is dirty and bears the name `n`.
pub open spec fn dirty_name(s: Seq<RegisteredParams>, n: Seq<char>) -> bool {
    exists|i: int| 0 <= i < s.len() && (#[trigger] s[i]).dirty && s[i].name@ == n
}

impl Registry {
    /// Startup seeding: give every not-yet-seeded entry its persisted
    /// values. An entry whose type has a document in the file takes the
    /// document's values field by field; one without a document keeps its
    /// defaults. Either way the entry is Seeded afterwards, exactly once:
    /// an entry seeded earlier is left alone.
    pub fn seed_from_file(&mut self, file: &MidiPersistFile)
        requires
            old(self).wf(),
        ensures
            final(self).wf(),
            final(self).entries@.len() == old(self).entries@.len(),
            forall|i: int|
                0 <= i < old(self).entries@.len() ==> {
                    let e0 = (#[trigger] old(self).entries@[i]);
                    let e1 = final(self).entries@[i];
                    &&& e1.name == e0.name
                    &&& e1.mappings@ == e0.mappings@
                    &&& e1.dirty == e0.dirty
                    &&& e1.seeded == true
                    &&& e1.params.fields@ == if e0.seeded {
                        e0.params.fields@
                    } else {
                        match record_lookup(file.type_data@, e0.name@) {
                            Some(doc) => seeded(e0.params.fields@, doc),
                            None => e0.params.fields@,
                        }
                    }
                },
    {
        let n = self.entries.len();
        let mut i: usize = 0;
        while i < n
            invariant
                old(self).wf(),
                n == old(self).entries@.len(),
                self.entries@.len() == n,
                i <= n,
                forall|j: int| i <= j < n ==> (#[trigger] self.entries@[j]) == old(self).entries@[j],
                forall|j: int|
                    0 <= j < i ==> {
                        let e0 = (#[trigger] old(self).entries@[j]);
                        let e1 = self.entries@[j];
                        &&& e1.name == e0.name
                        &&& e1.mappings@ == e0.mappings@
                        &&& e1.dirty == e0.dirty
                        &&& e1.seeded == true
                        &&& e1.params.fields@ == if e0.seeded {
                            e0.params.fields@
                        } else {
                            match record_lookup(file.type_data@, e0.name@) {
                                Some(doc) => seeded(e0.params.fields@, doc),
                                None => e0.params.fields@,
                            }
                        }
                        &&& e1.wf()
                    },
            decreases n - i,
        {
            let e = vstd::std_specs::vec::vec_index_mut(&mut self.entries, i);
            if !e.seeded {
                match file.get_type_data(&e.name) {
                    Some(d) => {
                        e.params.from_persist_data(d);
                    },
                    None => {},
                }
                e.seeded = true;
            }
            i += 1;
        }
        proof {
            assert forall|a: int, b: int|
                0 <= a < b < self.entries@.len() implies (#[trigger] self.entries@[a]).name@ != (
            #[trigger] self.entries@[b]).name@ by {
                assert(old(self).entries@[a].name@ != old(self).entries@[b].name@);
            }
            assert forall|k: int| 0 <= k < self.entries@.len() implies (
            #[trigger] self.entries@[k]).wf() by {
                assert(old(self).entries@[k].wf());
            }
        }
    }

    /// One reconciliation pass: run the sync engine for every registered
    /// type in order, against the shared controller. Each type whose
    /// fields changed is marked dirty (awaiting a merge into the
    /// persistence file); the return value says whether any type changed,
    /// the trigger for the load-modify-save round trip downstream.
    pub fn sync(&mut self, ctrl: &mut MidiController) -> (any: bool)
        requires
            old(self).wf(),
            old(ctrl).wf(),
        ensures
            final(self).wf(),
            final(ctrl).wf(),
            final(self).entries@.len() == old(self).entries@.len(),
            final(ctrl).pending@ == pending_after(
                old(self).entries@,
                old(ctrl).pending@,
                old(ctrl).values@,
            ),
            final(ctrl).values@ == old(ctrl).values@,
            final(ctrl).mappings@ == old(ctrl).mappings@,
            final(ctrl).registered_types@ == old(ctrl).registered_types@,
            final(ctrl).persist_file_path == old(ctrl).persist_file_path,
            forall|i: int|
                0 <= i < old(self).entries@.len() ==> {
                    let e0 = (#[trigger] old(self).entries@[i]);
                    let e1 = final(self).entries@[i];
                    let r = apply_seq_spec(
                        e0.mappings@,
                        e0.params.fields@,
                        pending_after(
                            old(self).entries@.take(i),
                            old(ctrl).pending@,
                            old(ctrl).values@,
                        ),
                        old(ctrl).values@,
                    );
                    &&& e1.name == e0.name
                    &&& e1.mappings@ == e0.mappings@
                    &&& e1.seeded == e0.seeded
                    &&& e1.params.fields@ == r.0
                    &&& e1.dirty == (e0.dirty || r.2)
                },
            any == exists|i: int|
                0 <= i < old(self).entries@.len() && #[trigger] entry_changed(
                    old(self).entries@,
                    i,
                    old(ctrl).pending@,
                    old(ctrl).values@,
                ),
    {
        let ghost olde = old(self).entries@;
        let ghost p0 = old(ctrl).pending@;
        let ghost vals = old(ctrl).values@;
        let n = self.entries.len();
        let mut any: bool = false;
        let mut i: usize = 0;
        proof {
            assert(olde.take(0) =~= Seq::<RegisteredParams>::empty());
        }
        while i < n
            invariant
                old(self).wf(),
                olde == old(self).entries@,
                p0 == old(ctrl).pending@,
                vals == old(ctrl).values@,
                n == olde.len(),
                self.entries@.len() == n,
                ctrl.wf(),
                i <= n,
                ctrl.values@ == vals,
                ctrl.mappings@ == old(ctrl).mappings@,
                ctrl.registered_types@ == old(ctrl).registered_types@,
                ctrl.persist_file_path == old(ctrl).persist_file_path,
                ctrl.pending@ == pending_after(olde.take(i as int), p0, vals),
                forall|j: int| i <= j < n ==> (#[trigger] self.entries@[j]) == olde[j],
                forall|j: int|
                    0 <= j < i ==> {
                        let e0 = (#[trigger] olde[j]);
                        let e1 = self.entries@[j];
                        let r = apply_seq_spec(
                            e0.mappings@,
                            e0.params.fields@,
                            pending_after(olde.take(j), p0, vals),
                            vals,
                        );
                        &&& e1.name == e0.name
                        &&& e1.mappings@ == e0.mappings@
                        &&& e1.seeded == e0.seeded
                        &&& e1.params.fields@ == r.0
                        &&& e1.dirty == (e0.dirty || r.2)
                        &&& e1.wf()
                    },
                any == exists|j: int|
                    0 <= j < i && #[trigger] entry_changed(olde, j, p0, vals),
            decreases n - i,
        {
            let ghost pend_pre = ctrl.pending@;
            let e = vstd::std_specs::vec::vec_index_mut(&mut self.entries, i);
            let c = e.sync_one(ctrl);
            proof {
                assert(olde.take(i as int + 1) =~= olde.take(i as int).push(olde[i as int]));
                lemma_pending_after_push(olde.take(i as int), olde[i as int], p0, vals);
                assert(c == entry_changed(olde, i as int, p0, vals));
            }
            let any2 = any || c;
            proof {
                if any {
                    let j = choose|j: int| 0 <= j < i && #[trigger] entry_changed(olde, j, p0, vals);
                    assert(0 <= j && j < i as int + 1 && entry_changed(olde, j, p0, vals));
                } else if c {
                    assert(entry_changed(olde, i as int, p0, vals) && 0 <= i as int && i < n);
                } else {
                    assert(!(exists|j: int|
                        0 <= j < i as int + 1 && #[trigger] entry_changed(olde, j, p0, vals))) by {
                        if exists|j: int|
                            0 <= j < i as int + 1 && #[trigger] entry_changed(olde, j, p0, vals) {
                            let j = choose|j: int|
                                0 <= j < i as int + 1 && #[trigger] entry_changed(olde, j, p0, vals);
                            if j < i as int {
                                assert(exists|j2: int|
                                    0 <= j2 < i && #[trigger] entry_changed(olde, j2, p0, vals));
                                assert(false);
                            } else {
                                assert(entry_changed(olde, i as int, p0, vals));
                                assert(false);
                            }
                        }
                    }
                }
            }
            any = any2;
            i += 1;
        }
        proof {
            assert(olde.take(n as int) =~= olde);
            assert forall|a: int, b: int|
                0 <= a < b < self.entries@.len() implies (#[trigger] self.entries@[a]).name@ != (
            #[trigger] self.entries@[b]).name@ by {
                assert(olde[a].name@ != olde[b].name@);
            }
            assert forall|k: int| 0 <= k < self.entries@.len() implies (
            #[trigger] self.entries@[k]).wf() by {
                assert(olde[k].wf());
            }
        }
        any
    }

    /// Merge every dirty entry's document into the persistence file and
    /// clear the dirty flags. Only the dirty entries' records are written;
    /// every record of another name, in particular every other type's
    /// document already in the file, is left exactly as loaded.
    pub fn flush_into(&mut self, file: &mut MidiPersistFile)
        requires
            old(self).wf(),
        ensures
            final(self).wf(),
            final(self).entries@.len() == old(self).entries@.len(),
            forall|i: int|
                0 <= i < old(self).entries@.len() ==> {
                    let e0 = (#[trigger] old(self).entries@[i]);
                    let e1 = final(self).entries@[i];
                    &&& e1.name == e0.name
                    &&& e1.mappings@ == e0.mappings@
                    &&& e1.params.fields@ == e0.params.fields@
                    &&& e1.seeded == e0.seeded
                    &&& e1.dirty == false
                },
            forall|n2: Seq<char>|
                !dirty_name(old(self).entries@, n2) ==> #[trigger] record_lookup(
                    final(file).type_data@,
                    n2,
                ) == record_lookup(old(file).type_data@, n2),
            forall|i: int|
                0 <= i < old(self).entries@.len() && (#[trigger] old(self).entries@[i]).dirty
                    ==> record_lookup(final(file).type_data@, old(self).entries@[i].name@) == Some(
                    old(self).entries@[i].params.fields@,
                ),
            final(file).last_saved == old(file).last_saved,
            final(file).version == old(file).version,
    {
        let ghost olde = old(self).entries@;
        let n = self.entries.len();
        let mut i: usize = 0;
        while i < n
            invariant
                old(self).wf(),
                olde == old(self).entries@,
                n == olde.len(),
                self.entries@.len() == n,
                i <= n,
                forall|j: int| i <= j < n ==> (#[trigger] self.entries@[j]) == olde[j],
                forall|j: int|
                    0 <= j < i ==> {
                        let e0 = (#[trigger] olde[j]);
                        let e1 = self.entries@[j];
                        &&& e1.name == e0.name
                        &&& e1.mappings@ == e0.mappings@
                        &&& e1.params.fields@ == e0.params.fields@
                        &&& e1.seeded == e0.seeded
                        &&& e1.dirty == false
                        &&& e1.wf()
                    },
                forall|n2: Seq<char>|
                    !dirty_name(olde.take(i as int), n2) ==> #[trigger] record_lookup(
                        file.type_data@,
                        n2,
                    ) == record_lookup(old(file).type_data@, n2),
                forall|j: int|
                    0 <= j < i && (#[trigger] olde[j]).dirty ==> record_lookup(
                        file.type_data@,
                        olde[j].name@,
                    ) == Some(olde[j].params.fields@),
                file.last_saved == old(file).last_saved,
                file.version == old(file).version,
            decreases n - i,
        {
            let ghost file_pre = file.type_data@;
            let e = vstd::std_specs::vec::vec_index_mut(&mut self.entries, i);
            let was_dirty = e.dirty;
            if was_dirty {
                let doc = e.params.to_persist_data();
                let nm = e.name.clone();
                file.set_type_data(nm, doc);
                e.dirty = false;
            }
            proof {
                assert(olde.take(i as int + 1) =~= olde.take(i as int).push(olde[i as int]));
                assert forall|n2: Seq<char>|
                    !dirty_name(olde.take(i as int + 1), n2) implies #[trigger] record_lookup(
                    file.type_data@,
                    n2,
                ) == record_lookup(old(file).type_data@, n2) by {
                    assert(!dirty_name(olde.take(i as int), n2)) by {
                        if dirty_name(olde.take(i as int), n2) {
                            let j = choose|j: int|
                                0 <= j < olde.take(i as int).len() && (#[trigger] olde.take(
                                    i as int,
                                )[j]).dirty && olde.take(i as int)[j].name@ == n2;
                            assert(olde.take(i as int + 1)[j] == olde.take(i as int)[j]);
                            assert(dirty_name(olde.take(i as int + 1), n2));
                        }
                    }
                    if was_dirty {
                        assert(olde.take(i as int + 1)[i as int] == olde[i as int]);
                        assert(n2 != olde[i as int].name@);
                    }
                }
                if was_dirty {
                    assert forall|j: int|
                        0 <= j < i as int + 1 && (#[trigger] olde[j]).dirty implies record_lookup(
                        file.type_data@,
                        olde[j].name@,
                    ) == Some(olde[j].params.fields@) by {
                        if j < i as int {
                            assert(olde[j].name@ != olde[i as int].name@);
                        }
                    }
                }
            }
            i += 1;
        }
        proof {
            assert(olde.take(n as int) =~= olde);
            assert forall|a: int, b: int|
                0 <= a < b < self.entries@.len() implies (#[trigger] self.entries@[a]).name@ != (
            #[trigger] self.entries@[b]).name@ by {
                assert(olde[a].name@ != olde[b].name@);
            }
            assert forall|k: int| 0 <= k < self.entries@.len() implies (
            #[trigger] self.entries@[k]).wf() by {
                assert(olde[k].wf());
            }
        }
    }
}

/// The mapping that finally drives a control id after a table has been
/// registered front to back: the last mapping of the table naming that
/// id, if any (last registration wins).
pub open spec fn last_mapping_for(ms: Seq<MidiMapping>, cc: u8) -> Option<MidiMapping>
    decreases ms.len(),
{
    if ms.len() == 0 {
        None
    } else if ms.last().cc == Some(cc) {
        Some(ms.last())
    } else {
        last_mapping_for(ms.drop_last(), cc)
    }
}

/// An owned copy of a mapping.
fn duplicate_mapping(m: &MidiMapping) -> (r: MidiMapping)
    ensures
        r == *m,
{
    MidiMapping {
        cc: m.cc,
        field_name: m.field_name.clone(),
        control_type: m.control_type,
        min_value: m.min_value,
        max_value: m.max_value,
    }
}

/// Register a parameter-struct type for live control and persistence in
/// one step: validate the table, file each live mapping with the
/// controller (last registration per control id wins), record the type
/// name with the controller, and enter the type into the registry with
/// its defaults. A malformed table is rejected with `InvalidMapping` and
/// changes nothing.
pub fn register_midi_control(
    registry: &mut Registry,
    ctrl: &mut MidiController,
    name: String,
    mappings: Vec<MidiMapping>,
    defaults: ParamSet,
) -> (r: MidiResult<()>)
    requires
        old(registry).wf(),
        old(ctrl).wf(),
        defaults.wf(),
    ensures
        final(registry).wf(),
        final(ctrl).wf(),
        r is Ok <==> table_ok(mappings@),
        final(registry).entries@ == if table_ok(mappings@) && !registry_has(
            old(registry).entries@,
            name@,
        ) {
            old(registry).entries@.push(
                (RegisteredParams {
                    name: name,
                    mappings: mappings,
                    params: defaults,
                    seeded: false,
                    dirty: false,
                }),
            )
        } else {
            old(registry).entries@
        },
        table_ok(mappings@) ==> {
            &&& forall|c: int|
                0 <= c < CONTROL_SLOTS ==> match last_mapping_for(mappings@, c as u8) {
                    Some(m) => {
                        &&& (#[trigger] final(ctrl).mappings@[c]) == Some(m)
                        &&& final(ctrl).values@[c] == 0
                        &&& final(ctrl).pending@[c] == false
                    },
                    None => {
                        &&& (#[trigger] final(ctrl).mappings@[c]) == old(ctrl).mappings@[c]
                        &&& final(ctrl).values@[c] == old(ctrl).values@[c]
                        &&& final(ctrl).pending@[c] == old(ctrl).pending@[c]
                    },
                }
            &&& final(ctrl).registered_types@ == if has_name(old(ctrl).registered_types@, name@) {
                old(ctrl).registered_types@
            } else {
                old(ctrl).registered_types@.push(name)
            }
        },
        !table_ok(mappings@) ==> {
            &&& final(ctrl).values@ == old(ctrl).values@
            &&& final(ctrl).pending@ == old(ctrl).pending@
            &&& final(ctrl).mappings@ == old(ctrl).mappings@
            &&& final(ctrl).registered_types@ == old(ctrl).registered_types@
        },
        final(ctrl).persist_file_path == old(ctrl).persist_file_path,
{
    if !check_table(&mappings) {
        return Err(MidiError::InvalidMapping("mapping table is malformed".to_owned()));
    }
    let n = mappings.len();
    let mut i: usize = 0;
    proof {
        assert(mappings@.take(0) =~= Seq::<MidiMapping>::empty());
    }
    while i < n
        invariant
            table_ok(mappings@),
            n == mappings@.len(),
            ctrl.wf(),
            i <= n,
            ctrl.registered_types@ == old(ctrl).registered_types@,
            ctrl.persist_file_path == old(ctrl).persist_file_path,
            forall|c: int|
                0 <= c < CONTROL_SLOTS ==> match last_mapping_for(mappings@.take(i as int), c as u8) {
                    Some(m) => (#[trigger] ctrl.mappings@[c]) == Some(m) && ctrl.values@[c] == 0
                        && ctrl.pending@[c] == false,
                    None => (#[trigger] ctrl.mappings@[c]) == old(ctrl).mappings@[c]
                        && ctrl.values@[c] == old(ctrl).values@[c] && ctrl.pending@[c] == old(
                        ctrl,
                    ).pending@[c],
                },
        decreases n - i,
    {
        let m = duplicate_mapping(&mappings[i]);
        ctrl.register_mapping(m);
        proof {
            let tk = mappings@.take(i as int + 1);
            assert(tk.drop_last() =~= mappings@.take(i as int));
            assert(tk.last() == mappings@[i as int]);
        }
        i += 1;
    }
    proof {
        assert(mappings@.take(n as int) =~= mappings@);
    }
    ctrl.register_type(name.clone());
    registry.register_type(name, mappings, defaults)
}

} // verus!
