use crate::mapping::VALUE_LIMIT;
use vstd::prelude::*;

verus! {

/// A typed scalar: the value of one parameter field, numeric (micro-units)
/// or boolean.
#[derive(Debug, Clone, Copy, PartialEq, Eq, Structural)]
pub enum ParamValue {
    /// A continuous value in micro-units.
    Num(i64),
    /// A toggle state.
    Bool(bool),
}

/// One named field of a parameter set.
#[derive(Debug, Clone)]
pub struct ParamField {
    /// Stable field name; doubles as the persistence key.
    pub name: String,
    /// Current value.
    pub value: ParamValue,
}

/// A parameter struct instance: an aggregate of named, typed fields.
///
/// Each field is either numeric (driven by a `Range` mapping) or boolean
/// (driven by a `Toggle` mapping); fields with no mapping are still
/// persisted but never live-driven. Field names are unique.
#[derive(Debug, Clone)]
pub struct ParamSet {
    /// The fields, in declaration order.
    pub fields: Vec<ParamField>,
}

/// A numeric value stays within `VALUE_LIMIT`; booleans are unconstrained.
pub open spec fn value_ok(v: ParamValue) -> bool {
    match v {
        ParamValue::Num(n) => -VALUE_LIMIT <= n <= VALUE_LIMIT,
        ParamValue::Bool(_) => true,
    }
}

/// Two values carry the same kind of scalar (both numeric or both boolean).
pub open spec fn same_kind(a: ParamValue, b: ParamValue) -> bool {
    match (a, b) {
        (ParamValue::Num(_), ParamValue::Num(_)) => true,
        (ParamValue::Bool(_), ParamValue::Bool(_)) => true,
        _ => false,
    }
}

/// No two fields share a name.
pub open spec fn names_unique(s: Seq<ParamField>) -> bool {
    forall|i: int, j: int|
        0 <= i < j < s.len() ==> (#[trigger] s[i]).name@ != (#[trigger] s[j]).name@
}

/// Index of the first field named `name`, or `-1` if there is none.
pub open spec fn field_idx(s: Seq<ParamField>, name: Seq<char>) -> int
    decreases s.len(),
{
    if s.len() == 0 {
        -1
    } else if s[0].name@ == name {
        0
    } else {
        let r = field_idx(s.drop_first(), name);
        if r < 0 {
            -1
        } else {
            r + 1
        }
    }
}

/// The value of the field named `name`, if present.
pub open spec fn field_lookup(s: Seq<ParamField>, name: Seq<char>) -> Option<ParamValue> {
    if field_idx(s, name) < 0 {
        None
    } else {
        Some(s[field_idx(s, name)].value)
    }
}

/// `s` with the value of the field named `name` replaced by `v`; `s`
/// itself if there is no such field.
pub open spec fn field_set(s: Seq<ParamField>, name: Seq<char>, v: ParamValue) -> Seq<ParamField> {
    if field_idx(s, name) < 0 {
        s
    } else {
        s.update(field_idx(s, name), ParamField { name: s[field_idx(s, name)].name, value: v })
    }
}

/// `field_idx` finds a field within bounds bearing the sought name, with no
/// earlier field bearing it; when it reports `-1`, no field bears it.
pub proof fn lemma_field_idx_props(s: Seq<ParamField>, name: Seq<char>)
    ensures
        -1 <= field_idx(s, name) < s.len(),
        field_idx(s, name) >= 0 ==> s[field_idx(s, name)].name@ == name,
        field_idx(s, name) < 0 ==> forall|j: int| 0 <= j < s.len() ==> s[j].name@ != name,
        field_idx(s, name) >= 0 ==> forall|j: int|
            0 <= j < field_idx(s, name) ==> s[j].name@ != name,
    decreases s.len(),
{
    if s.len() == 0 {
    } else if s[0].name@ == name {
    } else {
        lemma_field_idx_props(s.drop_first(), name);
        let r = field_idx(s.drop_first(), name);
        if r < 0 {
            assert forall|j: int| 0 <= j < s.len() implies s[j].name@ != name by {
                if j > 0 {
                    assert(s[j] == s.drop_first()[j - 1]);
                }
            }
        } else {
            assert(s[r + 1] == s.drop_first()[r]);
            assert forall|j: int| 0 <= j < r + 1 implies s[j].name@ != name by {
                if j > 0 {
                    assert(s[j] == s.drop_first()[j - 1]);
                }
            }
        }
    }
}

/// A field bearing the sought name with no earlier match is the one
/// `field_idx` finds.
pub proof fn lemma_field_idx_finds(s: Seq<ParamField>, name: Seq<char>, i: int)
    requires
        0 <= i < s.len(),
        s[i].name@ == name,
        forall|j: int| 0 <= j < i ==> s[j].name@ != name,
    ensures
        field_idx(s, name) == i,
    decreases i,
{
    if i == 0 {
    } else {
        assert(s[0].name@ != name);
        assert(s.drop_first()[i - 1] == s[i]);
        assert forall|j: int| 0 <= j < i - 1 implies s.drop_first()[j].name@ != name by {
            assert(s.drop_first()[j] == s[j + 1]);
        }
        lemma_field_idx_finds(s.drop_first(), name, i - 1);
    }
}

/// When no field bears the sought name, `field_idx` reports `-1`.
pub proof fn lemma_field_idx_misses(s: Seq<ParamField>, name: Seq<char>)
    requires
        forall|j: int| 0 <= j < s.len() ==> s[j].name@ != name,
    ensures
        field_idx(s, name) == -1,
    decreases s.len(),
{
    if s.len() == 0 {
    } else {
        assert forall|j: int| 0 <= j < s.drop_first().len() implies s.drop_first()[j].name@
            != name by {
            assert(s.drop_first()[j] == s[j + 1]);
        }
        lemma_field_idx_misses(s.drop_first(), name);
    }
}

/// Appending a field changes `field_idx` only for its own name, and only
/// when that name was absent.
pub proof fn lemma_field_idx_push(s: Seq<ParamField>, f: ParamField, name: Seq<char>)
    ensures
        field_idx(s.push(f), name) == if field_idx(s, name) >= 0 {
            field_idx(s, name)
        } else if f.name@ == name {
            s.len() as int
        } else {
            -1
        },
    decreases s.len(),
{
    lemma_field_idx_props(s, name);
    let sp = s.push(f);
    if s.len() == 0 {
        assert(sp[0] == f);
        assert(sp.drop_first() =~= Seq::<ParamField>::empty());
        assert(field_idx(sp.drop_first(), name) == -1);
    } else {
        assert(sp[0] == s[0]);
        assert(sp.drop_first() =~= s.drop_first().push(f));
        lemma_field_idx_push(s.drop_first(), f, name);
        lemma_field_idx_props(s.drop_first(), name);
        assert(field_idx(sp, name) == if sp[0].name@ == name {
            0
        } else {
            let r = field_idx(sp.drop_first(), name);
            if r < 0 {
                -1
            } else {
                r + 1
            }
        });
    }
}

/// When two sequences bear the same names at the same places, `field_idx`
/// agrees on them.
pub proof fn lemma_field_idx_same_names(s: Seq<ParamField>, t: Seq<ParamField>, name: Seq<char>)
    requires
        s.len() == t.len(),
        forall|k: int| 0 <= k < s.len() ==> (#[trigger] s[k]).name@ == (#[trigger] t[k]).name@,
    ensures
        field_idx(s, name) == field_idx(t, name),
    decreases s.len(),
{
    if s.len() == 0 {
    } else {
        assert(s[0].name@ == t[0].name@);
        assert forall|k: int|
            0 <= k < s.drop_first().len() implies (#[trigger] s.drop_first()[k]).name@ == (
        #[trigger] t.drop_first()[k]).name@ by {
            assert(s.drop_first()[k] == s[k + 1]);
            assert(t.drop_first()[k] == t[k + 1]);
        }
        lemma_field_idx_same_names(s.drop_first(), t.drop_first(), name);
    }
}

/// How `field_set` affects lookups: the named field now reads `v` (when it
/// exists), every other name reads as before, and names and length are
/// untouched.
pub proof fn lemma_field_set_lookup(s: Seq<ParamField>, name: Seq<char>, v: ParamValue)
    ensures
        field_set(s, name, v).len() == s.len(),
        forall|k: int|
            0 <= k < s.len() ==> (#[trigger] field_set(s, name, v)[k]).name@ == s[k].name@,
        field_lookup(s, name) is Some ==> field_lookup(field_set(s, name, v), name) == Some(v),
        field_lookup(s, name) is None ==> field_set(s, name, v) == s,
        forall|n2: Seq<char>|
            n2 != name ==> #[trigger] field_lookup(field_set(s, name, v), n2) == field_lookup(
                s,
                n2,
            ),
{
    lemma_field_idx_props(s, name);
    let i = field_idx(s, name);
    let t = field_set(s, name, v);
    if i >= 0 {
        assert forall|k: int| 0 <= k < s.len() implies (#[trigger] t[k]).name@ == s[k].name@ by {
            if k != i {
                assert(t[k] == s[k]);
            }
        }
        lemma_field_idx_same_names(s, t, name);
        assert forall|n2: Seq<char>| n2 != name implies #[trigger] field_lookup(t, n2)
            == field_lookup(s, n2) by {
            lemma_field_idx_same_names(s, t, n2);
            lemma_field_idx_props(s, n2);
            let j = field_idx(s, n2);
            if j >= 0 {
                assert(s[j].name@ == n2);
                assert(j != i);
                assert(t[j] == s[j]);
            }
        }
    } else {
        assert forall|n2: Seq<char>| n2 != name implies #[trigger] field_lookup(t, n2)
            == field_lookup(s, n2) by {
        }
    }
}

/// Replacing a field's value with a bounded one keeps a parameter
/// sequence's names unique and its values bounded.
pub proof fn lemma_field_set_preserves_wf(s: Seq<ParamField>, name: Seq<char>, v: ParamValue)
    requires
        names_unique(s),
        forall|i: int| 0 <= i < s.len() ==> value_ok((#[trigger] s[i]).value),
        value_ok(v),
    ensures
        names_unique(field_set(s, name, v)),
        forall|i: int|
            0 <= i < field_set(s, name, v).len() ==> value_ok(
                (#[trigger] field_set(s, name, v)[i]).value,
            ),
{
    lemma_field_idx_props(s, name);
    let t = field_set(s, name, v);
    let x = field_idx(s, name);
    if x >= 0 {
        assert forall|i: int, j: int| 0 <= i < j < t.len() implies (#[trigger] t[i]).name@ != (
        #[trigger] t[j]).name@ by {
            assert(s[i].name@ != s[j].name@);
            if i != x {
                assert(t[i] == s[i]);
            }
            if j != x {
                assert(t[j] == s[j]);
            }
        }
        assert forall|i: int| 0 <= i < t.len() implies value_ok((#[trigger] t[i]).value) by {
            if i != x {
                assert(t[i] == s[i]);
            }
        }
    }
}

/// A value read out of a sequence whose values are all bounded is itself
/// bounded.
pub proof fn lemma_field_lookup_ok(s: Seq<ParamField>, name: Seq<char>)
    requires
        forall|i: int| 0 <= i < s.len() ==> value_ok((#[trigger] s[i]).value),
    ensures
        field_lookup(s, name) matches Some(v) ==> value_ok(v),
{
    lemma_field_idx_props(s, name);
}

impl ParamSet {
    /// Field names are unique and numeric values stay within bounds.
    pub open spec fn wf(self) -> bool {
        &&& names_unique(self.fields@)
        &&& forall|i: int|
            0 <= i < self.fields@.len() ==> value_ok((#[trigger] self.fields@[i]).value)
    }

    /// An empty parameter set.
    pub fn new() -> (r: Self)
        ensures
            r.wf(),
            r.fields@.len() == 0,
    {
        Self { fields: Vec::new() }
    }

    /// Number of fields.
    pub fn len(&self) -> (n: usize)
        ensures
            n == self.fields@.len(),
    {
        self.fields.len()
    }

    /// Look up the value of the field named `name`.
    pub fn get(&self, name: &String) -> (r: Option<ParamValue>)
        ensures
            r == field_lookup(self.fields@, name@),
    {
        let n = self.fields.len();
        let mut i: usize = 0;
        while i < n
            invariant
                n == self.fields@.len(),
                i <= n,
                forall|j: int| 0 <= j < i ==> self.fields@[j].name@ != name@,
            decreases n - i,
        {
            if self.fields[i].name == *name {
                proof {
                    lemma_field_idx_finds(self.fields@, name@, i as int);
                }
                return Some(self.fields[i].value);
            }
            i += 1;
        }
        proof {
            lemma_field_idx_misses(self.fields@, name@);
        }
        None
    }

    /// Replace the value of the existing field named `name`, provided it
    /// carries the same kind of scalar. Returns whether a field was
    /// written. Fields of other names are untouched, and a missing or
    /// kind-mismatched field leaves the set unchanged.
    pub fn set_existing(&mut self, name: &String, v: ParamValue) -> (did: bool)
        requires
            value_ok(v),
        ensures
            did == match field_lookup(old(self).fields@, name@) {
                Some(cur) => same_kind(cur, v),
                None => false,
            },
            final(self).fields@ == if did {
                field_set(old(self).fields@, name@, v)
            } else {
                old(self).fields@
            },
            old(self).wf() ==> final(self).wf(),
    {
        let ghost s0 = self.fields@;
        let n = self.fields.len();
        let mut i: usize = 0;
        while i < n
            invariant
                self.fields@ == s0,
                s0 == old(self).fields@,
                value_ok(v),
                n == s0.len(),
                i <= n,
                forall|j: int| 0 <= j < i ==> s0[j].name@ != name@,
            decreases n - i,
        {
            if self.fields[i].name == *name {
                proof {
                    lemma_field_idx_finds(s0, name@, i as int);
                }
                let matches_kind = match (self.fields[i].value, v) {
                    (ParamValue::Num(_), ParamValue::Num(_)) => true,
                    (ParamValue::Bool(_), ParamValue::Bool(_)) => true,
                    _ => false,
                };
                if matches_kind {
                    let nm = self.fields[i].name.clone();
                    self.fields.set(i, ParamField { name: nm, value: v });
                    proof {
                        assert(self.fields@ == field_set(s0, name@, v));
                        if old(self).wf() {
                            lemma_field_set_preserves_wf(s0, name@, v);
                        }
                    }
                    return true;
                }
                return false;
            }
            i += 1;
        }
        proof {
            lemma_field_idx_misses(s0, name@);
        }
        false
    }

    /// Append a fresh field. Returns whether it was added: a name already
    /// present or an out-of-bounds numeric value leaves the set unchanged.
    pub fn add_field(&mut self, name: String, v: ParamValue) -> (added: bool)
        ensures
            added == (field_lookup(old(self).fields@, name@) is None && value_ok(v)),
            final(self).fields@ == if added {
                old(self).fields@.push(ParamField { name: name, value: v })
            } else {
                old(self).fields@
            },
            old(self).wf() ==> final(self).wf(),
    {
        let fresh = matches!(self.get(&name), None);
        let ok = match v {
            ParamValue::Num(x) => -VALUE_LIMIT <= x && x <= VALUE_LIMIT,
            ParamValue::Bool(_) => true,
        };
        if fresh && ok {
            proof {
                lemma_field_idx_props(self.fields@, name@);
            }
            self.fields.push(ParamField { name, value: v });
            proof {
                if old(self).wf() {
                    let s1 = self.fields@;
                    let s0 = old(self).fields@;
                    assert forall|a: int, b: int| 0 <= a < b < s1.len() implies s1[a].name@
                        != s1[b].name@ by {
                        if b < s0.len() {
                            assert(s1[a] == s0[a] && s1[b] == s0[b]);
                        } else {
                            assert(s1[a] == s0[a]);
                        }
                    }
                }
            }
            true
        } else {
            false
        }
    }
}

} // verus!
