use crate::mapping::ControlType;
use crate::mapping::MidiMapping;
use crate::params::ParamValue;
use crate::registry::RegisteredParams;
use vstd::prelude::*;

verus! {

/// One row of the rendering boundary: a field's name, the domain of the
/// control driving it (none for fields no mapping drives), and its
/// current value. The widget that draws these, and the edits it feeds
/// back, are outside collaborators; an edit comes back through
/// `ParamSet::set_existing` and converges with live control updates in
/// the same save-on-change path.
#[derive(Debug)]
pub struct UiRow {
    /// The field's stable name.
    pub name: String,
    /// The value domain of the mapping driving the field, if any.
    pub domain: Option<ControlType>,
    /// The field's current value.
    pub value: ParamValue,
}

/// Index of the first mapping driving the field named `n`, or `-1`.
pub open spec fn map_idx(ms: Seq<MidiMapping>, n: Seq<char>) -> int
    decreases ms.len(),
{
    if ms.len() == 0 {
        -1
    } else if ms[0].field_name@ == n {
        0
    } else {
        let r = map_idx(ms.drop_first(), n);
        if r < 0 {
            -1
        } else {
            r + 1
        }
    }
}

/// The domain of the first mapping driving the field named `n`, if any.
pub open spec fn domain_for(ms: Seq<MidiMapping>, n: Seq<char>) -> Option<ControlType> {
    if map_idx(ms, n) < 0 {
        None
    } else {
        Some(ms[map_idx(ms, n)].control_type)
    }
}

/// A mapping driving the sought field with no earlier one is the one
/// `map_idx` finds.
proof fn lemma_map_idx_finds(ms: Seq<MidiMapping>, n: Seq<char>, i: int)
    requires
        0 <= i < ms.len(),
        ms[i].field_name@ == n,
        forall|j: int| 0 <= j < i ==> ms[j].field_name@ != n,
    ensures
        map_idx(ms, n) == i,
    decreases i,
{
    if i == 0 {
    } else {
        assert(ms.drop_first()[i - 1] == ms[i]);
        assert forall|j: int| 0 <= j < i - 1 implies ms.drop_first()[j].field_name@ != n by {
            assert(ms.drop_first()[j] == ms[j + 1]);
        }
        lemma_map_idx_finds(ms.drop_first(), n, i - 1);
    }
}

/// When no mapping drives the sought field, `map_idx` reports `-1`.
proof fn lemma_map_idx_misses(ms: Seq<MidiMapping>, n: Seq<char>)
    requires
        forall|j: int| 0 <= j < ms.len() ==> ms[j].field_name@ != n,
    ensures
        map_idx(ms, n) == -1,
    decreases ms.len(),
{
    if ms.len() == 0 {
    } else {
        assert forall|j: int|
            0 <= j < ms.drop_first().len() implies ms.drop_first()[j].field_name@ != n by {
            assert(ms.drop_first()[j] == ms[j + 1]);
        }
        lemma_map_idx_misses(ms.drop_first(), n);
    }
}

impl RegisteredParams {
    /// The rendering rows for this type: one per field, in field order,
    /// each carrying the field's name and current value and the domain of
    /// the mapping that drives it (none for persist-only or unmapped
    /// fields keyed by another name).
    pub fn ui_rows(&self) -> (rows: Vec<UiRow>)
        ensures
            rows@.len() == self.params.fields@.len(),
            forall|i: int|
                0 <= i < rows@.len() ==> {
                    let f = self.params.fields@[i];
                    let row = (#[trigger] rows@[i]);
                    &&& row.name == f.name
                    &&& row.value == f.value
                    &&& row.domain == domain_for(self.mappings@, f.name@)
                },
    {
        let mut rows: Vec<UiRow> = Vec::new();
        let n = self.params.fields.len();
        let mut i: usize = 0;
        while i < n
            invariant
                n == self.params.fields@.len(),
                i <= n,
                rows@.len() == i,
                forall|k: int|
                    0 <= k < i ==> {
                        let f = self.params.fields@[k];
                        let row = (#[trigger] rows@[k]);
                        &&& row.name == f.name
                        &&& row.value == f.value
                        &&& row.domain == domain_for(self.mappings@, f.name@)
                    },
            decreases n - i,
        {
            let field = &self.params.fields[i];
            let domain = domain_lookup(&self.mappings, &field.name);
            rows.push(UiRow { name: field.name.clone(), domain, value: field.value });
            i += 1;
        }
        rows
    }
}

/// The domain of the first mapping of `ms` driving the field named
/// `name`, if any.
fn domain_lookup(ms: &Vec<MidiMapping>, name: &String) -> (r: Option<ControlType>)
    ensures
        r == domain_for(ms@, name@),
{
    let n = ms.len();
    let mut j: usize = 0;
    while j < n
        invariant
            n == ms@.len(),
            j <= n,
            forall|k: int| 0 <= k < j ==> ms@[k].field_name@ != name@,
        decreases n - j,
    {
        if ms[j].field_name == *name {
            proof {
                lemma_map_idx_finds(ms@, name@, j as int);
            }
            return Some(ms[j].control_type);
        }
        j += 1;
    }
    proof {
        lemma_map_idx_misses(ms@, name@);
    }
    None
}

} // verus!
