use crate::controller::CONTROL_SLOTS;
use crate::controller::MidiController;
use crate::mapping::ControlType;
use crate::mapping::MidiMapping;
use crate::mapping::NORM_HALF;
use crate::params::field_lookup;
use crate::params::field_set;
use crate::params::lemma_field_set_lookup;
use crate::params::ParamField;
use crate::params::ParamSet;
use crate::params::ParamValue;
use vstd::prelude::*;

verus! {

/// Change tolerance for continuous fields, in micro-units. A candidate
/// value is applied only when it differs from the current field value by
/// more than this, so resending an identical sample never re-marks the
/// field changed. On the fixed-point grid any nonzero difference counts.
pub const CHANGE_EPSILON: i64 = 0;

/// The candidate differs from the current value beyond the tolerance.
pub open spec fn differs(cur: i64, cand: i64) -> bool {
    (if cand >= cur {
        cand - cur
    } else {
        cur - cand
    }) > CHANGE_EPSILON
}

/// No two mappings of a table drive the same field.
pub open spec fn mapping_names_unique(ms: Seq<MidiMapping>) -> bool {
    forall|i: int, j: int|
        0 <= i < j < ms.len() ==> (#[trigger] ms[i]).field_name@ != (#[trigger] ms[j]).field_name@
}

/// Some mapping of `ms` drives the field named `n`.
pub open spec fn maps_field(ms: Seq<MidiMapping>, n: Seq<char>) -> bool {
    exists|i: int| 0 <= i < ms.len() && (#[trigger] ms[i]).field_name@ == n
}

/// One step of the sync engine: what processing a single mapping does to
/// the parameter fields and the pending flags, and whether it changed a
/// field.
///
/// A persist-only mapping is skipped. A range mapping compares the scaled
/// candidate against the current numeric field and assigns on a change
/// beyond the tolerance. A toggle mapping consumes the pending flag of its
/// control id and flips the boolean field exactly when the consumed sample
/// was fresh and above the press threshold; a value at or below the
/// threshold never changes the field.
pub open spec fn apply_one_spec(
    fields: Seq<ParamField>,
    pending: Seq<bool>,
    values: Seq<u32>,
    m: MidiMapping,
) -> (Seq<ParamField>, Seq<bool>, bool) {
    match m.cc {
        None => (fields, pending, false),
        Some(cc) => {
            let v = values[cc as int];
            match m.control_type {
                ControlType::Range { min, max } => {
                    let cand = m.scale_spec(v) as i64;
                    match field_lookup(fields, m.field_name@) {
                        Some(ParamValue::Num(cur)) => if differs(cur, cand) {
                            (field_set(fields, m.field_name@, ParamValue::Num(cand)), pending, true)
                        } else {
                            (fields, pending, false)
                        },
                        _ => (fields, pending, false),
                    }
                },
                ControlType::Button => {
                    let was = pending[cc as int];
                    let pend2 = pending.update(cc as int, false);
                    if was && v > NORM_HALF {
                        match field_lookup(fields, m.field_name@) {
                            Some(ParamValue::Bool(b)) => (
                                field_set(fields, m.field_name@, ParamValue::Bool(!b)),
                                pend2,
                                true,
                            ),
                            _ => (fields, pend2, false),
                        }
                    } else {
                        (fields, pend2, false)
                    }
                },
            }
        },
    }
}

/// The sync engine over a whole mapping table, front to back: the final
/// fields, the final pending flags, and whether any field changed.
pub open spec fn apply_seq_spec(
    ms: Seq<MidiMapping>,
    fields: Seq<ParamField>,
    pending: Seq<bool>,
    values: Seq<u32>,
) -> (Seq<ParamField>, Seq<bool>, bool)
    decreases ms.len(),
{
    if ms.len() == 0 {
        (fields, pending, false)
    } else {
        let step = apply_one_spec(fields, pending, values, ms[0]);
        let rest = apply_seq_spec(ms.drop_first(), step.0, step.1, values);
        (rest.0, rest.1, step.2 || rest.2)
    }
}

/// One engine step touches no field of another name, keeps names and
/// length, and never raises a pending flag.
proof fn lemma_apply_one_frame(
    fields: Seq<ParamField>,
    pending: Seq<bool>,
    values: Seq<u32>,
    m: MidiMapping,
)
    requires
        pending.len() == CONTROL_SLOTS,
    ensures
        ({
            let r = apply_one_spec(fields, pending, values, m);
            &&& r.0.len() == fields.len()
            &&& forall|k: int| 0 <= k < fields.len() ==> (#[trigger] r.0[k]).name@ == fields[k].name@
            &&& forall|n2: Seq<char>|
                n2 != m.field_name@ ==> #[trigger] field_lookup(r.0, n2) == field_lookup(fields, n2)
            &&& r.1.len() == pending.len()
            &&& forall|idx: int| 0 <= idx < pending.len() ==> ((#[trigger] r.1[idx]) ==> pending[idx])
        }),
{
    let r = apply_one_spec(fields, pending, values, m);
    match m.cc {
        None => {},
        Some(cc) => {
            let v = values[cc as int];
            match m.control_type {
                ControlType::Range { min, max } => {
                    let cand = ParamValue::Num(m.scale_spec(v) as i64);
                    lemma_field_set_lookup(fields, m.field_name@, cand);
                    assert(r.0 == fields || r.0 == field_set(fields, m.field_name@, cand));
                    assert(r.1 == pending);
                    assert forall|k: int| 0 <= k < fields.len() implies (#[trigger] r.0[k]).name@
                        == fields[k].name@ by {
                        assert(field_set(fields, m.field_name@, cand)[k].name@ == fields[k].name@);
                    }
                    assert forall|n2: Seq<char>| n2 != m.field_name@ implies #[trigger] field_lookup(
                        r.0,
                        n2,
                    ) == field_lookup(fields, n2) by {
                        assert(field_lookup(field_set(fields, m.field_name@, cand), n2)
                            == field_lookup(fields, n2));
                    }
                },
                ControlType::Button => {
                    assert(r.1 == pending.update(cc as int, false));
                    assert forall|idx: int| 0 <= idx < pending.len() implies ((#[trigger] r.1[idx])
                        ==> pending[idx]) by {
                        if idx != cc as int {
                            assert(r.1[idx] == pending[idx]);
                        }
                    }
                    match field_lookup(fields, m.field_name@) {
                        Some(ParamValue::Bool(b)) => {
                            let flip = ParamValue::Bool(!b);
                            lemma_field_set_lookup(fields, m.field_name@, flip);
                            assert(r.0 == fields || r.0 == field_set(fields, m.field_name@, flip));
                            assert forall|k: int|
                                0 <= k < fields.len() implies (#[trigger] r.0[k]).name@
                                == fields[k].name@ by {
                                assert(field_set(fields, m.field_name@, flip)[k].name@
                                    == fields[k].name@);
                            }
                            assert forall|n2: Seq<char>|
                                n2 != m.field_name@ implies #[trigger] field_lookup(r.0, n2)
                                == field_lookup(fields, n2) by {
                                assert(field_lookup(field_set(fields, m.field_name@, flip), n2)
                                    == field_lookup(fields, n2));
                            }
                        },
                        _ => {
                            assert(r.0 == fields);
                        },
                    }
                },
            }
        },
    }
}

/// The engine run over a table touches no field that the table does not
/// drive, keeps names and length, and never raises a pending flag.
proof fn lemma_apply_seq_frame(
    ms: Seq<MidiMapping>,
    fields: Seq<ParamField>,
    pending: Seq<bool>,
    values: Seq<u32>,
)
    requires
        pending.len() == CONTROL_SLOTS,
    ensures
        ({
            let r = apply_seq_spec(ms, fields, pending, values);
            &&& r.0.len() == fields.len()
            &&& forall|k: int| 0 <= k < fields.len() ==> (#[trigger] r.0[k]).name@ == fields[k].name@
            &&& forall|n2: Seq<char>|
                !maps_field(ms, n2) ==> #[trigger] field_lookup(r.0, n2) == field_lookup(fields, n2)
            &&& r.1.len() == pending.len()
            &&& forall|idx: int| 0 <= idx < pending.len() ==> ((#[trigger] r.1[idx]) ==> pending[idx])
        }),
    decreases ms.len(),
{
    if ms.len() == 0 {
    } else {
        let step = apply_one_spec(fields, pending, values, ms[0]);
        lemma_apply_one_frame(fields, pending, values, ms[0]);
        lemma_apply_seq_frame(ms.drop_first(), step.0, step.1, values);
        let r = apply_seq_spec(ms, fields, pending, values);
        assert forall|n2: Seq<char>| !maps_field(ms, n2) implies #[trigger] field_lookup(r.0, n2)
            == field_lookup(fields, n2) by {
            assert(ms[0].field_name@ != n2);
            assert(!maps_field(ms.drop_first(), n2)) by {
                if maps_field(ms.drop_first(), n2) {
                    let i = choose|i: int|
                        0 <= i < ms.drop_first().len() && (#[trigger] ms.drop_first()[i]).field_name@
                            == n2;
                    assert(ms[i + 1] == ms.drop_first()[i]);
                }
            }
        }
    }
}

/// Applying the engine twice against an unchanged value store changes
/// nothing the second time: the second run reports no change and leaves
/// fields and pending flags exactly as the first run left them.
///
/// This holds because a range field already equals its candidate after the
/// first run, and a toggle's pending flag is consumed by the first run, so
/// the second run sees no fresh press. It asks only that no two mappings
/// of the table drive the same field, which registration enforces.
pub proof fn lemma_apply_twice_unchanged(
    ms: Seq<MidiMapping>,
    fields: Seq<ParamField>,
    pending: Seq<bool>,
    values: Seq<u32>,
)
    requires
        mapping_names_unique(ms),
        pending.len() == CONTROL_SLOTS,
    ensures
        ({
            let r1 = apply_seq_spec(ms, fields, pending, values);
            let r2 = apply_seq_spec(ms, r1.0, r1.1, values);
            &&& r2.0 == r1.0
            &&& r2.1 == r1.1
            &&& r2.2 == false
        }),
    decreases ms.len(),
{
    if ms.len() == 0 {
    } else {
        let m0 = ms[0];
        let rest = ms.drop_first();
        let step = apply_one_spec(fields, pending, values, m0);
        let r1 = apply_seq_spec(ms, fields, pending, values);
        assert(r1.0 == apply_seq_spec(rest, step.0, step.1, values).0);
        assert(r1.1 == apply_seq_spec(rest, step.0, step.1, values).1);
        assert(mapping_names_unique(rest)) by {
            assert forall|i: int, j: int|
                0 <= i < j < rest.len() implies (#[trigger] rest[i]).field_name@ != (
            #[trigger] rest[j]).field_name@ by {
                assert(rest[i] == ms[i + 1]);
                assert(rest[j] == ms[j + 1]);
            }
        }
        assert(!maps_field(rest, m0.field_name@)) by {
            if maps_field(rest, m0.field_name@) {
                let i = choose|i: int|
                    0 <= i < rest.len() && (#[trigger] rest[i]).field_name@ == m0.field_name@;
                assert(rest[i] == ms[i + 1]);
            }
        }
        lemma_apply_one_frame(fields, pending, values, m0);
        lemma_apply_seq_frame(rest, step.0, step.1, values);
        lemma_apply_twice_unchanged(rest, step.0, step.1, values);
        // The second pass of m0 on the state the first full run left behind.
        let step2 = apply_one_spec(r1.0, r1.1, values, m0);
        match m0.cc {
            None => {
                assert(step2 == (r1.0, r1.1, false));
            },
            Some(cc) => {
                let v = values[cc as int];
                match m0.control_type {
                    ControlType::Range { min, max } => {
                        let cand = m0.scale_spec(v) as i64;
                        // The rest of the table does not drive this field,
                        // so the first full run left it as step one did.
                        assert(field_lookup(r1.0, m0.field_name@) == field_lookup(
                            step.0,
                            m0.field_name@,
                        ));
                        match field_lookup(fields, m0.field_name@) {
                            Some(ParamValue::Num(cur)) => {
                                if differs(cur, cand) {
                                    lemma_field_set_lookup(
                                        fields,
                                        m0.field_name@,
                                        ParamValue::Num(cand),
                                    );
                                    assert(field_lookup(step.0, m0.field_name@) == Some(
                                        ParamValue::Num(cand),
                                    ));
                                    assert(!differs(cand, cand));
                                }
                            },
                            _ => {},
                        }
                        assert(step2 == (r1.0, r1.1, false));
                    },
                    ControlType::Button => {
                        // The first step consumed the pending flag, and no
                        // later step raises one.
                        assert(step.1[cc as int] == false);
                        assert(!r1.1[cc as int]);
                        assert(r1.1.update(cc as int, false) =~= r1.1);
                        assert(step2 == (r1.0, r1.1, false));
                    },
                }
            },
        }
        let r2 = apply_seq_spec(ms, r1.0, r1.1, values);
        assert(r2 == (
            apply_seq_spec(rest, step2.0, step2.1, values).0,
            apply_seq_spec(rest, step2.0, step2.1, values).1,
            step2.2 || apply_seq_spec(rest, step2.0, step2.1, values).2,
        ));
    }
}

/// A toggle acts on the edge, not the level: with a fresh sample
/// (pending), processing the mapping flips the boolean field if and only
/// if the sampled normalized value is above the press threshold; and a
/// sample at or below the threshold never changes any field, fresh or
/// not.
pub proof fn lemma_toggle_edge(
    fields: Seq<ParamField>,
    pending: Seq<bool>,
    values: Seq<u32>,
    m: MidiMapping,
    cc: u8,
    b: bool,
)
    requires
        m.cc == Some(cc),
        m.control_type == ControlType::Button,
        field_lookup(fields, m.field_name@) == Some(ParamValue::Bool(b)),
    ensures
        ({
            let r = apply_one_spec(fields, pending, values, m);
            let v = values[cc as int];
            &&& r.2 == (pending[cc as int] && v > NORM_HALF)
            &&& (pending[cc as int] ==> r.2 == (v > NORM_HALF))
            &&& (r.2 ==> field_lookup(r.0, m.field_name@) == Some(ParamValue::Bool(!b)))
            &&& (!r.2 ==> r.0 == fields)
            &&& (v <= NORM_HALF ==> r.0 == fields)
        }),
{
    lemma_field_set_lookup(fields, m.field_name@, ParamValue::Bool(!b));
}

/// Run the sync engine: for every live mapping of the table, read the
/// stored normalized value for its control id and update the
/// corresponding field of `params`, with change detection. Returns whether
/// at least one field changed — the trigger for write-on-change
/// persistence downstream.
///
/// Fields without a mapping are untouched; stored values are not consumed,
/// but toggle mappings consume their control's pending flag, so a press is
/// acted on once. The outcome is exactly `apply_seq_spec` over the state
/// the call started from.
pub fn apply(params: &mut ParamSet, mappings: &Vec<MidiMapping>, ctrl: &mut MidiController) -> (changed: bool)
    requires
        old(params).wf(),
        old(ctrl).wf(),
        forall|i: int| 0 <= i < mappings@.len() ==> (#[trigger] mappings@[i]).wf(),
    ensures
        final(params).wf(),
        final(ctrl).wf(),
        ({
            let r = apply_seq_spec(
                mappings@,
                old(params).fields@,
                old(ctrl).pending@,
                old(ctrl).values@,
            );
            &&& final(params).fields@ == r.0
            &&& final(ctrl).pending@ == r.1
            &&& changed == r.2
        }),
        final(ctrl).values@ == old(ctrl).values@,
        final(ctrl).mappings@ == old(ctrl).mappings@,
        final(ctrl).registered_types@ == old(ctrl).registered_types@,
        final(ctrl).persist_file_path == old(ctrl).persist_file_path,
{
    let n = mappings.len();
    let mut changed: bool = false;
    let mut i: usize = 0;
    proof {
        assert(mappings@.skip(0) =~= mappings@);
    }
    while i < n
        invariant
            params.wf(),
            ctrl.wf(),
            forall|k: int| 0 <= k < mappings@.len() ==> (#[trigger] mappings@[k]).wf(),
            n == mappings@.len(),
            i <= n,
            ctrl.values@ == old(ctrl).values@,
            ctrl.mappings@ == old(ctrl).mappings@,
            ctrl.registered_types@ == old(ctrl).registered_types@,
            ctrl.persist_file_path == old(ctrl).persist_file_path,
            ({
                let full = apply_seq_spec(
                    mappings@,
                    old(params).fields@,
                    old(ctrl).pending@,
                    old(ctrl).values@,
                );
                let rem = apply_seq_spec(
                    mappings@.skip(i as int),
                    params.fields@,
                    ctrl.pending@,
                    old(ctrl).values@,
                );
                &&& full.0 == rem.0
                &&& full.1 == rem.1
                &&& full.2 == (changed || rem.2)
            }),
        decreases n - i,
    {
        let ghost p_pre = params.fields@;
        let ghost d_pre = ctrl.pending@;
        let m = &mappings[i];
        let mut step_changed: bool = false;
        match m.cc {
            Some(cc) => {
                let v = ctrl.get_value(cc);
                match m.control_type {
                    ControlType::Range { .. } => {
                        let cand = m.scale_value(v);
                        match params.get(&m.field_name) {
                            Some(ParamValue::Num(cur)) => {
                                proof {
                                    assert(mappings@[i as int].wf());
                                    crate::params::lemma_field_lookup_ok(
                                        params.fields@,
                                        m.field_name@,
                                    );
                                }
                                let diff = if cand >= cur {
                                    cand - cur
                                } else {
                                    cur - cand
                                };
                                if diff > CHANGE_EPSILON {
                                    let did = params.set_existing(
                                        &m.field_name,
                                        ParamValue::Num(cand),
                                    );
                                    proof {
                                        assert(did);
                                    }
                                    step_changed = true;
                                }
                            },
                            _ => {},
                        }
                    },
                    ControlType::Button => {
                        let was = ctrl.take_pending(cc);
                        if was && v > NORM_HALF {
                            match params.get(&m.field_name) {
                                Some(ParamValue::Bool(b)) => {
                                    let did = params.set_existing(
                                        &m.field_name,
                                        ParamValue::Bool(!b),
                                    );
                                    proof {
                                        assert(did);
                                    }
                                    step_changed = true;
                                },
                                _ => {},
                            }
                        }
                    },
                }
            },
            None => {},
        }
        proof {
            let mseq = mappings@;
            let step = apply_one_spec(p_pre, d_pre, old(ctrl).values@, mseq[i as int]);
            assert(params.fields@ == step.0);
            assert(ctrl.pending@ == step.1);
            assert(step_changed == step.2);
            assert(mseq.skip(i as int)[0] == mseq[i as int]);
            assert(mseq.skip(i as int).drop_first() =~= mseq.skip(i as int + 1));
        }
        changed = changed || step_changed;
        i += 1;
    }
    changed
}

} // verus!
