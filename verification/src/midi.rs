use crate::mapping::NORM_ONE;
use vstd::arithmetic::div_mod::lemma_div_is_ordered;
use vstd::arithmetic::div_mod::lemma_div_multiples_vanish;
use vstd::arithmetic::div_mod::lemma_div_of0;
use vstd::arithmetic::div_mod::lemma_div_pos_is_pos;
use vstd::arithmetic::mul::lemma_mul_inequality;
use vstd::prelude::*;
use vstd::utf8::encode_utf8;

verus! {

/// Status byte of a control-change message on channel one.
pub const CONTROL_CHANGE_STATUS: u8 = 0xB0;

/// Largest data byte of the wire protocol (values are seven-bit).
pub const DATA_MAX: u8 = 127;

/// What `parse_control_change` returns: the `(control id, data value)`
/// pair of a control-change message, `None` for anything else.
pub open spec fn parse_cc_spec(m: Seq<u8>) -> Option<(u8, u8)> {
    if m.len() >= 3 && m[0] == CONTROL_CHANGE_STATUS {
        Some((m[1], m[2]))
    } else {
        None
    }
}

/// Interpret one raw message from the control surface: a three-byte
/// control-change message yields its `(control id, data value)` pair;
/// any other message is ignored.
pub fn parse_control_change(message: &[u8]) -> (r: Option<(u8, u8)>)
    ensures
        r == parse_cc_spec(message@),
{
    if message.len() >= 3 && message[0] == CONTROL_CHANGE_STATUS {
        Some((message[1], message[2]))
    } else {
        None
    }
}

/// What `normalized_from_midi` returns: the seven-bit data value mapped
/// affinely onto `[0, NORM_ONE]`, with out-of-protocol bytes saturating.
pub open spec fn normalized_spec(value: u8) -> int {
    (if value > DATA_MAX {
        DATA_MAX as int
    } else {
        value as int
    }) * (NORM_ONE as int) / (DATA_MAX as int)
}

/// Convert a seven-bit data value to a normalized value in micro-units:
/// zero maps to zero, a full `127` maps to a full throw.
pub fn normalized_from_midi(value: u8) -> (r: u32)
    ensures
        r == normalized_spec(value),
        r <= NORM_ONE,
        value == 0 ==> r == 0,
        value >= DATA_MAX ==> r == NORM_ONE,
{
    let v: u32 = if value > DATA_MAX {
        DATA_MAX as u32
    } else {
        value as u32
    };
    let r = (v * NORM_ONE) / (DATA_MAX as u32);
    proof {
        lemma_div_pos_is_pos((v * NORM_ONE) as int, DATA_MAX as int);
        lemma_mul_inequality(v as int, DATA_MAX as int, NORM_ONE as int);
        lemma_div_is_ordered(
            (v * NORM_ONE) as int,
            (DATA_MAX as int) * (NORM_ONE as int),
            DATA_MAX as int,
        );
        assert((DATA_MAX as int) * (NORM_ONE as int) == (NORM_ONE as int) * (DATA_MAX as int));
        lemma_div_multiples_vanish(NORM_ONE as int, DATA_MAX as int);
        if value == 0 {
            lemma_div_of0(DATA_MAX as int);
        }
    }
    r
}

/// ASCII lower-casing of one byte.
pub open spec fn lower_byte(b: u8) -> u8 {
    if 65 <= b <= 90 {
        (b + 32) as u8
    } else {
        b
    }
}

/// `needle` occurs in `hay` at offset `k`, compared without ASCII case.
pub open spec fn match_at(hay: Seq<u8>, needle: Seq<u8>, k: int) -> bool {
    &&& 0 <= k
    &&& k + needle.len() <= hay.len()
    &&& forall|j: int|
        0 <= j < needle.len() ==> lower_byte(#[trigger] hay[k + j]) == lower_byte(needle[j])
}

/// `needle` occurs somewhere in `hay`, compared without ASCII case.
pub open spec fn contains_insensitive(hay: Seq<u8>, needle: Seq<u8>) -> bool {
    exists|k: int| match_at(hay, needle, k)
}

/// ASCII lower-casing of one byte.
fn lower_byte_exec(b: u8) -> (r: u8)
    ensures
        r == lower_byte(b),
{
    if 65 <= b && b <= 90 {
        b + 32
    } else {
        b
    }
}

/// Whether `needle` occurs in `hay`, compared without ASCII case.
pub fn contains_ignore_ascii_case(hay: &[u8], needle: &[u8]) -> (found: bool)
    ensures
        found == contains_insensitive(hay@, needle@),
{
    let hn = hay.len();
    let nn = needle.len();
    if nn > hn {
        proof {
            assert forall|k: int| !match_at(hay@, needle@, k) by {}
        }
        return false;
    }
    let mut k: usize = 0;
    while k <= hn - nn
        invariant
            nn <= hn,
            hn == hay@.len(),
            nn == needle@.len(),
            k <= hn - nn + 1,
            forall|k2: int| 0 <= k2 < k ==> !match_at(hay@, needle@, k2),
        decreases hn - nn + 1 - k,
    {
        let mut j: usize = 0;
        let mut all: bool = true;
        while j < nn
            invariant
                nn <= hn,
                hn == hay@.len(),
                nn == needle@.len(),
                k + nn <= hn,
                j <= nn,
                all == forall|j2: int|
                    0 <= j2 < j ==> lower_byte(#[trigger] hay@[k + j2]) == lower_byte(needle@[j2]),
            decreases nn - j,
        {
            if lower_byte_exec(hay[k + j]) != lower_byte_exec(needle[j]) {
                all = false;
                j = nn;
            } else {
                j += 1;
            }
        }
        if all {
            assert(match_at(hay@, needle@, k as int));
            return true;
        }
        k += 1;
    }
    proof {
        assert forall|k2: int| !match_at(hay@, needle@, k2) by {
            if 0 <= k2 <= hn - nn {
                assert(!match_at(hay@, needle@, k2));
            }
        }
    }
    false
}

/// The port `choose_port` picks: the first name containing the preferred
/// substring (without ASCII case), the first port when nothing matches or
/// nothing is preferred, and none when there are no ports at all.
pub open spec fn chosen_port_spec(names: Seq<String>, preferred: Option<String>) -> Option<int> {
    if names.len() == 0 {
        None
    } else {
        match preferred {
            Some(p) => Some(first_match(names, encode_utf8(p@), 0)),
            None => Some(0),
        }
    }
}

/// Index of the first name at or after `k` that contains `pref` (without
/// ASCII case); index zero as the fallback when none does.
pub open spec fn first_match(names: Seq<String>, pref: Seq<u8>, k: int) -> int
    decreases names.len() - k when 0 <= k <= names.len()
{
    if k >= names.len() {
        0
    } else if contains_insensitive(encode_utf8(names[k]@), pref) {
        k
    } else {
        first_match(names, pref, k + 1)
    }
}

/// Pick the input port to connect to, by name: the first whose name
/// contains the preferred name as a substring (compared without ASCII
/// case), the first port as the fallback, and `None` when no port exists.
pub fn choose_port(names: &Vec<String>, preferred: &Option<String>) -> (r: Option<usize>)
    ensures
        match r {
            Some(i) => chosen_port_spec(names@, *preferred) == Some(i as int),
            None => names@.len() == 0 && chosen_port_spec(names@, *preferred) is None,
        },
{
    let n = names.len();
    if n == 0 {
        return None;
    }
    match preferred {
        Some(p) => {
            let pref_bytes = p.as_str().as_bytes();
            let mut k: usize = 0;
            while k < n
                invariant
                    n == names@.len(),
                    n > 0,
                    *preferred == Some(*p),
                    k <= n,
                    pref_bytes@ == encode_utf8(p@),
                    forall|k2: int|
                        0 <= k2 < k ==> !contains_insensitive(
                            encode_utf8((#[trigger] names@[k2])@),
                            encode_utf8(p@),
                        ),
                    first_match(names@, encode_utf8(p@), 0) == first_match(names@, encode_utf8(p@), k as int),
                decreases n - k,
            {
                let name_bytes = names[k].as_str().as_bytes();
                if contains_ignore_ascii_case(name_bytes, pref_bytes) {
                    proof {
                        assert(first_match(names@, encode_utf8(p@), k as int) == k as int);
                    }
                    return Some(k);
                }
                proof {
                    assert(first_match(names@, encode_utf8(p@), k as int) == first_match(
                        names@,
                        encode_utf8(p@),
                        k as int + 1,
                    ));
                }
                k += 1;
            }
            proof {
                assert(first_match(names@, encode_utf8(p@), n as int) == 0);
            }
            Some(0)
        },
        None => Some(0),
    }
}

} // verus!
