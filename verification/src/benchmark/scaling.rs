//! The field sizes of the scaling projection.
use vstd::prelude::*;
use vstd::string::StringExecFns;

verus! {

/// A projected resource count for a field size.
#[derive(Clone, Debug)]
pub struct ScalingProjection {
    pub field_bits: usize,
    pub projected_qubits: usize,
    pub projected_toffoli: usize,
    pub label: String,
}

/// The field sizes projected from a measured base, with their labels: the
/// base itself when it is at most 8 bits, 16 and 32 when the base is not
/// larger, then 64, 128, 256, 384 and 521.
pub open spec fn scaling_target_list(base: int) -> Seq<(int, Seq<char>)> {
    (if base <= 8 {
        seq![(base, "measured baseline"@)]
    } else {
        Seq::empty()
    }) + (if base <= 16 {
        seq![
            (16int, if base == 16 {
                "Oath-16 (measured)"@
            } else {
                "Oath-16 projection"@
            }),
        ]
    } else {
        Seq::empty()
    }) + (if base <= 32 {
        seq![
            (32int, if base == 32 {
                "Oath-32 (measured)"@
            } else {
                "Oath-32 projection"@
            }),
        ]
    } else {
        Seq::empty()
    }) + seq![
        (64int, if base == 64 {
            "Oath-64 (measured)"@
        } else {
            "Oath-64 projection"@
        }),
        (128int, "Oath-128 projection"@),
        (256int, "Oath-256 / secp256k1"@),
        (384int, "Oath-384 / P-384"@),
        (521int, "Oath-521 / P-521"@),
    ]
}

fn push_target(v: &mut Vec<(usize, String)>, bits: usize, label: &str)
    ensures
        final(v)@.len() == old(v)@.len() + 1,
        forall|i: int| 0 <= i < old(v)@.len() ==> final(v)@[i] == old(v)@[i],
        final(v)@[old(v)@.len() as int].0 == bits,
        final(v)@[old(v)@.len() as int].1@ == label@,
{
    v.push((bits, String::from_str(label)));
}

/// The field sizes and labels of the scaling projection (their sizes are
/// strictly increasing, so no two neighbours share a size).
pub fn scaling_targets(base_bits: usize) -> (r: Vec<(usize, String)>)
    ensures
        r@.len() == scaling_target_list(base_bits as int).len(),
        forall|i: int|
            0 <= i < r@.len() ==> r@[i].0 == scaling_target_list(base_bits as int)[i].0 && r@[i].1@
                == scaling_target_list(base_bits as int)[i].1,
        forall|i: int, j: int| 0 <= i < j < r@.len() ==> r@[i].0 < r@[j].0,
{
    let mut v: Vec<(usize, String)> = Vec::new();
    if base_bits <= 8 {
        push_target(&mut v, base_bits, "measured baseline");
    }
    if base_bits <= 16 {
        if base_bits == 16 {
            push_target(&mut v, 16, "Oath-16 (measured)");
        } else {
            push_target(&mut v, 16, "Oath-16 projection");
        }
    }
    if base_bits <= 32 {
        if base_bits == 32 {
            push_target(&mut v, 32, "Oath-32 (measured)");
        } else {
            push_target(&mut v, 32, "Oath-32 projection");
        }
    }
    if base_bits == 64 {
        push_target(&mut v, 64, "Oath-64 (measured)");
    } else {
        push_target(&mut v, 64, "Oath-64 projection");
    }
    push_target(&mut v, 128, "Oath-128 projection");
    push_target(&mut v, 256, "Oath-256 / secp256k1");
    push_target(&mut v, 384, "Oath-384 / P-384");
    push_target(&mut v, 521, "Oath-521 / P-521");
    v
}

} // verus!
