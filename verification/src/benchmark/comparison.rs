//! Published resource estimates from prior work, for comparison.
use vstd::prelude::*;
use vstd::string::StringExecFns;

verus! {

/// A published resource estimate.
#[derive(Clone, Debug)]
pub struct PriorWork {
    pub author: String,
    pub year: u16,
    pub field_bits: usize,
    pub qubits: Option<usize>,
    pub toffoli: Option<usize>,
    pub notes: String,
}

/// The entry describes the given estimate.
pub open spec fn is_entry(
    p: PriorWork,
    author: Seq<char>,
    year: u16,
    field_bits: usize,
    qubits: Option<usize>,
    toffoli: Option<usize>,
    notes: Seq<char>,
) -> bool {
    &&& p.author@ == author
    &&& p.year == year
    &&& p.field_bits == field_bits
    &&& p.qubits == qubits
    &&& p.toffoli == toffoli
    &&& p.notes@ == notes
}

fn entry(
    author: &str,
    year: u16,
    field_bits: usize,
    qubits: Option<usize>,
    toffoli: Option<usize>,
    notes: &str,
) -> (r: PriorWork)
    ensures
        is_entry(r, author@, year, field_bits, qubits, toffoli, notes@),
{
    PriorWork {
        author: String::from_str(author),
        year,
        field_bits,
        qubits,
        toffoli,
        notes: String::from_str(notes),
    }
}

/// Reference numbers from published literature (256-bit ECDLP).
pub fn prior_work_table() -> (r: Vec<PriorWork>)
    ensures
        r@.len() == 5,
        is_entry(
            r@[0],
            "Roetteler et al."@,
            2017,
            256,
            Some(2330),
            Some(448_000_000_000u64 as usize),
            "ASIACRYPT 2017, first detailed ECDLP estimates"@,
        ),
        is_entry(r@[1], "Häner et al."@, 2020, 256, Some(2048), Some(126_000_000_000u64 as usize), "Improved circuits for ECDLP"@),
        is_entry(
            r@[2],
            "Litinski"@,
            2023,
            256,
            None,
            Some(50_000_000),
            "50M Toffoli via windowed arithmetic + measurement-based uncomp"@,
        ),
        is_entry(
            r@[3],
            "Chevignard, Fouque, Schrottenloher"@,
            2026,
            256,
            None,
            None,
            "EUROCRYPT 2026 — INRIA improved circuits"@,
        ),
        is_entry(
            r@[4],
            "Babbush, Zalcman, Gidney et al. (Google)"@,
            2026,
            256,
            None,
            None,
            "March 2026 — ZK proof of point addition only, full circuit withheld"@,
        ),
{
    let mut v: Vec<PriorWork> = Vec::new();
    v.push(
        entry(
            "Roetteler et al.",
            2017,
            256,
            Some(2330),
            Some(448_000_000_000u64 as usize),
            "ASIACRYPT 2017, first detailed ECDLP estimates",
        ),
    );
    v.push(entry("Häner et al.", 2020, 256, Some(2048), Some(126_000_000_000u64 as usize), "Improved circuits for ECDLP"));
    v.push(
        entry(
            "Litinski",
            2023,
            256,
            None,
            Some(50_000_000),
            "50M Toffoli via windowed arithmetic + measurement-based uncomp",
        ),
    );
    v.push(
        entry(
            "Chevignard, Fouque, Schrottenloher",
            2026,
            256,
            None,
            None,
            "EUROCRYPT 2026 — INRIA improved circuits",
        ),
    );
    v.push(
        entry(
            "Babbush, Zalcman, Gidney et al. (Google)",
            2026,
            256,
            None,
            None,
            "March 2026 — ZK proof of point addition only, full circuit withheld",
        ),
    );
    v
}

} // verus!
