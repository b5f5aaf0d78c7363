//! Rate control words of the AMBE-3000 vocoder chip.

use vstd::prelude::*;

verus! {

/// D-Star, 3600 / 2400 (rate index 23).
pub const RATEP_DSTAR: [u8; 12] = [
    0x01, 0x30, 0x07, 0x63, 0x40, 0x00, 0x00, 0x00, 0x00, 0x00, 0x00, 0x48,
];

/// DMR and P25 half rate: 2450 voice, 1150 FEC (rate index 33).
pub const RATEP_DMR: [u8; 12] = [
    0x04, 0x31, 0x07, 0x54, 0x24, 0x00, 0x00, 0x00, 0x00, 0x00, 0x6F, 0x48,
];

/// 2450 voice without FEC (rate index 34).
pub const RATEP_RAW: [u8; 12] = [
    0x04, 0x31, 0x07, 0x54, 0x00, 0x00, 0x00, 0x00, 0x00, 0x00, 0x70, 0x31,
];

/// 3400: 2250 voice, 1150 FEC (rate index 35).
pub const RATEP_IDX35: [u8; 12] = [
    0x04, 0x2D, 0x07, 0x54, 0x24, 0x00, 0x00, 0x00, 0x00, 0x00, 0x79, 0x44,
];

/// Known rates with their names.
pub const KNOWN_RATES: [(&'static str, [u8; 12]); 4] = [
    ("DMR / P25 half-rate (idx 33)", RATEP_DMR),
    ("raw 2450 voice (idx 34)", RATEP_RAW),
    ("D-Star (idx 23)", RATEP_DSTAR),
    ("rate idx 35 (3400/2250/1150)", RATEP_IDX35),
];

/// Whether two sets of control words are the same.
fn same_words(a: &[u8; 12], b: &[u8; 12]) -> (r: bool)
    ensures
        r == (a@ == b@),
{
    let mut i: usize = 0;
    while i < 12
        invariant
            i <= 12,
            forall|k: int| 0 <= k < i ==> a@[k] == b@[k],
        decreases 12 - i,
    {
        if a[i] != b[i] {
            return false;
        }
        i += 1;
    }
    assert(a@ =~= b@);
    true
}

/// The name of known control words.
pub fn rate_name(payload: &[u8; 12]) -> (r: Option<&'static str>)
    ensures
        match r {
            Some(name) => exists|i: int|
                0 <= i < 4 && (#[trigger] KNOWN_RATES@[i]).1@ == payload@ && KNOWN_RATES@[i].0@
                    == name@,
            None => forall|i: int| 0 <= i < 4 ==> (#[trigger] KNOWN_RATES@[i]).1@ != payload@,
        },
{
    let mut i: usize = 0;
    while i < 4
        invariant
            i <= 4,
            forall|k: int| 0 <= k < i ==> (#[trigger] KNOWN_RATES@[k]).1@ != payload@,
        decreases 4 - i,
    {
        if same_words(payload, &KNOWN_RATES[i].1) {
            let name: &'static str = KNOWN_RATES[i].0;
            assert(KNOWN_RATES@[i as int].1@ == payload@);
            return Some(name);
        }
        i += 1;
    }
    None
}

/// Law: no two known rates share their control words, so a name is that of one
/// rate alone.
pub proof fn law_rates_distinct(i: int, j: int)
    requires
        0 <= i < j < 4,
    ensures
        KNOWN_RATES@[i].1@ != KNOWN_RATES@[j].1@,
{
    assert(RATEP_DMR@[1] == 0x31 && RATEP_DMR@[4] == 0x24);
    assert(RATEP_RAW@[1] == 0x31 && RATEP_RAW@[4] == 0x00);
    assert(RATEP_DSTAR@[1] == 0x30);
    assert(RATEP_IDX35@[1] == 0x2D);
}

/// Law: the control words of each rate, with the name that they have.
pub proof fn law_rate_words()
    ensures
        KNOWN_RATES@[0].0@ == "DMR / P25 half-rate (idx 33)"@,
        KNOWN_RATES@[0].1@ == seq![0x04u8, 0x31, 0x07, 0x54, 0x24, 0, 0, 0, 0, 0, 0x6F, 0x48],
        KNOWN_RATES@[1].0@ == "raw 2450 voice (idx 34)"@,
        KNOWN_RATES@[1].1@ == seq![0x04u8, 0x31, 0x07, 0x54, 0, 0, 0, 0, 0, 0, 0x70, 0x31],
        KNOWN_RATES@[2].0@ == "D-Star (idx 23)"@,
        KNOWN_RATES@[2].1@ == seq![0x01u8, 0x30, 0x07, 0x63, 0x40, 0, 0, 0, 0, 0, 0, 0x48],
        KNOWN_RATES@[3].0@ == "rate idx 35 (3400/2250/1150)"@,
        KNOWN_RATES@[3].1@ == seq![0x04u8, 0x2D, 0x07, 0x54, 0x24, 0, 0, 0, 0, 0, 0x79, 0x44],
{
}

} // verus!
