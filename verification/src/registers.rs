//! The register file: eight general-purpose 16-bit registers, the program
//! counter and the condition-flag register.
//!
//! The condition register holds exactly one of the POS/ZRO/NEG bits after any
//! flag-affecting write; it is zero before the first such write.  Decoded
//! instructions can only name registers 0 through 7, so the accessors ask for
//! an index below 8.

use vstd::prelude::*;
use crate::bits::as_signed16;

verus! {

/// Condition flag: the last flag-affecting write stored a positive value.
pub const FL_POS: u16 = 1;

/// Condition flag: the last flag-affecting write stored zero.
pub const FL_ZRO: u16 = 2;

/// Condition flag: the last flag-affecting write stored a negative value.
pub const FL_NEG: u16 = 4;

/// Where execution starts: the conventional load origin.
pub const PC_START: u16 = 0x3000;

/// The condition-flag word that classifies `val` under its signed reading.
pub open spec fn flag_for(val: u16) -> u16 {
    if val == 0 {
        FL_ZRO
    } else if val >= 0x8000 {
        FL_NEG
    } else {
        FL_POS
    }
}

/// The register file.
pub struct Registers {
    /// General-purpose registers r0 through r7.
    pub gpr: [u16; 8],
    /// Program counter; always the address of the *next* instruction.
    pub pc: u16,
    /// Condition-flag register.
    pub cond: u16,
}

impl Registers {
    /// A fresh register file: all general registers zero, `pc` at the load
    /// origin, no condition flag set yet.
    pub fn new() -> (r: Registers)
        ensures
            r.gpr@ == seq![0u16, 0u16, 0u16, 0u16, 0u16, 0u16, 0u16, 0u16],
            r.pc == PC_START,
            r.cond == 0,
    {
        let r = Registers { gpr: [0u16; 8], pc: PC_START, cond: 0 };
        proof {
            assert(r.gpr@ =~= seq![0u16, 0u16, 0u16, 0u16, 0u16, 0u16, 0u16, 0u16]);
        }
        r
    }

    /// Read general register `idx`.
    pub fn get_reg(&self, idx: u16) -> (r: u16)
        requires
            idx < 8,
        ensures
            r == self.gpr@[idx as int],
    {
        self.gpr[idx as usize]
    }

    /// Write general register `idx` without touching the flags.
    pub fn set_reg(&mut self, idx: u16, val: u16)
        requires
            idx < 8,
        ensures
            final(self).gpr@ == old(self).gpr@.update(idx as int, val),
            final(self).pc == old(self).pc,
            final(self).cond == old(self).cond,
    {
        self.gpr[idx as usize] = val;
    }

    /// Overwrite the condition register from the signed reading of general
    /// register `idx`.
    pub fn set_cond(&mut self, idx: u16)
        requires
            idx < 8,
        ensures
            final(self).gpr@ == old(self).gpr@,
            final(self).pc == old(self).pc,
            final(self).cond == flag_for(old(self).gpr@[idx as int]),
    {
        let val = self.get_reg(idx);
        if val == 0 {
            self.cond = FL_ZRO;
        } else if val >= 0x8000 {
            self.cond = FL_NEG;
        } else {
            self.cond = FL_POS;
        }
    }

    /// Write general register `idx` and recompute the condition flags from
    /// the stored value.
    pub fn set_reg_with_cond(&mut self, idx: u16, val: u16)
        requires
            idx < 8,
        ensures
            final(self).gpr@ == old(self).gpr@.update(idx as int, val),
            final(self).pc == old(self).pc,
            final(self).cond == flag_for(val),
    {
        self.set_reg(idx, val);
        self.set_cond(idx);
    }
}

/// After any flag-affecting write, exactly one of POS/ZRO/NEG is set, and it
/// matches the signed interpretation of the stored value.
pub proof fn lemma_flag_exclusive(val: u16)
    ensures
        flag_for(val) == FL_POS || flag_for(val) == FL_ZRO || flag_for(val) == FL_NEG,
        flag_for(val) == FL_POS <==> as_signed16(val) > 0,
        flag_for(val) == FL_ZRO <==> as_signed16(val) == 0,
        flag_for(val) == FL_NEG <==> as_signed16(val) < 0,
{
}

} // verus!
