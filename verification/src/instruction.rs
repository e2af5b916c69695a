//! Instruction decoding and execution.
//!
//! An instruction word carries its opcode in the top four bits; the rest is
//! operand fields at fixed positions.  Each opcode has a handler that mutates
//! the machine per the ISA; RTI and RES have none — executing either is a
//! fault, since this machine has no privileged mode.

use vstd::prelude::*;
use vstd::arithmetic::power2::{pow2, lemma2_to64, lemma_pow2_adds};
use vstd::bits::lemma_u16_shl_is_mul;
use crate::bits::{as_signed16, as_signed_field, lemma_pow2_16_bounds};
use crate::keyboard::KeyboardIO;
use crate::memory::{KBSR, KBDR, valid_read_addr};
use crate::registers::flag_for;
use crate::vm::{VM, VmV, VmError};

verus! {

/// The sixteen opcodes, in the order of their 4-bit encodings.
#[derive(Debug, Clone, Copy, PartialEq, Eq, Structural)]
#[allow(non_camel_case_types)]
pub enum OpCode {
    /// branch
    BR,
    /// add
    ADD,
    /// load
    LD,
    /// store
    ST,
    /// jump to subroutine
    JSR,
    /// bitwise and
    AND,
    /// load base+offset
    LDR,
    /// store base+offset
    STR,
    /// return from interrupt (always a privilege violation here)
    RTI,
    /// bitwise not
    NOT,
    /// load indirect
    LDI,
    /// store indirect
    STI,
    /// jump
    JMP,
    /// reserved (always an illegal instruction)
    RES,
    /// load effective address
    LEA,
    /// trap
    TRAP,
}

/// The opcode encoded in the top four bits of `instr`.
pub open spec fn opcode_of(instr: u16) -> OpCode {
    let op = instr >> 12;
    if op == 0 {
        OpCode::BR
    } else if op == 1 {
        OpCode::ADD
    } else if op == 2 {
        OpCode::LD
    } else if op == 3 {
        OpCode::ST
    } else if op == 4 {
        OpCode::JSR
    } else if op == 5 {
        OpCode::AND
    } else if op == 6 {
        OpCode::LDR
    } else if op == 7 {
        OpCode::STR
    } else if op == 8 {
        OpCode::RTI
    } else if op == 9 {
        OpCode::NOT
    } else if op == 10 {
        OpCode::LDI
    } else if op == 11 {
        OpCode::STI
    } else if op == 12 {
        OpCode::JMP
    } else if op == 13 {
        OpCode::RES
    } else if op == 14 {
        OpCode::LEA
    } else {
        OpCode::TRAP
    }
}

/// Decode the opcode of an instruction word.
pub fn get_opcode(instruction: u16) -> (op: OpCode)
    ensures
        op == opcode_of(instruction),
{
    proof {
        assert(instruction >> 12 < 16) by (bit_vector);
    }
    match instruction >> 12 {
        0 => OpCode::BR,
        1 => OpCode::ADD,
        2 => OpCode::LD,
        3 => OpCode::ST,
        4 => OpCode::JSR,
        5 => OpCode::AND,
        6 => OpCode::LDR,
        7 => OpCode::STR,
        8 => OpCode::RTI,
        9 => OpCode::NOT,
        10 => OpCode::LDI,
        11 => OpCode::STI,
        12 => OpCode::JMP,
        13 => OpCode::RES,
        14 => OpCode::LEA,
        _ => OpCode::TRAP,
    }
}

/// Destination (or source, for stores) register field, bits 11:9.
pub open spec fn dr_of(instr: u16) -> u16 {
    (instr >> 9) & 0b111
}

/// First source (or base) register field, bits 8:6.
pub open spec fn sr1_of(instr: u16) -> u16 {
    (instr >> 6) & 0b111
}

/// Second source register field, bits 2:0.
pub open spec fn sr2_of(instr: u16) -> u16 {
    instr & 0b111
}

/// The register fields and masked immediates all lie in their ranges.
pub proof fn lemma_fields_bounded(instr: u16)
    by (bit_vector)
    ensures
        instr >> 12 < 16,
        (instr >> 9) & 0b111 < 8,
        (instr >> 6) & 0b111 < 8,
        instr & 0b111 < 8,
        instr & 0x1f < 0x20,
        instr & 0x3f < 0x40,
        instr & 0x1ff < 0x200,
        instr & 0x7ff < 0x800,
        instr & 0xff < 0x100,
        (instr >> 5) & 1 < 2,
        (instr >> 11) & 1 < 2,
{
}

/// The 16-bit word whose signed value equals the signed value of the
/// `bits`-wide field `x`: the field widened by replicating its sign bit.
pub open spec fn sext16(x: u16, bits: u16) -> u16
    recommends
        1 <= bits <= 16,
        x < pow2(bits as nat),
{
    if x < pow2((bits - 1) as nat) {
        x
    } else {
        (x + 0x10000 - pow2(bits as nat)) as u16
    }
}

/// Sign extend a value, given the width in bits of the field it occupies.
/// The result reproduces, in 16 bits, the two's-complement value of the
/// narrow field: that is the second `ensures` clause.
pub fn sign_extend(x: u16, bits: u16) -> (r: u16)
    requires
        1 <= bits <= 16,
        x < pow2(bits as nat),
    ensures
        r == sext16(x, bits),
        as_signed16(r) == as_signed_field(x, bits),
{
    if bits < 16 && (x >> (bits - 1)) & 1 == 1 {
        let r = x | (0xffffu16 << bits);
        proof {
            lemma_pow2_16_bounds((bits - 1) as nat);
            lemma_pow2_adds((bits - 1) as nat, 1);
            lemma2_to64();
            lemma_u16_shl_is_mul(1u16, bits);
            lemma_u16_shl_is_mul(1u16, (bits - 1) as u16);
            assert(1u16 << bits == pow2(bits as nat));
            assert(1u16 << ((bits - 1) as u16) == pow2((bits - 1) as nat));
            assert(x | (0xffffu16 << bits) == x + 0x10000 - (1u16 << bits)) by (bit_vector)
                requires
                    1 <= bits < 16,
                    x < (1u16 << bits),
                    (x >> ((bits - 1) as u16)) & 1 == 1,
            ;
            assert(x >= (1u16 << ((bits - 1) as u16))) by (bit_vector)
                requires
                    1 <= bits < 16,
                    (x >> ((bits - 1) as u16)) & 1 == 1,
            ;
            assert(r == x + 0x10000 - pow2(bits as nat));
            assert(pow2(bits as nat) == 2 * pow2((bits - 1) as nat));
            assert(r >= 0x8000);
            assert(r == sext16(x, bits));
        }
        r
    } else {
        proof {
            lemma_pow2_16_bounds((bits - 1) as nat);
            lemma2_to64();
            if bits < 16 {
                lemma_u16_shl_is_mul(1u16, bits);
                lemma_u16_shl_is_mul(1u16, (bits - 1) as u16);
                assert(x < (1u16 << ((bits - 1) as u16))) by (bit_vector)
                    requires
                        1 <= bits < 16,
                        x < (1u16 << bits),
                        (x >> ((bits - 1) as u16)) & 1 != 1,
                ;
                assert(x < pow2((bits - 1) as nat));
            } else {
                assert(bits == 16);
                assert(pow2(15) == 0x8000 && pow2(16) == 0x10000);
            }
        }
        x
    }
}

/// The small powers of two that bound the operand fields.
proof fn lemma_small_pow2()
    ensures
        pow2(5) == 0x20,
        pow2(6) == 0x40,
        pow2(9) == 0x200,
        pow2(11) == 0x800,
{
    lemma2_to64();
}

/// A read of `addr` may hand back `v`: below the device region that is the
/// stored word; the status register reads as ready or idle; the data
/// register reads as a consumed key byte or as the word last stored there.
/// False when `addr` has no defined read mapping.
pub open spec fn read_val(mem: Seq<u16>, addr: u16, v: u16) -> bool {
    if addr < KBSR {
        v == mem[addr as int]
    } else if addr == KBSR {
        v == 0x8000 || v == 0
    } else if addr == KBDR {
        v < 0x100 || v == mem[KBDR as int]
    } else {
        false
    }
}

/// `pre` with general register `dr` set to `v` and the flags recomputed.
pub open spec fn with_reg_cond(pre: VmV, dr: u16, v: u16) -> VmV {
    VmV { gpr: pre.gpr.update(dr as int, v), cond: flag_for(v), ..pre }
}

/// PC-relative effective address: `pc` plus the sign-extended 9-bit offset,
/// wrapping at the top of the address space.
pub open spec fn ea_pc9(pre: VmV, instr: u16) -> u16 {
    pre.pc.wrapping_add(sext16(instr & 0x1ff, 9))
}

/// Base-register effective address: the base register plus the
/// sign-extended 6-bit offset, wrapping.
pub open spec fn ea_base6(pre: VmV, instr: u16) -> u16 {
    pre.gpr[sr1_of(instr) as int].wrapping_add(sext16(instr & 0x3f, 6))
}

/// The sum ADD stores: sr1 plus either sr2 or the 5-bit immediate, wrapping.
pub open spec fn add_result(pre: VmV, instr: u16) -> u16 {
    if (instr >> 5) & 1 == 0 {
        pre.gpr[sr1_of(instr) as int].wrapping_add(pre.gpr[sr2_of(instr) as int])
    } else {
        pre.gpr[sr1_of(instr) as int].wrapping_add(sext16(instr & 0x1f, 5))
    }
}

/// The word AND stores: sr1 bitwise-and either sr2 or the 5-bit immediate.
pub open spec fn and_result(pre: VmV, instr: u16) -> u16 {
    if (instr >> 5) & 1 == 0 {
        pre.gpr[sr1_of(instr) as int] & pre.gpr[sr2_of(instr) as int]
    } else {
        pre.gpr[sr1_of(instr) as int] & sext16(instr & 0x1f, 5)
    }
}

/// What a register load leaves behind: on a readable effective address,
/// some word the read may hand back lands in `dr` with the flags
/// recomputed; on an unmapped one, the machine is unchanged and the read
/// faults.
pub open spec fn load_post(pre: VmV, post: VmV, dr: u16, ea: u16, r: Result<(), VmError>) -> bool {
    if valid_read_addr(ea) {
        &&& r is Ok
        &&& exists|v: u16| read_val(pre.mem, ea, v) && post == with_reg_cond(pre, dr, v)
    } else {
        &&& r == Result::<(), VmError>::Err(VmError::UnimplementedMemoryMap(ea))
        &&& post == pre
    }
}

/// Below the device region a load is deterministic: it succeeds and `dr`
/// receives exactly the stored word.
pub proof fn lemma_load_deterministic(
    pre: VmV,
    post: VmV,
    dr: u16,
    ea: u16,
    r: Result<(), VmError>,
)
    requires
        load_post(pre, post, dr, ea, r),
        ea < KBSR,
    ensures
        r is Ok,
        post == with_reg_cond(pre, dr, pre.mem[ea as int]),
{
    let v = choose|v: u16| read_val(pre.mem, ea, v) && post == with_reg_cond(pre, dr, v);
}

/// What LDI leaves behind: the pointer is fetched PC-relative, then the
/// load goes through it.
pub open spec fn ldi_post(pre: VmV, post: VmV, instr: u16, r: Result<(), VmError>) -> bool {
    let ea = ea_pc9(pre, instr);
    if valid_read_addr(ea) {
        exists|p: u16| read_val(pre.mem, ea, p) && load_post(pre, post, dr_of(instr), p, r)
    } else {
        &&& r == Result::<(), VmError>::Err(VmError::UnimplementedMemoryMap(ea))
        &&& post == pre
    }
}

/// What STI leaves behind: the pointer is fetched PC-relative, then the
/// store goes through it; stores themselves always reach backing storage.
pub open spec fn sti_post(pre: VmV, post: VmV, instr: u16, r: Result<(), VmError>) -> bool {
    let ea = ea_pc9(pre, instr);
    if valid_read_addr(ea) {
        &&& r is Ok
        &&& exists|p: u16|
            read_val(pre.mem, ea, p) && post == (VmV {
                mem: pre.mem.update(p as int, pre.gpr[dr_of(instr) as int]),
                ..pre
            })
    } else {
        &&& r == Result::<(), VmError>::Err(VmError::UnimplementedMemoryMap(ea))
        &&& post == pre
    }
}

/// Whether BR takes the branch: some needed flag is set in the condition
/// register, or the mask is the unconditional 0b111.  A mask of 0b000
/// never branches.
pub open spec fn br_taken(cond: u16, instr: u16) -> bool {
    let need = (instr >> 9) & 0b111;
    need & (cond & 0b111) != 0 || need == 0b111
}

/// The machine after BR.
pub open spec fn br_post(pre: VmV, instr: u16) -> VmV {
    if br_taken(pre.cond, instr) {
        VmV { pc: pre.pc.wrapping_add(sext16(instr & 0x1ff, 9)), ..pre }
    } else {
        pre
    }
}

/// The machine after JSR/JSRR: register 7 receives the pc as it stood
/// before the jump (the address of the following instruction), then the pc
/// moves — PC-relative for JSR, from the base register for JSRR.  JSRR
/// through register 7 reads the just-saved value.
pub open spec fn jsr_post(pre: VmV, instr: u16) -> VmV {
    let saved = pre.gpr.update(7, pre.pc);
    if (instr >> 11) & 1 == 0 {
        VmV { gpr: saved, pc: saved[sr1_of(instr) as int], ..pre }
    } else {
        VmV { gpr: saved, pc: pre.pc.wrapping_add(sext16(instr & 0x7ff, 11)), ..pre }
    }
}

fn op_lea<K: KeyboardIO>(vm: &mut VM<K>, instr: u16)
    requires
        old(vm).wf(),
    ensures
        final(vm).wf(),
        final(vm)@ == with_reg_cond(old(vm)@, dr_of(instr), ea_pc9(old(vm)@, instr)),
{
    proof {
        lemma_fields_bounded(instr);
        lemma_small_pow2();
    }
    let dr = (instr >> 9) & 0b111;
    let offset = sign_extend(instr & 0x1ff, 9);
    let target = vm.registers.pc.wrapping_add(offset);
    vm.registers.set_reg_with_cond(dr, target);
}

fn op_ld<K: KeyboardIO>(vm: &mut VM<K>, instr: u16) -> (r: Result<(), VmError>)
    requires
        old(vm).wf(),
    ensures
        final(vm).wf(),
        load_post(old(vm)@, final(vm)@, dr_of(instr), ea_pc9(old(vm)@, instr), r),
{
    proof {
        lemma_fields_bounded(instr);
        lemma_small_pow2();
    }
    let dr = (instr >> 9) & 0b111;
    let offset = sign_extend(instr & 0x1ff, 9);
    let ea = vm.registers.pc.wrapping_add(offset);
    if !(ea < KBSR || ea == KBSR || ea == KBDR) {
        return Err(VmError::UnimplementedMemoryMap(ea));
    }
    let v = vm.mem.get_mem(ea);
    vm.registers.set_reg_with_cond(dr, v);
    proof {
        assert(read_val(old(vm)@.mem, ea, v) && vm@ == with_reg_cond(old(vm)@, dr_of(instr), v));
        assert(exists|w: u16|
            read_val(old(vm)@.mem, ea, w) && vm@ == with_reg_cond(old(vm)@, dr_of(instr), w));
    }
    Ok(())
}

fn op_ldi<K: KeyboardIO>(vm: &mut VM<K>, instr: u16) -> (r: Result<(), VmError>)
    requires
        old(vm).wf(),
    ensures
        final(vm).wf(),
        ldi_post(old(vm)@, final(vm)@, instr, r),
{
    proof {
        lemma_fields_bounded(instr);
        lemma_small_pow2();
    }
    let dr = (instr >> 9) & 0b111;
    let offset = sign_extend(instr & 0x1ff, 9);
    let ea = vm.registers.pc.wrapping_add(offset);
    if !(ea < KBSR || ea == KBSR || ea == KBDR) {
        return Err(VmError::UnimplementedMemoryMap(ea));
    }
    let pointer = vm.mem.get_mem(ea);
    if !(pointer < KBSR || pointer == KBSR || pointer == KBDR) {
        proof {
            let r = Result::<(), VmError>::Err(VmError::UnimplementedMemoryMap(pointer));
            assert(read_val(old(vm)@.mem, ea, pointer) && load_post(
                old(vm)@,
                vm@,
                dr_of(instr),
                pointer,
                r,
            ));
            assert(exists|p: u16|
                read_val(old(vm)@.mem, ea, p) && load_post(old(vm)@, vm@, dr_of(instr), p, r));
        }
        return Err(VmError::UnimplementedMemoryMap(pointer));
    }
    let v = vm.mem.get_mem(pointer);
    vm.registers.set_reg_with_cond(dr, v);
    proof {
        let r = Result::<(), VmError>::Ok(());
        assert(read_val(old(vm)@.mem, pointer, v) && vm@ == with_reg_cond(
            old(vm)@,
            dr_of(instr),
            v,
        ));
        assert(exists|w: u16|
            read_val(old(vm)@.mem, pointer, w) && vm@ == with_reg_cond(old(vm)@, dr_of(instr), w));
        assert(read_val(old(vm)@.mem, ea, pointer) && load_post(
            old(vm)@,
            vm@,
            dr_of(instr),
            pointer,
            r,
        ));
        assert(exists|p: u16|
            read_val(old(vm)@.mem, ea, p) && load_post(old(vm)@, vm@, dr_of(instr), p, r));
    }
    Ok(())
}

fn op_ldr<K: KeyboardIO>(vm: &mut VM<K>, instr: u16) -> (r: Result<(), VmError>)
    requires
        old(vm).wf(),
    ensures
        final(vm).wf(),
        load_post(old(vm)@, final(vm)@, dr_of(instr), ea_base6(old(vm)@, instr), r),
{
    proof {
        lemma_fields_bounded(instr);
        lemma_small_pow2();
    }
    let dr = (instr >> 9) & 0b111;
    let base_r = (instr >> 6) & 0b111;
    let offset = sign_extend(instr & 0x3f, 6);
    let ea = vm.registers.get_reg(base_r).wrapping_add(offset);
    if !(ea < KBSR || ea == KBSR || ea == KBDR) {
        return Err(VmError::UnimplementedMemoryMap(ea));
    }
    let v = vm.mem.get_mem(ea);
    vm.registers.set_reg_with_cond(dr, v);
    proof {
        assert(read_val(old(vm)@.mem, ea, v) && vm@ == with_reg_cond(old(vm)@, dr_of(instr), v));
        assert(exists|w: u16|
            read_val(old(vm)@.mem, ea, w) && vm@ == with_reg_cond(old(vm)@, dr_of(instr), w));
    }
    Ok(())
}

fn op_jsr<K: KeyboardIO>(vm: &mut VM<K>, instr: u16)
    requires
        old(vm).wf(),
    ensures
        final(vm).wf(),
        final(vm)@ == jsr_post(old(vm)@, instr),
{
    proof {
        lemma_fields_bounded(instr);
        lemma_small_pow2();
    }
    let pc = vm.registers.pc;
    vm.registers.set_reg(7, pc);
    if (instr >> 11) & 1 == 0 {
        let base_r = (instr >> 6) & 0b111;
        let target = vm.registers.get_reg(base_r);
        vm.registers.pc = target;
    } else {
        let offset = sign_extend(instr & 0x7ff, 11);
        vm.registers.pc = pc.wrapping_add(offset);
    }
}

fn op_br<K: KeyboardIO>(vm: &mut VM<K>, instr: u16)
    requires
        old(vm).wf(),
    ensures
        final(vm).wf(),
        final(vm)@ == br_post(old(vm)@, instr),
{
    proof {
        lemma_fields_bounded(instr);
        lemma_small_pow2();
    }
    let offset = sign_extend(instr & 0x1ff, 9);
    // the COND register is part of a wider status word in the full
    // architecture; only its low three bits classify the last write
    let cond = vm.registers.cond & 0b111;
    let need_cond = (instr >> 9) & 0b111;
    if need_cond & cond != 0 || need_cond == 0b111 {
        vm.registers.pc = vm.registers.pc.wrapping_add(offset);
    }
}

fn op_jmp<K: KeyboardIO>(vm: &mut VM<K>, instr: u16)
    requires
        old(vm).wf(),
    ensures
        final(vm).wf(),
        final(vm)@ == (VmV { pc: old(vm)@.gpr[sr1_of(instr) as int], ..old(vm)@ }),
{
    proof {
        lemma_fields_bounded(instr);
    }
    // RET is the special case with base register 7
    let base_r = (instr >> 6) & 0b111;
    let target = vm.registers.get_reg(base_r);
    vm.registers.pc = target;
}

fn op_st<K: KeyboardIO>(vm: &mut VM<K>, instr: u16)
    requires
        old(vm).wf(),
    ensures
        final(vm).wf(),
        final(vm)@ == (VmV {
            mem: old(vm)@.mem.update(
                ea_pc9(old(vm)@, instr) as int,
                old(vm)@.gpr[dr_of(instr) as int],
            ),
            ..old(vm)@
        }),
{
    proof {
        lemma_fields_bounded(instr);
        lemma_small_pow2();
    }
    let sr = (instr >> 9) & 0b111;
    let offset = sign_extend(instr & 0x1ff, 9);
    let ea = vm.registers.pc.wrapping_add(offset);
    let v = vm.registers.get_reg(sr);
    vm.mem.set_mem(ea, v);
}

fn op_sti<K: KeyboardIO>(vm: &mut VM<K>, instr: u16) -> (r: Result<(), VmError>)
    requires
        old(vm).wf(),
    ensures
        final(vm).wf(),
        sti_post(old(vm)@, final(vm)@, instr, r),
{
    proof {
        lemma_fields_bounded(instr);
        lemma_small_pow2();
    }
    let sr = (instr >> 9) & 0b111;
    let offset = sign_extend(instr & 0x1ff, 9);
    let ea = vm.registers.pc.wrapping_add(offset);
    if !(ea < KBSR || ea == KBSR || ea == KBDR) {
        return Err(VmError::UnimplementedMemoryMap(ea));
    }
    let pointer = vm.mem.get_mem(ea);
    let v = vm.registers.get_reg(sr);
    vm.mem.set_mem(pointer, v);
    proof {
        assert(read_val(old(vm)@.mem, ea, pointer) && vm@ == (VmV {
            mem: old(vm)@.mem.update(pointer as int, old(vm)@.gpr[dr_of(instr) as int]),
            ..old(vm)@
        }));
        assert(exists|p: u16|
            read_val(old(vm)@.mem, ea, p) && vm@ == (VmV {
                mem: old(vm)@.mem.update(p as int, old(vm)@.gpr[dr_of(instr) as int]),
                ..old(vm)@
            }));
    }
    Ok(())
}

fn op_str<K: KeyboardIO>(vm: &mut VM<K>, instr: u16)
    requires
        old(vm).wf(),
    ensures
        final(vm).wf(),
        final(vm)@ == (VmV {
            mem: old(vm)@.mem.update(
                ea_base6(old(vm)@, instr) as int,
                old(vm)@.gpr[dr_of(instr) as int],
            ),
            ..old(vm)@
        }),
{
    proof {
        lemma_fields_bounded(instr);
        lemma_small_pow2();
    }
    let sr = (instr >> 9) & 0b111;
    let base_r = (instr >> 6) & 0b111;
    let offset = sign_extend(instr & 0x3f, 6);
    let ea = vm.registers.get_reg(base_r).wrapping_add(offset);
    let v = vm.registers.get_reg(sr);
    vm.mem.set_mem(ea, v);
}

fn op_add<K: KeyboardIO>(vm: &mut VM<K>, instr: u16)
    requires
        old(vm).wf(),
    ensures
        final(vm).wf(),
        final(vm)@ == with_reg_cond(old(vm)@, dr_of(instr), add_result(old(vm)@, instr)),
{
    proof {
        lemma_fields_bounded(instr);
        lemma_small_pow2();
    }
    let dr = (instr >> 9) & 0b111;
    let sr1 = (instr >> 6) & 0b111;
    if (instr >> 5) & 1 == 0 {
        let sr2 = instr & 0b111;
        let res = vm.registers.get_reg(sr1).wrapping_add(vm.registers.get_reg(sr2));
        vm.registers.set_reg_with_cond(dr, res);
    } else {
        let imm = sign_extend(instr & 0x1f, 5);
        let res = vm.registers.get_reg(sr1).wrapping_add(imm);
        vm.registers.set_reg_with_cond(dr, res);
    }
}

fn op_and<K: KeyboardIO>(vm: &mut VM<K>, instr: u16)
    requires
        old(vm).wf(),
    ensures
        final(vm).wf(),
        final(vm)@ == with_reg_cond(old(vm)@, dr_of(instr), and_result(old(vm)@, instr)),
{
    proof {
        lemma_fields_bounded(instr);
        lemma_small_pow2();
    }
    let dr = (instr >> 9) & 0b111;
    let sr1 = (instr >> 6) & 0b111;
    if (instr >> 5) & 1 == 0 {
        let sr2 = instr & 0b111;
        let res = vm.registers.get_reg(sr1) & vm.registers.get_reg(sr2);
        vm.registers.set_reg_with_cond(dr, res);
    } else {
        let imm = sign_extend(instr & 0x1f, 5);
        let res = vm.registers.get_reg(sr1) & imm;
        vm.registers.set_reg_with_cond(dr, res);
    }
}

fn op_not<K: KeyboardIO>(vm: &mut VM<K>, instr: u16)
    requires
        old(vm).wf(),
    ensures
        final(vm).wf(),
        final(vm)@ == with_reg_cond(old(vm)@, dr_of(instr), !old(vm)@.gpr[sr1_of(instr) as int]),
{
    proof {
        lemma_fields_bounded(instr);
    }
    // the destination register receives the complement, as the ISA defines;
    // writing it back into the source register is a common emulator slip
    let dr = (instr >> 9) & 0b111;
    let sr = (instr >> 6) & 0b111;
    let res = !vm.registers.get_reg(sr);
    vm.registers.set_reg_with_cond(dr, res);
}

/// `pre` with the pc saved into register 7, as every trap does before its
/// routine runs.
pub open spec fn with_r7(pre: VmV) -> VmV {
    VmV { gpr: pre.gpr.update(7, pre.pc), ..pre }
}

/// What GETC leaves behind: some key byte lands in register 0,
/// zero-extended; no flag changes, nothing else moves.
pub open spec fn getc_post(pre: VmV, post: VmV) -> bool {
    exists|k: u8| post == (VmV { gpr: #[trigger] pre.gpr.update(0, k as u16), ..pre })
}

/// The two bytes IN prints before it reads: the prompt `> `.
pub open spec fn in_prompt() -> Seq<u8> {
    seq![62u8, 32u8]
}

/// What IN leaves behind: the prompt goes out, a key byte lands in
/// register 0 and is echoed after the prompt.
pub open spec fn in_post(pre: VmV, post: VmV) -> bool {
    exists|k: u8|
        post == (VmV {
            gpr: #[trigger] pre.gpr.update(0, k as u16),
            out: pre.out + in_prompt().push(k),
            ..pre
        })
}

/// The bytes PUTS emits from `addr` on: the low byte of each word up to
/// but not including the first zero word.  `None` when the walk reaches
/// the device region before any zero word: what comes out then depends on
/// the keyboard, or the walk faults.
pub open spec fn puts_out(mem: Seq<u16>, addr: int) -> Option<Seq<u8>>
    decreases KBSR - addr,
{
    if addr < 0 || addr >= KBSR {
        None
    } else if mem[addr] == 0 {
        Some(Seq::empty())
    } else {
        match puts_out(mem, addr + 1) {
            None => None,
            Some(s) => Some(seq![(mem[addr] & 0xff) as u8] + s),
        }
    }
}

/// The bytes PUTSP emits from `addr` on: each word two packed characters,
/// low byte first, up to but not including the first zero byte.  `None` as
/// for [`puts_out`].
pub open spec fn putsp_out(mem: Seq<u16>, addr: int) -> Option<Seq<u8>>
    decreases KBSR - addr,
{
    if addr < 0 || addr >= KBSR {
        None
    } else if mem[addr] & 0xff == 0 {
        Some(Seq::empty())
    } else if mem[addr] >> 8 == 0 {
        Some(seq![(mem[addr] & 0xff) as u8])
    } else {
        match putsp_out(mem, addr + 1) {
            None => None,
            Some(s) => Some(seq![(mem[addr] & 0xff) as u8, (mem[addr] >> 8) as u8] + s),
        }
    }
}

/// What PUTS leaves behind.  When the string starting at register 0 ends in
/// a zero word before the device region, exactly its low bytes go out and
/// the routine succeeds; otherwise registers and memory still stand, the
/// output only grows, and the routine either succeeds or faults on an
/// unmapped read.
pub open spec fn puts_post(pre: VmV, post: VmV, r: Result<(), VmError>) -> bool {
    let res = puts_out(pre.mem, pre.gpr[0] as int);
    &&& (res is Some ==> r is Ok && post == (VmV { out: pre.out + res->Some_0, ..pre }))
    &&& (res is None ==> post.gpr == pre.gpr && post.pc == pre.pc && post.cond == pre.cond
        && post.mem == pre.mem && post.running == pre.running && pre.out.is_prefix_of(post.out)
        && (r is Ok || r matches Err(VmError::UnimplementedMemoryMap(_))))
}

/// What PUTSP leaves behind; as [`puts_post`], with the packed encoding.
pub open spec fn putsp_post(pre: VmV, post: VmV, r: Result<(), VmError>) -> bool {
    let res = putsp_out(pre.mem, pre.gpr[0] as int);
    &&& (res is Some ==> r is Ok && post == (VmV { out: pre.out + res->Some_0, ..pre }))
    &&& (res is None ==> post.gpr == pre.gpr && post.pc == pre.pc && post.cond == pre.cond
        && post.mem == pre.mem && post.running == pre.running && pre.out.is_prefix_of(post.out)
        && (r is Ok || r matches Err(VmError::UnimplementedMemoryMap(_))))
}

/// What TRAP leaves behind: the pc is saved into register 7, then the
/// vector in the low eight bits picks the routine; an undefined vector
/// faults with register 7 already written.
pub open spec fn trap_post(pre: VmV, post: VmV, instr: u16, r: Result<(), VmError>) -> bool {
    let m = with_r7(pre);
    let vect = instr & 0xff;
    if vect == 0x20 {
        r is Ok && getc_post(m, post)
    } else if vect == 0x21 {
        r is Ok && post == (VmV { out: m.out.push((m.gpr[0] & 0xff) as u8), ..m })
    } else if vect == 0x22 {
        puts_post(m, post, r)
    } else if vect == 0x23 {
        r is Ok && in_post(m, post)
    } else if vect == 0x24 {
        putsp_post(m, post, r)
    } else if vect == 0x25 {
        r is Ok && post == (VmV { running: false, ..m })
    } else {
        r == Result::<(), VmError>::Err(VmError::UnimplementedTrap(vect)) && post == m
    }
}

/// GETC: block for a key and store it in register 0, zero-extended,
/// without echo; flags stay as they were.
fn trap_getc<K: KeyboardIO>(vm: &mut VM<K>)
    requires
        old(vm).wf(),
    ensures
        final(vm).wf(),
        getc_post(old(vm)@, final(vm)@),
{
    let k = vm.mem.wait_key();
    vm.registers.set_reg(0, k as u16);
    proof {
        assert(vm@ == (VmV { gpr: old(vm)@.gpr.update(0, k as u16), ..old(vm)@ }));
        assert(exists|w: u8| vm@ == (VmV { gpr: #[trigger] old(vm)@.gpr.update(0, w as u16), ..old(vm)@ }));
    }
}

/// IN: print the prompt, block for a key as GETC does, store it in
/// register 0 and echo it.
fn trap_in<K: KeyboardIO>(vm: &mut VM<K>)
    requires
        old(vm).wf(),
    ensures
        final(vm).wf(),
        in_post(old(vm)@, final(vm)@),
{
    vm.put_byte(62);
    vm.put_byte(32);
    let k = vm.mem.wait_key();
    vm.registers.set_reg(0, k as u16);
    vm.put_byte(k);
    proof {
        assert(vm@.out =~= old(vm)@.out + in_prompt().push(k));
        assert(vm@ == (VmV {
            gpr: old(vm)@.gpr.update(0, k as u16),
            out: old(vm)@.out + in_prompt().push(k),
            ..old(vm)@
        }));
        assert(exists|w: u8|
            vm@ == (VmV {
                gpr: #[trigger] old(vm)@.gpr.update(0, w as u16),
                out: old(vm)@.out + in_prompt().push(w),
                ..old(vm)@
            }));
    }
}

/// PUTS: emit the low byte of each word from the address in register 0 up
/// to the first zero word.
fn trap_puts<K: KeyboardIO>(vm: &mut VM<K>) -> (r: Result<(), VmError>)
    requires
        old(vm).wf(),
    ensures
        final(vm).wf(),
        puts_post(old(vm)@, final(vm)@, r),
{
    let start = vm.registers.get_reg(0);
    let mut idx = start;
    loop
        invariant
            vm.wf(),
            vm@.gpr == old(vm)@.gpr,
            vm@.pc == old(vm)@.pc,
            vm@.cond == old(vm)@.cond,
            vm@.mem == old(vm)@.mem,
            vm@.running == old(vm)@.running,
            start == old(vm)@.gpr[0],
            old(vm)@.out.is_prefix_of(vm@.out),
            puts_out(old(vm)@.mem, start as int) is Some ==> puts_out(old(vm)@.mem, idx as int)
                is Some && old(vm)@.out + puts_out(old(vm)@.mem, start as int)->Some_0 == vm@.out
                + puts_out(old(vm)@.mem, idx as int)->Some_0,
        decreases 0x10000 - idx,
    {
        if !(idx < KBSR || idx == KBSR || idx == KBDR) {
            return Err(VmError::UnimplementedMemoryMap(idx));
        }
        let w = vm.mem.get_mem(idx);
        if w == 0 {
            proof {
                if puts_out(old(vm)@.mem, start as int) is Some {
                    assert(puts_out(old(vm)@.mem, idx as int)->Some_0 =~= Seq::<u8>::empty());
                    assert(vm@.out + puts_out(old(vm)@.mem, idx as int)->Some_0 =~= vm@.out);
                }
            }
            return Ok(());
        }
        vm.put_byte((w & 0xff) as u8);
        proof {
            if puts_out(old(vm)@.mem, start as int) is Some {
                let rest = puts_out(old(vm)@.mem, idx as int)->Some_0;
                let rest2 = puts_out(old(vm)@.mem, idx + 1)->Some_0;
                assert(rest =~= seq![(old(vm)@.mem[idx as int] & 0xff) as u8] + rest2);
                assert(old(vm)@.out + puts_out(old(vm)@.mem, start as int)->Some_0 =~= vm@.out
                    + rest2);
            }
            assert(old(vm)@.out.is_prefix_of(vm@.out));
        }
        idx = idx.wrapping_add(1);
    }
}

/// PUTSP: emit each word from the address in register 0 as two packed
/// characters, low byte first, up to the first zero byte.
fn trap_putsp<K: KeyboardIO>(vm: &mut VM<K>) -> (r: Result<(), VmError>)
    requires
        old(vm).wf(),
    ensures
        final(vm).wf(),
        putsp_post(old(vm)@, final(vm)@, r),
{
    let start = vm.registers.get_reg(0);
    let mut idx = start;
    loop
        invariant
            vm.wf(),
            vm@.gpr == old(vm)@.gpr,
            vm@.pc == old(vm)@.pc,
            vm@.cond == old(vm)@.cond,
            vm@.mem == old(vm)@.mem,
            vm@.running == old(vm)@.running,
            start == old(vm)@.gpr[0],
            old(vm)@.out.is_prefix_of(vm@.out),
            putsp_out(old(vm)@.mem, start as int) is Some ==> putsp_out(old(vm)@.mem, idx as int)
                is Some && old(vm)@.out + putsp_out(old(vm)@.mem, start as int)->Some_0 == vm@.out
                + putsp_out(old(vm)@.mem, idx as int)->Some_0,
        decreases 0x10000 - idx,
    {
        if !(idx < KBSR || idx == KBSR || idx == KBDR) {
            return Err(VmError::UnimplementedMemoryMap(idx));
        }
        let w = vm.mem.get_mem(idx);
        let lo = w & 0xff;
        if lo == 0 {
            proof {
                if putsp_out(old(vm)@.mem, start as int) is Some {
                    assert(putsp_out(old(vm)@.mem, idx as int)->Some_0 =~= Seq::<u8>::empty());
                    assert(vm@.out + putsp_out(old(vm)@.mem, idx as int)->Some_0 =~= vm@.out);
                }
            }
            return Ok(());
        }
        vm.put_byte(lo as u8);
        let hi = w >> 8;
        if hi == 0 {
            proof {
                if putsp_out(old(vm)@.mem, start as int) is Some {
                    assert(putsp_out(old(vm)@.mem, idx as int)->Some_0 =~= seq![(old(
                        vm,
                    )@.mem[idx as int] & 0xff) as u8]);
                    assert(old(vm)@.out + putsp_out(old(vm)@.mem, start as int)->Some_0
                        =~= vm@.out);
                }
            }
            return Ok(());
        }
        vm.put_byte(hi as u8);
        proof {
            if putsp_out(old(vm)@.mem, start as int) is Some {
                let rest = putsp_out(old(vm)@.mem, idx as int)->Some_0;
                let rest2 = putsp_out(old(vm)@.mem, idx + 1)->Some_0;
                assert(rest =~= seq![
                    (old(vm)@.mem[idx as int] & 0xff) as u8,
                    (old(vm)@.mem[idx as int] >> 8) as u8,
                ] + rest2);
                assert(old(vm)@.out + putsp_out(old(vm)@.mem, start as int)->Some_0 =~= vm@.out
                    + rest2);
            }
            assert(old(vm)@.out.is_prefix_of(vm@.out));
        }
        idx = idx.wrapping_add(1);
    }
}

fn op_trap<K: KeyboardIO>(vm: &mut VM<K>, instr: u16) -> (r: Result<(), VmError>)
    requires
        old(vm).wf(),
    ensures
        final(vm).wf(),
        trap_post(old(vm)@, final(vm)@, instr, r),
{
    proof {
        lemma_fields_bounded(instr);
    }
    // the pc goes into register 7 before any routine runs, as the
    // architecture asks, though no routine here returns through it
    let pc = vm.registers.pc;
    vm.registers.set_reg(7, pc);
    proof {
        assert(vm@ == with_r7(old(vm)@));
    }
    let trap_vector = instr & 0xff;
    if trap_vector == 0x20 {
        trap_getc(vm);
        Ok(())
    } else if trap_vector == 0x21 {
        let c = vm.registers.get_reg(0);
        vm.put_byte((c & 0xff) as u8);
        Ok(())
    } else if trap_vector == 0x22 {
        trap_puts(vm)
    } else if trap_vector == 0x23 {
        trap_in(vm);
        Ok(())
    } else if trap_vector == 0x24 {
        trap_putsp(vm)
    } else if trap_vector == 0x25 {
        vm.running = false;
        Ok(())
    } else {
        Err(VmError::UnimplementedTrap(trap_vector))
    }
}

/// What one dispatched instruction leaves behind, by opcode.  This is the
/// whole per-instruction semantics: every handler's contract, joined.
pub open spec fn instr_post(pre: VmV, post: VmV, instr: u16, r: Result<(), VmError>) -> bool {
    match opcode_of(instr) {
        OpCode::BR => r is Ok && post == br_post(pre, instr),
        OpCode::ADD => r is Ok && post == with_reg_cond(pre, dr_of(instr), add_result(pre, instr)),
        OpCode::LD => load_post(pre, post, dr_of(instr), ea_pc9(pre, instr), r),
        OpCode::ST => r is Ok && post == (VmV {
            mem: pre.mem.update(ea_pc9(pre, instr) as int, pre.gpr[dr_of(instr) as int]),
            ..pre
        }),
        OpCode::JSR => r is Ok && post == jsr_post(pre, instr),
        OpCode::AND => r is Ok && post == with_reg_cond(pre, dr_of(instr), and_result(pre, instr)),
        OpCode::LDR => load_post(pre, post, dr_of(instr), ea_base6(pre, instr), r),
        OpCode::STR => r is Ok && post == (VmV {
            mem: pre.mem.update(ea_base6(pre, instr) as int, pre.gpr[dr_of(instr) as int]),
            ..pre
        }),
        OpCode::RTI => r == Result::<(), VmError>::Err(VmError::PrivilegeViolation) && post == pre,
        OpCode::NOT => r is Ok && post == with_reg_cond(
            pre,
            dr_of(instr),
            !pre.gpr[sr1_of(instr) as int],
        ),
        OpCode::LDI => ldi_post(pre, post, instr, r),
        OpCode::STI => sti_post(pre, post, instr, r),
        OpCode::JMP => r is Ok && post == (VmV { pc: pre.gpr[sr1_of(instr) as int], ..pre }),
        OpCode::RES => r == Result::<(), VmError>::Err(VmError::IllegalInstruction) && post == pre,
        OpCode::LEA => r is Ok && post == with_reg_cond(pre, dr_of(instr), ea_pc9(pre, instr)),
        OpCode::TRAP => trap_post(pre, post, instr, r),
    }
}

/// Fetch the word the pc points at.  The pc normally sits below the device
/// region, where the fetch is exactly the stored word; callers rule out an
/// unmapped pc first.
pub fn get_instruction<K: KeyboardIO>(vm: &mut VM<K>) -> (instr: u16)
    requires
        old(vm).wf(),
        valid_read_addr(old(vm).registers.pc),
    ensures
        final(vm).wf(),
        final(vm)@ == old(vm)@,
        read_val(old(vm)@.mem, old(vm)@.pc, instr),
        old(vm)@.pc < KBSR ==> instr == old(vm)@.mem[old(vm)@.pc as int],
{
    let pc = vm.registers.pc;
    vm.mem.get_mem(pc)
}

/// Decode `instr` and run its handler.  RTI and RES fault; everything else
/// runs as [`instr_post`] says.
pub fn execute_instruction<K: KeyboardIO>(vm: &mut VM<K>, instr: u16) -> (r: Result<(), VmError>)
    requires
        old(vm).wf(),
    ensures
        final(vm).wf(),
        instr_post(old(vm)@, final(vm)@, instr, r),
{
    let opcode = get_opcode(instr);
    match opcode {
        OpCode::BR => {
            op_br(vm, instr);
            Ok(())
        },
        OpCode::ADD => {
            op_add(vm, instr);
            Ok(())
        },
        OpCode::LD => op_ld(vm, instr),
        OpCode::ST => {
            op_st(vm, instr);
            Ok(())
        },
        OpCode::JSR => {
            op_jsr(vm, instr);
            Ok(())
        },
        OpCode::AND => {
            op_and(vm, instr);
            Ok(())
        },
        OpCode::LDR => op_ldr(vm, instr),
        OpCode::STR => {
            op_str(vm, instr);
            Ok(())
        },
        OpCode::RTI => Err(VmError::PrivilegeViolation),
        OpCode::NOT => {
            op_not(vm, instr);
            Ok(())
        },
        OpCode::LDI => op_ldi(vm, instr),
        OpCode::STI => op_sti(vm, instr),
        OpCode::JMP => {
            op_jmp(vm, instr);
            Ok(())
        },
        OpCode::RES => Err(VmError::IllegalInstruction),
        OpCode::LEA => {
            op_lea(vm, instr);
            Ok(())
        },
        OpCode::TRAP => op_trap(vm, instr),
    }
}

/// A branch mask of 0b111 branches whatever the condition register holds;
/// a mask of 0b000 never branches.
pub proof fn lemma_br_mask(cond: u16, instr: u16)
    ensures
        (instr >> 9) & 0b111 == 0b111 ==> br_taken(cond, instr),
        (instr >> 9) & 0b111 == 0 ==> !br_taken(cond, instr),
{
    if (instr >> 9) & 0b111 == 0 {
        assert(((instr >> 9) & 0b111) & (cond & 0b111) == 0) by (bit_vector)
            requires
                (instr >> 9) & 0b111 == 0,
        ;
    }
}

/// JSR and JSRR store into register 7 exactly the pc as it stood before
/// the jump — the address of the following instruction, since the pc
/// advances before dispatch — whichever form the jump takes.
pub proof fn lemma_jsr_saves_return(pre: VmV, instr: u16)
    requires
        pre.gpr.len() == 8,
    ensures
        jsr_post(pre, instr).gpr[7] == pre.pc,
{
}

/// Double indirection: when both the PC-relative word and the pointer it
/// holds sit below the device region, LDI succeeds and loads exactly the
/// word the pointer points at.
pub proof fn lemma_ldi_double_indirection(
    pre: VmV,
    post: VmV,
    instr: u16,
    r: Result<(), VmError>,
)
    requires
        ldi_post(pre, post, instr, r),
        ea_pc9(pre, instr) < KBSR,
        pre.mem[ea_pc9(pre, instr) as int] < KBSR,
    ensures
        r is Ok,
        post == with_reg_cond(
            pre,
            dr_of(instr),
            pre.mem[pre.mem[ea_pc9(pre, instr) as int] as int],
        ),
{
    let ea = ea_pc9(pre, instr);
    let p = choose|p: u16| read_val(pre.mem, ea, p) && load_post(pre, post, dr_of(instr), p, r);
    lemma_load_deterministic(pre, post, dr_of(instr), p, r);
}

} // verus!
