//! The machine itself: register file, memory, the console output record,
//! the running flag, and the fetch-advance-dispatch cycle.

use vstd::prelude::*;
use crate::keyboard::KeyboardIO;
use crate::memory::{Memory, MEM_SIZE, KBSR, KBDR, valid_read_addr};
use crate::registers::{Registers, PC_START};
use crate::instruction::{self, OpCode, instr_post, read_val};
use std::io::Write;

verus! {

/// A fault that ends a program run.  Every one of these is unrecoverable:
/// the emulated machine defines no fault handling of its own, so the caller
/// reports the fault and stops.
#[derive(Debug, Clone, Copy, PartialEq, Eq, Structural)]
pub enum VmError {
    /// The reserved opcode was executed.
    IllegalInstruction,
    /// RTI was executed; the machine has no privileged mode to return from.
    PrivilegeViolation,
    /// A trap with an undefined vector (the payload) was executed.
    UnimplementedTrap(u16),
    /// A read of an address in the device region (the payload) with no
    /// defined mapping.
    UnimplementedMemoryMap(u16),
}

/// A program image that could not be loaded.
#[derive(Debug, Clone, Copy, PartialEq, Eq, Structural)]
pub enum LoadError {
    /// The image ends before the two origin-header bytes.
    TruncatedHeader,
}

/// The mathematical state of the machine: what every contract speaks of.
/// The keyboard capability and the debug flag stay outside — the first is
/// the environment, the second only adds tracing.
pub ghost struct VmV {
    /// General-purpose registers r0 through r7.
    pub gpr: Seq<u16>,
    /// Program counter.
    pub pc: u16,
    /// Condition-flag register.
    pub cond: u16,
    /// The 65536-word backing storage.
    pub mem: Seq<u16>,
    /// Every byte sent to the console so far, in order.
    pub out: Seq<u8>,
    /// Whether the execution loop keeps going.
    pub running: bool,
}

/// The virtual machine.
pub struct VM<K: KeyboardIO> {
    /// The address space, with its keyboard capability.
    pub mem: Memory<K>,
    /// The register file.
    pub registers: Registers,
    /// Record of every byte sent to the console, in order.
    pub output: Vec<u8>,
    /// Whether the execution loop keeps going.
    pub running: bool,
    /// Whether each step emits a diagnostic trace line.
    pub debug: bool,
}

impl<K: KeyboardIO> View for VM<K> {
    type V = VmV;

    open spec fn view(&self) -> VmV {
        VmV {
            gpr: self.registers.gpr@,
            pc: self.registers.pc,
            cond: self.registers.cond,
            mem: self.mem@,
            out: self.output@,
            running: self.running,
        }
    }
}

/// Relies on `write!` to `std::io::Stdout`: sends one character to the host
/// console.
#[verifier::external_body]
fn console_put(b: u8) {
    let _ = write!(std::io::stdout(), "{}", b as char);
}

/// Relies on `writeln!` to `std::io::Stderr`: prints one diagnostic line
/// with the given machine state.
#[verifier::external_body]
fn trace_line(pc: u16, op: &OpCode, params: u16, gpr: &[u16; 8], cond: u16) {
    let _ = writeln!(
        std::io::stderr(),
        "PC: {:#x}, op: {:?}, params: {:#x}, regs: {:x?}, COND: {:#x}",
        pc,
        op,
        params,
        gpr,
        cond,
    );
}

/// The 16-bit word spelled big-endian by two bytes.
pub open spec fn word_be(hi: u8, lo: u8) -> u16 {
    ((hi as u16) * 256 + lo as u16) as u16
}

/// Memory after the payload words of `bytes` are stored one after another
/// from `addr` on, each word spelled big-endian by a byte pair; a dangling
/// final byte is ignored, and the address wraps at the top of the space.
pub open spec fn load_words(mem: Seq<u16>, bytes: Seq<u8>, addr: u16) -> Seq<u16>
    decreases bytes.len(),
{
    if bytes.len() < 2 {
        mem
    } else {
        load_words(
            mem.update(addr as int, word_be(bytes[0], bytes[1])),
            bytes.skip(2),
            addr.wrapping_add(1),
        )
    }
}

proof fn lemma_word_be_shift(hi: u8, lo: u8)
    by (bit_vector)
    ensures
        ((hi as u16) << 8) | (lo as u16) == (hi as u16) * 256 + (lo as u16),
{
}

impl<K: KeyboardIO> VM<K> {
    /// The memory invariant: the address space keeps its fixed size.
    pub open spec fn wf(&self) -> bool {
        self.mem.wf()
    }

    /// A fresh machine over the given keyboard capability: everything
    /// zeroed, `pc` at the load origin, not yet running.
    pub fn new(keyboard_io: K) -> (vm: VM<K>)
        ensures
            vm.wf(),
            vm@.gpr == seq![0u16, 0u16, 0u16, 0u16, 0u16, 0u16, 0u16, 0u16],
            vm@.pc == PC_START,
            vm@.cond == 0,
            vm@.mem.len() == MEM_SIZE,
            forall|a: int| 0 <= a < MEM_SIZE ==> vm@.mem[a] == 0,
            vm@.out == Seq::<u8>::empty(),
            !vm@.running,
            !vm.debug,
    {
        let vm = VM {
            mem: Memory::new(keyboard_io),
            registers: Registers::new(),
            output: Vec::new(),
            running: false,
            debug: false,
        };
        proof {
            assert(vm@.out =~= Seq::<u8>::empty());
        }
        vm
    }

    /// Switch per-instruction diagnostic tracing on or off.
    pub fn set_debugging(&mut self, debug: bool)
        ensures
            final(self)@ == old(self)@,
            final(self).wf() == old(self).wf(),
            final(self).debug == debug,
    {
        self.debug = debug;
    }

    /// Send one byte to the console and record it.
    pub fn put_byte(&mut self, b: u8)
        ensures
            final(self).wf() == old(self).wf(),
            final(self).debug == old(self).debug,
            final(self)@ == (VmV { out: old(self)@.out.push(b), ..old(self)@ }),
    {
        self.output.push(b);
        console_put(b);
    }

    /// Load a program image: the first two bytes spell the big-endian load
    /// origin, every following byte pair one word, stored from the origin
    /// on.  An image of fewer than two bytes is rejected; one with no
    /// payload loads nothing.
    pub fn load_image(&mut self, image: &[u8]) -> (r: Result<(), LoadError>)
        requires
            old(self).wf(),
        ensures
            final(self).wf(),
            final(self).debug == old(self).debug,
            r is Err <==> image@.len() < 2,
            r is Err ==> r == Result::<(), LoadError>::Err(LoadError::TruncatedHeader)
                && final(self)@ == old(self)@,
            r is Ok ==> final(self)@ == (VmV {
                mem: load_words(old(self)@.mem, image@.skip(2), word_be(image@[0], image@[1])),
                ..old(self)@
            }),
    {
        if image.len() < 2 {
            return Err(LoadError::TruncatedHeader);
        }
        let origin: u16 = ((image[0] as u16) << 8) | (image[1] as u16);
        proof {
            lemma_word_be_shift(image@[0], image@[1]);
        }
        let ghost target = load_words(old(self)@.mem, image@.skip(2), word_be(image@[0], image@[1]));
        let mut addr: u16 = origin;
        let mut i: usize = 2;
        while i < image.len() - 1
            invariant
                old(self).wf(),
                self.wf(),
                self.debug == old(self).debug,
                2 <= i <= image@.len(),
                i % 2 == 0,
                image@.len() >= 2,
                self@ == (VmV { mem: self@.mem, ..old(self)@ }),
                load_words(self@.mem, image@.skip(i as int), addr) == target,
            decreases image@.len() - i,
        {
            let w: u16 = ((image[i] as u16) << 8) | (image[i + 1] as u16);
            proof {
                lemma_word_be_shift(image@[i as int], image@[i + 1]);
                assert(image@.skip(i as int)[0] == image@[i as int]);
                assert(image@.skip(i as int)[1] == image@[i + 1]);
                assert(image@.skip(i as int).skip(2) =~= image@.skip(i + 2));
            }
            self.mem.set_mem(addr, w);
            addr = addr.wrapping_add(1);
            i = i + 2;
        }
        proof {
            assert(image@.skip(i as int).len() < 2);
        }
        Ok(())
    }
}

/// The machine after fetch and pc advance: at the last valid address the
/// machine halts instead of advancing; everywhere else the pc moves to the
/// following word.
pub open spec fn advanced(pre: VmV) -> VmV {
    if pre.pc == 0xFFFF {
        VmV { running: false, ..pre }
    } else {
        VmV { pc: (pre.pc + 1) as u16, ..pre }
    }
}

/// What one whole cycle — fetch, advance, dispatch — may leave behind.
/// An unmapped pc faults the fetch; otherwise some word the fetch may hand
/// back runs as [`instr_post`] says, from the advanced machine.
pub open spec fn step_rel(pre: VmV, post: VmV, r: Result<(), VmError>) -> bool {
    if valid_read_addr(pre.pc) {
        exists|instr: u16| read_val(pre.mem, pre.pc, instr) && instr_post(advanced(pre), post, instr, r)
    } else {
        &&& r == Result::<(), VmError>::Err(VmError::UnimplementedMemoryMap(pre.pc))
        &&& post == pre
    }
}

/// `post` is reachable from `pre` by exactly `k` faultless cycles, each
/// begun while the machine was running.
pub open spec fn reach(pre: VmV, post: VmV, k: nat) -> bool
    decreases k,
{
    if k == 0 {
        post == pre
    } else {
        pre.running && exists|mid: VmV|
            #[trigger] step_rel(pre, mid, Ok(())) && reach(mid, post, (k - 1) as nat)
    }
}

/// A faultless cycle taken at the end of a run extends it by one.
proof fn lemma_reach_extend(a: VmV, b: VmV, c: VmV, k: nat)
    requires
        reach(a, b, k),
        b.running,
        step_rel(b, c, Ok(())),
    ensures
        reach(a, c, k + 1),
    decreases k,
{
    if k == 0 {
        assert(step_rel(a, c, Ok(())) && reach(c, c, 0));
    } else {
        let mid = choose|mid: VmV| #[trigger] step_rel(a, mid, Ok(())) && reach(
            mid,
            b,
            (k - 1) as nat,
        );
        lemma_reach_extend(mid, b, c, (k - 1) as nat);
        assert(step_rel(a, mid, Ok(())) && reach(mid, c, k));
    }
}

/// What a bounded run leaves behind.  `begun` is the machine with the
/// running flag raised.  Halting means a chain of faultless cycles ended
/// with the flag down; a spent budget means exactly `max_steps` such
/// cycles with the flag still up; a fault means some chain reached a
/// cycle that faulted.
#[verifier::opaque]
pub open spec fn run_post(begun: VmV, post: VmV, max_steps: nat, r: Result<bool, VmError>) -> bool {
    &&& (r == Result::<bool, VmError>::Ok(true) ==> !post.running && exists|k: nat|
        k <= max_steps && #[trigger] reach(begun, post, k))
    &&& (r == Result::<bool, VmError>::Ok(false) ==> post.running && reach(begun, post, max_steps))
    &&& (r matches Err(e) ==> exists|k: nat, mid: VmV|
        k < max_steps && #[trigger] reach(begun, mid, k) && mid.running && step_rel(
            mid,
            post,
            Err(e),
        ))
}

impl<K: KeyboardIO> VM<K> {
    /// One cycle of the machine: fetch the word at the pc, trace it when
    /// debugging, halt at the top of the address space or advance the pc,
    /// then dispatch what was fetched.
    pub fn step(&mut self) -> (r: Result<(), VmError>)
        requires
            old(self).wf(),
        ensures
            final(self).wf(),
            step_rel(old(self)@, final(self)@, r),
            old(self)@.pc < KBSR ==> instr_post(
                advanced(old(self)@),
                final(self)@,
                old(self)@.mem[old(self)@.pc as int],
                r,
            ),
    {
        let pc = self.registers.pc;
        if !(pc < KBSR || pc == KBSR || pc == KBDR) {
            return Err(VmError::UnimplementedMemoryMap(pc));
        }
        let instr = instruction::get_instruction(self);
        if self.debug {
            let op = instruction::get_opcode(instr);
            trace_line(pc, &op, instr & 0x7ff, &self.registers.gpr, self.registers.cond);
        }
        // the pc names the *next* instruction while the fetched one runs
        if pc == 0xFFFF {
            self.running = false;
        } else {
            self.registers.pc = pc + 1;
        }
        proof {
            assert(self@ == advanced(old(self)@));
        }
        let r = instruction::execute_instruction(self, instr);
        proof {
            assert(read_val(old(self)@.mem, old(self)@.pc, instr) && instr_post(
                advanced(old(self)@),
                self@,
                instr,
                r,
            ));
            assert(exists|w: u16|
                read_val(old(self)@.mem, old(self)@.pc, w) && instr_post(
                    advanced(old(self)@),
                    self@,
                    w,
                    r,
                ));
        }
        r
    }

    /// Run the machine for at most `max_steps` cycles: raise the running
    /// flag, then cycle until the machine halts, a cycle faults, or the
    /// budget runs out.  `Ok(true)` means halted, `Ok(false)` means the
    /// budget ran out first; the caller hands out the next budget.  The
    /// run relation pins every outcome to a chain of cycles.
    pub fn execute(&mut self, max_steps: usize) -> (r: Result<bool, VmError>)
        requires
            old(self).wf(),
        ensures
            final(self).wf(),
            run_post((VmV { running: true, ..old(self)@ }), final(self)@, max_steps as nat, r),
    {
        self.running = true;
        let ghost begun = VmV { running: true, ..old(self)@ };
        proof {
            assert(self@ == begun);
        }
        let mut steps: usize = 0;
        while self.running && steps < max_steps
            invariant
                self.wf(),
                steps <= max_steps,
                begun == (VmV { running: true, ..old(self)@ }),
                reach(begun, self@, steps as nat),
            decreases max_steps - steps,
        {
            let ghost before = self@;
            match self.step() {
                Ok(()) => {},
                Err(e) => {
                    proof {
                        reveal(run_post);
                        assert(reach(begun, before, steps as nat) && before.running && step_rel(
                            before,
                            self@,
                            Err(e),
                        ));
                        assert(exists|k: nat, mid: VmV|
                            k < max_steps && #[trigger] reach(begun, mid, k) && mid.running
                                && step_rel(mid, self@, Err(e)));
                        assert(run_post(begun, self@, max_steps as nat, Err(e)));
                    }
                    return Err(e);
                },
            }
            proof {
                lemma_reach_extend(begun, before, self@, steps as nat);
            }
            steps = steps + 1;
        }
        proof {
            reveal(run_post);
            if self.running {
                assert(steps == max_steps);
                assert(run_post(begun, self@, max_steps as nat, Ok(false)));
            } else {
                assert(exists|k: nat| k <= max_steps && #[trigger] reach(begun, self@, k));
                assert(run_post(begun, self@, max_steps as nat, Ok(true)));
            }
        }
        Ok(!self.running)
    }
}

} // verus!
