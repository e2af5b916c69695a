use lc3_vm::keyboard::KeyboardIO;
use lc3_vm::registers::{FL_POS, FL_ZRO, FL_NEG};
use lc3_vm::vm::{VM, VmError, LoadError};
use lc3_vm::instruction::execute_instruction;

/// A scripted keyboard: hands out the given bytes in order, then reports
/// nothing pending.
struct ScriptKeys {
    keys: Vec<u8>,
    pos: usize,
}

impl KeyboardIO for ScriptKeys {
    fn get_key(&mut self) -> Option<u8> {
        if self.pos < self.keys.len() {
            let k = self.keys[self.pos];
            self.pos += 1;
            Some(k)
        } else {
            None
        }
    }

    fn check_key(&mut self) -> bool {
        self.pos < self.keys.len()
    }

    fn wait_key(&mut self) -> u8 {
        self.get_key().expect("the key script ran out")
    }
}

fn vm_with_keys(keys: Vec<u8>) -> VM<ScriptKeys> {
    VM::new(ScriptKeys { keys, pos: 0 })
}

fn fresh_vm() -> VM<ScriptKeys> {
    vm_with_keys(Vec::new())
}

#[test]
fn new_vm_starts_at_load_origin() {
    let mut vm = fresh_vm();
    assert_eq!(vm.registers.pc, 0x3000);
    assert_eq!(vm.registers.cond, 0);
    assert_eq!(vm.registers.gpr, [0u16; 8]);
    assert!(!vm.running);
    assert_eq!(vm.mem.get_mem(0x3000), 0);
}

#[test]
fn add_wraps_and_sets_zro() {
    let mut vm = fresh_vm();
    vm.registers.set_reg(0, 0xFFFF);
    // ADD R0, R0, #1
    assert_eq!(execute_instruction(&mut vm, 0x1021), Ok(()));
    assert_eq!(vm.registers.gpr[0], 0x0000);
    assert_eq!(vm.registers.cond, FL_ZRO);
}

#[test]
fn add_register_mode() {
    let mut vm = fresh_vm();
    vm.registers.set_reg(1, 2);
    vm.registers.set_reg(2, 3);
    // ADD R0, R1, R2
    assert_eq!(execute_instruction(&mut vm, 0x1042), Ok(()));
    assert_eq!(vm.registers.gpr[0], 5);
    assert_eq!(vm.registers.cond, FL_POS);
}

#[test]
fn set_with_cond_sets_exactly_one_flag() {
    let mut vm = fresh_vm();
    vm.registers.set_reg_with_cond(3, 5);
    assert_eq!(vm.registers.cond, FL_POS);
    vm.registers.set_reg_with_cond(3, 0x8000);
    assert_eq!(vm.registers.cond, FL_NEG);
    vm.registers.set_reg_with_cond(3, 0);
    assert_eq!(vm.registers.cond, FL_ZRO);
    for v in [1u16, 0x7FFF, 0x8000, 0xFFFF, 0] {
        vm.registers.set_reg_with_cond(0, v);
        assert_eq!(vm.registers.cond.count_ones(), 1);
    }
}

#[test]
fn br_mask_seven_always_branches() {
    // fresh machine: cond is still zero, yet BRnzp branches
    let mut vm = fresh_vm();
    assert_eq!(execute_instruction(&mut vm, 0x0E02), Ok(()));
    assert_eq!(vm.registers.pc, 0x3002);
    // and with each flag value too
    for v in [1u16, 0, 0x8000] {
        let mut vm = fresh_vm();
        vm.registers.set_reg_with_cond(0, v);
        assert_eq!(execute_instruction(&mut vm, 0x0E02), Ok(()));
        assert_eq!(vm.registers.pc, 0x3002);
    }
}

#[test]
fn br_mask_zero_never_branches() {
    for v in [1u16, 0, 0x8000] {
        let mut vm = fresh_vm();
        vm.registers.set_reg_with_cond(0, v);
        assert_eq!(execute_instruction(&mut vm, 0x0002), Ok(()));
        assert_eq!(vm.registers.pc, 0x3000);
    }
}

#[test]
fn br_matching_flag_branches() {
    let mut vm = fresh_vm();
    vm.registers.set_reg_with_cond(0, 0); // ZRO
    // BRz #4 : mask 0b010
    assert_eq!(execute_instruction(&mut vm, 0x0404), Ok(()));
    assert_eq!(vm.registers.pc, 0x3004);
    // BRn #4 : mask 0b100 — not taken under ZRO
    let mut vm = fresh_vm();
    vm.registers.set_reg_with_cond(0, 0);
    assert_eq!(execute_instruction(&mut vm, 0x0804), Ok(()));
    assert_eq!(vm.registers.pc, 0x3000);
}

#[test]
fn ldi_double_indirection() {
    let mut vm = fresh_vm();
    vm.mem.set_mem(0x3005, 0x4000);
    vm.mem.set_mem(0x4000, 0xBEEF);
    // LDI R1, #5
    assert_eq!(execute_instruction(&mut vm, 0xA205), Ok(()));
    assert_eq!(vm.registers.gpr[1], 0xBEEF);
    assert_eq!(vm.registers.cond, FL_NEG);
}

#[test]
fn jsr_saves_pc_in_r7() {
    let mut vm = fresh_vm();
    // JSR #0x10
    assert_eq!(execute_instruction(&mut vm, 0x4810), Ok(()));
    assert_eq!(vm.registers.gpr[7], 0x3000);
    assert_eq!(vm.registers.pc, 0x3010);
}

#[test]
fn jsrr_saves_pc_and_jumps_through_base() {
    let mut vm = fresh_vm();
    vm.registers.set_reg(2, 0x5000);
    // JSRR R2
    assert_eq!(execute_instruction(&mut vm, 0x4080), Ok(()));
    assert_eq!(vm.registers.gpr[7], 0x3000);
    assert_eq!(vm.registers.pc, 0x5000);
}

#[test]
fn jsrr_through_r7_reads_saved_value() {
    let mut vm = fresh_vm();
    vm.registers.set_reg(7, 0x1234);
    // JSRR R7: r7 takes the pc first, then the jump reads it back
    assert_eq!(execute_instruction(&mut vm, 0x41C0), Ok(()));
    assert_eq!(vm.registers.gpr[7], 0x3000);
    assert_eq!(vm.registers.pc, 0x3000);
}

#[test]
fn loader_places_big_endian_words() {
    let mut vm = fresh_vm();
    assert_eq!(vm.load_image(&[0x30, 0x00, 0x12, 0x34]), Ok(()));
    assert_eq!(vm.mem.get_mem(0x3000), 0x1234);
    assert_eq!(vm.mem.get_mem(0x3001), 0);
}

#[test]
fn loader_accepts_header_only_image() {
    let mut vm = fresh_vm();
    assert_eq!(vm.load_image(&[0x30, 0x00]), Ok(()));
    for a in 0x2FF0u16..0x3010 {
        assert_eq!(vm.mem.get_mem(a), 0);
    }
}

#[test]
fn loader_rejects_truncated_header() {
    let mut vm = fresh_vm();
    assert_eq!(vm.load_image(&[0x30]), Err(LoadError::TruncatedHeader));
    assert_eq!(vm.load_image(&[]), Err(LoadError::TruncatedHeader));
}

#[test]
fn loader_ignores_dangling_byte() {
    let mut vm = fresh_vm();
    assert_eq!(vm.load_image(&[0x30, 0x00, 0x12, 0x34, 0x56]), Ok(()));
    assert_eq!(vm.mem.get_mem(0x3000), 0x1234);
    assert_eq!(vm.mem.get_mem(0x3001), 0);
}

#[test]
fn loader_wraps_at_top_of_memory() {
    let mut vm = fresh_vm();
    assert_eq!(vm.load_image(&[0xFF, 0xFF, 0xAA, 0xBB, 0xCC, 0xDD]), Ok(()));
    assert_eq!(vm.mem.get_mem(0x0000), 0xCCDD);
}

#[test]
fn halt_program_executes_one_instruction() {
    let mut vm = fresh_vm();
    assert_eq!(vm.load_image(&[0x30, 0x00, 0xF0, 0x25]), Ok(()));
    assert_eq!(vm.execute(100), Ok(true));
    assert!(!vm.running);
    // exactly one cycle ran: the pc advanced once and the trap saved it
    assert_eq!(vm.registers.pc, 0x3001);
    assert_eq!(vm.registers.gpr[7], 0x3001);
}

#[test]
fn execute_returns_false_when_budget_runs_out() {
    let mut vm = fresh_vm();
    // BRnzp #-1 : branches back to itself forever
    assert_eq!(vm.load_image(&[0x30, 0x00, 0x0F, 0xFF]), Ok(()));
    assert_eq!(vm.execute(10), Ok(false));
    assert!(vm.running);
    assert_eq!(vm.registers.pc, 0x3000);
}

#[test]
fn puts_emits_words_up_to_zero_terminator() {
    let mut vm = fresh_vm();
    vm.registers.set_reg(0, 0x4000);
    vm.mem.set_mem(0x4000, 'H' as u16);
    vm.mem.set_mem(0x4001, 'i' as u16);
    vm.mem.set_mem(0x4002, '!' as u16);
    vm.mem.set_mem(0x4003, 0);
    // TRAP x22 (PUTS)
    assert_eq!(execute_instruction(&mut vm, 0xF022), Ok(()));
    assert_eq!(vm.output, b"Hi!");
    assert_eq!(vm.registers.gpr[7], 0x3000);
}

#[test]
fn puts_takes_low_byte_of_each_word() {
    let mut vm = fresh_vm();
    vm.registers.set_reg(0, 0x4000);
    vm.mem.set_mem(0x4000, 0x0248); // high byte ignored, 'H' kept
    vm.mem.set_mem(0x4001, 0);
    assert_eq!(execute_instruction(&mut vm, 0xF022), Ok(()));
    assert_eq!(vm.output, b"H");
}

#[test]
fn putsp_unpacks_two_characters_per_word() {
    let mut vm = fresh_vm();
    vm.registers.set_reg(0, 0x4000);
    vm.mem.set_mem(0x4000, 0x4241); // 'A' low, 'B' high
    vm.mem.set_mem(0x4001, 0x0043); // 'C' low, zero high byte ends it
    vm.mem.set_mem(0x4002, 0);
    // TRAP x24 (PUTSP)
    assert_eq!(execute_instruction(&mut vm, 0xF024), Ok(()));
    assert_eq!(vm.output, b"ABC");
}

#[test]
fn trap_out_emits_low_byte_of_r0() {
    let mut vm = fresh_vm();
    vm.registers.set_reg(0, 0x025A); // 'Z' with a dirty high byte
    assert_eq!(execute_instruction(&mut vm, 0xF021), Ok(()));
    assert_eq!(vm.output, b"Z");
}

#[test]
fn trap_getc_stores_key_without_echo() {
    let mut vm = vm_with_keys(vec![b'q']);
    vm.registers.set_reg_with_cond(1, 5);
    assert_eq!(execute_instruction(&mut vm, 0xF020), Ok(()));
    assert_eq!(vm.registers.gpr[0], b'q' as u16);
    assert!(vm.output.is_empty());
    // GETC does not touch the flags
    assert_eq!(vm.registers.cond, FL_POS);
}

#[test]
fn trap_in_prompts_echoes_and_stores_key() {
    let mut vm = vm_with_keys(vec![b'w']);
    assert_eq!(execute_instruction(&mut vm, 0xF023), Ok(()));
    assert_eq!(vm.registers.gpr[0], b'w' as u16);
    assert_eq!(vm.output, b"> w");
}

#[test]
fn keyboard_status_register_reports_pending_key() {
    let mut vm = vm_with_keys(vec![0x41]);
    assert_eq!(vm.mem.get_mem(0xFE00), 0x8000);
    let mut vm = fresh_vm();
    assert_eq!(vm.mem.get_mem(0xFE00), 0);
}

#[test]
fn keyboard_data_register_consumes_key() {
    let mut vm = vm_with_keys(vec![0x41]);
    assert_eq!(vm.mem.get_mem(0xFE02), 0x41);
}

#[test]
fn keyboard_data_register_stays_stale_without_key() {
    // with no key pending the data register reads as what was last stored
    // there — the device convention, not a reset to zero
    let mut vm = fresh_vm();
    vm.mem.set_mem(0xFE02, 0x1234);
    assert_eq!(vm.mem.get_mem(0xFE02), 0x1234);
    // and a consumed key does not overwrite the stored word
    let mut vm = vm_with_keys(vec![0x41]);
    vm.mem.set_mem(0xFE02, 0x0777);
    assert_eq!(vm.mem.get_mem(0xFE02), 0x41);
    assert_eq!(vm.mem.get_mem(0xFE02), 0x0777);
}

#[test]
fn not_writes_complement_into_destination() {
    let mut vm = fresh_vm();
    vm.registers.set_reg(3, 0x00FF);
    // NOT R2, R3
    assert_eq!(execute_instruction(&mut vm, 0x94FF), Ok(()));
    assert_eq!(vm.registers.gpr[2], 0xFF00);
    assert_eq!(vm.registers.gpr[3], 0x00FF);
    assert_eq!(vm.registers.cond, FL_NEG);
}

#[test]
fn and_immediate_clears_register() {
    let mut vm = fresh_vm();
    vm.registers.set_reg(1, 0xABCD);
    // AND R0, R1, #0
    assert_eq!(execute_instruction(&mut vm, 0x5060), Ok(()));
    assert_eq!(vm.registers.gpr[0], 0);
    assert_eq!(vm.registers.cond, FL_ZRO);
}

#[test]
fn lea_loads_address_not_contents() {
    let mut vm = fresh_vm();
    vm.mem.set_mem(0x2FFE, 0x5555);
    // LEA R0, #-2
    assert_eq!(execute_instruction(&mut vm, 0xE1FE), Ok(()));
    assert_eq!(vm.registers.gpr[0], 0x2FFE);
    assert_eq!(vm.registers.cond, FL_POS);
}

#[test]
fn ld_st_round_trip() {
    let mut vm = fresh_vm();
    vm.registers.set_reg(5, 0xCAFE);
    // ST R5, #3
    assert_eq!(execute_instruction(&mut vm, 0x3A03), Ok(()));
    assert_eq!(vm.mem.get_mem(0x3003), 0xCAFE);
    // LD R0, #3
    assert_eq!(execute_instruction(&mut vm, 0x2003), Ok(()));
    assert_eq!(vm.registers.gpr[0], 0xCAFE);
    assert_eq!(vm.registers.cond, FL_NEG);
}

#[test]
fn ldr_str_use_base_plus_offset() {
    let mut vm = fresh_vm();
    vm.registers.set_reg(2, 0x4000);
    vm.registers.set_reg(4, 0x0042);
    // STR R4, R2, #2
    assert_eq!(execute_instruction(&mut vm, 0x7882), Ok(()));
    assert_eq!(vm.mem.get_mem(0x4002), 0x0042);
    // LDR R4, R2, #2 back into a cleared register
    vm.registers.set_reg(4, 0);
    assert_eq!(execute_instruction(&mut vm, 0x6882), Ok(()));
    assert_eq!(vm.registers.gpr[4], 0x0042);
}

#[test]
fn sti_stores_through_pointer() {
    let mut vm = fresh_vm();
    vm.registers.set_reg(5, 0x0042);
    vm.mem.set_mem(0x3004, 0x4000);
    // STI R5, #4
    assert_eq!(execute_instruction(&mut vm, 0xBA04), Ok(()));
    assert_eq!(vm.mem.get_mem(0x4000), 0x0042);
}

#[test]
fn jmp_moves_pc_to_base_register() {
    let mut vm = fresh_vm();
    vm.registers.set_reg(3, 0x6000);
    // JMP R3
    assert_eq!(execute_instruction(&mut vm, 0xC0C0), Ok(()));
    assert_eq!(vm.registers.pc, 0x6000);
}

#[test]
fn rti_is_a_privilege_violation() {
    let mut vm = fresh_vm();
    assert_eq!(execute_instruction(&mut vm, 0x8000), Err(VmError::PrivilegeViolation));
}

#[test]
fn res_is_an_illegal_instruction() {
    let mut vm = fresh_vm();
    assert_eq!(execute_instruction(&mut vm, 0xD000), Err(VmError::IllegalInstruction));
}

#[test]
fn undefined_trap_vector_faults() {
    let mut vm = fresh_vm();
    assert_eq!(execute_instruction(&mut vm, 0xF0FF), Err(VmError::UnimplementedTrap(0xFF)));
    // register 7 was still written before the dispatch failed
    assert_eq!(vm.registers.gpr[7], 0x3000);
}

#[test]
fn load_from_unmapped_device_address_faults() {
    let mut vm = fresh_vm();
    vm.registers.pc = 0xFE00;
    // LD R0, #1 — the effective address 0xFE01 has no mapping
    assert_eq!(execute_instruction(&mut vm, 0x2001), Err(VmError::UnimplementedMemoryMap(0xFE01)));
}

#[test]
fn load_from_status_register_reads_device_state() {
    // LD through the keyboard status register: idle reads as zero
    let mut vm = fresh_vm();
    vm.registers.pc = 0xFE00;
    // LD R0, #0 — effective address 0xFE00
    assert_eq!(execute_instruction(&mut vm, 0x2000), Ok(()));
    assert_eq!(vm.registers.gpr[0], 0);
    assert_eq!(vm.registers.cond, FL_ZRO);
    // with a key pending it reads as 0x8000
    let mut vm = vm_with_keys(vec![0x41]);
    vm.registers.pc = 0xFE00;
    assert_eq!(execute_instruction(&mut vm, 0x2000), Ok(()));
    assert_eq!(vm.registers.gpr[0], 0x8000);
    assert_eq!(vm.registers.cond, FL_NEG);
}

#[test]
fn step_faults_on_unmapped_pc() {
    let mut vm = fresh_vm();
    vm.registers.pc = 0xFE01;
    assert_eq!(vm.step(), Err(VmError::UnimplementedMemoryMap(0xFE01)));
}

#[test]
fn step_halts_at_top_of_address_space() {
    // the fetch at the last address goes through the device region, so it
    // faults before the halt-instead-of-advance rule can apply
    let mut vm = fresh_vm();
    vm.registers.pc = 0xFFFF;
    assert_eq!(vm.step(), Err(VmError::UnimplementedMemoryMap(0xFFFF)));
}

#[test]
fn get_instruction_fetches_word_at_pc() {
    let mut vm = fresh_vm();
    vm.mem.set_mem(0x3000, 0xF025);
    assert_eq!(lc3_vm::instruction::get_instruction(&mut vm), 0xF025);
    assert_eq!(vm.registers.pc, 0x3000);
}

#[test]
fn debug_tracing_does_not_disturb_the_machine() {
    let mut vm = fresh_vm();
    vm.set_debugging(true);
    vm.mem.set_mem(0x3000, 0x1023); // ADD R0, R0, #3
    assert_eq!(vm.step(), Ok(()));
    assert_eq!(vm.registers.gpr[0], 3);
    assert_eq!(vm.registers.pc, 0x3001);
}

#[test]
fn execute_surfaces_a_fault() {
    let mut vm = fresh_vm();
    // the reserved opcode as the first instruction
    assert_eq!(vm.load_image(&[0x30, 0x00, 0xD0, 0x00]), Ok(()));
    assert_eq!(vm.execute(100), Err(VmError::IllegalInstruction));
}

#[test]
fn echo_program_reads_and_writes_one_key() {
    // GETC ; OUT ; HALT
    let mut vm = vm_with_keys(vec![b'x']);
    assert_eq!(vm.load_image(&[0x30, 0x00, 0xF0, 0x20, 0xF0, 0x21, 0xF0, 0x25]), Ok(()));
    assert_eq!(vm.execute(100), Ok(true));
    assert_eq!(vm.registers.gpr[0], b'x' as u16);
    assert_eq!(vm.output, b"x");
}

#[test]
fn small_program_counts_down_and_halts() {
    // R0 := 3; loop: ADD R0, R0, #-1 ; BRp loop ; HALT
    let mut vm = fresh_vm();
    let image: Vec<u8> = vec![
        0x30, 0x00, // origin 0x3000
        0x10, 0x23, // ADD R0, R0, #3
        0x10, 0x3F, // ADD R0, R0, #-1
        0x03, 0xFE, // BRp #-2
        0xF0, 0x25, // TRAP x25 (HALT)
    ];
    assert_eq!(vm.load_image(&image), Ok(()));
    assert_eq!(vm.execute(100), Ok(true));
    assert_eq!(vm.registers.gpr[0], 0);
    assert_eq!(vm.registers.cond, FL_ZRO);
    assert!(!vm.running);
}
