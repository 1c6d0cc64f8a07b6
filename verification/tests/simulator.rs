use mips_be::exec::{do_line, run_prog, Outcome, RunError, StepEvent};
use mips_be::machine::Fault;
use mips_be::parser::{parse_line, parse_prog, Instr, ParseError, ParseReason};

const BUDGET: u64 = 1000;

#[test]
fn scenario_arithmetic() {
    let (p, outcome) = run_prog("movi r1 5\nmovi r2 10\nadd r3 r1 r2\nexit", BUDGET).unwrap();
    assert_eq!(outcome, Outcome::Halted);
    assert_eq!(p.state.read_reg(1).unwrap(), 5);
    assert_eq!(p.state.read_reg(2).unwrap(), 10);
    assert_eq!(p.state.read_reg(3).unwrap(), 15);
    assert!(p.state.pc() < 0);
}

#[test]
fn scenario_label_shared_line_forward_jump() {
    let src = ".start movi r1 42\nj skip\nmovi r1 0\n.skip exit";
    let (p, outcome) = run_prog(src, BUDGET).unwrap();
    assert_eq!(outcome, Outcome::Halted);
    assert_eq!(p.state.read_reg(1).unwrap(), 42);
}

#[test]
fn scenario_memory_roundtrip() {
    let src = "movi r1 100\nmovi r2 7\nsw r2 r1 0\nlw r3 r1 0\nexit";
    let (p, outcome) = run_prog(src, BUDGET).unwrap();
    assert_eq!(outcome, Outcome::Halted);
    assert_eq!(p.state.read_reg(3).unwrap(), 7);
}

#[test]
fn scenario_fall_off_end() {
    let (p, outcome) = run_prog("movi r1 1", BUDGET).unwrap();
    assert_eq!(outcome, Outcome::Halted);
    assert_eq!(p.state.read_reg(1).unwrap(), 1);
    assert!(p.state.pc() < 0);
}

#[test]
fn scenario_unbounded_loop_needs_budget() {
    let src = ".loop\nmovi r1 1\nj loop";
    let (p, outcome) = run_prog(src, 50).unwrap();
    assert_eq!(outcome, Outcome::OutOfSteps);
    assert_eq!(p.state.read_reg(1).unwrap(), 1);
    // More budget changes nothing but the number of steps taken.
    let (p2, outcome2) = run_prog(src, 500).unwrap();
    assert_eq!(outcome2, Outcome::OutOfSteps);
    assert_eq!(p2.state.read_reg(1).unwrap(), 1);
    assert_eq!(p2.state.pc(), p.state.pc());
}

#[test]
fn add_wraps_modulo_32_bits() {
    let src = "movi r1 4294967295\nmovi r2 1\nadd r3 r1 r2\nexit";
    let (p, outcome) = run_prog(src, BUDGET).unwrap();
    assert_eq!(outcome, Outcome::Halted);
    assert_eq!(p.state.read_reg(3).unwrap(), 0);
}

#[test]
fn store_load_keeps_low_byte_only() {
    // 0x1234 stored through sw, loaded back through lw: only 0x34 survives.
    let src = "movi r1 100\nmovi r2 4660\nsw r2 r1 0\nlw r3 r1 0\nexit";
    let (p, outcome) = run_prog(src, BUDGET).unwrap();
    assert_eq!(outcome, Outcome::Halted);
    assert_eq!(p.state.read_reg(3).unwrap(), 0x34);
}

#[test]
fn unimplemented_sub_faults() {
    let err = run_prog("movi r1 9\nmovi r2 4\nsub r3 r1 r2\nexit", BUDGET).unwrap_err();
    match err {
        RunError::Fault(Fault::UnimplementedOpcode { opcode }) => {
            assert_eq!(opcode, b"sub".to_vec());
        }
        other => panic!("expected an unimplemented-opcode fault, got {:?}", other),
    }
}

#[test]
fn unimplemented_beq_faults() {
    let err = run_prog("beq r1 r2 somewhere", BUDGET).unwrap_err();
    match err {
        RunError::Fault(Fault::UnimplementedOpcode { opcode }) => {
            assert_eq!(opcode, b"beq".to_vec());
        }
        other => panic!("expected an unimplemented-opcode fault, got {:?}", other),
    }
}

#[test]
fn unimplemented_bne_faults() {
    let err = run_prog("bne r1 r2 somewhere", BUDGET).unwrap_err();
    match err {
        RunError::Fault(Fault::UnimplementedOpcode { opcode }) => {
            assert_eq!(opcode, b"bne".to_vec());
        }
        other => panic!("expected an unimplemented-opcode fault, got {:?}", other),
    }
}

#[test]
fn unimplemented_jal_faults() {
    let err = run_prog(".f movi r1 1\njal f", BUDGET).unwrap_err();
    match err {
        RunError::Fault(Fault::UnimplementedOpcode { opcode }) => {
            assert_eq!(opcode, b"jal".to_vec());
        }
        other => panic!("expected an unimplemented-opcode fault, got {:?}", other),
    }
}

#[test]
fn register_out_of_range_faults() {
    let err = run_prog("movi r32 1", BUDGET).unwrap_err();
    match err {
        RunError::Fault(Fault::RegisterOutOfRange { id }) => assert_eq!(id, 32),
        other => panic!("expected a register range fault, got {:?}", other),
    }
}

#[test]
fn huge_register_id_parses_then_faults() {
    let err = run_prog("mov r99 r1", BUDGET).unwrap_err();
    match err {
        // `mov` reads the source register first; r1 is fine, r99 faults.
        RunError::Fault(Fault::RegisterOutOfRange { id }) => assert_eq!(id, 99),
        other => panic!("expected a register range fault, got {:?}", other),
    }
}

#[test]
fn memory_address_out_of_range_faults() {
    let err = run_prog("movi r1 1024\nsw r2 r1 0", BUDGET).unwrap_err();
    match err {
        RunError::Fault(Fault::MemoryFault { address }) => assert_eq!(address, 1024),
        other => panic!("expected a memory fault, got {:?}", other),
    }
}

#[test]
fn load_address_out_of_range_faults() {
    let err = run_prog("movi r1 1000\nlw r2 r1 24", BUDGET).unwrap_err();
    match err {
        RunError::Fault(Fault::MemoryFault { address }) => assert_eq!(address, 1024),
        other => panic!("expected a memory fault, got {:?}", other),
    }
}

#[test]
fn unknown_label_faults() {
    let err = run_prog("j nowhere", BUDGET).unwrap_err();
    match err {
        RunError::Fault(Fault::UnknownLabel { name }) => {
            assert_eq!(name, b"nowhere".to_vec());
        }
        other => panic!("expected an unknown-label fault, got {:?}", other),
    }
}

#[test]
fn unknown_opcode_is_a_parse_error() {
    let err = run_prog("movi r1 5\nbogus r1", BUDGET).unwrap_err();
    match err {
        RunError::Parse(e) => {
            assert_eq!(
                e,
                ParseError { line: 1, reason: ParseReason::UnknownOpcode }
            );
        }
        other => panic!("expected a parse error, got {:?}", other),
    }
}

#[test]
fn missing_operand_is_a_parse_error() {
    let err = parse_prog("add r1 r2").unwrap_err();
    assert_eq!(err, ParseError { line: 0, reason: ParseReason::MissingOperand });
}

#[test]
fn malformed_register_is_a_parse_error() {
    let err = parse_prog("mov x1 r2").unwrap_err();
    assert_eq!(err, ParseError { line: 0, reason: ParseReason::MalformedRegister });
}

#[test]
fn malformed_immediate_is_a_parse_error() {
    let err = parse_prog("movi r1 abc").unwrap_err();
    assert_eq!(err, ParseError { line: 0, reason: ParseReason::MalformedImmediate });
}

#[test]
fn immediate_over_32_bits_is_a_parse_error() {
    let err = parse_prog("movi r1 4294967296").unwrap_err();
    assert_eq!(err, ParseError { line: 0, reason: ParseReason::MalformedImmediate });
}

#[test]
fn label_addresses_count_instruction_lines_only() {
    let p = parse_prog(".start movi r1 1\n.mid\nmovi r2 2\n.end exit").unwrap();
    assert_eq!(p.resolve(b"start"), Some(0));
    assert_eq!(p.resolve(b"mid"), Some(4));
    assert_eq!(p.resolve(b"end"), Some(8));
    assert_eq!(p.resolve(b"absent"), None);
    assert_eq!(p.lines.len(), 3);
}

#[test]
fn trailing_label_binds_one_past_the_end() {
    let (p, outcome) = run_prog("j end\nmovi r1 9\n.end", BUDGET).unwrap();
    assert_eq!(p.resolve(b"end"), Some(8));
    assert_eq!(outcome, Outcome::Halted);
    // The jump lands one past the last instruction, so the run halts
    // without executing the zeroed-out middle line.
    assert_eq!(p.state.read_reg(1).unwrap(), 0);
}

#[test]
fn duplicate_label_last_binding_wins() {
    let src = "j dup\n.dup movi r1 1\nexit\n.dup movi r1 2\nexit";
    let p = parse_prog(src).unwrap();
    assert_eq!(p.resolve(b"dup"), Some(12));
    let (p2, outcome) = run_prog(src, BUDGET).unwrap();
    assert_eq!(outcome, Outcome::Halted);
    assert_eq!(p2.state.read_reg(1).unwrap(), 2);
}

#[test]
fn backward_jump_resolves() {
    let src = "movi r1 3\n.back movi r2 1\nadd r3 r3 r2\nexit\nj back";
    let p = parse_prog(src).unwrap();
    assert_eq!(p.resolve(b"back"), Some(4));
}

#[test]
fn step_on_halted_machine_is_a_no_op() {
    let (mut p, _) = run_prog("exit", BUDGET).unwrap();
    let pc_before = p.state.pc();
    let ev = do_line(&mut p).unwrap();
    assert_eq!(ev, StepEvent::AlreadyHalted);
    assert_eq!(p.state.pc(), pc_before);
}

#[test]
fn step_events_report_how_the_run_ends() {
    let mut p = parse_prog("movi r1 1\nexit").unwrap();
    assert_eq!(do_line(&mut p).unwrap(), StepEvent::Ran);
    assert_eq!(do_line(&mut p).unwrap(), StepEvent::Exited);
    let mut q = parse_prog("movi r1 1").unwrap();
    assert_eq!(do_line(&mut q).unwrap(), StepEvent::Ran);
    assert_eq!(do_line(&mut q).unwrap(), StepEvent::RanOffEnd);
}

#[test]
fn parse_line_plain_instruction() {
    let line = parse_line("movi r1 5").unwrap().unwrap();
    assert!(line.label.is_none());
    match line.instr {
        Some(Instr::Movi { rd, imm }) => {
            assert_eq!(rd, 1);
            assert_eq!(imm, 5);
        }
        other => panic!("expected movi, got {:?}", other),
    }
}

#[test]
fn parse_line_label_only() {
    let line = parse_line(".loop").unwrap().unwrap();
    assert_eq!(line.label, Some(b"loop".to_vec()));
    assert!(line.instr.is_none());
}

#[test]
fn parse_line_label_with_instruction() {
    let line = parse_line(".skip exit").unwrap().unwrap();
    assert_eq!(line.label, Some(b"skip".to_vec()));
    assert!(matches!(line.instr, Some(Instr::Exit)));
}

#[test]
fn parse_line_blank_gives_nothing() {
    assert!(parse_line("").unwrap().is_none());
    assert!(parse_line("   \t ").unwrap().is_none());
}

#[test]
fn parse_line_surplus_tokens_are_ignored() {
    let line = parse_line("mov r1 r2 r3").unwrap().unwrap();
    match line.instr {
        Some(Instr::Mov { rd, rs }) => {
            assert_eq!(rd, 1);
            assert_eq!(rs, 2);
        }
        other => panic!("expected mov, got {:?}", other),
    }
}

#[test]
fn dump_renders_decimal_pc_and_hex_registers() {
    let (p, _) = run_prog("movi r1 5\nmovi r2 10\nadd r3 r1 r2\nexit", BUDGET).unwrap();
    let text = String::from_utf8(p.state.dump()).unwrap();
    assert!(text.starts_with("pc: -1\n"));
    assert!(text.contains("\tr0 = 0x0\n"));
    assert!(text.contains("\tr1 = 0x5\n"));
    assert!(text.contains("\tr2 = 0xA\n"));
    assert!(text.contains("\tr3 = 0xF\n"));
    assert!(text.contains("\tr31 = 0x0\n"));
    assert_eq!(text.lines().count(), 33);
}

#[test]
fn dump_of_fresh_state_is_all_zero() {
    let p = parse_prog("").unwrap();
    let text = String::from_utf8(p.state.dump()).unwrap();
    assert!(text.starts_with("pc: 0\n\tr0 = 0x0\n"));
    assert!(text.ends_with("\tr31 = 0x0\n"));
}

#[test]
fn dump_prog_lists_instructions_labels_and_state() {
    let p = parse_prog("movi r1 5\n.l exit\nj l").unwrap();
    let text = String::from_utf8(mips_be::dump_prog(&p)).unwrap();
    // Lines that bind a label are not in the instruction listing; the
    // label table and the state dump follow it.
    assert!(text.contains("movi r1, 5\n"));
    assert!(!text.contains("exit"));
    assert!(text.contains("j l\n"));
    assert!(text.contains("4: l\n"));
    assert!(text.contains("pc: 0\n"));
}
