use robot_asm::assemble::{assemble, AssemblingError};
use robot_asm::label::{LabelParseError, LabelString};
use robot_asm::line::{parse_code, AssemblyLine, AssemblyLineParseError};
use robot_asm::opcode::OpCode;
use robot_asm::register::{Register, RegisterParseError};

fn classify(s: &str) -> Result<AssemblyLine, AssemblyLineParseError> {
    AssemblyLine::from_str(s)
}

fn run(src: &str) -> (Result<(), AssemblingError>, Vec<u8>, Vec<u8>) {
    let code = parse_code(String::from(src)).expect("source should classify");
    let mut bios = vec![0u8; 256];
    let mut data = vec![0u8; 256];
    let r = assemble(&code, &mut bios, &mut data);
    (r, bios, data)
}

#[test]
fn classify_blank_and_comment_lines_are_empty() {
    assert!(matches!(classify(""), Ok(AssemblyLine::EmptyLine)));
    assert!(matches!(classify("   \t "), Ok(AssemblyLine::EmptyLine)));
    assert!(matches!(classify("// a comment"), Ok(AssemblyLine::EmptyLine)));
    assert!(matches!(classify("  //tight"), Ok(AssemblyLine::EmptyLine)));
}

#[test]
fn classify_zero_operand_mnemonics() {
    assert!(matches!(classify("add"), Ok(AssemblyLine::Op(OpCode::Add))));
    assert!(matches!(classify("sub"), Ok(AssemblyLine::Op(OpCode::Sub))));
    assert!(matches!(classify("mul"), Ok(AssemblyLine::Op(OpCode::Mul))));
    assert!(matches!(classify("div"), Ok(AssemblyLine::Op(OpCode::Div))));
    assert!(matches!(classify("stac_g"), Ok(AssemblyLine::Op(OpCode::StackGet))));
    assert!(matches!(classify("stac_s"), Ok(AssemblyLine::Op(OpCode::StackSet))));
    assert!(matches!(classify("exec"), Ok(AssemblyLine::Op(OpCode::Exec))));
    assert!(matches!(classify("return"), Ok(AssemblyLine::Op(OpCode::Return))));
    assert!(matches!(classify("fwd"), Ok(AssemblyLine::Op(OpCode::Forward))));
    assert!(matches!(classify("rot"), Ok(AssemblyLine::Op(OpCode::Rotate))));
    assert!(matches!(classify("brk"), Ok(AssemblyLine::Op(OpCode::Break))));
    assert!(matches!(classify("bttry"), Ok(AssemblyLine::Op(OpCode::Battery))));
    assert!(matches!(classify("inven"), Ok(AssemblyLine::Op(OpCode::InventoryGet))));
    assert!(matches!(classify("drop"), Ok(AssemblyLine::Op(OpCode::InventoryDrop))));
    assert!(matches!(classify("item"), Ok(AssemblyLine::Op(OpCode::InventoryItem))));
    assert!(matches!(classify("out"), Ok(AssemblyLine::Op(OpCode::Output))));
    assert!(matches!(classify("noop"), Ok(AssemblyLine::Op(OpCode::Noop))));
}

#[test]
fn classify_mnemonics_case_insensitively() {
    assert!(matches!(classify("ADD"), Ok(AssemblyLine::Op(OpCode::Add))));
    assert!(matches!(classify("OuT"), Ok(AssemblyLine::Op(OpCode::Output))));
    assert!(matches!(classify("NooP"), Ok(AssemblyLine::Op(OpCode::Noop))));
}

#[test]
fn classify_is_deterministic() {
    // the same line text always yields the same node
    let a = classify("mov %rga 5");
    let b = classify("mov %rga 5");
    match (a, b) {
        (
            Ok(AssemblyLine::Op(OpCode::MovImm { to: Register::RGA, from: fa })),
            Ok(AssemblyLine::Op(OpCode::MovImm { to: Register::RGA, from: fb })),
        ) => {
            assert_eq!(fa, 5);
            assert_eq!(fb, 5);
        }
        _ => panic!("mov line should classify as an immediate move twice"),
    }
}

#[test]
fn classify_let_declarations() {
    match classify("let $x = 7") {
        Ok(AssemblyLine::MemoryDeclaration { label, value }) => {
            assert_eq!(label.0, "x");
            assert_eq!(value, 7);
        }
        other => panic!("unexpected: {:?}", other),
    }
    match classify("let $x =") {
        Ok(AssemblyLine::MemoryDeclaration { value, .. }) => assert_eq!(value, 0),
        other => panic!("unexpected: {:?}", other),
    }
    assert!(matches!(classify("let"), Err(AssemblyLineParseError::LetMissingLabel)));
    assert!(matches!(classify("let $x"), Err(AssemblyLineParseError::LetMissingEquals)));
    assert!(matches!(classify("let $x 7"), Err(AssemblyLineParseError::LetMissingEquals)));
    assert!(matches!(classify("let $x = 300"), Err(AssemblyLineParseError::LetInvalidValue)));
    assert!(matches!(
        classify("let $5 = 1"),
        Err(AssemblyLineParseError::LetInvalidLabel(LabelParseError::NumericName))
    ));
}

#[test]
fn classify_jumps() {
    match classify("jmp $target") {
        Ok(AssemblyLine::Op(OpCode::Jmp { label })) => assert_eq!(label.0, "target"),
        other => panic!("unexpected: {:?}", other),
    }
    match classify("JMP $LOOP") {
        Ok(AssemblyLine::Op(OpCode::Jmp { label })) => assert_eq!(label.0, "loop"),
        other => panic!("unexpected: {:?}", other),
    }
    match classify("jmpc @cond") {
        Ok(AssemblyLine::Op(OpCode::JmpCondition { label })) => assert_eq!(label.0, "cond"),
        other => panic!("unexpected: {:?}", other),
    }
    assert!(matches!(classify("jmp"), Err(AssemblyLineParseError::JmpMissingArgument)));
    assert!(matches!(classify("jmpc"), Err(AssemblyLineParseError::JmpcMissingArgument)));
    assert!(matches!(
        classify("jmp target"),
        Err(AssemblyLineParseError::JmpInvalidArgument(LabelParseError::InvalidPrefix))
    ));
    assert!(matches!(
        classify("jmpc target"),
        Err(AssemblyLineParseError::JmpcInvalidArgument(LabelParseError::InvalidPrefix))
    ));
}

#[test]
fn classify_splits_on_any_unicode_whitespace() {
    assert!(matches!(classify("add\u{3000}trailing"), Ok(AssemblyLine::Op(OpCode::Add))));
    assert!(matches!(classify("\u{a0}\u{2028}out"), Ok(AssemblyLine::Op(OpCode::Output))));
}

#[test]
fn classify_ignores_tokens_past_the_operands() {
    match classify("let $x = 7 ignored tail") {
        Ok(AssemblyLine::MemoryDeclaration { value, .. }) => assert_eq!(value, 7),
        other => panic!("unexpected: {:?}", other),
    }
    assert!(matches!(classify("add extra words"), Ok(AssemblyLine::Op(OpCode::Add))));
}

#[test]
fn classify_mov_tries_register_then_immediate_then_label() {
    assert!(matches!(
        classify("mov %rga %rgb"),
        Ok(AssemblyLine::Op(OpCode::MovReg { to: Register::RGA, from: Register::RGB }))
    ));
    match classify("mov %mem 42") {
        Ok(AssemblyLine::Op(OpCode::MovImm { to: Register::MEM, from })) => assert_eq!(from, 42),
        other => panic!("unexpected: {:?}", other),
    }
    match classify("mov %rgd $var") {
        Ok(AssemblyLine::Op(OpCode::MovAddr { to: Register::RGD, from })) => {
            assert_eq!(from.0, "var")
        }
        other => panic!("unexpected: {:?}", other),
    }
    assert!(matches!(classify("mov"), Err(AssemblyLineParseError::MovMissingTo)));
    assert!(matches!(classify("mov %rga"), Err(AssemblyLineParseError::MovMissingFrom)));
    assert!(matches!(
        classify("mov %xyz 1"),
        Err(AssemblyLineParseError::MovInvalidToRegister(RegisterParseError::InvalidRegister))
    ));
    assert!(matches!(
        classify("mov %rga xyz"),
        Err(AssemblyLineParseError::MovInvalidFrom(LabelParseError::InvalidPrefix))
    ));
}

#[test]
fn classify_mov_immediate_literal_forms() {
    // u8 literals allow a leading plus sign and leading zeros
    match classify("mov %rga +7") {
        Ok(AssemblyLine::Op(OpCode::MovImm { from, .. })) => assert_eq!(from, 7),
        other => panic!("unexpected: {:?}", other),
    }
    match classify("mov %rga 007") {
        Ok(AssemblyLine::Op(OpCode::MovImm { from, .. })) => assert_eq!(from, 7),
        other => panic!("unexpected: {:?}", other),
    }
    // 256 does not fit in a byte, and is not a valid label either
    assert!(matches!(
        classify("mov %rga 256"),
        Err(AssemblyLineParseError::MovInvalidFrom(LabelParseError::InvalidPrefix))
    ));
    // a sign with no digits is not a literal
    assert!(matches!(
        classify("mov %rga +"),
        Err(AssemblyLineParseError::MovInvalidFrom(LabelParseError::InvalidPrefix))
    ));
}

#[test]
fn classify_cmp_call_tries_immediate_then_label() {
    match classify("cmp_call 3") {
        Ok(AssemblyLine::Op(OpCode::CmpCallImm { component })) => assert_eq!(component, 3),
        other => panic!("unexpected: {:?}", other),
    }
    match classify("cmp_call $comp") {
        Ok(AssemblyLine::Op(OpCode::CmpCallAddr { component })) => assert_eq!(component.0, "comp"),
        other => panic!("unexpected: {:?}", other),
    }
    assert!(matches!(classify("cmp_call"), Err(AssemblyLineParseError::CmpCallMissingComponent)));
}

#[test]
fn classify_label_definitions() {
    match classify("foo:") {
        Ok(AssemblyLine::Label { name }) => assert_eq!(name.0, "foo"),
        other => panic!("unexpected: {:?}", other),
    }
    match classify("LOOP:") {
        Ok(AssemblyLine::Label { name }) => assert_eq!(name.0, "loop"),
        other => panic!("unexpected: {:?}", other),
    }
    assert!(matches!(
        classify("5:"),
        Err(AssemblyLineParseError::InvalidLabel(LabelParseError::NumericName))
    ));
    assert!(matches!(
        classify("rga:"),
        Err(AssemblyLineParseError::InvalidLabel(LabelParseError::RegisterName))
    ));
    assert!(matches!(classify("unknown"), Err(AssemblyLineParseError::InvalidInstruction)));
}

#[test]
fn label_validator_treats_both_sigils_alike() {
    let d = LabelString::from_str("$foo").expect("dollar form should validate");
    let a = LabelString::from_str("@foo").expect("at form should validate");
    assert_eq!(d.0, "foo");
    assert_eq!(a.0, "foo");
    let upper = LabelString::from_str("$FOO").expect("upper-case form should validate");
    assert_eq!(upper.0, "foo");
}

#[test]
fn label_validator_rejects_ambiguous_bodies() {
    assert!(matches!(LabelString::from_str("$5"), Err(LabelParseError::NumericName)));
    assert!(matches!(LabelString::from_str("@250"), Err(LabelParseError::NumericName)));
    assert!(matches!(LabelString::from_str("$rga"), Err(LabelParseError::RegisterName)));
    assert!(matches!(LabelString::from_str("@MEM"), Err(LabelParseError::RegisterName)));
    assert!(matches!(LabelString::from_str("foo"), Err(LabelParseError::InvalidPrefix)));
    assert!(matches!(LabelString::from_str(""), Err(LabelParseError::InvalidPrefix)));
}

#[test]
fn register_validator_is_case_insensitive() {
    assert!(matches!(Register::from_str("%rga"), Ok(Register::RGA)));
    assert!(matches!(Register::from_str("%RGB"), Ok(Register::RGB)));
    assert!(matches!(Register::from_str("%RgC"), Ok(Register::RGC)));
    assert!(matches!(Register::from_str("%rgd"), Ok(Register::RGD)));
    assert!(matches!(Register::from_str("%ret"), Ok(Register::RET)));
    assert!(matches!(Register::from_str("%mem"), Ok(Register::MEM)));
    assert!(matches!(
        Register::from_str("rga"),
        Err(RegisterParseError::InvalidRegister)
    ));
    assert!(matches!(
        Register::from_str("%xyz"),
        Err(RegisterParseError::InvalidRegister)
    ));
}

#[test]
fn register_ids_are_fixed() {
    assert_eq!(Register::RGA.id(), 0);
    assert_eq!(Register::RGB.id(), 1);
    assert_eq!(Register::RGC.id(), 2);
    assert_eq!(Register::RGD.id(), 3);
    assert_eq!(Register::RET.id(), 4);
    assert_eq!(Register::MEM.id(), 5);
}

#[test]
fn encode_canonical_bytes() {
    assert_eq!(OpCode::<u8>::Add.encode(), vec![0]);
    assert_eq!(OpCode::<u8>::Jmp { label: 7 }.encode(), vec![4, 7]);
    assert_eq!(OpCode::<u8>::JmpCondition { label: 9 }.encode(), vec![5, 9]);
    assert_eq!(
        OpCode::<u8>::MovReg { to: Register::RGA, from: Register::MEM }.encode(),
        vec![6, 0, 5]
    );
    assert_eq!(OpCode::<u8>::MovImm { to: Register::RGB, from: 42 }.encode(), vec![7, 1, 42]);
    assert_eq!(OpCode::<u8>::MovAddr { to: Register::RGC, from: 3 }.encode(), vec![8, 2, 3]);
    assert_eq!(OpCode::<u8>::CmpCallAddr { component: 1 }.encode(), vec![13, 1]);
    assert_eq!(OpCode::<u8>::CmpCallImm { component: 2 }.encode(), vec![14, 2]);
    assert_eq!(OpCode::<u8>::Noop.encode(), vec![23]);
}

#[test]
fn parse_code_returns_all_nodes_when_every_line_is_valid() {
    let nodes = parse_code(String::from("add\nmul\nout")).expect("all lines valid");
    assert_eq!(nodes.len(), 3);
    assert!(matches!(nodes[0], AssemblyLine::Op(OpCode::Add)));
    assert!(matches!(nodes[1], AssemblyLine::Op(OpCode::Mul)));
    assert!(matches!(nodes[2], AssemblyLine::Op(OpCode::Output)));
}

#[test]
fn parse_code_reports_every_offending_line() {
    // malformed lines at zero-based positions 2 and 5, all others valid
    let src = "add\nmul\nbad!\nout\nnoop\nalso bad\nfwd";
    let errors = parse_code(String::from(src)).expect_err("two lines are invalid");
    assert_eq!(errors.len(), 2);
    assert_eq!(errors[0].line, 2);
    assert!(matches!(errors[0].error, AssemblyLineParseError::InvalidInstruction));
    assert_eq!(errors[1].line, 5);
    assert!(matches!(errors[1].error, AssemblyLineParseError::InvalidInstruction));
}

#[test]
fn parse_code_handles_carriage_returns_and_blank_lines() {
    let nodes = parse_code(String::from("add\r\n\r\nout\r\n")).expect("all lines valid");
    assert_eq!(nodes.len(), 3);
    assert!(matches!(nodes[0], AssemblyLine::Op(OpCode::Add)));
    assert!(matches!(nodes[1], AssemblyLine::EmptyLine));
    assert!(matches!(nodes[2], AssemblyLine::Op(OpCode::Output)));
}

#[test]
fn assemble_forward_jump_resolves_after_pass_two() {
    // the jump-target byte equals the offset recorded for the label
    let (r, bios, _data) = run("add\nmul\njmp $skip\nskip:\nout");
    assert!(r.is_ok());
    assert_eq!(bios[0], 0); // add
    assert_eq!(bios[1], 2); // mul
    assert_eq!(bios[2], 4); // jmp opcode
    assert_eq!(bios[3], 4); // resolved address of `skip`
    assert_eq!(bios[4], 22); // out
}

#[test]
fn assemble_backward_jump_patches_immediately() {
    let (r, bios, _data) = run("start:\nadd\njmp $start");
    assert!(r.is_ok());
    assert_eq!(bios[0], 0); // add, at the `start` offset
    assert_eq!(bios[1], 4); // jmp opcode
    assert_eq!(bios[2], 0); // resolved address of `start`
}

#[test]
fn assemble_missing_label_is_fatal() {
    let (r, _bios, _data) = run("jmp $missing");
    assert!(matches!(r, Err(AssemblingError::InvalidLabel)));
}

#[test]
fn assemble_missing_data_label_is_fatal() {
    let (r, _bios, _data) = run("mov %rga $nope");
    assert!(matches!(r, Err(AssemblingError::InvalidMemoryLabel)));
}

#[test]
fn assemble_duplicate_label_cites_both_lines() {
    let (r, _bios, _data) = run("foo:\nadd\nfoo:");
    match r {
        Err(AssemblingError::DuplicateLabel { name, first_defined, redefined }) => {
            assert_eq!(name, "foo");
            assert_eq!(first_defined, 0);
            assert_eq!(redefined, 2);
        }
        other => panic!("unexpected: {:?}", other),
    }
}

#[test]
fn assemble_duplicate_data_label_cites_both_lines() {
    let (r, _bios, _data) = run("let $x = 7\nadd\nlet $x = 9");
    match r {
        Err(AssemblingError::DuplicateMemory { name, first_defined, redefined }) => {
            assert_eq!(name, "x");
            assert_eq!(first_defined, 0);
            assert_eq!(redefined, 2);
        }
        other => panic!("unexpected: {:?}", other),
    }
}

#[test]
fn assemble_data_reference_resolves_to_offset_not_value() {
    let (r, bios, data) = run("let $a = 9\nlet $x = 7\nmov %rga $x");
    assert!(r.is_ok());
    assert_eq!(bios[0], 8); // mov-from-address opcode
    assert_eq!(bios[1], 0); // destination register id
    assert_eq!(bios[2], 1); // `$x`'s data offset, not its value 7
    assert_eq!(data[0], 9);
    assert_eq!(data[1], 7);
}

#[test]
fn assemble_forward_data_reference_resolves() {
    let (r, bios, data) = run("mov %rga $x\nlet $x = 7");
    assert!(r.is_ok());
    assert_eq!(bios[2], 0); // `$x` sits at data offset 0
    assert_eq!(data[0], 7);
}

#[test]
fn assemble_wipes_stale_data_memory() {
    let code = parse_code(String::from("let $x = 5")).expect("valid");
    let mut bios = vec![0u8; 256];
    let mut data = vec![0xabu8; 256];
    let r = assemble(&code, &mut bios, &mut data);
    assert!(r.is_ok());
    assert_eq!(data[0], 5);
    for k in 1..256 {
        assert_eq!(data[k], 0);
    }
}

#[test]
fn assemble_rejects_instruction_address_overflow() {
    let mut src = String::new();
    for _ in 0..300 {
        src.push_str("add\n");
    }
    let (r, _bios, _data) = run(&src);
    assert!(matches!(r, Err(AssemblingError::PointerOverflow)));
}

#[test]
fn assemble_rejects_encoding_past_the_image_end() {
    // 255 one-byte instructions leave one byte; a two-byte jump cannot fit
    let mut src = String::new();
    for _ in 0..255 {
        src.push_str("add\n");
    }
    src.push_str("jmp $end\nend:");
    let (r, _bios, _data) = run(&src);
    assert!(matches!(r, Err(AssemblingError::MemoryOverflow)));
}

#[test]
fn assemble_rejects_data_address_overflow() {
    let mut src = String::new();
    for k in 0..256 {
        src.push_str(&format!("let $v{} = 1\n", k));
    }
    let (r, _bios, _data) = run(&src);
    assert!(matches!(r, Err(AssemblingError::PointerOverflow)));
}

#[test]
fn assemble_accepts_a_nearly_full_data_segment() {
    let mut src = String::new();
    for k in 0..255 {
        src.push_str(&format!("let $v{} = 2\n", k));
    }
    let (r, _bios, data) = run(&src);
    assert!(r.is_ok());
    for k in 0..255 {
        assert_eq!(data[k], 2);
    }
    assert_eq!(data[255], 0);
}

#[test]
fn assemble_empty_program_yields_zeroed_data() {
    let (r, bios, data) = run("");
    assert!(r.is_ok());
    assert_eq!(bios.len(), 256);
    assert_eq!(data.len(), 256);
    for k in 0..256 {
        assert_eq!(data[k], 0);
    }
}
