use subleq_kit::assembling::{
    assemble, build, classify, declare, encode, install_registers, locate, with_included,
};
use subleq_kit::assembler::Assembler;
use subleq_kit::error::{push_decimal, push_text, AsmError};
use subleq_kit::passes::LineKind;
use std::collections::HashMap;

fn cs(s: &str) -> Vec<char> {
    s.chars().collect()
}

fn ss(v: &[&str]) -> Vec<Vec<char>> {
    v.iter().map(|s| cs(s)).collect()
}

fn fails(src: &str) -> AsmError {
    match build(&cs(src), false) {
        Ok(_) => panic!("assembled: {:?}", src),
        Err(e) => e,
    }
}

fn says(src: &str) -> String {
    match assemble(src.to_string(), false) {
        Ok(_) => panic!("assembled: {:?}", src),
        Err(e) => e,
    }
}

#[test]
fn undefined_directive() {
    assert_eq!(fails("\n.org 5"), AsmError::UndefinedDirective { line: 2 });
    assert_eq!(fails(".data x 5"), AsmError::UndefinedDirective { line: 1 });
    assert_eq!(fails("."), AsmError::UndefinedDirective { line: 1 });
    assert_eq!(says("clr A\n\n.org 5"), "Undefined directive (l 3)");
}

#[test]
fn invalid_integer() {
    assert_eq!(fails(".dat x five"), AsmError::InvalidInteger { text: cs("five"), line: 1, arg: 1 });
    assert_eq!(fails(".dat x 32768"), AsmError::InvalidInteger { text: cs("32768"), line: 1, arg: 1 });
    assert_eq!(fails(".dat x A"), AsmError::InvalidInteger { text: cs("A"), line: 1, arg: 1 });
    assert_eq!(says(".dat a 1\n.dat x 0x10"), "Invalid integer 0x10 (l 2, a 1)");
}

#[test]
fn missing_argument() {
    assert_eq!(fails(".dat"), AsmError::MissingArgument { line: 1, arg: 1 });
    assert_eq!(fails(".dat x"), AsmError::MissingArgument { line: 1, arg: 1 });
    assert_eq!(fails("clr"), AsmError::MissingArgument { line: 1, arg: 0 });
    assert_eq!(fails("\nset A"), AsmError::MissingArgument { line: 2, arg: 1 });
    assert_eq!(fails("slq A B"), AsmError::MissingArgument { line: 1, arg: 2 });
    assert_eq!(says("\n\n\n\n\n\n\n\n\n\n\njsr"), "Expected an argument (l 12, a 0)");
}

#[test]
fn unresolved_operand() {
    assert_eq!(fails("clr nothing"), AsmError::Unresolved { text: cs("nothing"), line: 1, arg: 0 });
    assert_eq!(fails("jmp #start\n#start"), AsmError::Unresolved { text: cs("#start"), line: 1, arg: 0 });
    assert_eq!(fails("set A 99999"), AsmError::Unresolved { text: cs("99999"), line: 1, arg: 1 });
    assert_eq!(
        says(".dat x 1\nadd x y"),
        "Expected defined variable or address, got y (l 2, a 1)"
    );
}

#[test]
fn undefined_instruction() {
    assert_eq!(fails("mov A B"), AsmError::UndefinedInstruction { line: 1 });
    assert_eq!(fails("SET A B"), AsmError::UndefinedInstruction { line: 1 });
    assert_eq!(fails("; a remark"), AsmError::UndefinedInstruction { line: 1 });
    assert_eq!(says("clr A\nnop"), "Undefined instruction (l 2)");
}

#[test]
fn redefined_variable() {
    assert_eq!(fails(".dat x 1\n.dat y 2\n.dat x 3"), AsmError::RedefinedVariable { line: 3 });
    assert_eq!(fails(".dat A 1"), AsmError::RedefinedVariable { line: 1 });
    assert_eq!(fails(".dat DATA_OFFSET 1"), AsmError::RedefinedVariable { line: 1 });
    assert_eq!(says("clr A\n.dat K 1"), "Redefined variable (l 2)");
}

#[test]
fn redefined_label() {
    assert_eq!(fails("#a\nclr A\n#a"), AsmError::RedefinedLabel { line: 3 });
    assert_eq!(fails("#S"), AsmError::RedefinedLabel { line: 1 });
    assert_eq!(says("\n#IOUT"), "Redefined label (l 2)");
}

#[test]
fn names_are_shared_by_variables_and_labels() {
    assert_eq!(fails(".dat x 1\n#x"), AsmError::RedefinedLabel { line: 2 });
    assert_eq!(fails("#x\nclr A\n.dat x 1"), AsmError::RedefinedLabel { line: 1 });
    assert_eq!(says("#x\n.dat x 1"), "Redefined label (l 1)");
}

#[test]
fn the_first_pass_reports_before_the_later_ones() {
    assert_eq!(fails("mov A\n#a\n#a\n.org"), AsmError::UndefinedDirective { line: 4 });
    assert_eq!(fails("clr nothing\n#a\n#a"), AsmError::RedefinedLabel { line: 3 });
    assert_eq!(fails("clr nothing\nmov"), AsmError::UndefinedInstruction { line: 2 });
}

#[test]
fn missing_file_message() {
    let e = AsmError::MissingInclude { name: cs("lib.sla") };
    assert_eq!(e.message(), "Could not include lib.sla");
}

#[test]
fn numbers_and_texts_are_appended() {
    let mut s = String::from("n=");
    push_decimal(&mut s, 0);
    push_text(&mut s, &cs(", "));
    push_decimal(&mut s, 7);
    push_text(&mut s, &cs(", é, "));
    push_decimal(&mut s, 1234567890);
    assert_eq!(s, "n=0, 7, é, 1234567890");
    let mut s = String::new();
    push_decimal(&mut s, usize::MAX);
    assert_eq!(s, format!("{}", usize::MAX));
}

#[test]
fn lines_are_classified_by_their_first_character() {
    assert!(matches!(classify(&ss(&[])), LineKind::Blank));
    assert!(matches!(classify(&ss(&[".dat", "x", "1"])), LineKind::Directive));
    assert!(matches!(classify(&ss(&["#x"])), LineKind::Label));
    assert!(matches!(classify(&ss(&["%file"])), LineKind::Include));
    assert!(matches!(classify(&ss(&["set", ".x"])), LineKind::Instruction));
    assert!(matches!(classify(&ss(&["x#"])), LineKind::Instruction));
}

#[test]
fn passes_work_line_by_line() {
    let mut a = Box::new(Assembler::new());
    install_registers(&mut a);
    a.line = 5;
    assert_eq!(declare(&mut a, &ss(&[".dat", "x", "-3", "extra"])), Ok(()));
    assert_eq!((a.data[273], a.offset, a.vars.get(&cs("x"))), (-3, 274, Some(273)));
    assert_eq!(a.line, 6);
    assert_eq!(declare(&mut a, &ss(&["clr", "x"])), Ok(()));
    assert_eq!((a.offset, a.line), (274, 7));
    assert_eq!(declare(&mut a, &ss(&[".dat", "x", "bad"])), Err(AsmError::InvalidInteger { text: cs("bad"), line: 7, arg: 1 }));
    assert_eq!(declare(&mut a, &ss(&[".dat", "x", "4"])), Err(AsmError::RedefinedVariable { line: 8 }));
    assert_eq!((a.data[274], a.offset, a.line), (0, 274, 9));

    a.line = 5;
    assert_eq!(locate(&mut a, &ss(&["#top"]), 300), Ok(300));
    assert_eq!(a.vars.get(&cs("top")), Some(300));
    assert_eq!(locate(&mut a, &ss(&["cll", "whatever"]), 300), Ok(357));
    assert_eq!(locate(&mut a, &ss(&["bgq"]), 300), Ok(312));
    assert_eq!(locate(&mut a, &ss(&["set"]), 65535), Ok(11));
    assert_eq!(locate(&mut a, &ss(&[".dat"]), 300), Ok(300));
    assert_eq!(locate(&mut a, &ss(&["%f"]), 300), Ok(300));
    assert_eq!(locate(&mut a, &ss(&[]), 300), Ok(300));
    assert_eq!(a.line, 12);
    assert_eq!(locate(&mut a, &ss(&["#x"]), 300), Err(AsmError::RedefinedLabel { line: 12 }));
    assert_eq!(locate(&mut a, &ss(&["what"]), 300), Err(AsmError::UndefinedInstruction { line: 13 }));
    assert_eq!(a.line, 14);

    a.line = 5;
    let mut listing = HashMap::new();
    assert_eq!(encode(&mut a, &mut listing, &ss(&["#other"])), Ok(()));
    assert_eq!(encode(&mut a, &mut listing, &ss(&[".dat", "q", "1"])), Ok(()));
    assert_eq!(encode(&mut a, &mut listing, &ss(&["jmp", "top"])), Ok(()));
    assert_eq!((a.data[274], a.data[275], a.data[276], a.offset), (264, 264, 300, 277));
    assert_eq!(listing.len(), 1);
    assert_eq!(listing.get(&274).map(|m| m.name()), Some("jmp"));
    assert_eq!(encode(&mut a, &mut listing, &ss(&["jmp"])), Err(AsmError::MissingArgument { line: 8, arg: 0 }));
    assert_eq!((a.offset, listing.len(), a.line), (277, 1, 9));
}

#[test]
fn files_are_appended_in_order() {
    let program = cs("%a\nclr A\n%b\n");
    let files = vec![Some(cs("inc X\n")), Some(cs("dec X"))];
    assert_eq!(with_included(&program, &files), Ok(cs("%a\nclr A\n%b\ninc X\ndec X")));
    assert_eq!(with_included(&cs("clr A"), &vec![]), Ok(cs("clr A")));
    assert_eq!(with_included(&cs("clr A"), &vec![Some(cs("unasked"))]), Ok(cs("clr A")));
    assert_eq!(with_included(&cs("%a"), &vec![Some(cs(""))]), Ok(cs("%a")));
}

#[test]
fn the_first_missing_file_is_the_error() {
    let program = cs("%a\n%b\n%c");
    let e = with_included(&program, &vec![Some(cs("x")), None, None]);
    assert_eq!(e, Err(AsmError::MissingInclude { name: cs("b.sla") }));
    assert_eq!(e.unwrap_err().message(), "Could not include b.sla");
    let e = with_included(&program, &vec![Some(cs("x")), Some(cs("y"))]);
    assert_eq!(e, Err(AsmError::MissingInclude { name: cs("c.sla") }));
    let e = with_included(&program, &vec![]);
    assert_eq!(e, Err(AsmError::MissingInclude { name: cs("a.sla") }));
}
