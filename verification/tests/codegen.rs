use subleq_kit::assembler::Assembler;
use subleq_kit::assembling::install_registers;
use subleq_kit::error::AsmError;
use subleq_kit::mnemonic::Mnemonic;
use subleq_kit::registers::{Registers, INITIAL_OFFSET};
use subleq_kit::symbols::SymbolTable;

fn cs(s: &str) -> Vec<char> {
    s.chars().collect()
}

fn ss(v: &[&str]) -> Vec<Vec<char>> {
    v.iter().map(|s| cs(s)).collect()
}

/// An assembler that knows the registers.
fn fresh() -> Box<Assembler> {
    let mut a = Box::new(Assembler::new());
    install_registers(&mut a);
    a
}

fn emitted(a: &Assembler, from: u16) -> Vec<i16> {
    (from..a.offset).map(|i| a.data[i as usize]).collect()
}

const ALL: [Mnemonic; 16] = [
    Mnemonic::Assign,
    Mnemonic::Slt,
    Mnemonic::Clr,
    Mnemonic::Neg,
    Mnemonic::Add,
    Mnemonic::Sub,
    Mnemonic::Beq,
    Mnemonic::Blq,
    Mnemonic::Bgq,
    Mnemonic::Slq,
    Mnemonic::Inc,
    Mnemonic::Dec,
    Mnemonic::Jmp,
    Mnemonic::Jsr,
    Mnemonic::Cll,
    Mnemonic::Ret,
];

#[test]
fn registers_lie_above_the_stack() {
    assert_eq!(INITIAL_OFFSET, 256);
    assert_eq!(Registers::BRK, 256);
    assert_eq!(Registers::IOUT, 257);
    assert_eq!(Registers::COUT, 258);
    assert_eq!(Registers::P1, 259);
    assert_eq!(Registers::N1, 260);
    assert_eq!(Registers::O, 261);
    assert_eq!(Registers::J, 262);
    assert_eq!(Registers::K, 263);
    assert_eq!(Registers::A, 264);
    assert_eq!(Registers::B, 265);
    assert_eq!(Registers::S, 266);
    assert_eq!(Registers::R, 267);
    assert_eq!(Registers::A1, 268);
    assert_eq!(Registers::A2, 269);
    assert_eq!(Registers::X, 270);
    assert_eq!(Registers::Y, 271);
    assert_eq!(Registers::F, 272);
    assert_eq!(Registers::DATA_OFFSET, 273);
}

#[test]
fn new_assembler_is_blank() {
    let a = Box::new(Assembler::new());
    assert_eq!(a.line, 1);
    assert_eq!(a.offset, 273);
    assert!(a.data.iter().all(|w| *w == 0));
    for name in ["BRK", "A", "P1", "DATA_OFFSET", "x"] {
        assert_eq!(a.vars.get(&cs(name)), None);
    }
}

#[test]
fn installing_names_registers_and_sets_constants() {
    let a = fresh();
    assert_eq!(a.line, 1);
    assert_eq!(a.offset, 273);
    assert_eq!(a.data[259], 1);
    assert_eq!(a.data[260], -1);
    assert_eq!(a.data[261], i16::MIN);
    assert_eq!(a.data[262], 12);
    assert_eq!(a.data[263], 15);
    let others = a.data.iter().enumerate().filter(|(i, w)| **w != 0 && !(259..=263).contains(i));
    assert_eq!(others.count(), 0);
    for (name, addr) in [
        ("BRK", 256), ("IOUT", 257), ("COUT", 258), ("P1", 259), ("N1", 260), ("O", 261),
        ("J", 262), ("K", 263), ("A", 264), ("B", 265), ("S", 266), ("R", 267), ("A1", 268),
        ("A2", 269), ("X", 270), ("Y", 271), ("F", 272), ("DATA_OFFSET", 273),
    ] {
        assert_eq!(a.vars.get(&cs(name)), Some(addr), "{}", name);
    }
    assert_eq!(a.vars.get(&cs("brk")), None);
    assert_eq!(a.vars.get(&cs("x")), None);
}

#[test]
fn installing_keeps_what_is_there() {
    let mut a = Box::new(Assembler::new());
    a.vars.define(&cs("x"), 300);
    a.data[300] = 7;
    a.line = 4;
    a.offset = 500;
    install_registers(&mut a);
    assert_eq!(a.vars.get(&cs("x")), Some(300));
    assert_eq!(a.vars.get(&cs("A")), Some(264));
    assert_eq!((a.data[300], a.data[259], a.line, a.offset), (7, 1, 4, 500));
}

#[test]
fn symbol_table_keeps_the_first_definition() {
    let mut t = SymbolTable::new();
    assert_eq!(t.get(&cs("x")), None);
    assert!(t.define(&cs("x"), 7));
    assert!(t.define(&cs("y"), 8));
    assert!(!t.define(&cs("x"), 9));
    assert_eq!(t.get(&cs("x")), Some(7));
    assert_eq!(t.get(&cs("y")), Some(8));
    t.bind(&cs("x"), 10);
    assert_eq!(t.get(&cs("x")), Some(10));
    assert!(t.define(&cs(""), 1));
    assert_eq!(t.get(&cs("")), Some(1));
}

#[test]
fn mnemonics_have_names_and_sizes() {
    let expect = [
        ("set", 4), ("slt", 18), ("clr", 1), ("neg", 6), ("add", 3), ("sub", 1), ("beq", 6),
        ("blq", 2), ("bgq", 4), ("slq", 1), ("inc", 1), ("dec", 1), ("jmp", 1), ("jsr", 15),
        ("cll", 19), ("ret", 8),
    ];
    for (m, (name, size)) in ALL.iter().zip(expect.iter()) {
        assert_eq!(m.name(), *name);
        assert_eq!(m.triples(), *size);
        assert_eq!(Mnemonic::from_name(&cs(name)), Some(*m));
    }
    for bad in ["", "SET", "se", "sett", "mov", "set "] {
        assert_eq!(Mnemonic::from_name(&cs(bad)), None);
    }
}

#[test]
fn write_idioms() {
    let mut a = fresh();
    a.write(-7);
    assert_eq!((a.data[273], a.offset), (-7, 274));
    a.pc_jump(0);
    assert_eq!((a.data[274], a.offset), (275, 275));
    a.pc_jump(2);
    assert_eq!((a.data[275], a.offset), (282, 276));
    a.pc_jump(-1);
    assert_eq!((a.data[276], a.offset), (274, 277));
    a.pc_offset(30);
    assert_eq!((a.data[277], a.offset), (307, 278));
    a.pc_offset(-3);
    assert_eq!((a.data[278], a.offset), (275, 279));
    a.pc_offset(0);
    assert_eq!((a.data[279], a.offset), (279, 280));
}

#[test]
fn write_idioms_wrap_at_the_end_of_memory() {
    let mut a = fresh();
    a.offset = 65535;
    a.write(3);
    assert_eq!((a.data[65535], a.offset), (3, 0));
    a.offset = 32766;
    a.pc_jump(0);
    assert_eq!((a.data[32766], a.offset), (32767, 32767));
    a.pc_jump(0);
    assert_eq!((a.data[32767], a.offset), (i16::MIN, 32768));
    a.pc_offset(-1);
    assert_eq!(a.data[32768], 32767);
    a.offset = 65535;
    a.pc_jump(0);
    assert_eq!((a.data[65535], a.offset), (0, 0));
}

#[test]
fn operands_resolve_as_names_then_literals() {
    let mut a = fresh();
    a.line = 9;
    a.vars.define(&cs("x"), 300);
    a.vars.define(&cs("12"), 301);
    let args = ss(&["A", "x", "-4", "12", "nope", "40000"]);
    assert_eq!(a.var_get(&args, 0), Ok(264));
    assert_eq!(a.var_get(&args, 1), Ok(300));
    assert_eq!(a.var_get(&args, 2), Ok(-4));
    assert_eq!(a.var_get(&args, 3), Ok(301));
    assert_eq!(a.var_get(&args, 4), Err(AsmError::Unresolved { text: cs("nope"), line: 9, arg: 4 }));
    assert_eq!(a.var_get(&args, 5), Err(AsmError::Unresolved { text: cs("40000"), line: 9, arg: 5 }));
    assert_eq!(a.var_get(&args, 6), Err(AsmError::MissingArgument { line: 9, arg: 6 }));
    assert_eq!(a.args_get(&args, 4), Ok(&cs("nope")));
    assert_eq!(a.args_get(&args, 6), Err(AsmError::MissingArgument { line: 9, arg: 6 }));
}

#[test]
fn set_emits_four_triples() {
    let mut a = fresh();
    assert_eq!(a.set(&ss(&["300", "301"])), Ok(()));
    assert_eq!(
        emitted(&a, 273),
        vec![300, 300, 276, 264, 264, 279, 301, 264, 282, 264, 300, 285]
    );
}

#[test]
fn set_on_a_new_assembler_writes_twelve_words_and_nothing_else() {
    let mut a = Box::new(Assembler::new());
    assert_eq!(a.set(&ss(&["270", "271"])), Ok(()));
    assert_eq!(a.offset, 285);
    assert_eq!(
        emitted(&a, 273),
        vec![270, 270, 276, 264, 264, 279, 271, 264, 282, 264, 270, 285]
    );
    let others = a.data.iter().enumerate().filter(|(i, w)| **w != 0 && !(273..285).contains(i));
    assert_eq!(others.count(), 0);
    assert_eq!(a.line, 1);
}

#[test]
fn set_of_a_cell_to_itself_only_clears_the_scratch_register() {
    let mut a = fresh();
    a.vars.define(&cs("x"), 300);
    assert_eq!(a.set(&ss(&["x", "300"])), Ok(()));
    assert_eq!(
        emitted(&a, 273),
        vec![264, 264, 276, 264, 264, 279, 264, 264, 282, 264, 264, 285]
    );
}

#[test]
fn short_instructions_emit_their_triples() {
    let mut a = fresh();
    assert_eq!(a.clr(&ss(&["300"])), Ok(()));
    assert_eq!(emitted(&a, 273), vec![300, 300, 276]);
    assert_eq!(a.sub(&ss(&["300", "301"])), Ok(()));
    assert_eq!(emitted(&a, 276), vec![301, 300, 279]);
    assert_eq!(a.inc(&ss(&["300"])), Ok(()));
    assert_eq!(emitted(&a, 279), vec![260, 300, 282]);
    assert_eq!(a.dec(&ss(&["300"])), Ok(()));
    assert_eq!(emitted(&a, 282), vec![259, 300, 285]);
    assert_eq!(a.jmp(&ss(&["500"])), Ok(()));
    assert_eq!(emitted(&a, 285), vec![264, 264, 500]);
    assert_eq!(a.slq(&ss(&["301", "300", "500"])), Ok(()));
    assert_eq!(emitted(&a, 288), vec![301, 300, 500]);
    assert_eq!(a.add(&ss(&["300", "301"])), Ok(()));
    assert_eq!(emitted(&a, 291), vec![264, 264, 294, 301, 264, 297, 264, 300, 300]);
    assert_eq!(a.blq(&ss(&["300", "500"])), Ok(()));
    assert_eq!(emitted(&a, 300), vec![264, 264, 303, 264, 300, 500]);
}

#[test]
fn neg_and_branches_emit_their_triples() {
    let mut a = fresh();
    assert_eq!(a.neg(&ss(&["300"])), Ok(()));
    assert_eq!(
        emitted(&a, 273),
        vec![264, 264, 276, 265, 265, 279, 300, 264, 282, 300, 300, 285, 264, 265, 288, 265, 300, 291]
    );
    assert_eq!(a.beq(&ss(&["300", "500"])), Ok(()));
    assert_eq!(
        emitted(&a, 291),
        vec![264, 264, 294, 264, 300, 300, 264, 264, 309, 260, 300, 306, 259, 300, 500, 259, 300, 309]
    );
    assert_eq!(a.bgq(&ss(&["300", "500"])), Ok(()));
    assert_eq!(
        emitted(&a, 309),
        vec![264, 264, 312, 300, 264, 318, 264, 264, 321, 259, 264, 500]
    );
    assert_eq!(a.offset, 321);
}

#[test]
fn ret_emits_its_trampoline() {
    let mut a = fresh();
    a.offset = 1000;
    assert_eq!(a.ret(&ss(&[])), Ok(()));
    assert_eq!(
        emitted(&a, 1000),
        vec![
            1018, 1018, 1003, 1023, 1023, 1006, 259, 266, 1009, 264, 264, 1012, 266, 264, 1015,
            264, 1018, 1018, 0, 1023, 1021, 264, 264, 0
        ]
    );
}

#[test]
fn jsr_emits_its_trampoline() {
    let mut a = fresh();
    a.offset = 1000;
    assert_eq!(a.jsr(&ss(&["500"])), Ok(()));
    assert_eq!(
        emitted(&a, 1000),
        vec![
            1030, 1030, 1003, 1031, 1031, 1006, 1034, 1034, 1009, 1037, 1037, 1012, 264, 264,
            1015, 266, 264, 1018, 264, 1030, 1021, 264, 1031, 1024, 264, 1034, 1027, 264, 1037,
            1030, 0, 0, 1033, 1033, 0, 1036, 262, 0, 1039, 260, 266, 1042, 264, 264, 500
        ]
    );
}

#[test]
fn every_instruction_emits_three_words_for_each_triple() {
    let args = ss(&["300", "301", "302"]);
    for m in ALL {
        for start in [273u16, 1000, 32760, 65530] {
            let mut a = fresh();
            a.offset = start;
            assert_eq!(a.assemble_instruction(&cs(m.name()), &args), Ok(()));
            assert_eq!(a.offset, start.wrapping_add(3 * m.triples()), "{:?}", m);
        }
    }
}

#[test]
fn instructions_dispatch_by_name() {
    let mut a = fresh();
    let mut b = fresh();
    assert_eq!(a.assemble_instruction(&cs("neg"), &ss(&["X"])), Ok(()));
    assert_eq!(b.neg(&ss(&["X"])), Ok(()));
    assert_eq!(emitted(&a, 273), emitted(&b, 273));
    assert_eq!((a.line, b.line), (2, 1));
    a.line = 4;
    assert_eq!(
        a.assemble_instruction(&cs("mov"), &ss(&["X"])),
        Err(AsmError::UndefinedInstruction { line: 4 })
    );
    assert_eq!((a.offset, a.line), (291, 5));
    assert_eq!(
        a.assemble_instruction(&cs("add"), &ss(&["X"])),
        Err(AsmError::MissingArgument { line: 5, arg: 1 })
    );
    assert_eq!((a.offset, a.line), (291, 6));
    a.line = usize::MAX;
    assert_eq!(a.assemble_instruction(&cs("clr"), &ss(&["X"])), Ok(()));
    assert_eq!((a.offset, a.line), (294, usize::MAX));
}

#[test]
fn operand_errors_leave_the_image_alone() {
    let mut a = fresh();
    a.line = 3;
    assert_eq!(a.set(&ss(&["X"])), Err(AsmError::MissingArgument { line: 3, arg: 1 }));
    assert_eq!(a.set(&ss(&[])), Err(AsmError::MissingArgument { line: 3, arg: 0 }));
    assert_eq!(
        a.set(&ss(&["X", "what"])),
        Err(AsmError::Unresolved { text: cs("what"), line: 3, arg: 1 })
    );
    assert_eq!(
        a.slq(&ss(&["bad", "also"])),
        Err(AsmError::Unresolved { text: cs("bad"), line: 3, arg: 0 })
    );
    assert_eq!(a.cll(&ss(&["500"])), Err(AsmError::MissingArgument { line: 3, arg: 1 }));
    assert_eq!(a.offset, 273);
    assert_eq!(a.data[273], 0);
    assert_eq!(a.ret(&ss(&["ignored"])), Ok(()));
}

#[test]
fn labels_bind_the_name_behind_the_mark() {
    let mut a = fresh();
    a.line = 2;
    assert_eq!(a.assemble_label(&cs("#start"), 400), Ok(()));
    assert_eq!(a.line, 3);
    assert_eq!(a.vars.get(&cs("start")), Some(400));
    assert_eq!(a.vars.get(&cs("#start")), None);
    assert_eq!(a.assemble_label(&cs("#high"), 40000), Ok(()));
    assert_eq!(a.line, 4);
    assert_eq!(a.vars.get(&cs("high")), Some(40000u16 as i16));
    assert_eq!(a.assemble_label(&cs("#start"), 500), Err(AsmError::RedefinedLabel { line: 4 }));
    assert_eq!(a.line, 5);
    assert_eq!(a.vars.get(&cs("start")), Some(400));
    assert_eq!(a.assemble_label(&cs("#A"), 500), Err(AsmError::RedefinedLabel { line: 5 }));
    assert_eq!((a.line, a.offset), (6, 273));
    assert!(a.data.iter().enumerate().all(|(i, w)| *w == 0 || (259..=263).contains(&i)));
}

#[test]
fn a_label_on_a_new_assembler_advances_the_line() {
    let mut a = Box::new(Assembler::new());
    assert_eq!(a.assemble_label(&cs("#loop"), 273), Ok(()));
    assert_eq!((a.line, a.offset), (2, 273));
    assert_eq!(a.vars.get(&cs("loop")), Some(273));
    assert_eq!(a.assemble_label(&cs("#loop"), 280), Err(AsmError::RedefinedLabel { line: 2 }));
    assert_eq!(a.line, 3);
    assert_eq!(a.vars.get(&cs("loop")), Some(273));
    a.advance();
    assert_eq!(a.line, 4);
}
