use subleq_kit::assembling::{assemble, build, Output, SubLeqSystem};
use subleq_kit::mnemonic::Mnemonic;

fn cs(s: &str) -> Vec<char> {
    s.chars().collect()
}

fn load(src: &str) -> Box<SubLeqSystem> {
    Box::new(assemble(src.to_string(), false).unwrap())
}

/// Steps until the system halts or `limit` steps are done; what was sent.
fn run(sys: &mut SubLeqSystem, limit: usize) -> Vec<Output> {
    let mut out = Vec::new();
    for _ in 0..limit {
        if sys.halted() {
            break;
        }
        match sys.step() {
            Output::Silent => (),
            o => out.push(o),
        }
    }
    out
}

fn printed(out: &[Output]) -> String {
    let mut s = String::new();
    for o in out {
        match o {
            Output::Number(n) => s += &format!("{}", n),
            Output::Character(c) => s.push(*c),
            _ => (),
        }
    }
    s
}

/// Runs `body` on two variables d and s; the value of d, of s and what was sent.
fn on(body: &str, d: i16, s: i16) -> (i16, i16, Vec<Output>) {
    let src = format!(".dat d {}\n.dat s {}\n.dat two 2\n{}\nsub BRK P1\n#yes\nsub IOUT two\nsub BRK P1", d, s, body);
    let mut sys = load(&src);
    let out = run(&mut sys, 1000);
    assert!(sys.halted());
    assert_eq!(out.last(), Some(&Output::Halt));
    (sys.word(273), sys.word(274), out)
}

const WORDS: [i16; 9] = [i16::MIN, i16::MIN + 1, -2, -1, 0, 1, 2, i16::MAX - 1, i16::MAX];

#[test]
fn copy_and_output_scenario() {
    let mut sys = load(".dat x 5\n#start\nset IOUT x\njmp start");
    assert_eq!(sys.pc(), 274);
    assert_eq!(sys.word(273), 5);
    let out = run(&mut sys, 50);
    assert!(!sys.halted());
    assert_eq!(out.len(), 20);
    for pair in out.chunks(2) {
        assert_eq!(pair, [Output::Number(0), Output::Number(-5)]);
    }
    assert_eq!(sys.word(257), 0);
    assert_eq!(sys.word(273), 5);
}

#[test]
fn subtracting_into_the_port_prints_the_value_each_round() {
    let mut sys = load(".dat x 5\n#start\nsub IOUT x\njmp start");
    let out = run(&mut sys, 40);
    assert_eq!(out, vec![Output::Number(5); 20]);
    assert_eq!(printed(&out), "55555555555555555555");
    assert_eq!(sys.word(257), 0);
}

#[test]
fn the_port_is_cleared_after_each_write() {
    let mut sys = load(".dat x 5\nsub IOUT x\nsub IOUT x\nsub BRK P1");
    assert_eq!(sys.step(), Output::Number(5));
    assert_eq!(sys.word(257), 0);
    assert_eq!(sys.step(), Output::Number(5));
    assert_eq!(sys.word(257), 0);
    assert_eq!(sys.step(), Output::Halt);
    assert!(sys.halted());
}

#[test]
fn a_halted_system_stays_halted() {
    let mut sys = load("sub BRK P1\nsub IOUT P1");
    assert!(!sys.halted());
    assert_eq!(sys.step(), Output::Halt);
    assert!(sys.halted());
    let pc = sys.pc();
    assert_eq!(sys.word(256), -1);
    assert_eq!(sys.step(), Output::Halt);
    assert_eq!(sys.step(), Output::Halt);
    assert_eq!(sys.pc(), pc);
    assert_eq!(sys.word(257), 0);
}

#[test]
fn characters_are_sent_by_code_point() {
    let mut sys = load(".dat a 65\n.dat e 233\n.dat bad -1\n.dat top 32767\nsub COUT a\nsub COUT e\nsub COUT bad\nsub COUT top\nsub BRK P1");
    let out = run(&mut sys, 10);
    assert_eq!(
        out,
        vec![
            Output::Character('A'),
            Output::Character('é'),
            Output::Character('\u{FFFD}'),
            Output::Character('\u{7FFF}'),
            Output::Halt
        ]
    );
    assert_eq!(printed(&out), "Aé\u{FFFD}\u{7FFF}");
    assert_eq!(sys.word(258), 0);
}

#[test]
fn call_and_return_scenario() {
    let mut sys = load(".dat x 41\njsr bump\nsub IOUT x\nsub BRK P1\n#bump\ninc x\nret");
    let out = run(&mut sys, 1000);
    assert_eq!(out, vec![Output::Number(42), Output::Halt]);
    assert_eq!(printed(&out), "42");
    assert_eq!(sys.word(273), 42);
    assert_eq!(sys.word(266), 0);
}

#[test]
fn call_with_argument_scenario() {
    let mut sys = load(".dat x 41\n.dat y 0\ncll bump x\nsub IOUT y\nsub BRK P1\n#bump\nset y A1\ninc y\nret");
    let out = run(&mut sys, 1000);
    assert_eq!(out, vec![Output::Number(42), Output::Halt]);
    assert_eq!(sys.word(273), 41);
    assert_eq!(sys.word(274), 42);
    assert_eq!(sys.word(268), 41);
    assert_eq!(sys.word(266), 0);
}

#[test]
fn calls_nest_and_repeat() {
    let src = ".dat n 0\njsr outer\njsr outer\ncll inner n\nsub IOUT n\nsub BRK P1\n#outer\ninc n\njsr inner\njsr inner\nret\n#inner\ninc n\nret";
    let mut sys = load(src);
    let out = run(&mut sys, 10000);
    assert_eq!(out, vec![Output::Number(7), Output::Halt]);
    assert_eq!(sys.word(266), 0);
}

#[test]
fn the_return_address_is_pushed_negated_on_the_stack() {
    let mut sys = load("jsr f\nsub BRK P1\n#f\nsub BRK P1");
    let out = run(&mut sys, 100);
    assert_eq!(out, vec![Output::Halt]);
    assert_eq!(sys.word(266), 1);
    assert_eq!(sys.word(0), -(273 + 45));
    assert_eq!(sys.pc(), 273 + 45 + 3 + 3);
}

#[test]
fn clr_leaves_zero() {
    for d in WORDS {
        assert_eq!(on("clr d", d, 9).0, 0);
    }
}

#[test]
fn set_copies_and_keeps_the_source() {
    for d in WORDS {
        for s in WORDS {
            assert_eq!(on("set d s", d, s), (s, s, vec![Output::Halt]));
        }
        assert_eq!(on("set d d", d, 3).0, d);
        assert_eq!(on("set d -7", d, 3).0, 0);
    }
}

#[test]
fn neg_negates_and_wraps_at_the_least_word() {
    for d in WORDS {
        assert_eq!(on("neg d", d, 0).0, d.wrapping_neg());
        assert_eq!(on("neg d\nneg d", d, 0).0, d);
    }
    assert_eq!(on("neg d", i16::MIN, 0).0, i16::MIN);
    assert_eq!(on("neg d", i16::MAX, 0).0, -i16::MAX);
}

#[test]
fn arithmetic_wraps() {
    for d in WORDS {
        for s in WORDS {
            assert_eq!(on("add d s", d, s), (d.wrapping_add(s), s, vec![Output::Halt]));
            assert_eq!(on("sub d s", d, s), (d.wrapping_sub(s), s, vec![Output::Halt]));
        }
        assert_eq!(on("inc d", d, 0).0, d.wrapping_add(1));
        assert_eq!(on("dec d", d, 0).0, d.wrapping_sub(1));
        assert_eq!(on("add d d", d, 0).0, d.wrapping_add(d));
    }
}

#[test]
fn slt_compares_as_signed_words() {
    for d in WORDS {
        for s in WORDS {
            assert_eq!(on("slt d s", d, s), ((d < s) as i16, s, vec![Output::Halt]), "{} {}", d, s);
        }
        assert_eq!(on("slt d d", d, 0).0, 0);
    }
}

fn taken(body: &str, d: i16) -> bool {
    let (after, _, out) = on(body, d, 0);
    assert_eq!(after, d);
    match out.as_slice() {
        [Output::Halt] => false,
        [Output::Number(2), Output::Halt] => true,
        other => panic!("{:?}", other),
    }
}

#[test]
fn beq_branches_on_zero_only() {
    for d in [-1, 0, 1, i16::MIN, i16::MAX] {
        assert_eq!(taken("beq d yes", d), d == 0, "{}", d);
    }
    for d in WORDS {
        assert_eq!(taken("beq d yes", d), d == 0, "{}", d);
    }
}

#[test]
fn blq_branches_on_not_positive() {
    for d in [-1, 0, 1, i16::MIN, i16::MAX] {
        assert_eq!(taken("blq d yes", d), d <= 0, "{}", d);
    }
    for d in WORDS {
        assert_eq!(taken("blq d yes", d), d <= 0, "{}", d);
    }
}

#[test]
fn bgq_branches_on_not_negative() {
    for d in [-1, 0, 1, i16::MIN, i16::MAX] {
        assert_eq!(taken("bgq d yes", d), d >= 0, "{}", d);
    }
    for d in WORDS {
        assert_eq!(taken("bgq d yes", d), d >= 0, "{}", d);
    }
}

#[test]
fn branches_may_test_the_constant_registers() {
    for (reg, v) in [("P1", 1i16), ("N1", -1), ("O", i16::MIN), ("J", 12)] {
        for (op, want) in [("beq", v == 0), ("blq", v <= 0), ("bgq", v >= 0)] {
            let src = format!(".dat two 2\n{} {} yes\nsub BRK P1\n#yes\nsub IOUT two\nsub BRK P1", op, reg);
            let mut sys = load(&src);
            let out = run(&mut sys, 100);
            assert_eq!(out.len() == 2, want, "{} {}", op, reg);
            assert_eq!((sys.word(259), sys.word(260), sys.word(261), sys.word(262)), (1, -1, i16::MIN, 12));
        }
    }
}

#[test]
fn slt_may_compare_with_a_constant_register() {
    for d in WORDS {
        for (reg, v) in [("P1", 1i16), ("N1", -1), ("O", i16::MIN)] {
            let (after, _, _) = on(&format!("slt d {}", reg), d, 0);
            assert_eq!(after, (d < v) as i16, "{} {}", d, reg);
        }
    }
}

#[test]
fn bgq_on_the_least_word_goes_on_behind_its_four_triples() {
    let mut sys = load(".dat x -32768\nbgq x 1000");
    assert_eq!((sys.pc(), sys.fin_offset()), (274, 286));
    let mut steps = 0;
    while (274..286).contains(&sys.pc()) {
        sys.step();
        steps += 1;
    }
    assert_eq!((sys.pc(), steps), (286, 3));
    assert_eq!(sys.word(273), i16::MIN);
    let mut sys = load(".dat x 32767\nbgq x 1000");
    while (274..286).contains(&sys.pc()) {
        sys.step();
    }
    assert_eq!((sys.pc(), sys.word(273)), (1000, i16::MAX));
}

#[test]
fn jmp_always_branches() {
    let (_, _, out) = on("jmp yes", 1, 1);
    assert_eq!(out, vec![Output::Number(2), Output::Halt]);
}

#[test]
fn slq_is_the_primitive() {
    for d in WORDS {
        for s in WORDS {
            let (after, src, out) = on("slq s d yes", d, s);
            assert_eq!((after, src), (d.wrapping_sub(s), s));
            assert_eq!(out.len() == 2, d.wrapping_sub(s) <= 0);
        }
    }
}

#[test]
fn labels_may_be_used_before_they_are_defined() {
    let mut sys = load("jmp end\nsub IOUT P1\n#end\nsub BRK P1");
    assert_eq!(run(&mut sys, 10), vec![Output::Halt]);
}

#[test]
fn the_image_has_variables_then_code() {
    let sys = load(".dat x 5\nclr x\n.dat y -6\n#here\njmp here");
    assert_eq!(sys.var_offset(), 2);
    assert_eq!(sys.pc(), 275);
    assert_eq!(sys.fin_offset(), 281);
    assert_eq!((sys.word(273), sys.word(274)), (5, -6));
    let code: Vec<i16> = (275..281).map(|i| sys.word(i)).collect();
    assert_eq!(code, vec![273, 273, 278, 264, 264, 278]);
    assert_eq!(sys.word(281), 0);
    assert_eq!((sys.word(259), sys.word(260), sys.word(261), sys.word(262), sys.word(263)), (1, -1, i16::MIN, 12, 15));
    assert!(!sys.debugging());
    assert!(!sys.halted());
}

#[test]
fn the_empty_program_is_a_blank_image() {
    let sys = load("");
    assert_eq!((sys.pc(), sys.fin_offset(), sys.var_offset()), (273, 273, 0));
    let sys = load("\n\n   \n%lib\n");
    assert_eq!((sys.pc(), sys.fin_offset(), sys.var_offset()), (273, 273, 0));
}

#[test]
fn trace_shows_the_state_before_a_step() {
    let mut sys = Box::new(build(&cs(".dat x 5\n.dat y 6\nclr x\njmp 275"), true).unwrap());
    assert!(sys.debugging());
    let t = sys.debug(4);
    assert_eq!(t.pc, 275);
    assert_eq!(t.mnemonic, Some(Mnemonic::Clr));
    assert_eq!(t.triple, (273, 273, 278));
    assert_eq!(t.head, vec![0, 0, 0, 0]);
    assert_eq!(t.cells.len(), 19);
    assert_eq!(&t.cells[3..8], &[1, -1, i16::MIN, 12, 15]);
    assert_eq!(&t.cells[17..], &[5, 6]);
    sys.step();
    let t = sys.debug(0);
    assert_eq!((t.pc, t.mnemonic), (278, Some(Mnemonic::Jmp)));
    assert_eq!(t.cells[17], 0);
    assert_eq!(t.head, Vec::<i16>::new());
    sys.step();
    assert_eq!(sys.debug(65536).head.len(), 65536);
    let mut sys = load("jmp 1000");
    sys.step();
    let t = sys.debug(1);
    assert_eq!((t.pc, t.mnemonic, t.triple), (1000, None, (0, 0, 0)));
}
