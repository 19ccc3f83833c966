use elf_puzzles::signal::{
    checked_first_interrupt, first_interrupt, parse_instruction, run_program, second_interrupt,
    try_parse_instruction, Cpu, Instruction, InstructionType,
};

fn program(text: &[&str]) -> Vec<String> {
    text.iter().map(|l| l.to_string()).collect()
}

#[test]
fn instructions_of_a_line() {
    assert_eq!(parse_instruction("noop"), vec![Instruction { t: InstructionType::Noop }]);
    assert_eq!(
        parse_instruction("addx -11"),
        vec![
            Instruction { t: InstructionType::Noop },
            Instruction { t: InstructionType::Addx(-11) },
        ]
    );
    assert_eq!(parse_instruction("anything"), vec![Instruction { t: InstructionType::Noop }]);
    assert_eq!(parse_instruction(""), vec![Instruction { t: InstructionType::Noop }]);
    assert_eq!(
        try_parse_instruction("addx 1 2 3"),
        Some(vec![
            Instruction { t: InstructionType::Noop },
            Instruction { t: InstructionType::Addx(3) },
        ])
    );
    assert_eq!(
        try_parse_instruction("addx7 +5"),
        Some(vec![
            Instruction { t: InstructionType::Noop },
            Instruction { t: InstructionType::Addx(5) },
        ])
    );
    assert_eq!(try_parse_instruction("addx"), None);
    assert_eq!(try_parse_instruction("addx x"), None);
    assert_eq!(try_parse_instruction("addx 99999999999999999999"), None);
}

#[test]
fn instructions_compare_by_kind_and_number() {
    assert_eq!(InstructionType::Noop, InstructionType::Noop);
    assert_eq!(InstructionType::Addx(3), InstructionType::Addx(3));
    assert_ne!(InstructionType::Addx(3), InstructionType::Addx(4));
    assert_ne!(InstructionType::Addx(0), InstructionType::Noop);
}

#[test]
fn signal_strength_counts_every_fortieth_cycle() {
    assert_eq!(first_interrupt(&21, &20), 420);
    assert_eq!(first_interrupt(&19, &60), 1140);
    assert_eq!(first_interrupt(&-3, &100), -300);
    assert_eq!(first_interrupt(&21, &19), 0);
    assert_eq!(first_interrupt(&21, &40), 0);
    assert_eq!(first_interrupt(&21, &0), 0);
    assert_eq!(first_interrupt(&21, &-20), 0);
    assert_eq!(checked_first_interrupt(&isize::MAX, &20), None);
    assert_eq!(checked_first_interrupt(&isize::MAX, &21), Some(0));
    assert_eq!(checked_first_interrupt(&2, &20), Some(40));
}

#[test]
fn pixels_are_lit_next_to_the_register() {
    assert_eq!(second_interrupt(&5, &4), '#');
    assert_eq!(second_interrupt(&5, &5), '#');
    assert_eq!(second_interrupt(&5, &6), '#');
    assert_eq!(second_interrupt(&5, &3), '.');
    assert_eq!(second_interrupt(&5, &7), '.');
    assert_eq!(second_interrupt(&isize::MIN, &isize::MAX), '.');
    assert_eq!(second_interrupt(&isize::MAX, &isize::MAX), '#');
    assert_eq!(second_interrupt(&-1, &0), '#');
}

#[test]
fn a_small_program() {
    let cpu = run_program(&program(&["noop", "addx 3", "addx -5"])).unwrap();
    assert_eq!(cpu.cycles, 5);
    assert_eq!(cpu.x, -1);
    assert_eq!(cpu.signal_sums, 0);
    assert_eq!(cpu.row_i, 5);
    assert_eq!(cpu.row, "#####");
    assert_eq!(cpu.screen, Vec::<String>::new());
}

#[test]
fn the_register_is_read_before_it_changes() {
    let mut lines = Vec::new();
    for _ in 0..10 {
        lines.push("addx 1".to_string());
    }
    let cpu = run_program(&lines).unwrap();
    assert_eq!(cpu.cycles, 20);
    assert_eq!(cpu.x, 11);
    assert_eq!(cpu.signal_sums, 200);
}

#[test]
fn rows_of_forty_pixels() {
    let mut lines = Vec::new();
    for _ in 0..85 {
        lines.push("noop".to_string());
    }
    let cpu = run_program(&lines).unwrap();
    let dark = ".".repeat(37);
    assert_eq!(cpu.screen, vec![format!("###{}", dark), format!("###{}", dark)]);
    assert_eq!(cpu.row, "###..");
    assert_eq!(cpu.row_i, 5);
    assert_eq!(cpu.signal_sums, 20 + 60);
}

#[test]
fn programs_that_fail() {
    assert!(run_program(&program(&["noop", "addx"])).is_none());
    let far = format!("addx {}", isize::MAX);
    assert!(run_program(&program(&[&far])).is_none());
    assert!(run_program(&program(&["addx 1", "addx x"])).is_none());
    assert!(run_program(&Vec::new()).is_some());
}

#[test]
fn cycles_one_by_one() {
    let mut cpu = Cpu::new();
    assert!(cpu.tick(&Instruction { t: InstructionType::Addx(isize::MAX - 1) }));
    assert_eq!(cpu.x, isize::MAX);
    assert!(!cpu.tick(&Instruction { t: InstructionType::Addx(1) }));
    assert_eq!(cpu.x, isize::MAX);
    assert_eq!(cpu.cycles, 1);
    assert!(cpu.execute(&vec![Instruction { t: InstructionType::Noop }; 18]));
    assert!(!cpu.tick(&Instruction { t: InstructionType::Noop }));
    assert_eq!(cpu.cycles, 19);
}
