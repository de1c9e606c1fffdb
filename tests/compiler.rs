use bfvm::program::{CompileError, Instruction, Program};
use bfvm::token::{LexError, Token, TokenKind};

#[test]
fn unmatched_open_bracket() {
    match Program::compile("[") {
        Err(CompileError::UnmatchedOpen(ps)) => assert_eq!(ps, vec![(1, 1)]),
        _ => panic!("expected UnmatchedOpen"),
    }
}

#[test]
fn unmatched_close_bracket() {
    match Program::compile("]") {
        Err(CompileError::UnmatchedClose(row, col)) => assert_eq!((row, col), (1, 1)),
        _ => panic!("expected UnmatchedClose"),
    }
}

#[test]
fn first_unmatched_close_is_reported() {
    match Program::compile("[]+\n ]]") {
        Err(CompileError::UnmatchedClose(row, col)) => assert_eq!((row, col), (2, 2)),
        _ => panic!("expected UnmatchedClose"),
    }
}

#[test]
fn all_open_brackets_are_reported() {
    match Program::compile("[[]\n[") {
        Err(CompileError::UnmatchedOpen(ps)) => assert_eq!(ps, vec![(1, 1), (2, 1)]),
        _ => panic!("expected UnmatchedOpen"),
    }
}

#[test]
fn lex_error_stops_compilation() {
    match Program::compile("+q") {
        Err(CompileError::Lex(e)) => assert_eq!(e, LexError { character: 'q', row: 1, col: 2 }),
        _ => panic!("expected a lexical error"),
    }
}

#[test]
fn no_brackets_gives_one_instruction_per_token_and_exit() {
    let p = Program::compile("+-<>.,").unwrap();
    assert_eq!(p.len(), 7);
    let expected = [
        Instruction::IncData,
        Instruction::DecData,
        Instruction::DecPtr,
        Instruction::IncPtr,
        Instruction::Output,
        Instruction::Input,
        Instruction::Exit,
    ];
    for (a, ins) in expected.iter().enumerate() {
        assert_eq!(p.instruction(a), ins);
    }
    assert_eq!(Program::compile("").unwrap().len(), 1);
}

#[test]
fn brackets_resolve_to_partner_addresses() {
    let p = Program::compile("+[->[-]<]").unwrap();
    assert_eq!(p.len(), 10);
    assert_eq!(*p.instruction(1), Instruction::JZ(9));
    assert_eq!(*p.instruction(4), Instruction::JZ(7));
    assert_eq!(*p.instruction(6), Instruction::JNZ(4));
    assert_eq!(*p.instruction(8), Instruction::JNZ(1));
    assert_eq!(*p.instruction(9), Instruction::Exit);
}

#[test]
fn jump_pairs_give_back_the_nesting() {
    let source = "[[]][[][]]";
    let p = Program::compile(source).unwrap();
    let mut pairs = Vec::new();
    for j in 0..p.len() {
        if let Instruction::JNZ(i) = *p.instruction(j) {
            assert_eq!(*p.instruction(i), Instruction::JZ(j + 1));
            pairs.push((i, j));
        }
    }
    pairs.sort();
    assert_eq!(pairs, vec![(0, 3), (1, 2), (4, 9), (5, 6), (7, 8)]);
}

#[test]
fn compile_tokens_matches_compile() {
    let tokens = vec![
        Token::from_char('[', 1, 1).unwrap(),
        Token::from_char('-', 1, 2).unwrap(),
        Token::from_char(']', 1, 3).unwrap(),
    ];
    let p = Program::compile_tokens(&tokens).unwrap();
    assert_eq!(p.dump(), Program::compile("[-]").unwrap().dump());
    let open = vec![Token { kind: TokenKind::LeftBracket, row: 5, col: 7 }];
    assert_eq!(Program::compile_tokens(&open).err(), Some(CompileError::UnmatchedOpen(vec![(5, 7)])));
}

#[test]
fn instruction_text() {
    assert_eq!(Instruction::IncPtr.to_text(), "incp");
    assert_eq!(Instruction::DecPtr.to_text(), "decp");
    assert_eq!(Instruction::IncData.to_text(), "incd");
    assert_eq!(Instruction::DecData.to_text(), "decd");
    assert_eq!(Instruction::Input.to_text(), "rd");
    assert_eq!(Instruction::Output.to_text(), "wr");
    assert_eq!(Instruction::JZ(0x1f).to_text(), "jz 0x0000001f");
    assert_eq!(Instruction::JNZ(3).to_text(), "jnz 0x00000003");
    assert_eq!(Instruction::Exit.to_text(), "exit");
}

#[test]
fn dump_lists_each_instruction_with_its_address() {
    let p = Program::compile("[-]").unwrap();
    assert_eq!(
        p.dump(),
        "0x00000000: jz 0x00000003\n0x00000001: decd\n0x00000002: jnz 0x00000000\n0x00000003: exit\n"
    );
}

#[test]
fn disassembly_gives_back_the_nesting() {
    let text = Program::compile("+[[-]>[<]]").unwrap().dump();
    let lines: Vec<&str> = text.lines().collect();
    let target = |line: &str, op: &str| -> Option<usize> {
        let form = line.split(": ").nth(1)?;
        let hex = form.strip_prefix(op)?.strip_prefix(" 0x")?;
        usize::from_str_radix(hex, 16).ok()
    };
    let mut pairs = Vec::new();
    for (j, line) in lines.iter().enumerate() {
        if let Some(i) = target(line, "jnz") {
            assert_eq!(target(lines[i], "jz"), Some(j + 1));
            pairs.push((i, j));
        }
    }
    pairs.sort();
    assert_eq!(pairs, vec![(1, 9), (2, 4), (6, 8)]);
}
