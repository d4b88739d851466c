use bytevm::assemble;
use bytevm::compiler::compile;
use bytevm::emitter::emit;
use bytevm::instr::{decode, Instruction};
use bytevm::lexer::{lex, Token};
use bytevm::parser::{parse, ASTNode, Expression, InstrValuePair, Statement};

fn le(v: i64) -> Vec<u8> {
    v.to_le_bytes().to_vec()
}

#[test]
fn opcode_bytes_round_trip_through_decode() {
    for b in 0u8..=255 {
        match decode(b) {
            Some(i) => assert_eq!(i.opcode(), b),
            None => assert!(b > 0x10),
        }
    }
    let all = [
        Instruction::Nop,
        Instruction::Halt,
        Instruction::Push,
        Instruction::Pop,
        Instruction::Add,
        Instruction::Mul,
        Instruction::Sub,
        Instruction::Div,
        Instruction::Jump,
        Instruction::LoadU8,
        Instruction::StoreU8,
        Instruction::Swap,
        Instruction::Dupe,
        Instruction::DupeAt,
        Instruction::Interrupt,
        Instruction::Call,
        Instruction::Ret,
    ];
    for (k, i) in all.iter().enumerate() {
        assert_eq!(i.opcode() as usize, k);
        assert_eq!(decode(i.opcode()), Some(*i));
    }
}

#[test]
fn instruction_operand_lengths() {
    assert_eq!(Instruction::Push.operand_len(), 8);
    assert_eq!(Instruction::DupeAt.operand_len(), 8);
    assert_eq!(Instruction::Interrupt.operand_len(), 1);
    assert_eq!(Instruction::Add.operand_len(), 0);
    assert_eq!(Instruction::Halt.operand_len(), 0);
}

#[test]
fn assemble_zero_operand_mnemonics() {
    let src = "nop\nhlt\npop\nadd\nmul\nsub\ndiv\njmp\nloadu8\nstoreu8\nswap\ndup\ncall\nret\n";
    let out = assemble(src.to_string());
    assert_eq!(
        out,
        vec![0x00, 0x01, 0x03, 0x04, 0x05, 0x06, 0x07, 0x08, 0x09, 0x0a, 0x0b, 0x0c, 0x0f, 0x10]
    );
}

#[test]
fn assemble_push_decimal_and_hex() {
    let mut expected = vec![0x02];
    expected.extend(le(5));
    assert_eq!(assemble("push 5".to_string()), expected);

    let mut expected = vec![0x02];
    expected.extend(le(0x10));
    assert_eq!(assemble("push 0x10".to_string()), expected);
}

#[test]
fn assemble_push_negative() {
    let mut expected = vec![0x02];
    expected.extend(le(-1));
    assert_eq!(assemble("push -1".to_string()), expected);
}

#[test]
fn assemble_dupp_and_int() {
    let mut expected = vec![0x0d];
    expected.extend(le(2));
    assert_eq!(assemble("dupp 2".to_string()), expected);
    assert_eq!(assemble("int 0x1".to_string()), vec![0x0e, 0x01]);
    assert_eq!(assemble("int 9".to_string()), vec![0x0e, 0x09]);
}

#[test]
fn assemble_skips_blank_and_comment_lines() {
    let out = assemble("; a comment\n\n   \nnop\n;another\nhlt\n".to_string());
    assert_eq!(out, vec![0x00, 0x01]);
}

#[test]
fn assemble_handles_crlf_lines() {
    let out = assemble("nop\r\nhlt\r\n".to_string());
    assert_eq!(out, vec![0x00, 0x01]);
}

#[test]
fn assemble_strips_repeated_hex_markers() {
    // The prefix trimming removes every leading repetition of "0x".
    let mut expected = vec![0x02];
    expected.extend(le(0x10));
    assert_eq!(assemble("push 0x0x10".to_string()), expected);
}

#[test]
fn lex_function_declaration() {
    let tokens = lex("int main() {}".to_string());
    assert_eq!(
        tokens,
        vec![
            Token::Int,
            Token::Identifier("main".to_string()),
            Token::OpenParen,
            Token::CloseParen,
            Token::OpenBrace,
            Token::CloseBrace,
            Token::End,
        ]
    );
}

#[test]
fn lex_integer_scan_doubles_first_digit() {
    // The scan re-reads the first digit of a number, so its value carries
    // that digit twice.
    let tokens = lex("x 12".to_string());
    assert_eq!(
        tokens,
        vec![
            Token::Identifier("x".to_string()),
            Token::Integer(112),
            Token::End,
        ]
    );
}

#[test]
fn lex_punctuation_and_keywords() {
    let tokens = lex("return;{}()".to_string());
    assert_eq!(
        tokens,
        vec![
            Token::Return,
            Token::Semicolon,
            Token::OpenBrace,
            Token::CloseBrace,
            Token::OpenParen,
            Token::CloseParen,
            Token::End,
        ]
    );
}

#[test]
fn parse_wraps_last_declaration_with_empty_body() {
    let tokens = lex("int main() {}".to_string());
    let ast = parse(tokens);
    match ast {
        ASTNode::Prog(inner) => match *inner {
            ASTNode::FunDecl(name, stmts) => {
                assert_eq!(name, "main");
                assert!(stmts.is_empty());
            }
            _ => panic!("expected a function declaration"),
        },
        _ => panic!("expected a program node"),
    }
}

#[test]
fn parse_empty_stream_falls_back_to_main() {
    let ast = parse(vec![Token::End]);
    match ast {
        ASTNode::Prog(inner) => match *inner {
            ASTNode::FunDecl(name, stmts) => {
                assert_eq!(name, "main");
                assert!(stmts.is_empty());
            }
            _ => panic!("expected a function declaration"),
        },
        _ => panic!("expected a program node"),
    }
}

#[test]
fn node_emit_pushes_and_returns() {
    let node = ASTNode::FunDecl(
        "f".to_string(),
        vec![
            Statement::Exp(Expression::Num(3)),
            Statement::Return(Box::new(Expression::Num(7))),
        ],
    );
    let mut instrs = Vec::new();
    node.emit(&mut instrs);
    let mut expected = vec![0x02];
    expected.extend(le(3));
    expected.push(0x02);
    expected.extend(le(7));
    expected.push(0x10);
    assert_eq!(instrs, expected);
}

#[test]
fn emit_appends_push_one_trailer() {
    let node = ASTNode::Prog(Box::new(ASTNode::FunDecl("main".to_string(), vec![])));
    let out = emit(node);
    let mut expected = vec![0x02];
    expected.extend(le(1));
    assert_eq!(out, expected);
}

#[test]
fn compile_pins_the_image() {
    let out = compile("int main() {}".to_string());
    let mut expected = vec![0x02];
    expected.extend(le(1));
    assert_eq!(out, expected);
}

#[test]
fn pair_to_bytes_encodes_value_and_placeholder() {
    let pair = InstrValuePair {
        instr: Instruction::Push,
        value: Some(513),
        fn_name: None,
    };
    let mut expected = vec![0x02];
    expected.extend(le(513));
    assert_eq!(pair.to_bytes(), expected);

    let pair = InstrValuePair {
        instr: Instruction::Push,
        value: None,
        fn_name: Some("f".to_string()),
    };
    assert_eq!(pair.to_bytes(), vec![0x02, 0, 0, 0, 0, 0, 0, 0, 0]);
}

#[test]
fn pair_process_resolves_recorded_offset() {
    let mut pair = InstrValuePair {
        instr: Instruction::Push,
        value: None,
        fn_name: Some("f".to_string()),
    };
    pair.process(&vec![("g".to_string(), 3), ("f".to_string(), 17)]);
    assert_eq!(pair.value, Some(17));

    let mut pair = InstrValuePair {
        instr: Instruction::Push,
        value: Some(1),
        fn_name: Some("h".to_string()),
    };
    pair.process(&vec![("g".to_string(), 3)]);
    assert_eq!(pair.value, Some(1));
}
