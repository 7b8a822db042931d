use rlit::disasm::{disassemble_chunk, Fragment};
use rlit::lit::{CommandOutcome, LitTest};
use rlit::value::Value;
use rlit::vm::{Chunk, Instruction, OpCode};

/// What the program writes: the disassembly of its chunk.
fn program_output() -> String {
    let mut chunk = Chunk::new();
    chunk.add_constant_instuction(Value::Number(42f64.to_bits()), 12);
    chunk.add_constant_instuction(Value::Number(23f64.to_bits()), 12);
    chunk.add_instruction(Instruction::new(OpCode::Return, 13));

    let mut text = String::new();
    for fragment in disassemble_chunk(&chunk, "test") {
        match fragment {
            Fragment::Text(piece) => text.push_str(&piece),
            Fragment::Number(bits) => text.push_str(&format!("{:?}", f64::from_bits(bits))),
        }
    }
    text
}

#[test]
fn simple_lit() {
    let outcome = CommandOutcome::Exited {
        success: true,
        code: Some(0),
        stdout: program_output().into_bytes(),
    };
    let result = LitTest::default()
        .cmd("cargo")
        .args(vec!["run".into()])
        .checks(vec![
            "== test ==".into(),
            "0000   12 OP_CONSTANT      Number(42.0)".into(),
            "0001    | OP_CONSTANT      Number(23.0)".into(),
            "0002   13 OP_RETURN".into(),
        ])
        .test(outcome);
    assert_eq!(Ok(()), result);
}

#[test]
fn simple_lit_prints_exactly() {
    assert_eq!(
        "== test ==\n\
         0000   12 OP_CONSTANT      Number(42.0)\n\
         0001    | OP_CONSTANT      Number(23.0)\n\
         0002   13 OP_RETURN\n",
        program_output()
    );
}
