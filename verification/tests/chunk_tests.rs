use lox_vm::chunk::{Chunk, OpCode};
use lox_vm::value::Value;

#[test]
fn it_can_store_more_than_255_constants() {
    let mut chunk = Chunk::new();

    let mut line = 1;
    for i in 0..=265 {
        if i > 0 && i % 3 == 0 {
            line += 1;
        }
        chunk.write_const(Value::Number((i as f64).to_bits()), line);
    }

    assert_eq!(chunk.constants_len(), 266);
    assert_eq!(chunk.const_at(265), Value::Number(265.0f64.to_bits()));
}

#[test]
fn it_can_store_more_than_65535_constants() {
    let mut chunk = Chunk::new();

    let mut line = 1;
    for i in 0..=(u16::MAX as usize) + 10 {
        if i > 0 && i % 100 == 0 {
            line += 1;
        }
        chunk.write_const(Value::Number((i as f64).to_bits()), line);
    }

    assert_eq!(chunk.constants_len(), 65_546);
    assert_eq!(chunk.const_at(65_545), Value::Number(65_545.0f64.to_bits()));
}

#[test]
fn constant_loads_narrow_then_widen_to_two_bytes() {
    let mut chunk = Chunk::new();
    for i in 0..=265 {
        chunk.write_const(Value::Number((i as f64).to_bits()), 1);
    }

    let mut offset = 0;
    for i in 0..=255u16 {
        assert_eq!(chunk.byte_at(offset), 0x00, "entry {} should use the 1-byte load", i);
        assert_eq!(chunk.byte_at(offset + 1) as u16, i);
        offset += 2;
    }
    for i in 256..=265usize {
        assert_eq!(chunk.byte_at(offset), 0x01, "entry {} should use the 2-byte load", i);
        let recovered = (chunk.byte_at(offset + 1) as usize) * 256 + chunk.byte_at(offset + 2) as usize;
        assert_eq!(recovered, i);
        offset += 3;
    }
    assert_eq!(offset, chunk.len());
}

#[test]
fn constant_loads_widen_to_three_bytes_past_the_sixteen_bit_ceiling() {
    let mut chunk = Chunk::new();
    for i in 0..=(u16::MAX as usize) + 10 {
        chunk.write_const(Value::Number((i as f64).to_bits()), 1);
    }

    // Skip the 256 one-byte loads and the 65,280 two-byte loads.
    let mut offset = 256 * 2 + 65_280 * 3;
    for i in 65_536..=65_545usize {
        assert_eq!(chunk.byte_at(offset), 0x02, "entry {} should use the 3-byte load", i);
        let recovered = (chunk.byte_at(offset + 1) as usize) * 65_536
            + (chunk.byte_at(offset + 2) as usize) * 256
            + chunk.byte_at(offset + 3) as usize;
        assert_eq!(recovered, i);
        offset += 4;
    }
    assert_eq!(offset, chunk.len());
}

#[test]
fn same_line_writes_share_one_line_run() {
    let mut chunk = Chunk::new();
    chunk.write_instr(OpCode::Add, 7);
    chunk.write_instr(OpCode::Not, 7);

    assert_eq!(chunk.lines_len(), 1);
    let run = chunk.line_run_at(0);
    assert_eq!(run.line, 7);
    assert_eq!(run.start, 0);
    assert_eq!(chunk.line_at(0), Some(7));
    assert_eq!(chunk.line_at(1), Some(7));
}

#[test]
fn a_new_line_opens_a_new_run() {
    let mut chunk = Chunk::new();
    chunk.write_instr(OpCode::Nil, 1);
    chunk.write_instr(OpCode::Not, 1);
    chunk.write_instr(OpCode::Return, 2);

    assert_eq!(chunk.lines_len(), 2);
    assert_eq!(chunk.line_at(0), Some(1));
    assert_eq!(chunk.line_at(1), Some(1));
    assert_eq!(chunk.line_at(2), Some(2));
    assert_eq!(chunk.line_run_at(1).start, 2);
}

#[test]
fn mixed_writes_lay_out_as_in_a_compiled_chunk() {
    let mut chunk = Chunk::new();
    chunk.write_const(Value::Number(1.2f64.to_bits()), 123);
    chunk.write_instr(OpCode::Return, 123);
    chunk.write_const(Value::Number(420.0f64.to_bits()), 124);
    chunk.write_const(Value::Number(69.0f64.to_bits()), 124);
    chunk.write_instr(OpCode::Return, 124);

    assert_eq!(chunk.len(), 8);
    assert_eq!(chunk.byte_at(0), 0x00);
    assert_eq!(chunk.byte_at(1), 0);
    assert_eq!(chunk.byte_at(2), 0xFF);
    assert_eq!(chunk.byte_at(3), 0x00);
    assert_eq!(chunk.byte_at(4), 1);
    assert_eq!(chunk.byte_at(7), 0xFF);
    assert_eq!(chunk.lines_len(), 2);
    assert_eq!(chunk.line_at(2), Some(123));
    assert_eq!(chunk.line_at(3), Some(124));
}

#[test]
fn unknown_instruction_bytes_are_rejected_in_hex() {
    assert!(OpCode::try_from(0x10).is_ok());
    assert!(OpCode::try_from(0xFF).is_ok());
    let err = match OpCode::try_from(0x42) {
        Ok(_) => panic!("0x42 is not an opcode"),
        Err(e) => e,
    };
    assert_eq!(err.0, "UNKNOWN: 0x42");
    let err = match OpCode::try_from(0x0B) {
        Ok(_) => panic!("0x0b is not an opcode"),
        Err(e) => e,
    };
    assert_eq!(err.0, "UNKNOWN: 0x0b");
}

#[test]
fn opcode_bytes_round_trip() {
    let ops = [
        OpCode::Constant,
        OpCode::Constant16,
        OpCode::Constant24,
        OpCode::Nil,
        OpCode::True,
        OpCode::False,
        OpCode::Add,
        OpCode::Subtract,
        OpCode::Multiply,
        OpCode::Divide,
        OpCode::Negate,
        OpCode::Not,
        OpCode::Equal,
        OpCode::Greater,
        OpCode::Less,
        OpCode::Return,
    ];
    for op in ops {
        assert_eq!(OpCode::try_from(op.as_byte()).unwrap(), op);
    }
}
