use tac::chunk::{Chunk, Instruction, LineStart};
use tac::value::Value;

#[test]
fn line_start_keeps_its_fields() {
    let start = LineStart::new(7, 3);
    assert_eq!(start.offset, 7);
    assert_eq!(start.line, 3);
    assert_eq!(start, LineStart { offset: 7, line: 3 });
}

#[test]
fn new_chunk_is_empty() {
    let chunk = Chunk::new();
    assert!(chunk.code.is_empty());
    assert!(chunk.constants.is_empty());
    assert!(chunk.names.is_empty());
    assert!(chunk.lines.is_empty());
    assert!(chunk.floats.is_empty());
}

#[test]
fn write_returns_the_index_and_notes_new_lines_only() {
    let mut chunk = Chunk::new();
    assert_eq!(chunk.write(Instruction::True, 1), 0);
    assert_eq!(chunk.write(Instruction::Not, 1), 1);
    assert_eq!(chunk.write(Instruction::Pop, 4), 2);
    assert_eq!(chunk.write(Instruction::Halt, 4), 3);
    assert_eq!(
        chunk.code,
        vec![Instruction::True, Instruction::Not, Instruction::Pop, Instruction::Halt]
    );
    assert_eq!(chunk.lines, vec![LineStart::new(0, 1), LineStart::new(2, 4)]);
}

#[test]
fn get_line_finds_the_line_of_each_instruction() {
    let mut chunk = Chunk::new();
    for line in [1, 1, 2, 5, 5, 5, 9] {
        chunk.write(Instruction::Pop, line);
    }
    let lines: Vec<usize> = (0..7).map(|index| chunk.get_line(index)).collect();
    assert_eq!(lines, vec![1, 1, 2, 5, 5, 5, 9]);
}

#[test]
fn get_line_behind_the_code_is_the_last_line() {
    let mut chunk = Chunk::new();
    chunk.write(Instruction::Pop, 3);
    chunk.write(Instruction::Halt, 8);
    assert_eq!(chunk.get_line(2), 8);
    assert_eq!(chunk.get_line(1000), 8);
}

#[test]
fn lines_never_decrease_along_the_code() {
    let mut chunk = Chunk::new();
    let mut line = 1;
    for index in 0..200 {
        if index % 7 == 3 {
            line += index % 5;
        }
        chunk.write(Instruction::Pop, line);
    }
    for index in 1..200 {
        assert!(chunk.get_line(index) >= chunk.get_line(index - 1));
    }
}

#[test]
fn constants_get_rising_indices() {
    let mut chunk = Chunk::new();
    assert_eq!(chunk.add_constant(Value::I64(5)), Ok(0));
    assert_eq!(chunk.add_constant(Value::I64(5)), Ok(1));
    assert_eq!(chunk.add_constant(Value::Bool(true)), Ok(2));
    assert!(matches!(chunk.get_constant(0), Value::I64(5)));
    assert!(matches!(chunk.get_constant(2), Value::Bool(true)));
}

#[test]
fn constant_pool_holds_65535_constants() {
    let mut chunk = Chunk::new();
    for index in 0..65535u64 {
        assert_eq!(chunk.add_constant(Value::U64(index)), Ok(index as u16));
    }
    assert_eq!(
        chunk.add_constant(Value::U64(0)),
        Err("Could not add constant, reached limit of u16 max size")
    );
    assert_eq!(chunk.add_float("1.5", 1), Err("Could not add constant, reached limit of u16 max size"));
    assert_eq!(chunk.constants.len(), 65535);
    assert!(matches!(chunk.get_constant(65534), Value::U64(65534)));
}

#[test]
fn adding_a_name_twice_gives_the_same_index() {
    let mut chunk = Chunk::new();
    assert_eq!(chunk.add_name("x"), Ok(0));
    assert_eq!(chunk.add_name("total"), Ok(1));
    assert_eq!(chunk.add_name("x"), Ok(0));
    assert_eq!(chunk.add_name("total"), Ok(1));
    assert_eq!(chunk.get_name(0), "x");
    assert_eq!(chunk.get_name(1), "total");
    assert_eq!(chunk.names.len(), 2);
}

#[test]
fn names_differ_by_every_byte() {
    let mut chunk = Chunk::new();
    assert_eq!(chunk.add_name("ab"), Ok(0));
    assert_eq!(chunk.add_name("a"), Ok(1));
    assert_eq!(chunk.add_name("abc"), Ok(2));
    assert_eq!(chunk.add_name("aB"), Ok(3));
    assert_eq!(chunk.add_name(""), Ok(4));
    assert_eq!(chunk.add_name("ab"), Ok(0));
    assert_eq!(chunk.add_name(""), Ok(4));
}

#[test]
fn name_pool_holds_65535_names() {
    let mut chunk = Chunk::new();
    for index in 0..65535u32 {
        assert_eq!(chunk.add_name(&format!("v{}", index)), Ok(index as u16));
    }
    assert_eq!(chunk.add_name("one_more"), Err("Could not add name, reached limit of u16 max size"));
    assert_eq!(chunk.add_name("v17"), Ok(17));
    assert_eq!(chunk.names.len(), 65535);
}

#[test]
fn float_constant_waits_for_its_value() {
    let mut chunk = Chunk::new();
    assert_eq!(chunk.add_constant(Value::I64(1)), Ok(0));
    assert_eq!(chunk.add_float("2.5", 3), Ok(1));
    assert!(matches!(chunk.get_constant(1), Value::F64(0)));
    assert_eq!(chunk.floats.len(), 1);
    assert_eq!(chunk.floats[0].constant, 1);
    assert_eq!(chunk.floats[0].numeral, "2.5");
    assert_eq!(chunk.floats[0].line, 3);
    assert!(chunk.set_float(1, 2.5f64.to_bits()));
    assert!(matches!(chunk.get_constant(1), Value::F64(bits) if bits == 2.5f64.to_bits()));
}

#[test]
fn set_float_changes_float_constants_only() {
    let mut chunk = Chunk::new();
    assert_eq!(chunk.add_constant(Value::I64(1)), Ok(0));
    assert!(!chunk.set_float(0, 7));
    assert!(!chunk.set_float(1, 7));
    assert!(matches!(chunk.get_constant(0), Value::I64(1)));
}

#[test]
fn listing_names_every_instruction() {
    assert_eq!(Instruction::Return.mnemonic(), "RETURN");
    assert_eq!(Instruction::ShiftLeft.mnemonic(), "SHIFT_LEFT");
    assert_eq!(Instruction::GetOrCreateVar(3).mnemonic(), "GET_OR_CREATE_VAR");
    assert_eq!(Instruction::GetVar(3).mnemonic(), "GET_VAR");
    assert_eq!(Instruction::Constant(0).mnemonic(), "CONSTANT");
    assert_eq!(Instruction::Print(true).mnemonic(), "PRINT");
    assert_eq!(Instruction::Goto(1).mnemonic(), "JUMP");
    assert_eq!(Instruction::JumpIf(1).mnemonic(), "JUMP");
    assert_eq!(Instruction::Halt.mnemonic(), "HALT");
}

#[test]
fn listing_shows_a_line_where_it_starts() {
    let mut chunk = Chunk::new();
    for line in [2, 2, 3, 3, 3, 7] {
        chunk.write(Instruction::Pop, line);
    }
    let lines: Vec<Option<usize>> = (0..6).map(|index| chunk.listed_line(index)).collect();
    assert_eq!(lines, vec![Some(2), None, Some(3), None, None, Some(7)]);
    assert_eq!(chunk.listed_line(6), None);
}
