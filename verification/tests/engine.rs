use bef93::error::Error;
use bef93::interpreter::{convert_int_to_char, pop_value, Interpreter};

const FUEL: u64 = 10000000;

fn run_program(code: &str, input: Vec<String>) -> Interpreter {
    let mut interpreter = Interpreter::new(code, Vec::new(), input, None, None).unwrap();
    interpreter.execute(FUEL).unwrap();
    interpreter
}

fn run_expecting_error(code: &str, input: Vec<String>) -> Error {
    let mut interpreter = Interpreter::new(code, Vec::new(), input, None, None).unwrap();
    interpreter.execute(FUEL).unwrap_err()
}

#[test]
fn pop_empty_stack_yields_zero() {
    let mut stack: Vec<i64> = Vec::new();
    let mut round: usize = 0;
    while round < 5 {
        assert_eq!(pop_value(&mut stack), 0);
        assert!(stack.is_empty());
        round += 1;
    }
}

#[test]
fn pops_beyond_pushes_yield_zero() {
    let interpreter = run_program("5$$$.@", Vec::new());
    assert_eq!(interpreter.output_handle, "0 ".as_bytes());
}

#[test]
fn division_by_zero_reports_division_error() {
    let mut interpreter = run_program("60@", Vec::new());
    let result = interpreter.run_binary_operation('/');
    assert!(matches!(result, Err(Error::Division { dividend: 6 })));
}

#[test]
fn division_by_zero_on_empty_stack() {
    let mut interpreter = run_program("@", Vec::new());
    let result = interpreter.run_binary_operation('/');
    assert!(matches!(result, Err(Error::Division { dividend: 0 })));
}

#[test]
fn modulo_by_zero_reports_division_error() {
    let error = run_expecting_error("60%@", Vec::new());
    assert!(matches!(error, Error::Division { dividend: 6 }));
}

#[test]
fn character_out_of_range_reports_value() {
    let mut interpreter = run_program("99*9*@", Vec::new());
    let result = interpreter.run_unary_operation(',');
    assert!(matches!(result, Err(Error::CharRange { value: 729 })));
}

#[test]
fn convert_reports_char_range() {
    assert!(matches!(
        convert_int_to_char(5555),
        Err(Error::CharRange { value: 5555 })
    ));
    assert!(matches!(
        convert_int_to_char(-333),
        Err(Error::CharRange { value: -333 })
    ));
}

#[test]
fn decode_error_reports_command() {
    let error = run_expecting_error("q@", Vec::new());
    assert!(matches!(error, Error::Decode { command: 'q' }));
}

#[test]
fn parse_error_on_bad_integer() {
    let error = run_expecting_error("&@", vec!["abc".to_string()]);
    assert!(matches!(error, Error::Parse));
}

#[test]
fn parse_error_on_missing_input() {
    let error = run_expecting_error("&@", Vec::new());
    assert!(matches!(error, Error::Parse));
}

#[test]
fn parse_error_on_overflow() {
    let error = run_expecting_error("&@", vec!["9223372036854775808".to_string()]);
    assert!(matches!(error, Error::Parse));
}

#[test]
fn read_character_rejects_long_line() {
    let error = run_expecting_error("~@", vec!["ab".to_string()]);
    assert!(matches!(error, Error::Parse));
}

#[test]
fn read_integer_trims_spaces() {
    let interpreter = run_program("&.@", vec!["  42  ".to_string()]);
    assert_eq!(interpreter.output_handle, "42 ".as_bytes());
}

#[test]
fn read_negative_integer() {
    let interpreter = run_program("&.@", vec!["-7".to_string()]);
    assert_eq!(interpreter.output_handle, "-7 ".as_bytes());
}

#[test]
fn read_integer_with_plus_sign() {
    let interpreter = run_program("&.@", vec!["+5".to_string()]);
    assert_eq!(interpreter.output_handle, "5 ".as_bytes());
}

#[test]
fn read_smallest_integer() {
    let interpreter = run_program("&.@", vec!["-9223372036854775808".to_string()]);
    assert_eq!(interpreter.output_handle, "-9223372036854775808 ".as_bytes());
}

#[test]
fn write_negative_integer() {
    let interpreter = run_program("01-.@", Vec::new());
    assert_eq!(interpreter.output_handle, "-1 ".as_bytes());
}

#[test]
fn string_mode_pushes_character_codes() {
    let interpreter = run_program("\"ab\"@", Vec::new());
    assert_eq!(interpreter.stack, vec![97, 98]);
}

#[test]
fn bridge_skips_next_cell() {
    let interpreter = run_program("1#2@", Vec::new());
    assert_eq!(interpreter.stack, vec![1]);
}

#[test]
fn empty_program_never_terminates() {
    let mut interpreter = Interpreter::new("", Vec::new(), Vec::new(), None, None).unwrap();
    assert_eq!(interpreter.execute(100), Ok(false));
}

#[test]
fn fuel_can_run_out_mid_program() {
    let mut interpreter = Interpreter::new("55+.@", Vec::new(), Vec::new(), None, None).unwrap();
    assert_eq!(interpreter.execute(1), Ok(false));
    assert_eq!(interpreter.stack, vec![5]);
}

#[test]
fn horizontal_wraparound_executes_across_edge() {
    let interpreter = run_program("<@.", Vec::new());
    assert_eq!(interpreter.output_handle, "0 ".as_bytes());
}

#[test]
fn vertical_wraparound_executes_across_edge() {
    let interpreter = run_program("^\n@\n.", Vec::new());
    assert_eq!(interpreter.output_handle, "0 ".as_bytes());
}

#[test]
fn termination_needs_only_the_halt_instruction() {
    let mut loaded = Interpreter::new("55@", Vec::new(), Vec::new(), None, None).unwrap();
    assert_eq!(loaded.execute(FUEL), Ok(true));
    assert_eq!(loaded.stack, vec![5, 5]);

    let mut bare = Interpreter::new("@", Vec::new(), Vec::new(), None, None).unwrap();
    assert_eq!(bare.execute(FUEL), Ok(true));
    assert!(bare.stack.is_empty());
}

#[test]
fn crlf_line_endings_are_stripped() {
    let interpreter = run_program("1.@\r\n2.@", Vec::new());
    assert_eq!(interpreter.output_handle, "1 ".as_bytes());
    assert_eq!(interpreter.playfield.dimensions.y, 2);
}
