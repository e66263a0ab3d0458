use bef93::interpreter::{convert_int_to_char, Interpreter, Mode};
use bef93::playfield::{Coord, Direction};

const FUEL: u64 = 10000000;

fn setup_interpreter(code: &str, input_data: Option<&str>) -> Interpreter {
    let input_handle: Vec<String> = match input_data {
        Some(line) => vec![line.to_string()],
        None => Vec::new(),
    };

    let mut interpreter = Interpreter::new(code, Vec::new(), input_handle, None, None).unwrap();
    interpreter.execute(FUEL).unwrap();
    interpreter
}

#[test]
fn interpreter_test_basic() {
    let interpreter = Interpreter::new("5:.,@", Vec::new(), Vec::new(), None, None).unwrap();

    assert!(interpreter.stack.is_empty());
    assert_eq!(
        interpreter.playfield.code_map,
        vec![vec!['5', ':', '.', ',', '@']]
    );
    assert_eq!(interpreter.mode, Mode::Command);
}

#[test]
fn test_basic_initial_position() {
    let interpreter = Interpreter::new(
        "5:.,@",
        Vec::new(),
        Vec::new(),
        Some(Coord { x: 1, y: 0 }),
        None,
    )
    .unwrap();

    assert_eq!(
        interpreter.playfield.program_counter_position,
        Coord { x: 1, y: 0 }
    );
    assert_eq!(interpreter.playfield.get_next_character(), ':');
}

#[test]
fn test_out_of_bounds_initial_position() {
    let interpreter = Interpreter::new(
        "5:.,@",
        Vec::new(),
        Vec::new(),
        Some(Coord { x: 13333, y: 0 }),
        None,
    );

    assert!(interpreter.is_err());
}

#[test]
fn test_initial_direction() {
    let interpreter = Interpreter::new(
        "5:.,@",
        Vec::new(),
        Vec::new(),
        None,
        Some(Direction::Up),
    )
    .unwrap();

    assert_eq!(
        interpreter.playfield.program_counter_direction,
        Direction::Up
    );
}

#[test]
fn test_initial_direction_and_position() {
    let mut interpreter = Interpreter::new(
        "5:.,@",
        Vec::new(),
        Vec::new(),
        Some(Coord { x: 1, y: 0 }),
        Some(Direction::Left),
    )
    .unwrap();

    assert_eq!(
        interpreter.playfield.program_counter_position,
        Coord { x: 1, y: 0 }
    );
    assert_eq!(
        interpreter.playfield.program_counter_direction,
        Direction::Left
    );

    interpreter.playfield.update_program_counter();
    assert_eq!(interpreter.playfield.get_next_character(), '5');
}

#[test]
fn test_alternative_output_handle() {
    let output_handle: Vec<u8> = Vec::new();
    let interpreter = Interpreter::new("5:.,@", output_handle, Vec::new(), None, None);
    assert!(interpreter.is_ok());
}

#[test]
fn test_alternative_input_handle() {
    let input_handle = vec!["input".to_string()];
    let interpreter = Interpreter::new("5:.,@", Vec::new(), input_handle, None, None);
    assert!(interpreter.is_ok());
}

#[test]
fn test_hello_world() {
    let interpreter = setup_interpreter("64+\"!dlroW ,olleH\">:#,_@", None);
    assert_eq!(interpreter.output_handle, "Hello, World!\n".as_bytes());
}

#[test]
fn test_factorial() {
    let interpreter = setup_interpreter("&>:1-:v v *_$.@\n ^    _$>\\:^", Some("5"));
    assert_eq!(interpreter.output_handle, "120 ".as_bytes());
}

#[test]
fn test_sieve_of_eratosthenes() {
    let interpreter = setup_interpreter("2>:3g\" \"-!v\\  g30          <\n |!`\"O\":+1_:.:03p>03g+:\"O\"`|\n @               ^  p3\\\" \":<\n2 234567890123456789012345678901234567890123456789012345678901234567890123456789", None);

    assert_eq!(
        interpreter.output_handle,
        "2 3 5 7 11 13 17 19 23 29 31 37 41 43 47 53 59 61 67 71 73 79 ".as_bytes()
    );
}

#[test]
fn test_quine_one() {
    let interpreter = setup_interpreter("01->1# +# :# 0# g# ,# :# 5# 8# *# 4# +# -# _@", None);
    assert_eq!(
        interpreter.output_handle,
        "01->1# +# :# 0# g# ,# :# 5# 8# *# 4# +# -# _@".as_bytes()
    );
}

#[test]
fn test_quine_two() {
    let interpreter =
        setup_interpreter("0 v\n \"<@_ #! #: #,<*2-1*92,*84,*25,+*92*4*55.0", None);
    assert_eq!(
        interpreter.output_handle,
        "0 v\n \"<@_ #! #: #,<*2-1*92,*84,*25,+*92*4*55.0 ".as_bytes()
    );
}

#[should_panic]
#[test]
fn test_quine_three() {
    let interpreter = setup_interpreter(":0g,:\"~\"`#@_1+0\"Quines are Fun\">_", None);
    assert_eq!(
        interpreter.output_handle,
        ":0g,:\"~\"`#@_1+0\"Quines are Fun\">_".as_bytes()
    );
}

#[test]
fn test_true_value() {
    let mut interpreter = setup_interpreter("5@", None);
    let result = interpreter.run_unary_operation('!');
    assert!(result.is_ok());
    assert_eq!(interpreter.stack.last().unwrap(), &0);
}

#[test]
fn test_false_value() {
    let mut interpreter = setup_interpreter("0@", None);
    let result = interpreter.run_unary_operation('!');
    assert!(result.is_ok());
    assert_eq!(interpreter.stack.last().unwrap(), &1);
}

#[test]
fn test_evaluates_to_true() {
    let mut interpreter = setup_interpreter("0@", None);
    let result = interpreter.run_unary_operation('_');
    assert!(result.is_ok());
    assert_eq!(
        interpreter.playfield.program_counter_direction,
        Direction::Right
    );
}

#[test]
fn test_evaluates_to_false() {
    let mut interpreter = setup_interpreter("9@", None);
    let result = interpreter.run_unary_operation('_');
    assert!(result.is_ok());
    assert_eq!(
        interpreter.playfield.program_counter_direction,
        Direction::Left
    );
}

#[test]
fn interpreter_test_evaluates_to_true() {
    let mut interpreter = setup_interpreter("0@", None);
    let result = interpreter.run_unary_operation('|');
    assert!(result.is_ok());
    assert_eq!(
        interpreter.playfield.program_counter_direction,
        Direction::Down
    );
}

#[test]
fn interpreter_test_evaluates_to_false() {
    let mut interpreter = setup_interpreter("9@", None);
    let result = interpreter.run_unary_operation('|');
    assert!(result.is_ok());
    assert_eq!(
        interpreter.playfield.program_counter_direction,
        Direction::Up
    );
}

#[test]
fn test_duplicate() {
    let mut interpreter = setup_interpreter("5@", None);
    let result = interpreter.run_unary_operation(':');
    assert!(result.is_ok());
    assert_eq!(interpreter.stack, vec![5, 5]);
}

#[test]
fn test_pop() {
    let mut interpreter = setup_interpreter("5@", None);
    let result = interpreter.run_unary_operation('$');
    assert!(result.is_ok());
    assert_eq!(interpreter.stack, vec![]);
}

#[test]
fn test_write_integer() {
    let mut interpreter = setup_interpreter("5@", None);
    let result = interpreter.run_unary_operation('.');
    assert!(result.is_ok());
    assert_eq!(interpreter.output_handle, "5 ".as_bytes());
}

#[test]
fn write_character_test_basic() {
    let mut interpreter = setup_interpreter("\"a\"@", None);
    let result = interpreter.run_unary_operation(',');
    assert!(result.is_ok());
    assert_eq!(interpreter.output_handle, "a".as_bytes());
}

#[test]
fn test_non_printable_character() {
    let mut interpreter = setup_interpreter("55+@", None);
    let result = interpreter.run_unary_operation(',');
    assert!(result.is_ok());
    assert_eq!(interpreter.output_handle, "\n".as_bytes());
}

#[test]
fn test_special_characters() {
    let mut interpreter = setup_interpreter("\"á\"@", None);
    let result = interpreter.run_unary_operation(',');
    assert!(result.is_ok());
    assert_eq!(interpreter.output_handle, "á".as_bytes());
}

#[test]
fn addition_test_basic() {
    let mut interpreter = setup_interpreter("55@", None);
    let result = interpreter.run_binary_operation('+');
    assert!(result.is_ok());
    assert_eq!(interpreter.stack.last().unwrap(), &10);
}

#[test]
fn test_only_one_operand() {
    let mut interpreter = setup_interpreter("5@", None);
    let result = interpreter.run_binary_operation('+');
    assert!(result.is_ok());
    assert_eq!(interpreter.stack.last().unwrap(), &5);
}

#[test]
fn test_only_no_operands() {
    let mut interpreter = setup_interpreter("@", None);
    let result = interpreter.run_binary_operation('+');
    assert!(result.is_ok());
    assert_eq!(interpreter.stack.last().unwrap(), &0);
}

#[test]
fn subtraction_test_basic() {
    let mut interpreter = setup_interpreter("55@", None);
    let result = interpreter.run_binary_operation('-');
    assert!(result.is_ok());
    assert_eq!(interpreter.stack.last().unwrap(), &0);
}

#[test]
fn test_negative_result() {
    let mut interpreter = setup_interpreter("57@", None);
    let result = interpreter.run_binary_operation('-');
    assert!(result.is_ok());
    assert_eq!(interpreter.stack.last().unwrap(), &-2);
}

#[test]
fn test_multiplication() {
    let mut interpreter = setup_interpreter("56@", None);
    let result = interpreter.run_binary_operation('*');
    assert!(result.is_ok());
    assert_eq!(interpreter.stack.last().unwrap(), &30);
}

#[test]
fn division_test_basic() {
    let mut interpreter = setup_interpreter("62@", None);
    let result = interpreter.run_binary_operation('/');
    assert!(result.is_ok());
    assert_eq!(interpreter.stack.last().unwrap(), &3);
}

#[test]
fn test_integer_division() {
    let mut interpreter = setup_interpreter("72@", None);
    let result = interpreter.run_binary_operation('/');
    assert!(result.is_ok());
    assert_eq!(interpreter.stack.last().unwrap(), &3);
}

#[test]
fn test_division_by_zero() {
    let mut interpreter = setup_interpreter("60@", None);
    let result = interpreter.run_binary_operation('/');
    assert!(result.is_err());
}

#[test]
fn modulo_test_basic() {
    let mut interpreter = setup_interpreter("64@", None);
    let result = interpreter.run_binary_operation('%');
    assert!(result.is_ok());
    assert_eq!(interpreter.stack.last().unwrap(), &2);
}

#[test]
fn test_modulo_by_zero() {
    let mut interpreter = setup_interpreter("60@", None);
    let result = interpreter.run_binary_operation('%');
    assert!(result.is_err());
}

#[test]
fn greater_than_test_basic() {
    let mut interpreter = setup_interpreter("65@", None);
    let result = interpreter.run_binary_operation('`');
    assert!(result.is_ok());
    assert_eq!(interpreter.stack.last().unwrap(), &1);
}

#[test]
fn interpreter_test_false_value() {
    let mut interpreter = setup_interpreter("56@", None);
    let result = interpreter.run_binary_operation('`');
    assert!(result.is_ok());
    assert_eq!(interpreter.stack.last().unwrap(), &0);
}

#[test]
fn test_equal_values() {
    let mut interpreter = setup_interpreter("66@", None);
    let result = interpreter.run_binary_operation('`');
    assert!(result.is_ok());
    assert_eq!(interpreter.stack.last().unwrap(), &0);
}

#[test]
fn test_swap() {
    let mut interpreter = setup_interpreter("65@", None);
    let result = interpreter.run_binary_operation('\\');
    assert!(result.is_ok());
    assert_eq!(interpreter.stack, vec![5, 6]);
}

#[test]
fn get_test_basic() {
    let mut interpreter = setup_interpreter("49v\n  >10@", None);
    let result = interpreter.run_binary_operation('g');
    assert!(result.is_ok());
    assert_eq!(interpreter.stack.last().unwrap(), &57);
}

#[test]
fn test_out_of_bounds() {
    let mut interpreter = setup_interpreter("49v\n  >15@", None);
    let result = interpreter.run_binary_operation('g');
    assert!(result.is_err());
}

#[test]
fn test_noop() {
    let mut interpreter = setup_interpreter("5@", None);
    let result = interpreter.run_other_operation(' ');
    assert!(result.is_ok());
    assert_eq!(interpreter.stack.last().unwrap(), &5);
}

#[test]
fn test_direction_right() {
    let mut interpreter = setup_interpreter("@", None);
    let result = interpreter.run_other_operation('>');
    assert!(result.is_ok());
    assert_eq!(
        interpreter.playfield.program_counter_direction,
        Direction::Right
    );
}

#[test]
fn test_direction_left() {
    let mut interpreter = setup_interpreter("@", None);
    let result = interpreter.run_other_operation('<');
    assert!(result.is_ok());
    assert_eq!(
        interpreter.playfield.program_counter_direction,
        Direction::Left
    );
}

#[test]
fn test_direction_down() {
    let mut interpreter = setup_interpreter("@", None);
    let result = interpreter.run_other_operation('v');
    assert!(result.is_ok());
    assert_eq!(
        interpreter.playfield.program_counter_direction,
        Direction::Down
    );
}

#[test]
fn test_direction_up() {
    let mut interpreter = setup_interpreter("@", None);
    let result = interpreter.run_other_operation('^');
    assert!(result.is_ok());
    assert_eq!(
        interpreter.playfield.program_counter_direction,
        Direction::Up
    );
}

#[test]
fn test_random_direction() {
    let mut interpreter = setup_interpreter("@", None);
    let result = interpreter.run_other_operation('?');
    assert!(result.is_ok());
}

#[test]
fn test_string_mode_change() {
    let mut interpreter = setup_interpreter("5@", None);
    let result = interpreter.run_other_operation('"');
    assert!(result.is_ok());
    assert_eq!(interpreter.mode, Mode::String);
}

#[test]
fn test_bridge_mode_change() {
    let mut interpreter = setup_interpreter("5@", None);
    let result = interpreter.run_other_operation('#');
    assert!(result.is_ok());
    assert_eq!(interpreter.mode, Mode::Bridge);
}

#[test]
fn put_test_basic() {
    let mut interpreter = setup_interpreter("49v\n  >510@", None);
    let result = interpreter.run_other_operation('p');
    assert!(result.is_ok());
    assert_eq!(interpreter.playfield.code_map[0][1], '\u{5}');
}

#[test]
fn interpreter_test_out_of_bounds() {
    let mut interpreter = setup_interpreter("49v\n  >515@", None);
    let result = interpreter.run_other_operation('p');
    assert!(result.is_err());
}

#[test]
fn test_read_integer() {
    let mut interpreter = setup_interpreter("@", Some("5"));
    let result = interpreter.run_other_operation('&');
    assert!(result.is_ok());
    assert_eq!(interpreter.stack.last().unwrap(), &5);
}

#[test]
fn test_read_character() {
    let mut interpreter = setup_interpreter("@", Some("5"));
    let result = interpreter.run_other_operation('~');
    assert!(result.is_ok());
    assert_eq!(interpreter.stack.last().unwrap(), &53);
}

#[test]
fn convert_test_basic() {
    assert_eq!(convert_int_to_char(57).unwrap(), '9');
    assert_eq!(convert_int_to_char(38).unwrap(), '&');
    assert_eq!(convert_int_to_char(76).unwrap(), 'L');
    assert_eq!(convert_int_to_char(103).unwrap(), 'g');
}

#[test]
fn test_extended_character_set() {
    assert_eq!(convert_int_to_char(233).unwrap(), 'é');
    assert_eq!(convert_int_to_char(247).unwrap(), '÷');
}

#[test]
fn test_upper_bound() {
    assert_eq!(convert_int_to_char(255).unwrap(), 'ÿ');
}

#[test]
fn test_lower_bound() {
    assert_eq!(convert_int_to_char(0).unwrap(), 0_u8 as char);
}

#[test]
fn convert_test_out_of_bounds() {
    assert!(convert_int_to_char(5555).is_err());
    assert!(convert_int_to_char(-333).is_err());
}
