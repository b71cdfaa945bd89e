use tenda::repl::{validate_input, InputStatus};

#[test]
fn lines_of_operands_are_complete() {
    assert_eq!(validate_input("1\nx\n"), Some(InputStatus::Complete));
}

#[test]
fn open_loop_is_incomplete() {
    assert_eq!(validate_input("enquanto x faça\n1\n"), Some(InputStatus::Incomplete));
    assert_eq!(validate_input("enquanto x faça\n1\nfim"), Some(InputStatus::Complete));
}

#[test]
fn unterminated_string_is_complete_with_its_error() {
    assert_eq!(validate_input("\"abc"), Some(InputStatus::Complete));
}

#[test]
fn other_syntax_errors_are_complete() {
    assert_eq!(validate_input("seja = 1"), Some(InputStatus::Complete));
    assert_eq!(validate_input("1 +"), Some(InputStatus::Incomplete));
}

#[test]
fn declarations_are_complete_and_open_loops_with_them_are_not() {
    assert_eq!(validate_input("seja x = 1\nx"), Some(InputStatus::Complete));
    assert_eq!(validate_input("enquanto x faça\nseja y = 2\n"), Some(InputStatus::Incomplete));
}

#[test]
fn open_condition_is_incomplete() {
    assert_eq!(validate_input("se x então\n1\n"), Some(InputStatus::Incomplete));
    assert_eq!(validate_input("se x então\n1\nfim"), Some(InputStatus::Complete));
}
