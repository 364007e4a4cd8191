use lib::errors::InterpreterError;
use lib::scanner::models::{Token, TokenInfo};

#[test]
fn renders_each_kind() {
    assert_eq!(
        InterpreterError::scanner_error(3, "Bad.".to_string()).render(),
        "[line 3] Error: Bad."
    );
    assert_eq!(
        InterpreterError::runtime_error(12, "Oops.".to_string()).render(),
        "Oops.\n[line 12]"
    );
    assert_eq!(
        InterpreterError::operands_must_be_numbers_error(1).render(),
        "Operands must be numbers.\n[line 1]"
    );
}

#[test]
fn parser_error_location() {
    let eof = TokenInfo::new(Token::Eof, 4);
    assert_eq!(
        InterpreterError::parser_error(0, &eof, "Expect expression.".to_string()).render(),
        "[line 4] Error at end: Expect expression."
    );
    let ident = TokenInfo::new(Token::Identifier { lexeme: "foo".to_string() }, 2);
    assert_eq!(
        InterpreterError::parser_error(1, &ident, "Nope.".to_string()).render(),
        "[line 2] Error at 'foo': Nope."
    );
}
