use turtle_lexer::token::{Token, TokenType};

#[test]
fn token_type_penup_tostring() {
    let ttype = TokenType::PenUp;
    assert_eq!(ttype.to_string(), "PenUp");
}

#[test]
fn token_type_pendown_tostring() {
    let ttype = TokenType::PenDown;
    assert_eq!(ttype.to_string(), "PenDown");
}

#[test]
fn token_type_forward_tostring() {
    let ttype = TokenType::Forward;
    assert_eq!(ttype.to_string(), "Forward");
}

#[test]
fn token_type_back_tostring() {
    let ttype = TokenType::Back;
    assert_eq!(ttype.to_string(), "Back");
}

#[test]
fn token_type_left_tostring() {
    let ttype = TokenType::Left;
    assert_eq!(ttype.to_string(), "Left");
}

#[test]
fn token_type_right_tostring() {
    let ttype = TokenType::Right;
    assert_eq!(ttype.to_string(), "Right");
}

#[test]
fn token_type_setpencolour_tostring() {
    let ttype = TokenType::SetPenColour;
    assert_eq!(ttype.to_string(), "SetPenColour");
}

#[test]
fn token_type_turn_tostring() {
    let ttype = TokenType::Turn;
    assert_eq!(ttype.to_string(), "Turn");
}

#[test]
fn token_type_setheading_tostring() {
    let ttype = TokenType::SetHeading;
    assert_eq!(ttype.to_string(), "SetHeading");
}

#[test]
fn token_type_setx_tostring() {
    let ttype = TokenType::SetX;
    assert_eq!(ttype.to_string(), "SetX");
}

#[test]
fn token_type_sety_tostring() {
    let ttype = TokenType::SetY;
    assert_eq!(ttype.to_string(), "SetY");
}

#[test]
fn token_type_identifier_tostring() {
    let ttype = TokenType::Identifier;
    assert_eq!(ttype.to_string(), "Identifier");
}

#[test]
fn token_type_value_tostring() {
    let ttype = TokenType::Value;
    assert_eq!(ttype.to_string(), "Value");
}

#[test]
fn token_type_plus_tostring() {
    let ttype = TokenType::Plus;
    assert_eq!(ttype.to_string(), "Plus");
}

#[test]
fn token_tostring() {
    let lexeme = String::from("lexeme");
    let token = Token::new(lexeme.clone(), TokenType::Value, 0, 0);
    assert_eq!(
        token.to_string(),
        String::from("[Value: lexeme - 'lexeme', line - 0, column - 0]")
    );
}

#[test]
fn token_type_renderings_differ_from_spelling() {
    assert_eq!(TokenType::Eq.to_string(), "Equals");
    assert_eq!(TokenType::Ne.to_string(), "Not Equals");
    assert_eq!(TokenType::Gt.to_string(), "Greater Than");
    assert_eq!(TokenType::Lt.to_string(), "Less Than");
    assert_eq!(TokenType::And.to_string(), "AND");
    assert_eq!(TokenType::Or.to_string(), "OR");
    assert_eq!(TokenType::Minus.to_string(), "Minus");
    assert_eq!(TokenType::Star.to_string(), "Star");
    assert_eq!(TokenType::Slash.to_string(), "Slash");
    assert_eq!(TokenType::AddAssign.to_string(), "AddAssign");
}

#[test]
fn token_tostring_multi_digit_position() {
    let token = Token::new(String::from(":x"), TokenType::Identifier, 12, 4070);
    assert_eq!(
        token.to_string(),
        "[Identifier: lexeme - ':x', line - 12, column - 4070]"
    );
}

#[test]
fn token_tostring_largest_position() {
    let token = Token::new(String::from("+"), TokenType::Plus, 4294967295, 10);
    assert_eq!(
        token.to_string(),
        "[Plus: lexeme - '+', line - 4294967295, column - 10]"
    );
}

#[test]
fn token_getters() {
    let token = Token::new(String::from("Forward"), TokenType::Forward, 3, 7);
    assert_eq!(token.lexeme(), "Forward");
    assert_eq!(token.token_type(), TokenType::Forward);
    assert_eq!(token.line(), 3);
    assert_eq!(token.column(), 7);
}
