use vstd::prelude::*;

verus! {

/// The closed set of token kinds of the turtle scripting language.
#[derive(Debug, Clone, Copy, PartialEq, Eq, Structural)]
pub enum TokenType {
    // single character operators
    Plus,
    Minus,
    Star,
    Slash,
    // literals
    Value,
    Identifier,
    // keywords
    PenUp,
    PenDown,
    Forward,
    Back,
    Left,
    Right,
    SetPenColour,
    Turn,
    SetHeading,
    SetX,
    SetY,
    Make,
    AddAssign,
    XCor,
    YCor,
    Heading,
    Colour,
    If,
    While,
    Eq,
    Ne,
    Gt,
    Lt,
    And,
    Or,
}

impl TokenType {
    /// The text used to show a token kind in diagnostics.
    pub open spec fn name(self) -> Seq<char> {
        match self {
            TokenType::Plus => "Plus"@,
            TokenType::Minus => "Minus"@,
            TokenType::Star => "Star"@,
            TokenType::Slash => "Slash"@,
            TokenType::Value => "Value"@,
            TokenType::Identifier => "Identifier"@,
            TokenType::PenUp => "PenUp"@,
            TokenType::PenDown => "PenDown"@,
            TokenType::Forward => "Forward"@,
            TokenType::Back => "Back"@,
            TokenType::Left => "Left"@,
            TokenType::Right => "Right"@,
            TokenType::SetPenColour => "SetPenColour"@,
            TokenType::Turn => "Turn"@,
            TokenType::SetHeading => "SetHeading"@,
            TokenType::SetX => "SetX"@,
            TokenType::SetY => "SetY"@,
            TokenType::Make => "Make"@,
            TokenType::AddAssign => "AddAssign"@,
            TokenType::XCor => "XCor"@,
            TokenType::YCor => "YCor"@,
            TokenType::Heading => "Heading"@,
            TokenType::Colour => "Colour"@,
            TokenType::If => "If"@,
            TokenType::While => "While"@,
            TokenType::Eq => "Equals"@,
            TokenType::Ne => "Not Equals"@,
            TokenType::Gt => "Greater Than"@,
            TokenType::Lt => "Less Than"@,
            TokenType::And => "AND"@,
            TokenType::Or => "OR"@,
        }
    }

    fn name_str(&self) -> (r: &'static str)
        ensures
            r@ == self.name(),
    {
        match self {
            TokenType::Plus => "Plus",
            TokenType::Minus => "Minus",
            TokenType::Star => "Star",
            TokenType::Slash => "Slash",
            TokenType::Value => "Value",
            TokenType::Identifier => "Identifier",
            TokenType::PenUp => "PenUp",
            TokenType::PenDown => "PenDown",
            TokenType::Forward => "Forward",
            TokenType::Back => "Back",
            TokenType::Left => "Left",
            TokenType::Right => "Right",
            TokenType::SetPenColour => "SetPenColour",
            TokenType::Turn => "Turn",
            TokenType::SetHeading => "SetHeading",
            TokenType::SetX => "SetX",
            TokenType::SetY => "SetY",
            TokenType::Make => "Make",
            TokenType::AddAssign => "AddAssign",
            TokenType::XCor => "XCor",
            TokenType::YCor => "YCor",
            TokenType::Heading => "Heading",
            TokenType::Colour => "Colour",
            TokenType::If => "If",
            TokenType::While => "While",
            TokenType::Eq => "Equals",
            TokenType::Ne => "Not Equals",
            TokenType::Gt => "Greater Than",
            TokenType::Lt => "Less Than",
            TokenType::And => "AND",
            TokenType::Or => "OR",
        }
    }

    pub fn to_string(&self) -> (r: String)
        ensures
            r@ == self.name(),
    {
        String::from_str(self.name_str())
    }
}

/// The digit character for a value below ten.
pub open spec fn digit_char(d: nat) -> char {
    if d == 0 { '0' }
    else if d == 1 { '1' }
    else if d == 2 { '2' }
    else if d == 3 { '3' }
    else if d == 4 { '4' }
    else if d == 5 { '5' }
    else if d == 6 { '6' }
    else if d == 7 { '7' }
    else if d == 8 { '8' }
    else { '9' }
}

/// The decimal spelling of a natural number, without leading zeros.
pub open spec fn decimal(n: nat) -> Seq<char>
    decreases n,
{
    if n < 10 {
        seq![digit_char(n)]
    } else {
        decimal(n / 10) + seq![digit_char(n % 10)]
    }
}

fn digit_str(d: u32) -> (r: &'static str)
    requires
        d < 10,
    ensures
        r@ == seq![digit_char(d as nat)],
{
    proof {
        reveal_strlit("0");
        reveal_strlit("1");
        reveal_strlit("2");
        reveal_strlit("3");
        reveal_strlit("4");
        reveal_strlit("5");
        reveal_strlit("6");
        reveal_strlit("7");
        reveal_strlit("8");
        reveal_strlit("9");
    }
    let r = if d == 0 { "0" }
    else if d == 1 { "1" }
    else if d == 2 { "2" }
    else if d == 3 { "3" }
    else if d == 4 { "4" }
    else if d == 5 { "5" }
    else if d == 6 { "6" }
    else if d == 7 { "7" }
    else if d == 8 { "8" }
    else { "9" };
    assert(r@ =~= seq![digit_char(d as nat)]);
    r
}

/// Appends the decimal spelling of `n` to `out`.
pub fn append_decimal(out: &mut String, n: u32)
    ensures
        final(out)@ == old(out)@ + decimal(n as nat),
    decreases n,
{
    if n >= 10 {
        append_decimal(out, n / 10);
    }
    out.append(digit_str(n % 10));
    assert(final(out)@ =~= old(out)@ + decimal(n as nat));
}

/// What a token is: its kind, its text and the line and column where it starts.
pub struct TokenView {
    pub kind: TokenType,
    pub lexeme: Seq<char>,
    pub line: nat,
    pub column: nat,
}

/// A classified lexeme with the position of its first character.
#[derive(Debug)]
pub struct Token {
    lexeme: String,
    token_type: TokenType,
    line: u32,
    column: u32,
}

impl View for Token {
    type V = TokenView;

    closed spec fn view(&self) -> TokenView {
        TokenView {
            kind: self.token_type,
            lexeme: self.lexeme@,
            line: self.line as nat,
            column: self.column as nat,
        }
    }
}

/// The diagnostic rendering of a token.
pub open spec fn token_text(t: TokenView) -> Seq<char> {
    "["@ + t.kind.name() + ": lexeme - '"@ + t.lexeme + "', line - "@ + decimal(t.line)
        + ", column - "@ + decimal(t.column) + "]"@
}

impl Token {
    pub fn new(lexeme: String, token_type: TokenType, line: u32, column: u32) -> (r: Token)
        ensures
            r@ == (TokenView {
                kind: token_type,
                lexeme: lexeme@,
                line: line as nat,
                column: column as nat,
            }),
    {
        Token { lexeme, token_type, line, column }
    }

    pub fn lexeme(&self) -> (r: &str)
        ensures
            r@ == self@.lexeme,
    {
        self.lexeme.as_str()
    }

    pub fn token_type(&self) -> (r: TokenType)
        ensures
            r == self@.kind,
    {
        self.token_type
    }

    pub fn line(&self) -> (r: u32)
        ensures
            r as nat == self@.line,
    {
        self.line
    }

    pub fn column(&self) -> (r: u32)
        ensures
            r as nat == self@.column,
    {
        self.column
    }

    pub fn to_string(&self) -> (r: String)
        ensures
            r@ == token_text(self@),
    {
        let mut out = String::from_str("[");
        out.append(self.token_type.name_str());
        out.append(": lexeme - '");
        out.append(self.lexeme.as_str());
        out.append("', line - ");
        append_decimal(&mut out, self.line);
        out.append(", column - ");
        append_decimal(&mut out, self.column);
        out.append("]");
        assert(out@ =~= token_text(self@));
        out
    }
}

} // verus!
