use vstd::prelude::*;
use crate::token::TokenType;

verus! {

/// The keyword table: the kind that an exact, case-sensitive spelling maps to.
pub open spec fn keyword_of(text: Seq<char>) -> Option<TokenType> {
    if text == "PenUp"@ { Some(TokenType::PenUp) }
    else if text == "PenDown"@ { Some(TokenType::PenDown) }
    else if text == "Forward"@ { Some(TokenType::Forward) }
    else if text == "Back"@ { Some(TokenType::Back) }
    else if text == "Left"@ { Some(TokenType::Left) }
    else if text == "Right"@ { Some(TokenType::Right) }
    else if text == "SetPenColour"@ { Some(TokenType::SetPenColour) }
    else if text == "Turn"@ { Some(TokenType::Turn) }
    else if text == "SetHeading"@ { Some(TokenType::SetHeading) }
    else if text == "SetX"@ { Some(TokenType::SetX) }
    else if text == "SetY"@ { Some(TokenType::SetY) }
    else if text == "Make"@ { Some(TokenType::Make) }
    else if text == "AddAssign"@ { Some(TokenType::AddAssign) }
    else if text == "XCor"@ { Some(TokenType::XCor) }
    else if text == "YCor"@ { Some(TokenType::YCor) }
    else if text == "Heading"@ { Some(TokenType::Heading) }
    else if text == "Colour"@ { Some(TokenType::Colour) }
    else if text == "If"@ { Some(TokenType::If) }
    else if text == "While"@ { Some(TokenType::While) }
    else if text == "EQ"@ { Some(TokenType::Eq) }
    else if text == "NE"@ { Some(TokenType::Ne) }
    else if text == "GT"@ { Some(TokenType::Gt) }
    else if text == "LT"@ { Some(TokenType::Lt) }
    else if text == "AND"@ { Some(TokenType::And) }
    else if text == "OR"@ { Some(TokenType::Or) }
    else { None }
}

/// Character-by-character equality of two texts.
fn same_text(a: &str, b: &str) -> (r: bool)
    ensures
        r == (a@ == b@),
{
    let n = a.unicode_len();
    if n != b.unicode_len() {
        return false;
    }
    let mut i: usize = 0;
    while i < n
        invariant
            n == a@.len(),
            n == b@.len(),
            i <= n,
            a@.subrange(0, i as int) == b@.subrange(0, i as int),
        decreases n - i,
    {
        if a.get_char(i) != b.get_char(i) {
            assert(a@[i as int] != b@[i as int]);
            return false;
        }
        assert(a@.subrange(0, i + 1) =~= a@.subrange(0, i as int).push(a@[i as int]));
        assert(b@.subrange(0, i + 1) =~= b@.subrange(0, i as int).push(b@[i as int]));
        i = i + 1;
    }
    assert(a@ =~= a@.subrange(0, n as int));
    assert(b@ =~= b@.subrange(0, n as int));
    true
}

/// Looks a lexeme up in the keyword table.
pub fn lookup_keyword(text: &str) -> (r: Option<TokenType>)
    ensures
        r == keyword_of(text@),
{
    if same_text(text, "PenUp") { Some(TokenType::PenUp) }
    else if same_text(text, "PenDown") { Some(TokenType::PenDown) }
    else if same_text(text, "Forward") { Some(TokenType::Forward) }
    else if same_text(text, "Back") { Some(TokenType::Back) }
    else if same_text(text, "Left") { Some(TokenType::Left) }
    else if same_text(text, "Right") { Some(TokenType::Right) }
    else if same_text(text, "SetPenColour") { Some(TokenType::SetPenColour) }
    else if same_text(text, "Turn") { Some(TokenType::Turn) }
    else if same_text(text, "SetHeading") { Some(TokenType::SetHeading) }
    else if same_text(text, "SetX") { Some(TokenType::SetX) }
    else if same_text(text, "SetY") { Some(TokenType::SetY) }
    else if same_text(text, "Make") { Some(TokenType::Make) }
    else if same_text(text, "AddAssign") { Some(TokenType::AddAssign) }
    else if same_text(text, "XCor") { Some(TokenType::XCor) }
    else if same_text(text, "YCor") { Some(TokenType::YCor) }
    else if same_text(text, "Heading") { Some(TokenType::Heading) }
    else if same_text(text, "Colour") { Some(TokenType::Colour) }
    else if same_text(text, "If") { Some(TokenType::If) }
    else if same_text(text, "While") { Some(TokenType::While) }
    else if same_text(text, "EQ") { Some(TokenType::Eq) }
    else if same_text(text, "NE") { Some(TokenType::Ne) }
    else if same_text(text, "GT") { Some(TokenType::Gt) }
    else if same_text(text, "LT") { Some(TokenType::Lt) }
    else if same_text(text, "AND") { Some(TokenType::And) }
    else if same_text(text, "OR") { Some(TokenType::Or) }
    else { None }
}

} // verus!
