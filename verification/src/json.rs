//! The little of JSON that the broker writes.

use vstd::prelude::*;
use vstd::string::StringExecFns;

verus! {

/// `serde_json::Error`: why a value could not be written as JSON. It is
/// handed through and never looked into.
#[verifier::external_type_specification]
#[verifier::external_body]
pub struct ExJsonError(serde_json::Error);

/// The JSON string literal that stands for a text, as `serde_json` writes
/// it: the text between double quotes, with the characters that JSON does
/// not take as they are written as escapes.
pub uninterp spec fn json_string(text: Seq<char>) -> Seq<char>;

/// A character that a JSON string literal takes as it is: not the double
/// quote, not the backslash, not a control character.
pub open spec fn unescaped(c: char) -> bool {
    c != '\u{22}' && c != '\u{5c}' && c >= ' '
}

/// The text between two double quotes.
pub open spec fn in_quotes(text: Seq<char>) -> Seq<char> {
    seq!['\u{22}'] + text + seq!['\u{22}']
}

/// A text without a character that a JSON string literal must escape.
pub open spec fn plain(text: Seq<char>) -> bool {
    forall|i: int| 0 <= i < text.len() ==> unescaped(#[trigger] text[i])
}

/// The decimal digit for `d`, which is below ten.
pub open spec fn digit(d: nat) -> char {
    if d == 0 {
        '0'
    } else if d == 1 {
        '1'
    } else if d == 2 {
        '2'
    } else if d == 3 {
        '3'
    } else if d == 4 {
        '4'
    } else if d == 5 {
        '5'
    } else if d == 6 {
        '6'
    } else if d == 7 {
        '7'
    } else if d == 8 {
        '8'
    } else {
        '9'
    }
}

/// A number in decimal digits, without a sign or leading zeros.
pub open spec fn decimal(n: nat) -> Seq<char>
    decreases n,
{
    if n < 10 {
        seq![digit(n)]
    } else {
        decimal(n / 10).push(digit(n % 10))
    }
}

/// `serde_json::to_string`, called on a `str`. It writes the text as a JSON
/// string literal and cannot fail on a `str`. The literal is a function of
/// the text alone. Where no character of the text is a double quote, a
/// backslash or below the space, nothing is escaped: the literal is the text
/// between two double quotes.
#[verifier::external_body]
fn to_json_string(text: &str) -> (json: Result<String, serde_json::Error>)
    ensures
        match json {
            Ok(literal) => literal@ == json_string(text@) && (plain(text@) ==> literal@
                == in_quotes(text@)),
            Err(_) => false,
        },
{
    serde_json::to_string(text)
}

/// The text as a JSON string literal.
pub fn quote(text: &str) -> (literal: String)
    ensures
        literal@ == json_string(text@),
        plain(text@) ==> literal@ == in_quotes(text@),
{
    match to_json_string(text) {
        Ok(literal) => literal,
        Err(_) => String::new(),
    }
}

fn digit_text(d: u64) -> (text: &'static str)
    requires
        d < 10,
    ensures
        text@ == seq![digit(d as nat)],
{
    proof {
        reveal_strlit("0");
        reveal_strlit("1");
        reveal_strlit("2");
        reveal_strlit("3");
        reveal_strlit("4");
        reveal_strlit("5");
        reveal_strlit("6");
        reveal_strlit("7");
        reveal_strlit("8");
        reveal_strlit("9");
    }
    let text = if d == 0 {
        "0"
    } else if d == 1 {
        "1"
    } else if d == 2 {
        "2"
    } else if d == 3 {
        "3"
    } else if d == 4 {
        "4"
    } else if d == 5 {
        "5"
    } else if d == 6 {
        "6"
    } else if d == 7 {
        "7"
    } else if d == 8 {
        "8"
    } else {
        "9"
    };
    assert(text@ =~= seq![digit(d as nat)]);
    text
}

/// The number as JSON writes it.
pub fn number(n: u64) -> (text: String)
    ensures
        text@ == decimal(n as nat),
    decreases n,
{
    if n < 10 {
        String::from_str(digit_text(n))
    } else {
        let mut text = number(n / 10);
        text.append(digit_text(n % 10));
        assert(text@ =~= decimal(n as nat));
        text
    }
}

} // verus!
