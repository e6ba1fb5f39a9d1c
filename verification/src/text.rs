use vstd::prelude::*;

use crate::bencode::spec::{decimal, DIGIT_ZERO};
use vstd::string::StringExecFns;

verus! {

/// The decimal numeral of `n`, as text.
pub open spec fn decimal_text(n: nat) -> Seq<char> {
    decimal(n).map_values(|b: u8| b as char)
}

/// The text of the decimal digit `d`.
fn digit_text(d: u64) -> (text: &'static str)
    requires
        d < 10,
    ensures
        text@ == seq![((DIGIT_ZERO + d) as u8) as char],
{
    proof {
        reveal_strlit("0");
        reveal_strlit("1");
        reveal_strlit("2");
        reveal_strlit("3");
        reveal_strlit("4");
        reveal_strlit("5");
        reveal_strlit("6");
        reveal_strlit("7");
        reveal_strlit("8");
        reveal_strlit("9");
    }
    let text = if d == 0 {
        "0"
    } else if d == 1 {
        "1"
    } else if d == 2 {
        "2"
    } else if d == 3 {
        "3"
    } else if d == 4 {
        "4"
    } else if d == 5 {
        "5"
    } else if d == 6 {
        "6"
    } else if d == 7 {
        "7"
    } else if d == 8 {
        "8"
    } else {
        "9"
    };
    assert(text@ =~= seq![((DIGIT_ZERO + d) as u8) as char]);
    text
}

/// The decimal numeral of `n`: its digits, without sign or leading zeros.
pub fn u64_to_text(n: u64) -> (text: String)
    ensures
        text@ == decimal_text(n as nat),
    decreases n,
{
    if n < 10 {
        let text = String::from_str(digit_text(n));
        assert(decimal_text(n as nat) =~= seq![((DIGIT_ZERO + n) as u8) as char]);
        text
    } else {
        let prefix = u64_to_text(n / 10);
        let last = digit_text(n % 10);
        let text = prefix.concat(last);
        assert(decimal(n as nat) == decimal((n / 10) as nat).push((DIGIT_ZERO + n % 10) as u8));
        assert(decimal_text(n as nat) =~= decimal_text((n / 10) as nat).push(
            ((DIGIT_ZERO + n % 10) as u8) as char,
        ));
        text
    }
}

/// A text of the one character `c`.
///
/// Trusted: calls `char::to_string`, which std documents as giving a `String` that holds
/// exactly that character.
#[verifier::external_body]
pub fn char_to_text(c: char) -> (text: String)
    ensures
        text@ == seq![c],
{
    c.to_string()
}

} // verus!
