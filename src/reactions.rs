//! Digits written as keycap emoji: the digits, then U+FE0F and U+20E3.

use crate::errors::{decimal_chars, decimal_string};
use vstd::prelude::*;

verus! {

/// The characters that follow the digits of a keycap emoji.
pub open spec fn keycap_suffix() -> Seq<char> {
    seq!['\u{fe0f}', '\u{20e3}']
}

/// The digit of a one-digit keycap emoji.
pub open spec fn keycap_digit(s: Seq<char>) -> Option<u8> {
    if s.len() == 3 && 48 <= (s[0] as u32) <= 57 && s[1] == '\u{fe0f}' && s[2] == '\u{20e3}' {
        Some(((s[0] as u32) - 48) as u8)
    } else {
        None
    }
}

/// `n` as a keycap emoji.
pub fn digit_as_emoji(n: u8) -> (r: String)
    ensures
        r@ == decimal_chars(n as nat) + keycap_suffix(),
{
    proof {
        reveal_strlit("\u{fe0f}\u{20e3}");
    }
    let r = decimal_string(n as usize).concat("\u{fe0f}\u{20e3}");
    assert(r@ =~= decimal_chars(n as nat) + keycap_suffix());
    r
}

/// The digit that a one-digit keycap emoji shows.
pub fn emoji_as_digit(emoji: &str) -> (r: Option<u8>)
    ensures
        r == keycap_digit(emoji@),
{
    if emoji.unicode_len() != 3 {
        return None;
    }
    let first = emoji.get_char(0);
    let code = first as u32;
    if 48 <= code && code <= 57 && emoji.get_char(1) == '\u{fe0f}' && emoji.get_char(2) == '\u{20e3}' {
        Some((code - 48) as u8)
    } else {
        None
    }
}

} // verus!
