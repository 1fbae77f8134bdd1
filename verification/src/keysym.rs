//! Keyboard symbols, by their numbers.

use vstd::prelude::*;

verus! {

/// What `xkeysym::Keysym::key_char` says the character of a symbol is.
pub uninterp spec fn keysym_char(sym: u32) -> Option<char>;

/// Calls `xkeysym::Keysym::key_char`. The result depends on the symbol alone,
/// and a symbol for a printable Latin-1 character is the number of that
/// character. The table behind all other symbols is left unsaid.
#[verifier::external_body]
fn char_of_keysym(sym: u32) -> (r: Option<char>)
    ensures
        r == keysym_char(sym),
        0x20 <= sym <= 0x7e || 0xa0 <= sym <= 0xff ==> r == Some(sym as char),
{
    xkeysym::Keysym::new(sym).key_char()
}

/// Calls `xkeysym::Keysym::from_char`: the symbol for a printable ASCII
/// character is the number of that character.
#[verifier::external_body]
fn keysym_of_ascii(c: char) -> (r: u32)
    requires
        0x20 <= c as u32 <= 0x7e,
    ensures
        r == c as u32,
{
    xkeysym::Keysym::from_char(c).raw()
}

/// Whether a character is an ASCII letter.
pub open spec fn ascii_letter(c: char) -> bool {
    0x41 <= c as u32 <= 0x5a || 0x61 <= c as u32 <= 0x7a
}

/// The symbol that stands for `sym` in comparisons, given the character of
/// `sym`: that of the small letter for a letter, `sym` itself for the rest.
pub open spec fn folded(sym: u32, character: Option<char>) -> u32 {
    match character {
        Some(c) => if ascii_letter(c) {
            crate::text::lower(c) as u32
        } else {
            sym
        },
        None => sym,
    }
}

/// The symbol that stands for `sym` in comparisons, given its character.
pub fn fold_keysym(sym: u32, character: Option<char>) -> (r: u32)
    ensures
        r == folded(sym, character),
{
    match character {
        Some(c) => {
            let u: u32 = c as u32;
            if (0x41 <= u && u <= 0x5a) || (0x61 <= u && u <= 0x7a) {
                let small: char = crate::text::to_lower_char(c);
                keysym_of_ascii(small)
            } else {
                sym
            }
        },
        None => sym,
    }
}

/// The symbol that stands for `sym` in comparisons. With Shift held, a keyboard
/// reports the symbol of the capital letter; letters compare without regard to
/// that.
pub fn normalize_keysym(sym: u32) -> (r: u32)
    ensures
        r == folded(sym, keysym_char(sym)),
        0x41 <= sym <= 0x5a ==> r == sym + 0x20,
        0x61 <= sym <= 0x7a ==> r == sym,
        0x20 <= sym < 0x41 || 0x5a < sym < 0x61 || 0x7a < sym <= 0x7e ==> r == sym,
{
    let character: Option<char> = char_of_keysym(sym);
    fold_keysym(sym, character)
}

/// The symbol for the name of a key, from the two ways to look it up: as
/// written, and without regard to case where that finds none. Zero is no
/// symbol, and never matches a key.
pub fn parse_keysym(exact: u32, ignoring_case: u32) -> (r: u32)
    ensures
        r == (if exact != 0 {
            exact
        } else {
            ignoring_case
        }),
{
    if exact != 0 {
        return exact;
    }
    ignoring_case
}

/// A letter folds to the same symbol in either case, whatever symbols stand for
/// it; what is no letter folds to itself.
pub proof fn letters_fold_to_their_small_form(sym: u32, other: u32, c: char)
    ensures
        'A' as u32 <= c as u32 <= 'Z' as u32 ==> folded(sym, Some(c)) == c as u32 + ('a' as u32
            - 'A' as u32) && folded(sym, Some(c)) == folded(other, Some(crate::text::lower(c))),
        'a' as u32 <= c as u32 <= 'z' as u32 ==> folded(sym, Some(c)) == c as u32,
        !('A' as u32 <= c as u32 <= 'Z' as u32) && !('a' as u32 <= c as u32 <= 'z' as u32)
            ==> folded(sym, Some(c)) == sym,
        folded(sym, None) == sym,
{
}

} // verus!
