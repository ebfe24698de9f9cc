//! Classification of one character, with the arithmetic decomposition of a
//! Hangul syllable into initial, medial and final.
use vstd::prelude::*;

use crate::tables::{math_cells, math_vec, symbol_cells, symbol_vec};

verus! {

/// Why a text cannot be written in braille.
#[derive(Clone, Copy, Debug, PartialEq, Eq, Structural)]
pub enum EncodeError {
    /// The character belongs to no class that is written.
    Classification(char),
    /// The character has no cells in the form that its position asks for
    /// (a vowel letter where a consonant is written as a final).
    Lookup(char),
}

/// The class of one character.
#[derive(Clone, Copy, Debug, PartialEq, Eq, Structural)]
pub enum Category {
    /// A complete Hangul syllable: initial 0..19, medial 0..21, final 0..28
    /// where 0 means no final consonant.
    Syllable { cho: u8, jung: u8, jong: u8 },
    /// A bare consonant or vowel letter, by its place 0..51 in the
    /// compatibility jamo block (consonants first, from 30 the vowels).
    Jamo { index: u8 },
    /// A Latin letter, 0 for a to 25 for z.
    Latin { letter: u8, upper: bool },
    /// A decimal digit.
    Digit { value: u8 },
    /// A punctuation mark.
    Symbol { ch: char },
    /// White space.
    Space,
    /// A mathematical operator.
    MathSymbol { ch: char },
}

pub const SYLLABLE_BASE: u32 = 0xAC00;

pub const SYLLABLE_LAST: u32 = 0xD7A3;

pub const JAMO_BASE: u32 = 0x3131;

pub const JAMO_LAST: u32 = 0x3163;

pub open spec fn is_syllable_char(c: char) -> bool {
    SYLLABLE_BASE <= c as u32 <= SYLLABLE_LAST
}

pub open spec fn is_jamo_char(c: char) -> bool {
    JAMO_BASE <= c as u32 <= JAMO_LAST
}

/// A Hangul syllable or a bare Hangul letter.
pub open spec fn is_korean_char(c: char) -> bool {
    is_syllable_char(c) || is_jamo_char(c)
}

pub open spec fn is_upper_latin(c: char) -> bool {
    'A' <= c <= 'Z'
}

pub open spec fn is_lower_latin(c: char) -> bool {
    'a' <= c <= 'z'
}

pub open spec fn is_latin(c: char) -> bool {
    is_upper_latin(c) || is_lower_latin(c)
}

pub open spec fn is_digit_char(c: char) -> bool {
    '0' <= c <= '9'
}

/// The characters with Unicode's White_Space property.
pub open spec fn is_white_space(c: char) -> bool {
    let u = c as u32;
    (9 <= u <= 13) || u == 32 || u == 0x85 || u == 0xA0 || u == 0x1680 || (0x2000 <= u <= 0x200A)
        || u == 0x2028 || u == 0x2029 || u == 0x202F || u == 0x205F || u == 0x3000
}

/// The class of a character, or `None` for a character that is not written.
pub open spec fn classify_spec(c: char) -> Option<Category> {
    let u = c as u32;
    if is_syllable_char(c) {
        let s: int = u - SYLLABLE_BASE;
        Some(
            Category::Syllable {
                cho: (s / 588) as u8,
                jung: ((s / 28) % 21) as u8,
                jong: (s % 28) as u8,
            },
        )
    } else if is_jamo_char(c) {
        Some(Category::Jamo { index: (u - JAMO_BASE) as u8 })
    } else if is_lower_latin(c) {
        Some(Category::Latin { letter: (u - ('a' as u32)) as u8, upper: false })
    } else if is_upper_latin(c) {
        Some(Category::Latin { letter: (u - ('A' as u32)) as u8, upper: true })
    } else if is_digit_char(c) {
        Some(Category::Digit { value: (u - ('0' as u32)) as u8 })
    } else if is_white_space(c) {
        Some(Category::Space)
    } else if symbol_cells(c) is Some {
        Some(Category::Symbol { ch: c })
    } else if math_cells(c) is Some {
        Some(Category::MathSymbol { ch: c })
    } else {
        None
    }
}

/// The components of a syllable are in range.
pub proof fn lemma_syllable_ranges(c: char)
    requires
        is_syllable_char(c),
    ensures
        classify_spec(c) matches Some(Category::Syllable { cho, jung, jong }) ==> cho < 19 && jung < 21
            && jong < 28,
        classify_spec(c) matches Some(Category::Syllable { .. }),
{
    let s = (c as u32 - SYLLABLE_BASE) as int;
    assert(s / 588 < 19) by (nonlinear_arith)
        requires
            0 <= s <= 11171,
    ;
}

pub fn is_white_space_exec(c: char) -> (r: bool)
    ensures
        r == is_white_space(c),
{
    let u = c as u32;
    (9 <= u && u <= 13) || u == 32 || u == 0x85 || u == 0xA0 || u == 0x1680 || (0x2000 <= u && u
        <= 0x200A) || u == 0x2028 || u == 0x2029 || u == 0x202F || u == 0x205F || u == 0x3000
}

/// Classifies one character.
pub fn classify(c: char) -> (r: Result<Category, EncodeError>)
    ensures
        r matches Ok(cat) ==> classify_spec(c) == Some(cat),
        r matches Err(e) ==> classify_spec(c) is None && e == EncodeError::Classification(c),
{
    let u = c as u32;
    if SYLLABLE_BASE <= u && u <= SYLLABLE_LAST {
        proof {
            lemma_syllable_ranges(c);
        }
        let s = u - SYLLABLE_BASE;
        Ok(
            Category::Syllable {
                cho: (s / 588) as u8,
                jung: ((s / 28) % 21) as u8,
                jong: (s % 28) as u8,
            },
        )
    } else if JAMO_BASE <= u && u <= JAMO_LAST {
        Ok(Category::Jamo { index: (u - JAMO_BASE) as u8 })
    } else if 'a' <= c && c <= 'z' {
        Ok(Category::Latin { letter: (u - ('a' as u32)) as u8, upper: false })
    } else if 'A' <= c && c <= 'Z' {
        Ok(Category::Latin { letter: (u - ('A' as u32)) as u8, upper: true })
    } else if '0' <= c && c <= '9' {
        Ok(Category::Digit { value: (u - ('0' as u32)) as u8 })
    } else if is_white_space_exec(c) {
        Ok(Category::Space)
    } else if symbol_vec(c).is_some() {
        Ok(Category::Symbol { ch: c })
    } else if math_vec(c).is_some() {
        Ok(Category::MathSymbol { ch: c })
    } else {
        Err(EncodeError::Classification(c))
    }
}

} // verus!
