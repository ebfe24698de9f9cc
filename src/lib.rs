//! Korean plain text to six-dot braille cells, after the Korean braille
//! orthography: Hangul syllables with their abbreviations, standalone jamo,
//! Latin letters with capital and foreign-script markers, digits and
//! punctuation.
//!
//! `encode` gives the cells as numbers 0..64 (dot k counts 2^(k-1));
//! `encode_to_unicode` gives them as characters of the Unicode braille block.
use vstd::prelude::*;
use vstd::string::StringExecFns;

pub mod classify;
pub mod engine;
pub mod laws;
pub mod model;
pub mod syllable;
pub mod tables;

pub use classify::EncodeError;

use engine::{
    cells_view, encode_words, has_korean_exec, lemma_words_nonempty, split_words_exec, text_chars,
};
use model::encode_spec;

verus! {

/// First code point of the Unicode braille block; a cell's glyph is this
/// plus the cell's dot pattern.
pub const BRAILLE_BLOCK: u32 = 0x2800;

/// `s` shows `cells`, one braille glyph per cell.
pub open spec fn shows_cells(s: Seq<char>, cells: Seq<u8>) -> bool {
    s.len() == cells.len() && forall|i: int|
        0 <= i < s.len() ==> (#[trigger] s[i]) as u32 == BRAILLE_BLOCK + cells[i] as u32
}

/// Relies on `char::from_u32`: the character of a Unicode scalar value, and
/// `None` for a value that is none (a surrogate or beyond U+10FFFF).
#[verifier::external_body]
fn char_from_code(code: u32) -> (r: Option<char>)
    ensures
        (code < 0xD800 || (0xE000 <= code && code < 0x110000)) ==> r is Some,
        r matches Some(c) ==> c as u32 == code,
{
    char::from_u32(code)
}

/// Relies on `String::push`: appends one character.
#[verifier::external_body]
fn push_char(s: &mut String, c: char)
    ensures
        final(s)@ == old(s)@.push(c),
{
    s.push(c)
}

/// The braille cells of a text, or the first reason it cannot be written.
pub fn encode(text: &str) -> (r: Result<Vec<u8>, EncodeError>)
    ensures
        cells_view(r) == encode_spec(text@),
{
    let chars = text_chars(text);
    let words = split_words_exec(&chars);
    let kd = has_korean_exec(&chars);
    proof {
        lemma_words_nonempty(chars@);
        assert forall|j: int| 0 <= j < words@.len() implies (#[trigger] words@[j])@.len() > 0 by {
            assert(engine::word_views(words@)[j] == words@[j]@);
        }
    }
    encode_words(&words, kd)
}

/// The glyphs of the braille block for a list of cells.
pub fn cells_to_unicode(cells: &Vec<u8>) -> (r: String)
    ensures
        shows_cells(r@, cells@),
{
    let mut s = String::new();
    let mut i: usize = 0;
    while i < cells.len()
        invariant
            i <= cells.len(),
            shows_cells(s@, cells@.subrange(0, i as int)),
        decreases cells.len() - i,
    {
        let g = match char_from_code(BRAILLE_BLOCK + cells[i] as u32) {
            Some(c) => c,
            None => ' ',
        };
        push_char(&mut s, g);
        i = i + 1;
    }
    assert(cells@.subrange(0, cells.len() as int) =~= cells@);
    s
}

/// The braille glyphs of a text, or the first reason it cannot be written.
pub fn encode_to_unicode(text: &str) -> (r: Result<String, EncodeError>)
    ensures
        match encode_spec(text@) {
            Ok(cells) => r matches Ok(s) && shows_cells(s@, cells),
            Err(e) => r == Err::<String, EncodeError>(e),
        },
{
    match encode(text) {
        Ok(cells) => Ok(cells_to_unicode(&cells)),
        Err(e) => Err(e),
    }
}

/// The same glyphs as `encode_to_unicode`, for a braille font.
pub fn encode_to_braille_font(text: &str) -> (r: Result<String, EncodeError>)
    ensures
        match encode_spec(text@) {
            Ok(cells) => r matches Ok(s) && shows_cells(s@, cells),
            Err(e) => r == Err::<String, EncodeError>(e),
        },
{
    encode_to_unicode(text)
}

/// Braille is not read back: the text is handed back as it is.
pub fn decode(text: &str) -> (r: String)
    ensures
        r@ == text@,
{
    <String as StringExecFns>::from_str(text)
}

} // verus!
