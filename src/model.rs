//! The mathematical model of the transliteration: what each character, each
//! word and the whole text turn into, as spec functions over character
//! sequences and the explicit run state threaded through them.
use vstd::prelude::*;

use crate::classify::{
    classify_spec, is_digit_char, is_korean_char, is_latin, is_lower_latin, is_syllable_char,
    is_upper_latin, is_white_space, Category, EncodeError,
};
use crate::syllable::syllable_in_word;
use crate::tables::{
    digit_cell, jamo_final_cells, latin_cell, math_cells, medial_cells, shortcut_code,
    shortcut_word, symbol_cells, SHORTCUT_COUNT,
};

verus! {

/// Plain separator cell (a blank cell).
pub const SEPARATOR: u8 = 0;

/// Capital sign; two of them mark a capital word, three a capital phrase.
pub const CAPITAL: u8 = 32;

/// Second cell of the capital phrase's closing pair.
pub const PHRASE_CLOSE_TAIL: u8 = 4;

/// Opening mark of a run of Latin letters inside Korean text.
pub const LATIN_OPEN: u8 = 52;

/// Closing mark of a run of Latin letters inside Korean text.
pub const LATIN_CLOSE: u8 = 50;

/// Sign that starts a run of digits.
pub const NUMBER_SIGN: u8 = 60;

/// Comma between digits.
pub const DIGIT_COMMA: u8 = 2;

/// Sign before a letter that stands alone.
pub const STANDALONE: u8 = 63;

/// Sign before a consonant letter attached to a word.
pub const ATTACHED: u8 = 56;

/// The state carried from one character to the next.
#[derive(Clone, Copy, Debug, PartialEq, Eq, Structural)]
pub struct RunState {
    /// The previous character of the word was a digit.
    pub in_digits: bool,
    /// A Latin letter was written and its run has not been closed.
    pub in_latin: bool,
    /// A capital sign was written for the current run of capitals.
    pub upper_marked: bool,
    /// A capital phrase is open; this one persists across words.
    pub in_phrase: bool,
}

pub open spec fn start_state() -> RunState {
    RunState { in_digits: false, in_latin: false, upper_marked: false, in_phrase: false }
}

/// Some character of `w` in `lo..hi` is a Hangul syllable.
pub open spec fn syllable_between(w: Seq<char>, lo: int, hi: int) -> bool {
    exists|k: int| lo <= k < hi && is_syllable_char(#[trigger] w[k])
}

/// Every character of `w` is a capital Latin letter.
pub open spec fn all_upper(w: Seq<char>) -> bool {
    forall|k: int| 0 <= k < w.len() ==> is_upper_latin(#[trigger] w[k])
}

/// Every character of `w` is a Latin letter.
pub open spec fn all_latin(w: Seq<char>) -> bool {
    forall|k: int| 0 <= k < w.len() ==> is_latin(#[trigger] w[k])
}

/// Some character of the text is Hangul.
pub open spec fn has_korean(s: Seq<char>) -> bool {
    exists|k: int| 0 <= k < s.len() && is_korean_char(#[trigger] s[k])
}

/// Appends a closed list of words to `acc`, if there is one.
pub open spec fn flush(acc: Seq<Seq<char>>, cur: Seq<char>) -> Seq<Seq<char>> {
    if cur.len() > 0 {
        acc.push(cur)
    } else {
        acc
    }
}

/// Splitting from position `i` on, with the words found so far and the word
/// being read.
pub open spec fn split_from(s: Seq<char>, i: int, cur: Seq<char>, acc: Seq<Seq<char>>) -> Seq<
    Seq<char>,
>
    decreases s.len() - i,
{
    if i >= s.len() {
        flush(acc, cur)
    } else if is_white_space(s[i]) {
        split_from(s, i + 1, seq![], flush(acc, cur))
    } else {
        split_from(s, i + 1, cur.push(s[i]), acc)
    }
}

/// The words of a text: its maximal runs of characters other than white space.
pub open spec fn split_words(s: Seq<char>) -> Seq<Seq<char>> {
    split_from(s, 0, seq![], seq![])
}

pub open spec fn is_prefix(p: Seq<char>, w: Seq<char>) -> bool {
    p.len() <= w.len() && w.subrange(0, p.len() as int) == p
}

/// The first dictionary entry from `k` on whose word begins `w`.
pub open spec fn shortcut_from(w: Seq<char>, k: usize) -> Option<usize>
    decreases SHORTCUT_COUNT - k,
{
    if k >= SHORTCUT_COUNT {
        None
    } else if is_prefix(shortcut_word(k), w) {
        Some(k)
    } else {
        shortcut_from(w, (k + 1) as usize)
    }
}

/// The dictionary entry whose word begins `w`, if any.
pub open spec fn shortcut_match(w: Seq<char>) -> Option<usize> {
    shortcut_from(w, 0)
}

/// Puts `p` in front of the cells of a successful result.
pub open spec fn prepend(p: Seq<u8>, r: Result<(Seq<u8>, RunState), EncodeError>) -> Result<
    (Seq<u8>, RunState),
    EncodeError,
> {
    match r {
        Ok((c, s)) => Ok((p + c, s)),
        Err(e) => Err(e),
    }
}

/// The cells of a bare letter: a consonant in its final form, a vowel as a
/// medial.
pub open spec fn jamo_part_cells(j: u8) -> Seq<u8> {
    if j < 30 {
        jamo_final_cells(j)
    } else {
        medial_cells((j - 30) as u8)
    }
}

/// A bare letter after the standalone sign in the final form, which only a
/// consonant has.
pub open spec fn jamo_numbered(c: char, j: u8) -> Result<Seq<u8>, EncodeError> {
    if j < 30 {
        Ok(seq![STANDALONE] + jamo_final_cells(j))
    } else {
        Err(EncodeError::Lookup(c))
    }
}

/// The cells of the bare letter `j` at `i` of `w`.
pub open spec fn jamo_in_word(w: Seq<char>, i: int, j: u8) -> Result<Seq<u8>, EncodeError> {
    let standalone = Ok(seq![STANDALONE] + jamo_part_cells(j));
    if w.len() <= 1 {
        standalone
    } else if w.len() == 2 {
        if i == 0 && w[1] == '.' {
            jamo_numbered(w[i], j)
        } else {
            standalone
        }
    } else if i == 0 && w[1] == '\u{C790}' {
        jamo_numbered(w[i], j)
    } else if syllable_between(w, 0, w.len() as int) {
        Ok(seq![ATTACHED] + jamo_part_cells(j))
    } else {
        jamo_numbered(w[i], j)
    }
}

/// A syllable right after a digit that gets a blank cell in between: its
/// initial could be read as a digit.
pub open spec fn needs_digit_gap(cho: u8, c: char) -> bool {
    cho == 2 || cho == 3 || cho == 6 || cho == 15 || cho == 16 || cho == 17 || cho == 18 || c
        == '\u{C6B4}'
}

/// The capital signs before a capital letter at `i` that is not part of a
/// capital word: one, or two where the next letter is a capital too.
pub open spec fn capital_signs(w: Seq<char>, i: int) -> Seq<u8> {
    if i + 1 < w.len() && is_upper_latin(w[i + 1]) {
        seq![CAPITAL, CAPITAL]
    } else {
        seq![CAPITAL]
    }
}

/// A capital letter gets its own signs.
pub open spec fn letter_gets_signs(w: Seq<char>, upper: bool, st: RunState) -> bool {
    (!all_upper(w) || w.len() < 2) && !st.upper_marked && upper
}

/// The cells of the character at `i` of `w`, of class `cat`, and the state
/// after it.
pub open spec fn emit(w: Seq<char>, i: int, cat: Category, st: RunState) -> Result<
    (Seq<u8>, RunState),
    EncodeError,
> {
    match cat {
        Category::Syllable { cho, jung, jong } => {
            let gap = if st.in_digits && needs_digit_gap(cho, w[i]) {
                seq![SEPARATOR]
            } else {
                seq![]
            };
            Ok((gap + syllable_in_word(w, i, cho, jung, jong), st))
        },
        Category::Jamo { index } => match jamo_in_word(w, i, index) {
            Ok(c) => Ok((c, st)),
            Err(e) => Err(e),
        },
        Category::Latin { letter, upper } => {
            if letter_gets_signs(w, upper, st) {
                Ok(
                    (
                        capital_signs(w, i).push(latin_cell(letter)),
                        RunState { in_latin: true, upper_marked: true, ..st },
                    ),
                )
            } else {
                Ok((seq![latin_cell(letter)], RunState { in_latin: true, ..st }))
            }
        },
        Category::Digit { value } => {
            let sign = if !st.in_digits && !(i > 0 && (w[i - 1] == '.' || w[i - 1] == ',')) {
                seq![NUMBER_SIGN]
            } else {
                seq![]
            };
            Ok((sign.push(digit_cell(value)), RunState { in_digits: true, ..st }))
        },
        Category::Symbol { ch } => {
            if ch == ',' && st.in_digits && i + 1 < w.len() && is_digit_char(w[i + 1]) {
                Ok((seq![DIGIT_COMMA], st))
            } else {
                Ok((symbol_cells(ch)->0, st))
            }
        },
        Category::Space => Ok((seq![SEPARATOR], st)),
        Category::MathSymbol { ch } => {
            let before = if syllable_between(w, 0, i) {
                seq![SEPARATOR]
            } else {
                seq![]
            };
            let after = if syllable_between(w, i + 1, w.len() as int) {
                seq![SEPARATOR]
            } else {
                seq![]
            };
            Ok((before + math_cells(ch)->0 + after, st))
        },
    }
}

/// What a character leaves of the digit and capital runs.
pub open spec fn decay(c: char, st: RunState) -> RunState {
    RunState {
        in_digits: st.in_digits && is_digit_char(c),
        upper_marked: st.upper_marked && !is_lower_latin(c),
        ..st
    }
}

/// A character other than a letter, not first in its word, in Korean text,
/// closes a Latin run.
pub open spec fn closes_latin(w: Seq<char>, i: int, kd: bool) -> bool {
    kd && i > 0 && !is_latin(w[i])
}

/// The cells of the character at `i` of `w`, in a text that holds Korean if
/// `kd`, and the state after it.
pub open spec fn char_step(w: Seq<char>, i: int, kd: bool, st: RunState) -> Result<
    (Seq<u8>, RunState),
    EncodeError,
> {
    match classify_spec(w[i]) {
        None => Err(EncodeError::Classification(w[i])),
        Some(cat) => {
            let closing = closes_latin(w, i, kd);
            let pre = if closing && st.in_latin {
                seq![LATIN_CLOSE]
            } else {
                seq![]
            };
            let st1 = if closing {
                RunState { in_latin: false, ..st }
            } else {
                st
            };
            match emit(w, i, cat, st1) {
                Ok((c, s)) => Ok((pre + c, decay(w[i], s))),
                Err(e) => Err(e),
            }
        },
    }
}

/// The cells of the characters of `w` from `i` on.
pub open spec fn chars_from(w: Seq<char>, i: int, kd: bool, st: RunState) -> Result<
    (Seq<u8>, RunState),
    EncodeError,
>
    decreases w.len() - i,
{
    if i >= w.len() {
        Ok((seq![], st))
    } else {
        match char_step(w, i, kd, st) {
            Ok((c, s)) => prepend(c, chars_from(w, i + 1, kd, s)),
            Err(e) => Err(e),
        }
    }
}

/// A capital phrase starts at word `idx`: the two words after it are Latin
/// letters throughout.
pub open spec fn phrase_starts_at(words: Seq<Seq<char>>, idx: int) -> bool {
    idx + 2 < words.len() && all_latin(words[idx + 1]) && all_latin(words[idx + 2])
}

/// The marks before the characters of word `idx`, and the state after them.
pub open spec fn word_open(words: Seq<Seq<char>>, idx: int, kd: bool, st: RunState) -> (
    Seq<u8>,
    RunState,
) {
    let w = words[idx];
    let open = if kd && !st.in_latin && is_latin(w[0]) {
        seq![LATIN_OPEN]
    } else {
        seq![]
    };
    if all_upper(w) && !st.in_phrase {
        if phrase_starts_at(words, idx) {
            (open + seq![CAPITAL, CAPITAL, CAPITAL], RunState { in_phrase: true, ..st })
        } else if w.len() >= 2 {
            (open + seq![CAPITAL, CAPITAL], st)
        } else {
            (open, st)
        }
    } else {
        (open, st)
    }
}

/// The state at the start of a word's characters.
pub open spec fn word_start(st: RunState) -> RunState {
    RunState { in_digits: false, upper_marked: false, ..st }
}

/// Word `idx` written character by character, with its opening marks.
pub open spec fn plain_word(words: Seq<Seq<char>>, idx: int, kd: bool, st: RunState) -> Result<
    (Seq<u8>, RunState),
    EncodeError,
> {
    let (o, s1) = word_open(words, idx, kd, st);
    prepend(o, chars_from(words[idx], 0, kd, word_start(s1)))
}

/// The marks after word `idx`: the end of a capital phrase, and before the
/// next word the end of a Latin run and the separator.
pub open spec fn word_close(words: Seq<Seq<char>>, idx: int, kd: bool, st: RunState) -> (
    Seq<u8>,
    RunState,
) {
    let ends_phrase = st.in_phrase && !(idx + 1 < words.len() && all_latin(words[idx + 1]));
    let ph = if ends_phrase {
        seq![CAPITAL, PHRASE_CLOSE_TAIL]
    } else {
        seq![]
    };
    let st1 = if ends_phrase {
        RunState { in_phrase: false, ..st }
    } else {
        st
    };
    if idx + 1 < words.len() {
        let next_not_latin = kd && !is_latin(words[idx + 1][0]);
        let close = if next_not_latin && st1.in_latin {
            seq![LATIN_CLOSE]
        } else {
            seq![]
        };
        let st2 = if next_not_latin {
            RunState { in_latin: false, ..st1 }
        } else {
            st1
        };
        (ph + close + seq![SEPARATOR], st2)
    } else {
        (ph, st1)
    }
}

/// A word that is not the start of a larger text, written as a text of its
/// own: the remainder after a dictionary entry. Each step consumes a
/// non-empty dictionary word, so the remainder shrinks (an empty entry would
/// end the recursion).
pub open spec fn remainder_cells(w: Seq<char>) -> Result<Seq<u8>, EncodeError>
    decreases w.len(),
{
    match shortcut_match(w) {
        Some(k) => {
            let n = shortcut_word(k).len() as int;
            if n >= w.len() || n == 0 {
                Ok(shortcut_code(k))
            } else {
                match remainder_cells(w.subrange(n, w.len() as int)) {
                    Ok(c) => Ok(shortcut_code(k) + c),
                    Err(e) => Err(e),
                }
            }
        },
        None => match plain_word(seq![w], 0, has_korean(w), start_state()) {
            Ok((c, _)) => Ok(c),
            Err(e) => Err(e),
        },
    }
}

/// The cells of word `idx`: a dictionary entry that begins it and the
/// remainder, or its characters one by one.
pub open spec fn word_body(words: Seq<Seq<char>>, idx: int, kd: bool, st: RunState) -> Result<
    (Seq<u8>, RunState),
    EncodeError,
> {
    let w = words[idx];
    match shortcut_match(w) {
        Some(k) => {
            let n = shortcut_word(k).len() as int;
            if n >= w.len() {
                Ok((shortcut_code(k), st))
            } else {
                match remainder_cells(w.subrange(n, w.len() as int)) {
                    Ok(c) => Ok((shortcut_code(k) + c, st)),
                    Err(e) => Err(e),
                }
            }
        },
        None => plain_word(words, idx, kd, st),
    }
}

/// The cells of word `idx` with the marks after it, and the state after them.
pub open spec fn word_step(words: Seq<Seq<char>>, idx: int, kd: bool, st: RunState) -> Result<
    (Seq<u8>, RunState),
    EncodeError,
> {
    match word_body(words, idx, kd, st) {
        Ok((c, s)) => {
            let (cl, s2) = word_close(words, idx, kd, s);
            Ok((c + cl, s2))
        },
        Err(e) => Err(e),
    }
}

/// The cells of the words from `idx` on.
pub open spec fn words_from(words: Seq<Seq<char>>, idx: int, kd: bool, st: RunState) -> Result<
    Seq<u8>,
    EncodeError,
>
    decreases words.len() - idx,
{
    if idx >= words.len() {
        Ok(seq![])
    } else {
        match word_step(words, idx, kd, st) {
            Ok((c, s)) => match words_from(words, idx + 1, kd, s) {
                Ok(r) => Ok(c + r),
                Err(e) => Err(e),
            },
            Err(e) => Err(e),
        }
    }
}

/// The cells of a whole text.
pub open spec fn encode_spec(s: Seq<char>) -> Result<Seq<u8>, EncodeError> {
    words_from(split_words(s), 0, has_korean(s), start_state())
}

} // verus!
