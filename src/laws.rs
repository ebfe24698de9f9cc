//! Properties of the transliteration that hold for every input, proved over
//! the model that `encode` is proved to follow.
use vstd::prelude::*;

use crate::classify::{
    classify_spec, is_digit_char, is_latin, is_upper_latin, is_white_space, Category, EncodeError,
};
use crate::model::{
    all_latin, all_upper, char_step, chars_from, closes_latin, emit, encode_spec, has_korean,
    is_prefix, jamo_in_word, jamo_part_cells, phrase_starts_at, plain_word, remainder_cells,
    shortcut_from, shortcut_match, split_from, split_words,
    word_body, word_close, word_open, word_start, word_step, words_from, RunState, CAPITAL,
    LATIN_CLOSE, LATIN_OPEN, NUMBER_SIGN, PHRASE_CLOSE_TAIL, SEPARATOR, start_state,
};
use crate::engine::{lemma_prefix_assoc, prefix_cells};
use crate::syllable::{literal_cells, syllable_cells, syllable_in_word};
use crate::tables::{
    digit_cell, final_cells, initial_cells, jamo_final_cells, latin_cell, math_cells, medial_cells,
    shortcut_code, shortcut_word, symbol_cells, SHORTCUT_COUNT,
};

verus! {

proof fn lemma_split_unbroken(s: Seq<char>, i: int, cur: Seq<char>, acc: Seq<Seq<char>>)
    requires
        0 <= i <= s.len(),
        forall|k: int| i <= k < s.len() ==> !is_white_space(#[trigger] s[k]),
        cur.len() > 0 || i < s.len(),
    ensures
        split_from(s, i, cur, acc) == acc.push(cur + s.subrange(i, s.len() as int)),
    decreases s.len() - i,
{
    if i == s.len() {
        assert(cur + s.subrange(i, s.len() as int) =~= cur);
    } else {
        lemma_split_unbroken(s, i + 1, cur.push(s[i]), acc);
        assert(cur.push(s[i]) + s.subrange(i + 1, s.len() as int) =~= cur + s.subrange(
            i,
            s.len() as int,
        ));
    }
}

/// No dictionary word begins a word whose first character is not the
/// dictionary words' first syllable.
proof fn lemma_no_shortcut(w: Seq<char>)
    requires
        w.len() > 0,
        w[0] != '\u{ADF8}',
    ensures
        shortcut_match(w) is None,
{
    reveal_with_fuel(shortcut_from, 8);
    assert forall|k: usize| k < 7 implies !is_prefix(#[trigger] shortcut_word(k), w) by {
        if is_prefix(shortcut_word(k), w) {
            assert(w.subrange(0, shortcut_word(k).len() as int)[0] == w[0]);
        }
    }
}

/// A text made only of characters that belong to no class is refused, on its
/// first character.
pub proof fn law_unsupported_text_fails(s: Seq<char>)
    requires
        s.len() > 0,
        forall|k: int| 0 <= k < s.len() ==> classify_spec(#[trigger] s[k]) is None,
    ensures
        encode_spec(s) == Err::<Seq<u8>, EncodeError>(EncodeError::Classification(s[0])),
{
    assert forall|k: int| 0 <= k < s.len() implies !is_white_space(#[trigger] s[k]) by {
        assert(classify_spec(s[k]) is None);
    }
    lemma_split_unbroken(s, 0, seq![], seq![]);
    assert(Seq::<char>::empty() + s.subrange(0, s.len() as int) =~= s);
    let ws = split_words(s);
    assert(ws == seq![s]);
    assert(!has_korean(s)) by {
        if has_korean(s) {
            let k = choose|k: int| 0 <= k < s.len() && crate::classify::is_korean_char(#[trigger] s[k]);
            assert(classify_spec(s[k]) is None);
        }
    }
    assert(classify_spec(s[0]) is None);
    lemma_no_shortcut(s);
    assert(!all_upper(s)) by {
        assert(classify_spec(s[0]) is None);
    }
    let st = word_start(start_state());
    assert(char_step(s, 0, false, st) == Err::<(Seq<u8>, RunState), EncodeError>(
        EncodeError::Classification(s[0]),
    ));
    assert(chars_from(s, 0, false, st) == Err::<(Seq<u8>, RunState), EncodeError>(
        EncodeError::Classification(s[0]),
    ));
}

/// The letter cells of a word of Latin capitals, one per letter.
pub open spec fn capital_letters(w: Seq<char>) -> Seq<u8> {
    Seq::new(w.len(), |k: int| latin_cell((w[k] as u32 - ('A' as u32)) as u8))
}

/// A word of Latin capitals written inside a capital word or phrase: a
/// one-letter word keeps the capital sign of its letter.
pub open spec fn capital_word_cells(w: Seq<char>) -> Seq<u8> {
    if w.len() < 2 {
        seq![CAPITAL] + capital_letters(w)
    } else {
        capital_letters(w)
    }
}

/// The state after the letters of a run of capitals.
pub open spec fn after_letters(s: RunState) -> RunState {
    RunState { in_digits: false, in_latin: true, ..s }
}

proof fn lemma_capital_step(w: Seq<char>, i: int, kd: bool, s: RunState)
    requires
        all_upper(w),
        w.len() >= 2,
        0 <= i < w.len(),
    ensures
        char_step(w, i, kd, s) == Ok::<(Seq<u8>, RunState), EncodeError>(
            (seq![capital_letters(w)[i]], after_letters(s)),
        ),
{
    assert(is_upper_latin(w[i]));
    assert(!closes_latin(w, i, kd));
}

proof fn lemma_capital_chars(w: Seq<char>, i: int, kd: bool, s: RunState)
    requires
        all_upper(w),
        w.len() >= 2,
        0 <= i <= w.len(),
    ensures
        chars_from(w, i, kd, s) == Ok::<(Seq<u8>, RunState), EncodeError>(
            (
                capital_letters(w).subrange(i, w.len() as int),
                if i < w.len() {
                    after_letters(s)
                } else {
                    s
                },
            ),
        ),
    decreases w.len() - i,
{
    if i < w.len() {
        lemma_capital_step(w, i, kd, s);
        lemma_capital_chars(w, i + 1, kd, after_letters(s));
        assert(after_letters(after_letters(s)) == after_letters(s));
        assert(seq![capital_letters(w)[i]] + capital_letters(w).subrange(i + 1, w.len() as int)
            =~= capital_letters(w).subrange(i, w.len() as int));
    } else {
        assert(capital_letters(w).subrange(i, w.len() as int) =~= Seq::<u8>::empty());
    }
}

/// The characters of a word of capitals from a word's start.
proof fn lemma_capital_word(w: Seq<char>, kd: bool, s: RunState)
    requires
        all_upper(w),
        w.len() >= 1,
        !s.upper_marked,
        !s.in_digits,
    ensures
        chars_from(w, 0, kd, s) == Ok::<(Seq<u8>, RunState), EncodeError>(
            (
                capital_word_cells(w),
                RunState { upper_marked: w.len() < 2, ..after_letters(s) },
            ),
        ),
{
    if w.len() >= 2 {
        lemma_capital_chars(w, 0, kd, s);
        assert(capital_letters(w).subrange(0, w.len() as int) =~= capital_letters(w));
    } else {
        assert(is_upper_latin(w[0]));
        assert(!closes_latin(w, 0, kd));
        assert(!all_upper(w) || w.len() < 2);
        assert(crate::model::capital_signs(w, 0) == seq![CAPITAL]);
        let letter = (w[0] as u32 - ('A' as u32)) as u8;
        let cat = Category::Latin { letter, upper: true };
        assert(classify_spec(w[0]) == Some(cat));
        assert(crate::model::letter_gets_signs(w, true, s));
        assert(seq![CAPITAL].push(latin_cell(letter)) =~= seq![CAPITAL, latin_cell(letter)]);
        assert(crate::model::emit(w, 0, cat, s) == Ok::<(Seq<u8>, RunState), EncodeError>(
            (seq![CAPITAL, latin_cell(letter)], RunState { in_latin: true, upper_marked: true, ..s }),
        ));
        assert(capital_letters(w)[0] == latin_cell(letter));
        assert(char_step(w, 0, kd, s) == Ok::<(Seq<u8>, RunState), EncodeError>(
            (seq![CAPITAL, capital_letters(w)[0]], RunState { upper_marked: true, ..after_letters(s) }),
        ));
        assert(chars_from(w, 1, kd, RunState { upper_marked: true, ..after_letters(s) }) == Ok::<
            (Seq<u8>, RunState),
            EncodeError,
        >((seq![], RunState { upper_marked: true, ..after_letters(s) })));
        assert(seq![CAPITAL, capital_letters(w)[0]] + Seq::<u8>::empty() =~= capital_word_cells(
            w,
        ));
    }
}

/// The opening mark of a Latin run before a word that starts with a letter.
pub open spec fn latin_open_mark(kd: bool, st: RunState) -> Seq<u8> {
    if kd && !st.in_latin {
        seq![LATIN_OPEN]
    } else {
        seq![]
    }
}

/// A word of two or more capitals that starts no capital phrase, outside one,
/// is written as the two signs of a capital word and its letters, with no
/// sign of a phrase and none of its own letters.
pub proof fn law_capital_word(ws: Seq<Seq<char>>, idx: int, kd: bool, st: RunState)
    requires
        0 <= idx < ws.len(),
        all_upper(ws[idx]),
        ws[idx].len() >= 2,
        !st.in_phrase,
        !phrase_starts_at(ws, idx),
    ensures
        word_body(ws, idx, kd, st) == Ok::<(Seq<u8>, RunState), EncodeError>(
            (
                latin_open_mark(kd, st) + seq![CAPITAL, CAPITAL] + capital_letters(ws[idx]),
                RunState { upper_marked: false, ..after_letters(st) },
            ),
        ),
{
    let w = ws[idx];
    assert(is_upper_latin(w[0]));
    lemma_no_shortcut(w);
    let s1 = word_open(ws, idx, kd, st).1;
    assert(s1 == st);
    lemma_capital_word(w, kd, word_start(st));
    assert(latin_open_mark(kd, st) + seq![CAPITAL, CAPITAL] + capital_letters(w)
        =~= word_open(ws, idx, kd, st).0 + capital_word_cells(w));
}

/// Words `idx` to `last` are non-empty words of Latin capitals.
pub open spec fn capital_run(ws: Seq<Seq<char>>, idx: int, last: int) -> bool {
    forall|j: int| idx <= j <= last ==> all_upper(#[trigger] ws[j]) && ws[j].len() > 0
}

/// The cells of words `j` to `last` of a capital phrase, a separator between
/// two words.
pub open spec fn phrase_cells(ws: Seq<Seq<char>>, j: int, last: int) -> Seq<u8>
    decreases last - j,
{
    if j >= last {
        capital_word_cells(ws[last])
    } else {
        capital_word_cells(ws[j]) + seq![SEPARATOR] + phrase_cells(ws, j + 1, last)
    }
}

/// What follows a capital phrase that ends with word `last`: the separator,
/// after the end of the Latin run where the next word is not Latin, and the
/// rest of the text.
pub open spec fn after_phrase(ws: Seq<Seq<char>>, last: int, kd: bool) -> Result<
    Seq<u8>,
    EncodeError,
> {
    if last + 1 < ws.len() {
        let next_not_latin = kd && !is_latin(ws[last + 1][0]);
        let close = if next_not_latin {
            seq![LATIN_CLOSE]
        } else {
            seq![]
        };
        prefix_cells(
            close + seq![SEPARATOR],
            words_from(
                ws,
                last + 1,
                kd,
                RunState {
                    in_digits: false,
                    in_latin: !next_not_latin,
                    upper_marked: ws[last].len() < 2,
                    in_phrase: false,
                },
            ),
        )
    } else {
        Ok(seq![])
    }
}

proof fn lemma_upper_is_latin(w: Seq<char>)
    requires
        all_upper(w),
    ensures
        all_latin(w),
{
    assert forall|k: int| 0 <= k < w.len() implies is_latin(#[trigger] w[k]) by {
        assert(is_upper_latin(w[k]));
    }
}

/// A word of capitals is written as its opening marks and its letters.
proof fn lemma_capital_body(ws: Seq<Seq<char>>, j: int, kd: bool, s: RunState)
    requires
        0 <= j < ws.len(),
        all_upper(ws[j]),
        ws[j].len() > 0,
    ensures
        plain_word(ws, j, kd, s) == prepend_open(
            word_open(ws, j, kd, s).0,
            capital_word_cells(ws[j]),
            RunState {
                in_digits: false,
                in_latin: true,
                upper_marked: ws[j].len() < 2,
                in_phrase: word_open(ws, j, kd, s).1.in_phrase,
            },
        ),
        word_body(ws, j, kd, s) == plain_word(ws, j, kd, s),
{
    let w = ws[j];
    assert(is_upper_latin(w[0]));
    lemma_no_shortcut(w);
    let s1 = word_open(ws, j, kd, s).1;
    lemma_capital_word(w, kd, word_start(s1));
}

/// A successful result of opening marks, then cells, then state.
pub open spec fn prepend_open(o: Seq<u8>, c: Seq<u8>, s: RunState) -> Result<
    (Seq<u8>, RunState),
    EncodeError,
> {
    Ok((o + c, s))
}

/// The state after a word of capitals inside a phrase.
pub open spec fn phrase_word_state(w: Seq<char>) -> RunState {
    RunState { in_digits: false, in_latin: true, upper_marked: w.len() < 2, in_phrase: true }
}

proof fn lemma_phrase_word_body(ws: Seq<Seq<char>>, j: int, kd: bool, s: RunState)
    requires
        0 <= j < ws.len(),
        all_upper(ws[j]),
        ws[j].len() > 0,
        s.in_phrase,
        s.in_latin,
    ensures
        word_body(ws, j, kd, s) == Ok::<(Seq<u8>, RunState), EncodeError>(
            (capital_word_cells(ws[j]), phrase_word_state(ws[j])),
        ),
{
    lemma_capital_body(ws, j, kd, s);
    assert(word_open(ws, j, kd, s) == (Seq::<u8>::empty(), s));
    assert(Seq::<u8>::empty() + capital_word_cells(ws[j]) =~= capital_word_cells(ws[j]));
}

proof fn lemma_inner_word_step(ws: Seq<Seq<char>>, j: int, kd: bool, s: RunState)
    requires
        0 <= j,
        j + 1 < ws.len(),
        all_upper(ws[j]),
        ws[j].len() > 0,
        all_upper(ws[j + 1]),
        ws[j + 1].len() > 0,
        s.in_phrase,
        s.in_latin,
    ensures
        word_step(ws, j, kd, s) == Ok::<(Seq<u8>, RunState), EncodeError>(
            (capital_word_cells(ws[j]) + seq![SEPARATOR], phrase_word_state(ws[j])),
        ),
{
    lemma_phrase_word_body(ws, j, kd, s);
    lemma_upper_is_latin(ws[j + 1]);
    assert(is_upper_latin(ws[j + 1][0]));
    assert(word_close(ws, j, kd, phrase_word_state(ws[j])) == (
        seq![SEPARATOR],
        phrase_word_state(ws[j]),
    ));
}

/// The marks after the last word of a phrase.
pub open spec fn phrase_end_marks(ws: Seq<Seq<char>>, last: int, kd: bool) -> Seq<u8> {
    if last + 1 < ws.len() {
        if kd && !is_latin(ws[last + 1][0]) {
            seq![CAPITAL, PHRASE_CLOSE_TAIL, LATIN_CLOSE, SEPARATOR]
        } else {
            seq![CAPITAL, PHRASE_CLOSE_TAIL, SEPARATOR]
        }
    } else {
        seq![CAPITAL, PHRASE_CLOSE_TAIL]
    }
}

/// The state after the last word of a phrase and its marks.
pub open spec fn phrase_end_state(ws: Seq<Seq<char>>, last: int, kd: bool) -> RunState {
    RunState {
        in_digits: false,
        in_latin: !(last + 1 < ws.len() && kd && !is_latin(ws[last + 1][0])),
        upper_marked: ws[last].len() < 2,
        in_phrase: false,
    }
}

proof fn lemma_last_word_step(ws: Seq<Seq<char>>, last: int, kd: bool, s: RunState)
    requires
        0 <= last < ws.len(),
        all_upper(ws[last]),
        ws[last].len() > 0,
        last + 1 < ws.len() ==> !all_latin(ws[last + 1]),
        s.in_phrase,
        s.in_latin,
    ensures
        word_step(ws, last, kd, s) == Ok::<(Seq<u8>, RunState), EncodeError>(
            (
                capital_word_cells(ws[last]) + phrase_end_marks(ws, last, kd),
                phrase_end_state(ws, last, kd),
            ),
        ),
{
    lemma_phrase_word_body(ws, last, kd, s);
    let cl = word_close(ws, last, kd, phrase_word_state(ws[last]));
    assert(cl.0 =~= phrase_end_marks(ws, last, kd));
    assert(cl.1 == phrase_end_state(ws, last, kd));
}

#[verifier::rlimit(60)]
proof fn lemma_phrase_words(ws: Seq<Seq<char>>, j: int, last: int, kd: bool, s: RunState)
    requires
        0 <= j <= last < ws.len(),
        capital_run(ws, j, last),
        last + 1 < ws.len() ==> !all_latin(ws[last + 1]),
        s.in_phrase,
        s.in_latin,
    ensures
        words_from(ws, j, kd, s) == prefix_cells(
            phrase_cells(ws, j, last) + seq![CAPITAL, PHRASE_CLOSE_TAIL],
            after_phrase(ws, last, kd),
        ),
    decreases last - j,
{
    let cw = capital_word_cells(ws[j]);
    assert(all_upper(ws[j]) && ws[j].len() > 0);
    if j < last {
        assert(all_upper(ws[j + 1]) && ws[j + 1].len() > 0);
        lemma_inner_word_step(ws, j, kd, s);
        lemma_phrase_words(ws, j + 1, last, kd, phrase_word_state(ws[j]));
        let rest = phrase_cells(ws, j + 1, last) + seq![CAPITAL, PHRASE_CLOSE_TAIL];
        lemma_prefix_assoc(cw + seq![SEPARATOR], rest, after_phrase(ws, last, kd));
        assert(cw + seq![SEPARATOR] + rest =~= phrase_cells(ws, j, last) + seq![
            CAPITAL,
            PHRASE_CLOSE_TAIL,
        ]);
    } else {
        lemma_last_word_step(ws, j, kd, s);
        let marks = phrase_end_marks(ws, last, kd);
        let pc = seq![CAPITAL, PHRASE_CLOSE_TAIL];
        assert(phrase_cells(ws, j, last) == cw);
        if last + 1 < ws.len() {
            let tail = marks.subrange(2, marks.len() as int);
            assert(pc + tail =~= marks);
            let next_not_latin = kd && !is_latin(ws[last + 1][0]);
            let close = if next_not_latin {
                seq![LATIN_CLOSE]
            } else {
                seq![]
            };
            assert(tail =~= close + seq![SEPARATOR]);
            assert(phrase_end_state(ws, last, kd) == RunState {
                in_digits: false,
                in_latin: !next_not_latin,
                upper_marked: ws[last].len() < 2,
                in_phrase: false,
            });
            lemma_prefix_assoc(
                cw + pc,
                tail,
                words_from(ws, last + 1, kd, phrase_end_state(ws, last, kd)),
            );
            assert(cw + pc + tail =~= cw + marks);
            assert(after_phrase(ws, last, kd) == prefix_cells(
                tail,
                words_from(ws, last + 1, kd, phrase_end_state(ws, last, kd)),
            ));
        } else {
            assert(cw + marks + Seq::<u8>::empty() =~= cw + pc);
        }
    }
}

/// Three or more consecutive words of Latin capitals, outside a phrase, are
/// written as one capital phrase: the three capital signs before the first
/// word, the letters of each word with no capital-word signs, and the closing
/// pair after the last; the text then goes on after the separator.
#[verifier::rlimit(60)]
pub proof fn law_capital_phrase(ws: Seq<Seq<char>>, idx: int, last: int, kd: bool, st: RunState)
    requires
        0 <= idx,
        idx + 2 <= last < ws.len(),
        capital_run(ws, idx, last),
        last + 1 < ws.len() ==> !all_latin(ws[last + 1]),
        !st.in_phrase,
    ensures
        words_from(ws, idx, kd, st) == prefix_cells(
            latin_open_mark(kd, st) + seq![CAPITAL, CAPITAL, CAPITAL] + phrase_cells(
                ws,
                idx,
                last,
            ) + seq![CAPITAL, PHRASE_CLOSE_TAIL],
            after_phrase(ws, last, kd),
        ),
{
    let w = ws[idx];
    assert(all_upper(ws[idx]) && ws[idx].len() > 0);
    assert(all_upper(ws[idx + 1]) && ws[idx + 1].len() > 0);
    assert(all_upper(ws[idx + 2]) && ws[idx + 2].len() > 0);
    lemma_upper_is_latin(ws[idx + 1]);
    lemma_upper_is_latin(ws[idx + 2]);
    assert(is_upper_latin(w[0]));
    assert(is_upper_latin(ws[idx + 1][0]));
    assert(phrase_starts_at(ws, idx));
    let open = latin_open_mark(kd, st) + seq![CAPITAL, CAPITAL, CAPITAL];
    let s1 = RunState { in_phrase: true, ..st };
    assert(word_open(ws, idx, kd, st) == (open, s1));
    lemma_capital_body(ws, idx, kd, st);
    let cw = capital_word_cells(w);
    let sw = RunState {
        in_digits: false,
        in_latin: true,
        upper_marked: w.len() < 2,
        in_phrase: true,
    };
    assert(word_body(ws, idx, kd, st) == Ok::<(Seq<u8>, RunState), EncodeError>((open + cw, sw)));
    assert(word_close(ws, idx, kd, sw) == (seq![SEPARATOR], sw));
    lemma_phrase_words(ws, idx + 1, last, kd, sw);
    let rest = phrase_cells(ws, idx + 1, last) + seq![CAPITAL, PHRASE_CLOSE_TAIL];
    lemma_prefix_assoc(open + cw + seq![SEPARATOR], rest, after_phrase(ws, last, kd));
    assert(open + cw + seq![SEPARATOR] + rest =~= open + phrase_cells(ws, idx, last) + seq![
        CAPITAL,
        PHRASE_CLOSE_TAIL,
    ]);
}

/// The state before character `i` of word `w`, from state `st` at the word's
/// start, if the characters before it are written.
pub open spec fn state_before(w: Seq<char>, i: int, kd: bool, st: RunState) -> Option<RunState>
    decreases i,
{
    if i <= 0 {
        Some(st)
    } else {
        match state_before(w, i - 1, kd, st) {
            Some(s) => match char_step(w, i - 1, kd, s) {
                Ok((_, s2)) => Some(s2),
                Err(_) => None,
            },
            None => None,
        }
    }
}

/// The digit at `i` starts a run of digits.
pub open spec fn starts_digit_run(w: Seq<char>, i: int) -> bool {
    i == 0 || !is_digit_char(w[i - 1])
}

/// The character at `i` comes right after a period or a comma.
pub open spec fn after_point(w: Seq<char>, i: int) -> bool {
    i > 0 && (w[i - 1] == '.' || w[i - 1] == ',')
}

/// The value of a digit character.
pub open spec fn digit_value(c: char) -> u8 {
    (c as u32 - ('0' as u32)) as u8
}

/// The closing mark of a Latin run that the character at `i` writes first.
pub open spec fn latin_close_mark(w: Seq<char>, i: int, kd: bool, s: RunState) -> Seq<u8> {
    if closes_latin(w, i, kd) && s.in_latin {
        seq![LATIN_CLOSE]
    } else {
        seq![]
    }
}

proof fn lemma_step_in_digits(w: Seq<char>, j: int, kd: bool, s: RunState)
    requires
        0 <= j < w.len(),
        char_step(w, j, kd, s) is Ok,
    ensures
        char_step(w, j, kd, s)->Ok_0.1.in_digits == is_digit_char(w[j]),
{
}

proof fn lemma_in_digits(w: Seq<char>, i: int, kd: bool, st: RunState)
    requires
        0 <= i <= w.len(),
        !st.in_digits,
        state_before(w, i, kd, st) is Some,
    ensures
        state_before(w, i, kd, st)->0.in_digits == (i > 0 && is_digit_char(w[i - 1])),
    decreases i,
{
    if i > 0 {
        lemma_in_digits(w, i - 1, kd, st);
        let s = state_before(w, i - 1, kd, st)->0;
        lemma_step_in_digits(w, i - 1, kd, s);
    }
}

/// A digit is written with the number sign exactly when it starts a run of
/// digits that does not come right after a period or comma; the other digits
/// of the run are written without it.
pub proof fn law_digit_run_sign(w: Seq<char>, i: int, kd: bool, st: RunState)
    requires
        0 <= i < w.len(),
        is_digit_char(w[i]),
        !st.in_digits,
        state_before(w, i, kd, st) is Some,
    ensures
        ({
            let s = state_before(w, i, kd, st)->0;
            let sign = if starts_digit_run(w, i) && !after_point(w, i) {
                seq![NUMBER_SIGN]
            } else {
                seq![]
            };
            char_step(w, i, kd, s) matches Ok((c, _)) && c == latin_close_mark(w, i, kd, s) + sign.push(
                digit_cell(digit_value(w[i])),
            )
        }),
{
    lemma_in_digits(w, i, kd, st);
}

/// The marks between a word and the next are exactly one separator cell,
/// after the closing pair of a capital phrase and the closing mark of a
/// Latin run where these end there; after the last word there is no
/// separator.
pub open spec fn is_word_gap(g: Seq<u8>, has_next: bool) -> bool {
    if has_next {
        g == seq![SEPARATOR] || g == seq![LATIN_CLOSE, SEPARATOR] || g == seq![
            CAPITAL,
            PHRASE_CLOSE_TAIL,
            SEPARATOR,
        ] || g == seq![CAPITAL, PHRASE_CLOSE_TAIL, LATIN_CLOSE, SEPARATOR]
    } else {
        g == Seq::<u8>::empty() || g == seq![CAPITAL, PHRASE_CLOSE_TAIL]
    }
}

/// A text is written word by word, each word followed by its gap; a gap holds
/// one separator cell if a word follows and none after the last word, and a
/// closing mark that it holds comes before the separator, never in its place.
pub proof fn law_word_gaps(ws: Seq<Seq<char>>, idx: int, kd: bool, st: RunState)
    requires
        0 <= idx < ws.len(),
    ensures
        words_from(ws, idx, kd, st) == (match word_body(ws, idx, kd, st) {
            Ok((c, s)) => prefix_cells(
                c + word_close(ws, idx, kd, s).0,
                words_from(ws, idx + 1, kd, word_close(ws, idx, kd, s).1),
            ),
            Err(e) => Err(e),
        }),
        is_word_gap(word_close(ws, idx, kd, st).0, idx + 1 < ws.len()),
{
    let g = word_close(ws, idx, kd, st).0;
    assert(is_word_gap(g, idx + 1 < ws.len())) by {
        if idx + 1 < ws.len() {
            assert(g =~= seq![SEPARATOR] || g =~= seq![LATIN_CLOSE, SEPARATOR] || g =~= seq![
                CAPITAL,
                PHRASE_CLOSE_TAIL,
                SEPARATOR,
            ] || g =~= seq![CAPITAL, PHRASE_CLOSE_TAIL, LATIN_CLOSE, SEPARATOR]);
        } else {
            assert(g =~= Seq::<u8>::empty() || g =~= seq![CAPITAL, PHRASE_CLOSE_TAIL]);
        }
    }
}

proof fn lemma_entries_differ(a: usize, b: usize)
    requires
        a < SHORTCUT_COUNT,
        b < SHORTCUT_COUNT,
        a != b,
    ensures
        shortcut_word(a).len() >= 3,
        shortcut_word(b).len() >= 3,
        shortcut_word(a)[1] != shortcut_word(b)[1] || shortcut_word(a)[2] != shortcut_word(b)[2],
{
}

/// At most one dictionary word begins a given word, so the entry that is
/// found is also the longest one that begins it.
pub proof fn law_shortcut_unique(w: Seq<char>, k: usize)
    requires
        shortcut_match(w) == Some(k),
    ensures
        k < SHORTCUT_COUNT,
        is_prefix(shortcut_word(k), w),
        forall|k2: usize|
            k2 < SHORTCUT_COUNT && k2 != k ==> !is_prefix(#[trigger] shortcut_word(k2), w),
{
    reveal_with_fuel(shortcut_from, 8);
    assert forall|k2: usize| k2 < SHORTCUT_COUNT && k2 != k implies !is_prefix(
        #[trigger] shortcut_word(k2),
        w,
    ) by {
        lemma_entries_differ(k, k2);
        if is_prefix(shortcut_word(k2), w) {
            let a = shortcut_word(k);
            let b = shortcut_word(k2);
            assert(w.subrange(0, a.len() as int)[1] == w[1]);
            assert(w.subrange(0, a.len() as int)[2] == w[2]);
            assert(w.subrange(0, b.len() as int)[1] == w[1]);
            assert(w.subrange(0, b.len() as int)[2] == w[2]);
        }
    }
}

/// Every cell is a six-dot pattern, below 64.
pub open spec fn six_dot(c: Seq<u8>) -> bool {
    forall|i: int| 0 <= i < c.len() ==> #[trigger] c[i] < 64
}

proof fn lemma_six_dot_concat(a: Seq<u8>, b: Seq<u8>)
    requires
        six_dot(a),
        six_dot(b),
    ensures
        six_dot(a + b),
{
    assert forall|i: int| 0 <= i < (a + b).len() implies #[trigger] (a + b)[i] < 64 by {
        if i < a.len() {
            assert((a + b)[i] == a[i]);
        } else {
            assert((a + b)[i] == b[i - a.len()]);
        }
    }
}

proof fn lemma_six_dot_tables(cho: u8, jung: u8, jong: u8, j: u8, ch: char, k: usize)
    ensures
        six_dot(initial_cells(cho)),
        six_dot(medial_cells(jung)),
        six_dot(final_cells(jong)),
        j < 30 ==> six_dot(jamo_final_cells(j)),
        latin_cell(j) < 64,
        digit_cell(j) < 64,
        symbol_cells(ch) matches Some(c) ==> six_dot(c),
        math_cells(ch) matches Some(c) ==> six_dot(c),
        six_dot(shortcut_code(k)),
{
}

proof fn lemma_six_dot_syllable(w: Seq<char>, i: int, cho: u8, jung: u8, jong: u8)
    ensures
        six_dot(syllable_in_word(w, i, cho, jung, jong)),
{
    lemma_six_dot_tables(cho, jung, jong, 0, ' ', 0);
    let lit = literal_cells(cho, jung, jong);
    lemma_six_dot_concat(initial_cells(cho), medial_cells(jung));
    lemma_six_dot_concat(initial_cells(cho) + medial_cells(jung), final_cells(jong));
    let f = final_cells(jong);
    assert(six_dot(crate::tables::tense_prefix(cho)));
    let sc = syllable_cells(cho, jung, jong);
    assert(six_dot(sc)) by {
        let p = crate::tables::plain_initial(cho);
        let t = crate::tables::tense_prefix(cho);
        if p == 0 && jung == 4 && jong == 19 {
            lemma_six_dot_concat(t, seq![56u8, 14u8]);
        } else if jung == 0 && crate::syllable::open_abbrev(p) is Some {
            let x = crate::syllable::open_abbrev(p)->0;
            assert(x < 64);
            assert(six_dot(t.push(x)));
            lemma_six_dot_concat(t.push(x), f);
        } else if jong != 0 && crate::syllable::rime_cell(cho, jung, crate::syllable::final_lead(
            jong,
        )) is Some {
            let x = crate::syllable::rime_cell(cho, jung, crate::syllable::final_lead(jong))->0;
            assert(x < 64);
            assert(six_dot(initial_cells(cho).push(x)));
            assert(f.len() >= 1);
            assert forall|i: int| 0 <= i < f.drop_first().len() implies #[trigger] f.drop_first()[i]
                < 64 by {
                assert(f.drop_first()[i] == f[i + 1]);
            }
            lemma_six_dot_concat(initial_cells(cho).push(x), f.drop_first());
        }
    }
    let body = if crate::syllable::is_literal_syllable(cho, jung, jong) {
        lit
    } else if crate::syllable::is_vowel_dropping(cho, jung, jong) && i + 1 < w.len()
        && crate::syllable::has_silent_initial(w[i + 1]) {
        initial_cells(cho) + medial_cells(jung)
    } else {
        sc
    };
    assert(six_dot(body));
    assert(six_dot(body.push(36u8)));
}

proof fn lemma_six_dot_step(w: Seq<char>, i: int, kd: bool, st: RunState)
    requires
        0 <= i < w.len(),
    ensures
        char_step(w, i, kd, st) matches Ok((c, _)) ==> six_dot(c),
{
    if let Some(cat) = classify_spec(w[i]) {
        let closing = closes_latin(w, i, kd);
        let pre = if closing && st.in_latin {
            seq![LATIN_CLOSE]
        } else {
            seq![]
        };
        let st1 = if closing {
            RunState { in_latin: false, ..st }
        } else {
            st
        };
        assert(six_dot(pre));
        match cat {
            Category::Syllable { cho, jung, jong } => {
                lemma_six_dot_syllable(w, i, cho, jung, jong);
                let gap = if st1.in_digits && crate::model::needs_digit_gap(cho, w[i]) {
                    seq![SEPARATOR]
                } else {
                    seq![]
                };
                lemma_six_dot_concat(gap, syllable_in_word(w, i, cho, jung, jong));
            },
            Category::Jamo { index } => {
                lemma_six_dot_tables(0, (index - 30) as u8, 0, index, ' ', 0);
                assert(six_dot(jamo_part_cells(index)));
                lemma_six_dot_concat(seq![crate::model::STANDALONE], jamo_part_cells(index));
                lemma_six_dot_concat(seq![crate::model::ATTACHED], jamo_part_cells(index));
                if index < 30 {
                    lemma_six_dot_concat(seq![crate::model::STANDALONE], jamo_final_cells(index));
                }
                assert(jamo_in_word(w, i, index) matches Ok(c) ==> six_dot(c));
            },
            Category::Latin { letter, upper } => {
                lemma_six_dot_tables(0, 0, 0, letter, ' ', 0);
                assert(six_dot(crate::model::capital_signs(w, i).push(latin_cell(letter))));
            },
            Category::Digit { value } => {
                lemma_six_dot_tables(0, 0, 0, value, ' ', 0);
            },
            Category::Symbol { ch } => {
                lemma_six_dot_tables(0, 0, 0, 0, ch, 0);
            },
            Category::Space => {},
            Category::MathSymbol { ch } => {
                lemma_six_dot_tables(0, 0, 0, 0, ch, 0);
                let m = math_cells(ch)->0;
                lemma_six_dot_concat(seq![SEPARATOR], m);
                lemma_six_dot_concat(seq![SEPARATOR] + m, seq![SEPARATOR]);
                lemma_six_dot_concat(m, seq![SEPARATOR]);
                lemma_six_dot_concat(Seq::<u8>::empty() + m, seq![SEPARATOR]);
                lemma_six_dot_concat(seq![SEPARATOR] + m, Seq::<u8>::empty());
                lemma_six_dot_concat(Seq::<u8>::empty(), m);
                lemma_six_dot_concat(Seq::<u8>::empty() + m, Seq::<u8>::empty());
            },
        }
        if let Ok((c, s)) = emit(w, i, cat, st1) {
            lemma_six_dot_concat(pre, c);
        }
    }
}

proof fn lemma_six_dot_chars(w: Seq<char>, i: int, kd: bool, st: RunState)
    requires
        0 <= i,
    ensures
        chars_from(w, i, kd, st) matches Ok((c, _)) ==> six_dot(c),
    decreases w.len() - i,
{
    if i < w.len() {
        lemma_six_dot_step(w, i, kd, st);
        if let Ok((c, s)) = char_step(w, i, kd, st) {
            lemma_six_dot_chars(w, i + 1, kd, s);
            if let Ok((r, _)) = chars_from(w, i + 1, kd, s) {
                lemma_six_dot_concat(c, r);
            }
        }
    }
}

proof fn lemma_six_dot_plain(ws: Seq<Seq<char>>, idx: int, kd: bool, st: RunState)
    ensures
        plain_word(ws, idx, kd, st) matches Ok((c, _)) ==> six_dot(c),
{
    let (o, s1) = word_open(ws, idx, kd, st);
    assert(six_dot(o));
    lemma_six_dot_chars(ws[idx], 0, kd, word_start(s1));
    if let Ok((c, _)) = chars_from(ws[idx], 0, kd, word_start(s1)) {
        lemma_six_dot_concat(o, c);
    }
}

proof fn lemma_six_dot_remainder(w: Seq<char>)
    ensures
        remainder_cells(w) matches Ok(c) ==> six_dot(c),
    decreases w.len(),
{
    match shortcut_match(w) {
        Some(k) => {
            lemma_six_dot_tables(0, 0, 0, 0, ' ', k);
            let n = shortcut_word(k).len() as int;
            if !(n >= w.len() || n == 0) {
                lemma_six_dot_remainder(w.subrange(n, w.len() as int));
                if let Ok(c) = remainder_cells(w.subrange(n, w.len() as int)) {
                    lemma_six_dot_concat(shortcut_code(k), c);
                }
            }
        },
        None => {
            lemma_six_dot_plain(seq![w], 0, has_korean(w), start_state());
        },
    }
}

proof fn lemma_six_dot_words(ws: Seq<Seq<char>>, idx: int, kd: bool, st: RunState)
    requires
        0 <= idx,
    ensures
        words_from(ws, idx, kd, st) matches Ok(c) ==> six_dot(c),
    decreases ws.len() - idx,
{
    if idx < ws.len() {
        let w = ws[idx];
        match shortcut_match(w) {
            Some(k) => {
                lemma_six_dot_tables(0, 0, 0, 0, ' ', k);
                let n = shortcut_word(k).len() as int;
                if n < w.len() {
                    lemma_six_dot_remainder(w.subrange(n, w.len() as int));
                    if let Ok(c) = remainder_cells(w.subrange(n, w.len() as int)) {
                        lemma_six_dot_concat(shortcut_code(k), c);
                    }
                }
            },
            None => {
                lemma_six_dot_plain(ws, idx, kd, st);
            },
        }
        if let Ok((c, s)) = word_body(ws, idx, kd, st) {
            let (cl, s2) = word_close(ws, idx, kd, s);
            assert(six_dot(cl));
            lemma_six_dot_concat(c, cl);
            lemma_six_dot_words(ws, idx + 1, kd, s2);
            if let Ok(r) = words_from(ws, idx + 1, kd, s2) {
                lemma_six_dot_concat(c + cl, r);
            }
        }
    }
}

/// Every cell of a written text is a six-dot pattern, a number below 64.
pub proof fn law_cells_are_six_dot(s: Seq<char>)
    ensures
        encode_spec(s) matches Ok(c) ==> six_dot(c),
{
    lemma_six_dot_words(split_words(s), 0, has_korean(s), start_state());
}

} // verus!
