//! The executable transliteration: one pass over the words and their
//! characters, threading the run state, proved equal to the model.
use vstd::prelude::*;
use vstd::string::StrSliceExecFns;

use crate::classify::{
    classify, classify_spec, is_white_space_exec, lemma_syllable_ranges, Category, EncodeError,
    JAMO_BASE, JAMO_LAST, SYLLABLE_BASE, SYLLABLE_LAST,
};
use crate::model::{
    all_latin, all_upper, chars_from, char_step, emit, has_korean, jamo_in_word,
    jamo_part_cells, plain_word, prepend, remainder_cells, shortcut_from, shortcut_match,
    split_from, split_words, syllable_between, word_body, word_close, word_open, word_step,
    words_from, RunState,
    ATTACHED, CAPITAL, DIGIT_COMMA, LATIN_CLOSE, LATIN_OPEN, NUMBER_SIGN, PHRASE_CLOSE_TAIL,
    SEPARATOR, STANDALONE, is_prefix, start_state,
};
use crate::syllable::push_syllable_in_word;
use crate::tables::{
    digit_cell_exec, jamo_final_vec, latin_cell_exec, math_vec, medial_vec, shortcut_code_vec,
    shortcut_word_vec, symbol_vec, SHORTCUT_COUNT,
};

verus! {

/// The executable outcome `r` of a step, with cells appended from `before` to
/// `after` and state `st_after`, is the model's outcome `spec_r`.
pub open spec fn step_done(
    r: Result<(), EncodeError>,
    spec_r: Result<(Seq<u8>, RunState), EncodeError>,
    before: Seq<u8>,
    after: Seq<u8>,
    st_after: RunState,
) -> bool {
    match spec_r {
        Ok((c, s)) => r is Ok && after == before + c && st_after == s,
        Err(e) => r == Err::<(), EncodeError>(e),
    }
}

/// The cells of an executable result.
pub open spec fn cells_view(r: Result<Vec<u8>, EncodeError>) -> Result<Seq<u8>, EncodeError> {
    match r {
        Ok(v) => Ok(v@),
        Err(e) => Err(e),
    }
}

/// The words of an executable word list.
pub open spec fn word_views(ws: Seq<Vec<char>>) -> Seq<Seq<char>> {
    ws.map_values(|v: Vec<char>| v@)
}

/// Puts `p` in front of the cells of a successful result.
pub open spec fn prefix_cells(p: Seq<u8>, r: Result<Seq<u8>, EncodeError>) -> Result<
    Seq<u8>,
    EncodeError,
> {
    match r {
        Ok(c) => Ok(p + c),
        Err(e) => Err(e),
    }
}

proof fn lemma_prepend_assoc(a: Seq<u8>, b: Seq<u8>, r: Result<(Seq<u8>, RunState), EncodeError>)
    ensures
        prepend(a, prepend(b, r)) == prepend(a + b, r),
        prepend(seq![], r) == r,
{
    match r {
        Ok((c, s)) => {
            assert(a + (b + c) =~= (a + b) + c);
            assert(Seq::<u8>::empty() + c =~= c);
        },
        Err(_) => {},
    }
}

proof fn lemma_step_done_prepend(
    r: Result<(), EncodeError>,
    x: Result<(Seq<u8>, RunState), EncodeError>,
    o: Seq<u8>,
    before: Seq<u8>,
    mid: Seq<u8>,
    after: Seq<u8>,
    st: RunState,
)
    requires
        mid == before + o,
        step_done(r, x, mid, after, st),
    ensures
        step_done(r, prepend(o, x), before, after, st),
{
    match x {
        Ok((c, s)) => {
            assert(before + o + c =~= before + (o + c));
        },
        Err(_) => {},
    }
}

proof fn lemma_split_nonempty(s: Seq<char>, i: int, cur: Seq<char>, acc: Seq<Seq<char>>)
    requires
        0 <= i,
        forall|j: int| 0 <= j < acc.len() ==> (#[trigger] acc[j]).len() > 0,
    ensures
        forall|j: int|
            0 <= j < split_from(s, i, cur, acc).len() ==> (#[trigger] split_from(
                s,
                i,
                cur,
                acc,
            )[j]).len() > 0,
    decreases s.len() - i,
{
    let f = crate::model::flush(acc, cur);
    assert forall|j: int| 0 <= j < f.len() implies (#[trigger] f[j]).len() > 0 by {
        if j < acc.len() {
            assert(f[j] == acc[j]);
        }
    }
    let r = split_from(s, i, cur, acc);
    if i >= s.len() {
        assert(r == f);
    } else if crate::classify::is_white_space(s[i]) {
        lemma_split_nonempty(s, i + 1, seq![], f);
        assert(r == split_from(s, i + 1, seq![], f));
    } else {
        lemma_split_nonempty(s, i + 1, cur.push(s[i]), acc);
        assert(r == split_from(s, i + 1, cur.push(s[i]), acc));
    }
    assert forall|j: int| 0 <= j < r.len() implies (#[trigger] r[j]).len() > 0 by {}
}

/// Every word of a text has a character.
pub proof fn lemma_words_nonempty(s: Seq<char>)
    ensures
        forall|j: int|
            0 <= j < split_words(s).len() ==> (#[trigger] split_words(s)[j]).len() > 0,
{
    lemma_split_nonempty(s, 0, seq![], seq![]);
}

/// The characters of a string.
pub fn text_chars(text: &str) -> (r: Vec<char>)
    ensures
        r@ == text@,
{
    let n = text.unicode_len();
    let mut v: Vec<char> = Vec::new();
    let mut i: usize = 0;
    while i < n
        invariant
            n == text@.len(),
            i <= n,
            v@ == text@.subrange(0, i as int),
        decreases n - i,
    {
        v.push(text.get_char(i));
        i = i + 1;
        assert(v@ =~= text@.subrange(0, i as int));
    }
    assert(v@ =~= text@);
    v
}

/// Splits a text into its words.
pub fn split_words_exec(s: &Vec<char>) -> (r: Vec<Vec<char>>)
    ensures
        word_views(r@) == split_words(s@),
{
    let mut acc: Vec<Vec<char>> = Vec::new();
    let mut cur: Vec<char> = Vec::new();
    let mut i: usize = 0;
    assert(word_views(acc@) =~= Seq::<Seq<char>>::empty());
    while i < s.len()
        invariant
            i <= s.len(),
            split_from(s@, i as int, cur@, word_views(acc@)) == split_words(s@),
        decreases s.len() - i,
    {
        let c = s[i];
        if is_white_space_exec(c) {
            if cur.len() > 0 {
                let ghost old_acc = acc@;
                acc.push(cur);
                assert(word_views(acc@) =~= word_views(old_acc).push(cur@));
                cur = Vec::new();
            }
            assert(cur@ =~= Seq::<char>::empty());
        } else {
            cur.push(c);
        }
        i = i + 1;
    }
    if cur.len() > 0 {
        let ghost old_acc = acc@;
        acc.push(cur);
        assert(word_views(acc@) =~= word_views(old_acc).push(cur@));
    }
    acc
}

/// Whether a text holds Hangul.
pub fn has_korean_exec(s: &Vec<char>) -> (r: bool)
    ensures
        r == has_korean(s@),
{
    let mut k: usize = 0;
    while k < s.len()
        invariant
            k <= s.len(),
            forall|j: int| 0 <= j < k ==> !crate::classify::is_korean_char(#[trigger] s@[j]),
        decreases s.len() - k,
    {
        let u = s[k] as u32;
        if (SYLLABLE_BASE <= u && u <= SYLLABLE_LAST) || (JAMO_BASE <= u && u <= JAMO_LAST) {
            assert(crate::classify::is_korean_char(s@[k as int]));
            return true;
        }
        k = k + 1;
    }
    false
}

fn syllable_between_exec(w: &Vec<char>, lo: usize, hi: usize) -> (r: bool)
    requires
        lo <= hi <= w.len(),
    ensures
        r == syllable_between(w@, lo as int, hi as int),
{
    let mut k: usize = lo;
    while k < hi
        invariant
            lo <= k <= hi <= w.len(),
            forall|j: int| lo <= j < k ==> !crate::classify::is_syllable_char(#[trigger] w@[j]),
        decreases hi - k,
    {
        let u = w[k] as u32;
        if SYLLABLE_BASE <= u && u <= SYLLABLE_LAST {
            assert(crate::classify::is_syllable_char(w@[k as int]));
            return true;
        }
        k = k + 1;
    }
    false
}

fn all_upper_exec(w: &Vec<char>) -> (r: bool)
    ensures
        r == all_upper(w@),
{
    let mut k: usize = 0;
    while k < w.len()
        invariant
            k <= w.len(),
            forall|j: int| 0 <= j < k ==> crate::classify::is_upper_latin(#[trigger] w@[j]),
        decreases w.len() - k,
    {
        let c = w[k];
        if !('A' <= c && c <= 'Z') {
            assert(!crate::classify::is_upper_latin(w@[k as int]));
            return false;
        }
        k = k + 1;
    }
    true
}

fn all_latin_exec(w: &Vec<char>) -> (r: bool)
    ensures
        r == all_latin(w@),
{
    let mut k: usize = 0;
    while k < w.len()
        invariant
            k <= w.len(),
            forall|j: int| 0 <= j < k ==> crate::classify::is_latin(#[trigger] w@[j]),
        decreases w.len() - k,
    {
        let c = w[k];
        if !(('A' <= c && c <= 'Z') || ('a' <= c && c <= 'z')) {
            assert(!crate::classify::is_latin(w@[k as int]));
            return false;
        }
        k = k + 1;
    }
    true
}

fn is_latin_exec(c: char) -> (r: bool)
    ensures
        r == crate::classify::is_latin(c),
{
    ('A' <= c && c <= 'Z') || ('a' <= c && c <= 'z')
}

fn jamo_part_vec(j: u8) -> (r: Vec<u8>)
    requires
        j < 51,
    ensures
        r@ == jamo_part_cells(j),
{
    if j < 30 {
        jamo_final_vec(j)
    } else {
        medial_vec(j - 30)
    }
}

fn push_jamo(out: &mut Vec<u8>, w: &Vec<char>, i: usize, j: u8) -> (r: Result<(), EncodeError>)
    requires
        i < w.len(),
        j < 51,
    ensures
        match jamo_in_word(w@, i as int, j) {
            Ok(c) => r is Ok && final(out)@ == old(out)@ + c,
            Err(e) => r == Err::<(), EncodeError>(e),
        },
{
    let n = w.len();
    let numbered = if n <= 1 {
        false
    } else if n == 2 {
        i == 0 && w[1] == '.'
    } else if i == 0 && w[1] == '\u{C790}' {
        true
    } else {
        !syllable_between_exec(w, 0, n)
    };
    if numbered {
        if j >= 30 {
            return Err(EncodeError::Lookup(w[i]));
        }
        out.push(STANDALONE);
        let mut f = jamo_final_vec(j);
        out.append(&mut f);
    } else {
        if n > 2 {
            out.push(ATTACHED);
        } else {
            out.push(STANDALONE);
        }
        let mut p = jamo_part_vec(j);
        out.append(&mut p);
    }
    assert(match jamo_in_word(w@, i as int, j) {
        Ok(c) => out@ =~= old(out)@ + c,
        Err(e) => false,
    });
    Ok(())
}

fn emit_exec(out: &mut Vec<u8>, w: &Vec<char>, i: usize, cat: Category, st: &mut RunState) -> (r:
    Result<(), EncodeError>)
    requires
        i < w.len(),
        classify_spec(w@[i as int]) == Some(cat),
    ensures
        step_done(r, emit(w@, i as int, cat, *old(st)), old(out)@, final(out)@, *final(st)),
{
    let n = w.len();
    match cat {
        Category::Syllable { cho, jung, jong } => {
            proof {
                lemma_syllable_ranges(w@[i as int]);
            }
            let c = w[i];
            let ghost before = out@;
            let ghost gap = if st.in_digits && crate::model::needs_digit_gap(cho, c) {
                seq![SEPARATOR]
            } else {
                seq![]
            };
            if st.in_digits && (cho == 2 || cho == 3 || cho == 6 || cho == 15 || cho == 16 || cho
                == 17 || cho == 18 || c == '\u{C6B4}') {
                out.push(SEPARATOR);
            }
            let ghost mid = out@;
            push_syllable_in_word(out, w, i, cho, jung, jong);
            assert(mid =~= before + gap);
            assert(out@ =~= before + (gap + crate::syllable::syllable_in_word(
                w@,
                i as int,
                cho,
                jung,
                jong,
            )));
            Ok(())
        },
        Category::Jamo { index } => { push_jamo(out, w, i, index) },
        Category::Latin { letter, upper } => {
            let ghost before = out@;
            let au = all_upper_exec(w);
            if (!au || n < 2) && !st.upper_marked && upper {
                out.push(CAPITAL);
                if i + 1 < n && 'A' <= w[i + 1] && w[i + 1] <= 'Z' {
                    out.push(CAPITAL);
                }
                st.upper_marked = true;
            }
            st.in_latin = true;
            out.push(latin_cell_exec(letter));
            assert(match emit(w@, i as int, cat, *old(st)) {
                Ok((c, s)) => out@ =~= before + c,
                Err(_) => false,
            });
            Ok(())
        },
        Category::Digit { value } => {
            let ghost before = out@;
            if !st.in_digits && !(i > 0 && (w[i - 1] == '.' || w[i - 1] == ',')) {
                out.push(NUMBER_SIGN);
            }
            out.push(digit_cell_exec(value));
            st.in_digits = true;
            assert(match emit(w@, i as int, cat, *old(st)) {
                Ok((c, s)) => out@ =~= before + c,
                Err(_) => false,
            });
            Ok(())
        },
        Category::Symbol { ch } => {
            if ch == ',' && st.in_digits && i + 1 < n && '0' <= w[i + 1] && w[i + 1] <= '9' {
                out.push(DIGIT_COMMA);
                assert(out@ =~= old(out)@ + seq![DIGIT_COMMA]);
            } else {
                match symbol_vec(ch) {
                    Some(v) => {
                        let mut v = v;
                        out.append(&mut v);
                    },
                    None => {},
                }
            }
            Ok(())
        },
        Category::Space => {
            out.push(SEPARATOR);
            assert(out@ =~= old(out)@ + seq![SEPARATOR]);
            Ok(())
        },
        Category::MathSymbol { ch } => {
            let ghost before = out@;
            let pre = syllable_between_exec(w, 0, i);
            let post = syllable_between_exec(w, i + 1, n);
            if pre {
                out.push(SEPARATOR);
            }
            match math_vec(ch) {
                Some(v) => {
                    let mut v = v;
                    out.append(&mut v);
                },
                None => {},
            }
            if post {
                out.push(SEPARATOR);
            }
            assert(match emit(w@, i as int, cat, *old(st)) {
                Ok((c, s)) => out@ =~= before + c,
                Err(_) => false,
            });
            Ok(())
        },
    }
}

fn char_step_exec(out: &mut Vec<u8>, w: &Vec<char>, i: usize, kd: bool, st: &mut RunState) -> (r:
    Result<(), EncodeError>)
    requires
        i < w.len(),
    ensures
        step_done(r, char_step(w@, i as int, kd, *old(st)), old(out)@, final(out)@, *final(st)),
{
    let c = w[i];
    let cat = match classify(c) {
        Ok(cat) => cat,
        Err(e) => {
            return Err(e);
        },
    };
    let closing = kd && i > 0 && !is_latin_exec(c);
    let ghost pre = if closing && old(st).in_latin {
        seq![LATIN_CLOSE]
    } else {
        seq![]
    };
    if closing {
        if st.in_latin {
            out.push(LATIN_CLOSE);
        }
        st.in_latin = false;
    }
    let ghost mid = out@;
    let ghost st1 = *st;
    let r = emit_exec(out, w, i, cat, st);
    if let Err(e) = r {
        return Err(e);
    }
    st.in_digits = st.in_digits && '0' <= c && c <= '9';
    st.upper_marked = st.upper_marked && !('a' <= c && c <= 'z');
    proof {
        assert(mid =~= old(out)@ + pre);
        lemma_step_done_prepend(
            Ok(()),
            emit(w@, i as int, cat, st1),
            pre,
            old(out)@,
            mid,
            out@,
            emit(w@, i as int, cat, st1)->Ok_0.1,
        );
    }
    Ok(())
}

/// Appends the cells of the characters of `w`.
pub fn encode_chars(out: &mut Vec<u8>, w: &Vec<char>, kd: bool, st: &mut RunState) -> (r: Result<
    (),
    EncodeError,
>)
    ensures
        step_done(r, chars_from(w@, 0, kd, *old(st)), old(out)@, final(out)@, *final(st)),
{
    let ghost st0 = *st;
    let ghost out0 = out@;
    let ghost mut done: Seq<u8> = seq![];
    proof {
        lemma_prepend_assoc(seq![], seq![], chars_from(w@, 0, kd, st0));
        assert(out0 + done =~= out0);
    }
    let mut i: usize = 0;
    while i < w.len()
        invariant
            i <= w.len(),
            st0 == *old(st),
            out0 == old(out)@,
            out@ == out0 + done,
            chars_from(w@, 0, kd, st0) == prepend(done, chars_from(w@, i as int, kd, *st)),
        decreases w.len() - i,
    {
        let ghost st_before = *st;
        let ghost out_before = out@;
        let r = char_step_exec(out, w, i, kd, st);
        if let Err(e) = r {
            assert(chars_from(w@, i as int, kd, st_before) == Err::<(Seq<u8>, RunState), EncodeError>(
                e,
            ));
            assert(chars_from(w@, 0, kd, st0) == Err::<(Seq<u8>, RunState), EncodeError>(e));
            return Err(e);
        }
        proof {
            let c = char_step(w@, i as int, kd, st_before)->Ok_0.0;
            lemma_prepend_assoc(done, c, chars_from(w@, i + 1, kd, *st));
            assert(out@ =~= out0 + (done + c));
            done = done + c;
        }
        i = i + 1;
    }
    proof {
        assert(done + Seq::<u8>::empty() =~= done);
    }
    Ok(())
}

pub proof fn lemma_prefix_assoc(a: Seq<u8>, b: Seq<u8>, r: Result<Seq<u8>, EncodeError>)
    ensures
        prefix_cells(a, prefix_cells(b, r)) == prefix_cells(a + b, r),
        prefix_cells(seq![], r) == r,
{
    match r {
        Ok(c) => {
            assert(a + (b + c) =~= (a + b) + c);
            assert(Seq::<u8>::empty() + c =~= c);
        },
        Err(_) => {},
    }
}

/// All words of a list have a character.
pub open spec fn words_nonempty(ws: Seq<Vec<char>>) -> bool {
    forall|j: int| 0 <= j < ws.len() ==> (#[trigger] ws[j])@.len() > 0
}

fn plain_word_exec(
    out: &mut Vec<u8>,
    words: &Vec<Vec<char>>,
    idx: usize,
    kd: bool,
    st: &mut RunState,
) -> (r: Result<(), EncodeError>)
    requires
        idx < words.len(),
        words_nonempty(words@),
    ensures
        step_done(
            r,
            plain_word(word_views(words@), idx as int, kd, *old(st)),
            old(out)@,
            final(out)@,
            *final(st),
        ),
{
    let ghost ws = word_views(words@);
    let w = &words[idx];
    assert(ws[idx as int] == w@);
    assert(w@.len() > 0);
    if kd && !st.in_latin && is_latin_exec(w[0]) {
        out.push(LATIN_OPEN);
    }
    if all_upper_exec(w) && !st.in_phrase {
        if words.len() >= 2 && idx < words.len() - 2 && all_latin_exec(&words[idx + 1]) && all_latin_exec(
            &words[idx + 2],
        ) {
            assert(ws[idx + 1] == words@[idx + 1]@);
            assert(ws[idx + 2] == words@[idx + 2]@);
            out.push(CAPITAL);
            out.push(CAPITAL);
            out.push(CAPITAL);
            st.in_phrase = true;
        } else {
            assert(idx + 2 < words.len() ==> ws[idx + 1] == words@[idx + 1]@ && ws[idx + 2]
                == words@[idx + 2]@);
            if w.len() >= 2 {
                out.push(CAPITAL);
                out.push(CAPITAL);
            }
        }
    }
    let ghost mid = out@;
    let ghost o = word_open(ws, idx as int, kd, *old(st)).0;
    assert(mid =~= old(out)@ + o);
    assert(*st == word_open(ws, idx as int, kd, *old(st)).1);
    st.in_digits = false;
    st.upper_marked = false;
    let ghost s1 = *st;
    let r = encode_chars(out, w, kd, st);
    proof {
        lemma_step_done_prepend(r, chars_from(w@, 0, kd, s1), o, old(out)@, mid, out@, *st);
    }
    r
}

fn word_close_exec(out: &mut Vec<u8>, words: &Vec<Vec<char>>, idx: usize, kd: bool, st: &mut RunState)
    requires
        idx < words.len(),
        words_nonempty(words@),
    ensures
        final(out)@ == old(out)@ + word_close(word_views(words@), idx as int, kd, *old(st)).0,
        *final(st) == word_close(word_views(words@), idx as int, kd, *old(st)).1,
{
    let ghost ws = word_views(words@);
    let ends = st.in_phrase && !(idx < words.len() - 1 && all_latin_exec(&words[idx + 1]));
    assert(idx + 1 < words.len() ==> ws[idx + 1] == words@[idx + 1]@);
    if ends {
        out.push(CAPITAL);
        out.push(PHRASE_CLOSE_TAIL);
        st.in_phrase = false;
    }
    if idx < words.len() - 1 {
        let next = &words[idx + 1];
        assert(next@.len() > 0);
        let next_not_latin = kd && !is_latin_exec(next[0]);
        if next_not_latin {
            if st.in_latin {
                out.push(LATIN_CLOSE);
            }
            st.in_latin = false;
        }
        out.push(SEPARATOR);
    }
    assert(out@ =~= old(out)@ + word_close(ws, idx as int, kd, *old(st)).0);
}

fn is_prefix_exec(p: &Vec<char>, w: &Vec<char>) -> (r: bool)
    ensures
        r == is_prefix(p@, w@),
{
    if p.len() > w.len() {
        return false;
    }
    let mut k: usize = 0;
    while k < p.len()
        invariant
            p.len() <= w.len(),
            k <= p.len(),
            forall|j: int| 0 <= j < k ==> w@[j] == p@[j],
        decreases p.len() - k,
    {
        if w[k] != p[k] {
            assert(w@.subrange(0, p.len() as int)[k as int] != p@[k as int]);
            return false;
        }
        k = k + 1;
    }
    assert(w@.subrange(0, p.len() as int) =~= p@);
    true
}

fn shortcut_match_exec(w: &Vec<char>) -> (r: Option<usize>)
    ensures
        r == shortcut_match(w@),
        r matches Some(k) ==> k < SHORTCUT_COUNT,
{
    let mut k: usize = 0;
    while k < SHORTCUT_COUNT
        invariant
            k <= SHORTCUT_COUNT,
            shortcut_from(w@, k) == shortcut_match(w@),
        decreases SHORTCUT_COUNT - k,
    {
        let p = shortcut_word_vec(k);
        if is_prefix_exec(&p, w) {
            return Some(k);
        }
        k = k + 1;
    }
    None
}

fn copy_suffix(w: &Vec<char>, n: usize) -> (r: Vec<char>)
    requires
        n <= w.len(),
    ensures
        r@ == w@.subrange(n as int, w.len() as int),
{
    let mut v: Vec<char> = Vec::new();
    let mut k: usize = n;
    while k < w.len()
        invariant
            n <= k <= w.len(),
            v@ == w@.subrange(n as int, k as int),
        decreases w.len() - k,
    {
        v.push(w[k]);
        k = k + 1;
        assert(v@ =~= w@.subrange(n as int, k as int));
    }
    v
}

fn encode_remainder(w: &Vec<char>) -> (r: Result<Vec<u8>, EncodeError>)
    requires
        w@.len() > 0,
    ensures
        cells_view(r) == remainder_cells(w@),
    decreases w@.len(),
{
    match shortcut_match_exec(w) {
        Some(k) => {
            let n = shortcut_word_vec(k).len();
            let mut code = shortcut_code_vec(k);
            if n >= w.len() || n == 0 {
                return Ok(code);
            }
            let rest = copy_suffix(w, n);
            match encode_remainder(&rest) {
                Ok(c) => {
                    let mut c = c;
                    code.append(&mut c);
                    Ok(code)
                },
                Err(e) => Err(e),
            }
        },
        None => {
            let one = copy_suffix(w, 0);
            assert(one@ =~= w@);
            let words = vec![one];
            assert(word_views(words@) =~= seq![w@]);
            let kd = has_korean_exec(w);
            let mut out: Vec<u8> = Vec::new();
            let mut st = RunState {
                in_digits: false,
                in_latin: false,
                upper_marked: false,
                in_phrase: false,
            };
            match plain_word_exec(&mut out, &words, 0, kd, &mut st) {
                Ok(()) => {
                    assert(out@ =~= Seq::<u8>::empty() + out@);
                    Ok(out)
                },
                Err(e) => Err(e),
            }
        },
    }
}

fn word_step_exec(
    out: &mut Vec<u8>,
    words: &Vec<Vec<char>>,
    idx: usize,
    kd: bool,
    st: &mut RunState,
) -> (r: Result<(), EncodeError>)
    requires
        idx < words.len(),
        words_nonempty(words@),
    ensures
        step_done(
            r,
            word_step(word_views(words@), idx as int, kd, *old(st)),
            old(out)@,
            final(out)@,
            *final(st),
        ),
{
    let ghost ws = word_views(words@);
    let w = &words[idx];
    assert(ws[idx as int] == w@);
    match shortcut_match_exec(w) {
        Some(k) => {
            let n = shortcut_word_vec(k).len();
            let mut code = shortcut_code_vec(k);
            out.append(&mut code);
            if n < w.len() {
                let rest = copy_suffix(w, n);
                match encode_remainder(&rest) {
                    Ok(c) => {
                        let mut c = c;
                        out.append(&mut c);
                    },
                    Err(e) => {
                        return Err(e);
                    },
                }
            }
            assert(match word_body(ws, idx as int, kd, *old(st)) {
                Ok((c, s)) => out@ =~= old(out)@ + c && s == *st,
                Err(_) => false,
            });
        },
        None => {
            let r = plain_word_exec(out, words, idx, kd, st);
            if let Err(e) = r {
                return Err(e);
            }
        },
    }
    let ghost mid = out@;
    let ghost smid = *st;
    word_close_exec(out, words, idx, kd, st);
    proof {
        let c = word_body(ws, idx as int, kd, *old(st))->Ok_0.0;
        let cl = word_close(ws, idx as int, kd, smid).0;
        assert(out@ =~= old(out)@ + (c + cl));
    }
    Ok(())
}

/// The cells of a list of words, in a text that holds Korean if `kd`.
pub fn encode_words(words: &Vec<Vec<char>>, kd: bool) -> (r: Result<Vec<u8>, EncodeError>)
    requires
        words_nonempty(words@),
    ensures
        cells_view(r) == words_from(word_views(words@), 0, kd, start_state()),
{
    let ghost ws = word_views(words@);
    let mut out: Vec<u8> = Vec::new();
    let mut st = RunState { in_digits: false, in_latin: false, upper_marked: false, in_phrase: false };
    let mut idx: usize = 0;
    proof {
        lemma_prefix_assoc(seq![], seq![], words_from(ws, 0, kd, st));
    }
    assert(out@ =~= Seq::<u8>::empty());
    while idx < words.len()
        invariant
            idx <= words.len(),
            words_nonempty(words@),
            ws == word_views(words@),
            words_from(ws, 0, kd, start_state()) == prefix_cells(
                out@,
                words_from(ws, idx as int, kd, st),
            ),
        decreases words.len() - idx,
    {
        let ghost sb = st;
        let ghost ob = out@;
        let r = word_step_exec(&mut out, words, idx, kd, &mut st);
        if let Err(e) = r {
            assert(words_from(ws, idx as int, kd, sb) == Err::<Seq<u8>, EncodeError>(e));
            return Err(e);
        }
        proof {
            let c = word_step(ws, idx as int, kd, sb)->Ok_0.0;
            lemma_prefix_assoc(ob, c, words_from(ws, idx + 1, kd, st));
        }
        idx = idx + 1;
    }
    assert(out@ + Seq::<u8>::empty() =~= out@);
    Ok(out)
}

} // verus!
