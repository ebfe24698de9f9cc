//! A Hangul syllable to cells, with the orthography's abbreviations and the
//! exceptions to them.
use vstd::prelude::*;

use crate::classify::{classify, classify_spec, Category};
use crate::tables::{
    final_cells, final_vec, initial_cell, initial_cell_exec, initial_cells, medial_cells, medial_vec,
    plain_initial, push_initial, tense_prefix, TENSE_MARK,
};

verus! {

/// The consonant of a final that an abbreviation may absorb: the first
/// consonant of a cluster, or the final itself.
pub open spec fn final_lead(jong: u8) -> u8 {
    if 1 <= jong <= 3 {
        1
    } else if 4 <= jong <= 6 {
        4
    } else if 8 <= jong <= 15 {
        8
    } else {
        jong
    }
}

/// The one-cell abbreviation of a medial followed by a final consonant.
pub open spec fn rime_abbrev(jung: u8, lead: u8) -> Option<u8> {
    if jung == 4 && lead == 1 {
        Some(57u8)
    } else if jung == 4 && lead == 4 {
        Some(62u8)
    } else if jung == 4 && lead == 8 {
        Some(30u8)
    } else if jung == 6 && lead == 4 {
        Some(33u8)
    } else if jung == 6 && lead == 8 {
        Some(51u8)
    } else if jung == 6 && lead == 21 {
        Some(59u8)
    } else if jung == 8 && lead == 1 {
        Some(45u8)
    } else if jung == 8 && lead == 4 {
        Some(55u8)
    } else if jung == 8 && lead == 21 {
        Some(63u8)
    } else if jung == 13 && lead == 4 {
        Some(27u8)
    } else if jung == 13 && lead == 8 {
        Some(47u8)
    } else if jung == 18 && lead == 4 {
        Some(53u8)
    } else if jung == 18 && lead == 8 {
        Some(46u8)
    } else if jung == 20 && lead == 4 {
        Some(31u8)
    } else {
        None
    }
}

/// The abbreviation of medial and final after an initial: after a sibilant
/// initial the medial of the first column with the final of the silent
/// consonant takes the cell of the second column.
pub open spec fn rime_cell(cho: u8, jung: u8, lead: u8) -> Option<u8> {
    let p = plain_initial(cho);
    if (p == 9 || p == 12 || cho == 14) && jung == 4 && lead == 21 {
        Some(59u8)
    } else {
        rime_abbrev(jung, lead)
    }
}

/// The one-cell abbreviation of a plain initial with the first medial.
pub open spec fn open_abbrev(plain: u8) -> Option<u8> {
    if plain == 0 {
        Some(43u8)
    } else if plain == 9 {
        Some(7u8)
    } else if plain == 2 || plain == 3 || plain == 6 || plain == 7 || plain == 12 || plain == 15
        || plain == 16 || plain == 17 || plain == 18 {
        Some(initial_cell(plain))
    } else {
        None
    }
}

/// A syllable written out part by part, without abbreviation.
pub open spec fn literal_cells(cho: u8, jung: u8, jong: u8) -> Seq<u8> {
    initial_cells(cho) + medial_cells(jung) + final_cells(jong)
}

/// A syllable in its default form, with the abbreviations that apply.
pub open spec fn syllable_cells(cho: u8, jung: u8, jong: u8) -> Seq<u8> {
    let p = plain_initial(cho);
    if p == 0 && jung == 4 && jong == 19 {
        tense_prefix(cho) + seq![56u8, 14u8]
    } else if jung == 0 && open_abbrev(p) is Some {
        tense_prefix(cho).push(open_abbrev(p)->0) + final_cells(jong)
    } else if jong != 0 && rime_cell(cho, jung, final_lead(jong)) is Some {
        initial_cells(cho).push(rime_cell(cho, jung, final_lead(jong))->0) + final_cells(
            jong,
        ).drop_first()
    } else {
        literal_cells(cho, jung, jong)
    }
}

/// The syllables that are always written out part by part, because their
/// abbreviated form would read as another syllable.
pub open spec fn is_literal_syllable(cho: u8, jung: u8, jong: u8) -> bool {
    (cho == 17 && jung == 0 && jong == 20) || (cho == 1 && jung == 4 && jong == 20) || (cho == 0
        && jung == 4 && jong == 20) || ((cho == 9 || cho == 10 || cho == 12 || cho == 13 || cho
        == 14) && jung == 6 && jong == 21)
}

/// An open syllable of the first medial whose abbreviation drops the vowel.
pub open spec fn is_vowel_dropping(cho: u8, jung: u8, jong: u8) -> bool {
    jung == 0 && jong == 0 && (cho == 2 || cho == 3 || cho == 6 || cho == 7 || cho == 12 || cho
        == 15 || cho == 16 || cho == 17 || cho == 18)
}

/// A syllable that begins with the silent initial.
pub open spec fn has_silent_initial(c: char) -> bool {
    classify_spec(c) matches Some(Category::Syllable { cho, .. }) && cho == 11
}

/// A syllable of the silent initial and the second medial.
pub open spec fn starts_with_ae(c: char) -> bool {
    classify_spec(c) matches Some(Category::Syllable { cho, jung, .. }) && cho == 11 && jung == 1
}

/// A separator cell goes between an open syllable and the next one, where the
/// two vowels would otherwise read as one.
pub open spec fn needs_vowel_separator(jung: u8, jong: u8, next: char) -> bool {
    jong == 0 && (next == '\u{C608}' || ((jung == 2 || jung == 9 || jung == 13 || jung == 14)
        && starts_with_ae(next)))
}

/// The cells of the syllable at `i` of a word, given the syllable's parts.
pub open spec fn syllable_in_word(w: Seq<char>, i: int, cho: u8, jung: u8, jong: u8) -> Seq<u8> {
    let body = if is_literal_syllable(cho, jung, jong) {
        literal_cells(cho, jung, jong)
    } else if is_vowel_dropping(cho, jung, jong) && i + 1 < w.len() && has_silent_initial(
        w[i + 1],
    ) {
        initial_cells(cho) + medial_cells(jung)
    } else {
        syllable_cells(cho, jung, jong)
    };
    if i + 1 < w.len() && needs_vowel_separator(jung, jong, w[i + 1]) {
        body.push(36u8)
    } else {
        body
    }
}

fn rime_cell_exec(cho: u8, jung: u8, lead: u8) -> (r: Option<u8>)
    ensures
        r == rime_cell(cho, jung, lead),
{
    let p = if cho == 10 {
        9
    } else if cho == 13 {
        12
    } else {
        cho
    };
    if (p == 9 || p == 12 || cho == 14) && jung == 4 && lead == 21 {
        return Some(59);
    }
    if jung == 4 && lead == 1 {
        Some(57)
    } else if jung == 4 && lead == 4 {
        Some(62)
    } else if jung == 4 && lead == 8 {
        Some(30)
    } else if jung == 6 && lead == 4 {
        Some(33)
    } else if jung == 6 && lead == 8 {
        Some(51)
    } else if jung == 6 && lead == 21 {
        Some(59)
    } else if jung == 8 && lead == 1 {
        Some(45)
    } else if jung == 8 && lead == 4 {
        Some(55)
    } else if jung == 8 && lead == 21 {
        Some(63)
    } else if jung == 13 && lead == 4 {
        Some(27)
    } else if jung == 13 && lead == 8 {
        Some(47)
    } else if jung == 18 && lead == 4 {
        Some(53)
    } else if jung == 18 && lead == 8 {
        Some(46)
    } else if jung == 20 && lead == 4 {
        Some(31)
    } else {
        None
    }
}

fn plain_initial_exec(cho: u8) -> (r: u8)
    ensures
        r == plain_initial(cho),
{
    if cho == 1 {
        0
    } else if cho == 4 {
        3
    } else if cho == 8 {
        7
    } else if cho == 10 {
        9
    } else if cho == 13 {
        12
    } else {
        cho
    }
}

fn open_abbrev_exec(plain: u8) -> (r: Option<u8>)
    ensures
        r == open_abbrev(plain),
{
    if plain == 0 {
        Some(43)
    } else if plain == 9 {
        Some(7)
    } else if plain == 2 || plain == 3 || plain == 6 || plain == 7 || plain == 12 || plain == 15
        || plain == 16 || plain == 17 || plain == 18 {
        Some(initial_cell_exec(plain))
    } else {
        None
    }
}

/// Appends a syllable written out part by part.
pub fn push_literal(out: &mut Vec<u8>, cho: u8, jung: u8, jong: u8)
    requires
        cho < 19,
        jung < 21,
        jong < 28,
    ensures
        final(out)@ == old(out)@ + literal_cells(cho, jung, jong),
{
    push_initial(out, cho);
    let mut m = medial_vec(jung);
    out.append(&mut m);
    let mut f = final_vec(jong);
    out.append(&mut f);
    assert(final(out)@ =~= old(out)@ + literal_cells(cho, jung, jong));
}

/// Appends a syllable in its default form.
pub fn push_syllable(out: &mut Vec<u8>, cho: u8, jung: u8, jong: u8)
    requires
        cho < 19,
        jung < 21,
        jong < 28,
    ensures
        final(out)@ == old(out)@ + syllable_cells(cho, jung, jong),
{
    let p = plain_initial_exec(cho);
    let tense = cho == 1 || cho == 4 || cho == 8 || cho == 10 || cho == 13;
    if p == 0 && jung == 4 && jong == 19 {
        if tense {
            out.push(TENSE_MARK);
        }
        out.push(56);
        out.push(14);
        assert(final(out)@ =~= old(out)@ + syllable_cells(cho, jung, jong));
        return ;
    }
    if jung == 0 {
        if let Some(a) = open_abbrev_exec(p) {
            if tense {
                out.push(TENSE_MARK);
            }
            out.push(a);
            let mut f = final_vec(jong);
            out.append(&mut f);
            assert(final(out)@ =~= old(out)@ + syllable_cells(cho, jung, jong));
            return ;
        }
    }
    if jong != 0 {
        let lead = if 1 <= jong && jong <= 3 {
            1
        } else if 4 <= jong && jong <= 6 {
            4
        } else if 8 <= jong && jong <= 15 {
            8
        } else {
            jong
        };
        if let Some(x) = rime_cell_exec(cho, jung, lead) {
            push_initial(out, cho);
            out.push(x);
            let f = final_vec(jong);
            if f.len() == 2 {
                out.push(f[1]);
            }
            assert(f@.drop_first() =~= f@.subrange(1, f.len() as int));
            assert(final(out)@ =~= old(out)@ + syllable_cells(cho, jung, jong));
            return ;
        }
    }
    push_literal(out, cho, jung, jong);
}

fn has_silent_initial_exec(c: char) -> (r: bool)
    ensures
        r == has_silent_initial(c),
{
    match classify(c) {
        Ok(Category::Syllable { cho, .. }) => cho == 11,
        _ => false,
    }
}

fn needs_vowel_separator_exec(jung: u8, jong: u8, next: char) -> (r: bool)
    ensures
        r == needs_vowel_separator(jung, jong, next),
{
    if jong != 0 {
        return false;
    }
    if next == '\u{C608}' {
        return true;
    }
    if jung == 2 || jung == 9 || jung == 13 || jung == 14 {
        match classify(next) {
            Ok(Category::Syllable { cho, jung: nj, .. }) => cho == 11 && nj == 1,
            _ => false,
        }
    } else {
        false
    }
}

/// Appends the syllable at `i` of `w`, of parts `cho`, `jung`, `jong`.
pub fn push_syllable_in_word(out: &mut Vec<u8>, w: &Vec<char>, i: usize, cho: u8, jung: u8, jong: u8)
    requires
        cho < 19,
        jung < 21,
        jong < 28,
        i < w.len(),
    ensures
        final(out)@ == old(out)@ + syllable_in_word(w@, i as int, cho, jung, jong),
{
    let has_next = i + 1 < w.len();
    let literal = (cho == 17 && jung == 0 && jong == 20) || (cho == 1 && jung == 4 && jong == 20)
        || (cho == 0 && jung == 4 && jong == 20) || ((cho == 9 || cho == 10 || cho == 12 || cho
        == 13 || cho == 14) && jung == 6 && jong == 21);
    let dropping = jung == 0 && jong == 0 && (cho == 2 || cho == 3 || cho == 6 || cho == 7 || cho
        == 12 || cho == 15 || cho == 16 || cho == 17 || cho == 18);
    if literal {
        push_literal(out, cho, jung, jong);
    } else if dropping && has_next && has_silent_initial_exec(w[i + 1]) {
        push_initial(out, cho);
        let mut m = medial_vec(jung);
        out.append(&mut m);
    } else {
        push_syllable(out, cho, jung, jong);
    }
    if has_next && needs_vowel_separator_exec(jung, jong, w[i + 1]) {
        out.push(36);
    }
    assert(final(out)@ =~= old(out)@ + syllable_in_word(w@, i as int, cho, jung, jong));
}

} // verus!
