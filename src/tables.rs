//! Leaf tables: one classified unit to its base cells.
//!
//! A cell is the dot pattern of a six-dot braille cell as a number below 64,
//! dot k counting 2^(k-1).
use vstd::prelude::*;

verus! {

/// Marker cell that doubles an initial consonant (and marks a capital).
pub const TENSE_MARK: u8 = 32;

/// Whether an initial consonant index (0..19) is a tense (doubled) consonant.
pub open spec fn is_tense_initial(cho: u8) -> bool {
    cho == 1 || cho == 4 || cho == 8 || cho == 10 || cho == 13
}

/// The plain consonant under a tense one; any other initial maps to itself.
pub open spec fn plain_initial(cho: u8) -> u8 {
    if cho == 1 {
        0
    } else if cho == 4 {
        3
    } else if cho == 8 {
        7
    } else if cho == 10 {
        9
    } else if cho == 13 {
        12
    } else {
        cho
    }
}

/// The cell of a plain initial consonant other than the silent one (index 11).
pub open spec fn initial_cell(cho: u8) -> u8 {
    if cho == 0 {
        8
    } else if cho == 2 {
        9
    } else if cho == 3 {
        10
    } else if cho == 5 {
        16
    } else if cho == 6 {
        17
    } else if cho == 7 {
        24
    } else if cho == 9 {
        32
    } else if cho == 12 {
        40
    } else if cho == 14 {
        48
    } else if cho == 15 {
        11
    } else if cho == 16 {
        19
    } else if cho == 17 {
        25
    } else {
        26
    }
}

/// The tense marker, if any, that comes before an initial consonant.
pub open spec fn tense_prefix(cho: u8) -> Seq<u8> {
    if is_tense_initial(cho) {
        seq![TENSE_MARK]
    } else {
        seq![]
    }
}

/// An initial consonant written out: the tense marker, then the plain
/// consonant; the silent initial is not written.
pub open spec fn initial_cells(cho: u8) -> Seq<u8> {
    if plain_initial(cho) == 11 {
        seq![]
    } else {
        tense_prefix(cho).push(initial_cell(plain_initial(cho)))
    }
}

/// The cells of a medial vowel (index 0..21).
pub open spec fn medial_cells(jung: u8) -> Seq<u8> {
    match jung {
        0 => seq![35],
        1 => seq![23],
        2 => seq![28],
        3 => seq![28, 23],
        4 => seq![14],
        5 => seq![29],
        6 => seq![49],
        7 => seq![12],
        8 => seq![37],
        9 => seq![39],
        10 => seq![39, 23],
        11 => seq![61],
        12 => seq![44],
        13 => seq![13],
        14 => seq![15],
        15 => seq![15, 23],
        16 => seq![13, 23],
        17 => seq![41],
        18 => seq![42],
        19 => seq![58],
        _ => seq![21],
    }
}

/// The cells of a final consonant (index 1..28; 0 is no final and no cells).
/// A cluster is written as its two consonants.
pub open spec fn final_cells(jong: u8) -> Seq<u8> {
    match jong {
        0 => seq![],
        1 => seq![1],
        2 => seq![1, 1],
        3 => seq![1, 4],
        4 => seq![18],
        5 => seq![18, 5],
        6 => seq![18, 52],
        7 => seq![20],
        8 => seq![2],
        9 => seq![2, 1],
        10 => seq![2, 34],
        11 => seq![2, 3],
        12 => seq![2, 4],
        13 => seq![2, 38],
        14 => seq![2, 50],
        15 => seq![2, 52],
        16 => seq![34],
        17 => seq![3],
        18 => seq![3, 4],
        19 => seq![4],
        20 => seq![12],
        21 => seq![54],
        22 => seq![5],
        23 => seq![6],
        24 => seq![22],
        25 => seq![38],
        26 => seq![50],
        _ => seq![52],
    }
}

/// The cell of a Latin letter (0 for 'a' .. 25 for 'z').
pub open spec fn latin_cell(letter: u8) -> u8 {
    match letter {
        0 => 1,
        1 => 3,
        2 => 9,
        3 => 25,
        4 => 17,
        5 => 11,
        6 => 27,
        7 => 19,
        8 => 10,
        9 => 26,
        10 => 5,
        11 => 7,
        12 => 13,
        13 => 29,
        14 => 21,
        15 => 15,
        16 => 31,
        17 => 23,
        18 => 14,
        19 => 30,
        20 => 37,
        21 => 39,
        22 => 58,
        23 => 45,
        24 => 61,
        _ => 53,
    }
}

/// The cell of a digit 0..10.
pub open spec fn digit_cell(d: u8) -> u8 {
    match d {
        0 => 26,
        1 => 1,
        2 => 3,
        3 => 9,
        4 => 25,
        5 => 17,
        6 => 11,
        7 => 27,
        8 => 19,
        _ => 10,
    }
}

pub fn push_initial(out: &mut Vec<u8>, cho: u8)
    requires
        cho < 19,
    ensures
        final(out)@ == old(out)@ + initial_cells(cho),
{
    if cho == 1 || cho == 4 || cho == 8 || cho == 10 || cho == 13 {
        out.push(TENSE_MARK);
    }
    let p: u8 = if cho == 1 {
        0
    } else if cho == 4 {
        3
    } else if cho == 8 {
        7
    } else if cho == 10 {
        9
    } else if cho == 13 {
        12
    } else {
        cho
    };
    if p != 11 {
        out.push(initial_cell_exec(p));
    }
    assert(final(out)@ =~= old(out)@ + initial_cells(cho));
}

pub fn initial_cell_exec(cho: u8) -> (r: u8)
    ensures
        r == initial_cell(cho),
{
    if cho == 0 {
        8
    } else if cho == 2 {
        9
    } else if cho == 3 {
        10
    } else if cho == 5 {
        16
    } else if cho == 6 {
        17
    } else if cho == 7 {
        24
    } else if cho == 9 {
        32
    } else if cho == 12 {
        40
    } else if cho == 14 {
        48
    } else if cho == 15 {
        11
    } else if cho == 16 {
        19
    } else if cho == 17 {
        25
    } else {
        26
    }
}

pub fn medial_vec(jung: u8) -> (r: Vec<u8>)
    requires
        jung < 21,
    ensures
        r@ == medial_cells(jung),
{
    match jung {
        0 => vec![35],
        1 => vec![23],
        2 => vec![28],
        3 => vec![28, 23],
        4 => vec![14],
        5 => vec![29],
        6 => vec![49],
        7 => vec![12],
        8 => vec![37],
        9 => vec![39],
        10 => vec![39, 23],
        11 => vec![61],
        12 => vec![44],
        13 => vec![13],
        14 => vec![15],
        15 => vec![15, 23],
        16 => vec![13, 23],
        17 => vec![41],
        18 => vec![42],
        19 => vec![58],
        _ => vec![21],
    }
}

pub fn final_vec(jong: u8) -> (r: Vec<u8>)
    requires
        jong < 28,
    ensures
        r@ == final_cells(jong),
{
    match jong {
        0 => vec![],
        1 => vec![1],
        2 => vec![1, 1],
        3 => vec![1, 4],
        4 => vec![18],
        5 => vec![18, 5],
        6 => vec![18, 52],
        7 => vec![20],
        8 => vec![2],
        9 => vec![2, 1],
        10 => vec![2, 34],
        11 => vec![2, 3],
        12 => vec![2, 4],
        13 => vec![2, 38],
        14 => vec![2, 50],
        15 => vec![2, 52],
        16 => vec![34],
        17 => vec![3],
        18 => vec![3, 4],
        19 => vec![4],
        20 => vec![12],
        21 => vec![54],
        22 => vec![5],
        23 => vec![6],
        24 => vec![22],
        25 => vec![38],
        26 => vec![50],
        _ => vec![52],
    }
}

pub fn latin_cell_exec(letter: u8) -> (r: u8)
    requires
        letter < 26,
    ensures
        r == latin_cell(letter),
{
    match letter {
        0 => 1,
        1 => 3,
        2 => 9,
        3 => 25,
        4 => 17,
        5 => 11,
        6 => 27,
        7 => 19,
        8 => 10,
        9 => 26,
        10 => 5,
        11 => 7,
        12 => 13,
        13 => 29,
        14 => 21,
        15 => 15,
        16 => 31,
        17 => 23,
        18 => 14,
        19 => 30,
        20 => 37,
        21 => 39,
        22 => 58,
        23 => 45,
        24 => 61,
        _ => 53,
    }
}

pub fn digit_cell_exec(d: u8) -> (r: u8)
    requires
        d < 10,
    ensures
        r == digit_cell(d),
{
    match d {
        0 => 26,
        1 => 1,
        2 => 3,
        3 => 9,
        4 => 25,
        5 => 17,
        6 => 11,
        7 => 27,
        8 => 19,
        _ => 10,
    }
}

/// The cells of a compatibility consonant letter (index 0..30, in the order
/// of the compatibility jamo block) written as a final consonant. The tense
/// consonants that never close a syllable are written doubled.
pub open spec fn jamo_final_cells(j: u8) -> Seq<u8> {
    match j {
        0 => seq![1],
        1 => seq![1, 1],
        2 => seq![1, 4],
        3 => seq![18],
        4 => seq![18, 5],
        5 => seq![18, 52],
        6 => seq![20],
        7 => seq![20, 20],
        8 => seq![2],
        9 => seq![2, 1],
        10 => seq![2, 34],
        11 => seq![2, 3],
        12 => seq![2, 4],
        13 => seq![2, 38],
        14 => seq![2, 50],
        15 => seq![2, 52],
        16 => seq![34],
        17 => seq![3],
        18 => seq![3, 3],
        19 => seq![3, 4],
        20 => seq![4],
        21 => seq![12],
        22 => seq![54],
        23 => seq![5],
        24 => seq![5, 5],
        25 => seq![6],
        26 => seq![22],
        27 => seq![38],
        28 => seq![50],
        _ => seq![52],
    }
}

/// The cells of a punctuation mark, if it is one that is written.
pub open spec fn symbol_cells(c: char) -> Option<Seq<u8>> {
    match c {
        '.' => Some(seq![50]),
        ',' => Some(seq![16]),
        '?' => Some(seq![38]),
        '!' => Some(seq![22]),
        '-' => Some(seq![36]),
        '~' => Some(seq![8, 20]),
        '(' => Some(seq![38, 4]),
        ')' => Some(seq![32, 52]),
        '[' => Some(seq![38, 6]),
        ']' => Some(seq![48, 52]),
        '{' => Some(seq![38, 2]),
        '}' => Some(seq![16, 52]),
        ':' => Some(seq![16, 2]),
        '/' => Some(seq![56, 12]),
        '\u{b7}' => Some(seq![16, 6]),
        '\u{2026}' => Some(seq![32, 32, 32]),
        '\u{201c}' => Some(seq![38]),
        '\u{201d}' => Some(seq![52]),
        '\u{2018}' => Some(seq![32, 38]),
        '\u{2019}' => Some(seq![52, 4]),
        _ => None,
    }
}

/// The cells of a mathematical operator, if it is one that is written.
pub open spec fn math_cells(c: char) -> Option<Seq<u8>> {
    match c {
        '+' => Some(seq![34]),
        '\u{2212}' => Some(seq![20]),
        '\u{d7}' => Some(seq![33]),
        '\u{f7}' => Some(seq![12, 12]),
        '=' => Some(seq![18, 18]),
        _ => None,
    }
}

/// Number of entries of the word abbreviation dictionary.
pub const SHORTCUT_COUNT: usize = 7;

/// The word of dictionary entry k.
pub open spec fn shortcut_word(k: usize) -> Seq<char> {
    match k {
        0 => seq!['그', '래', '서'],
        1 => seq!['그', '러', '나'],
        2 => seq!['그', '러', '면'],
        3 => seq!['그', '러', '므', '로'],
        4 => seq!['그', '런', '데'],
        5 => seq!['그', '리', '고'],
        _ => seq!['그', '리', '하', '여'],
    }
}

/// The cells of dictionary entry k.
pub open spec fn shortcut_code(k: usize) -> Seq<u8> {
    match k {
        0 => seq![1, 14],
        1 => seq![1, 9],
        2 => seq![1, 18],
        3 => seq![1, 34],
        4 => seq![1, 29],
        5 => seq![1, 37],
        _ => seq![1, 49],
    }
}

pub fn jamo_final_vec(j: u8) -> (r: Vec<u8>)
    requires
        j < 30,
    ensures
        r@ == jamo_final_cells(j),
{
    match j {
        0 => vec![1],
        1 => vec![1, 1],
        2 => vec![1, 4],
        3 => vec![18],
        4 => vec![18, 5],
        5 => vec![18, 52],
        6 => vec![20],
        7 => vec![20, 20],
        8 => vec![2],
        9 => vec![2, 1],
        10 => vec![2, 34],
        11 => vec![2, 3],
        12 => vec![2, 4],
        13 => vec![2, 38],
        14 => vec![2, 50],
        15 => vec![2, 52],
        16 => vec![34],
        17 => vec![3],
        18 => vec![3, 3],
        19 => vec![3, 4],
        20 => vec![4],
        21 => vec![12],
        22 => vec![54],
        23 => vec![5],
        24 => vec![5, 5],
        25 => vec![6],
        26 => vec![22],
        27 => vec![38],
        28 => vec![50],
        _ => vec![52],
    }
}

pub fn symbol_vec(c: char) -> (r: Option<Vec<u8>>)
    ensures
        r matches Some(v) ==> symbol_cells(c) == Some(v@),
        r is None ==> symbol_cells(c) is None,
{
    match c {
        '.' => Some(vec![50]),
        ',' => Some(vec![16]),
        '?' => Some(vec![38]),
        '!' => Some(vec![22]),
        '-' => Some(vec![36]),
        '~' => Some(vec![8, 20]),
        '(' => Some(vec![38, 4]),
        ')' => Some(vec![32, 52]),
        '[' => Some(vec![38, 6]),
        ']' => Some(vec![48, 52]),
        '{' => Some(vec![38, 2]),
        '}' => Some(vec![16, 52]),
        ':' => Some(vec![16, 2]),
        '/' => Some(vec![56, 12]),
        '\u{b7}' => Some(vec![16, 6]),
        '\u{2026}' => Some(vec![32, 32, 32]),
        '\u{201c}' => Some(vec![38]),
        '\u{201d}' => Some(vec![52]),
        '\u{2018}' => Some(vec![32, 38]),
        '\u{2019}' => Some(vec![52, 4]),
        _ => None,
    }
}

pub fn math_vec(c: char) -> (r: Option<Vec<u8>>)
    ensures
        r matches Some(v) ==> math_cells(c) == Some(v@),
        r is None ==> math_cells(c) is None,
{
    match c {
        '+' => Some(vec![34]),
        '\u{2212}' => Some(vec![20]),
        '\u{d7}' => Some(vec![33]),
        '\u{f7}' => Some(vec![12, 12]),
        '=' => Some(vec![18, 18]),
        _ => None,
    }
}

pub fn shortcut_word_vec(k: usize) -> (r: Vec<char>)
    requires
        k < SHORTCUT_COUNT,
    ensures
        r@ == shortcut_word(k),
{
    match k {
        0 => vec!['그', '래', '서'],
        1 => vec!['그', '러', '나'],
        2 => vec!['그', '러', '면'],
        3 => vec!['그', '러', '므', '로'],
        4 => vec!['그', '런', '데'],
        5 => vec!['그', '리', '고'],
        _ => vec!['그', '리', '하', '여'],
    }
}

pub fn shortcut_code_vec(k: usize) -> (r: Vec<u8>)
    requires
        k < SHORTCUT_COUNT,
    ensures
        r@ == shortcut_code(k),
{
    match k {
        0 => vec![1, 14],
        1 => vec![1, 9],
        2 => vec![1, 18],
        3 => vec![1, 34],
        4 => vec![1, 29],
        5 => vec![1, 37],
        _ => vec![1, 49],
    }
}

} // verus!
