use korea::classify::{classify, Category};
use korea::{cells_to_unicode, decode, encode, encode_to_braille_font, encode_to_unicode, EncodeError};

#[test]
fn latin_lowercase_word_has_no_markers() {
    assert_eq!(encode("kg").unwrap(), vec![5, 27]);
}

#[test]
fn thousands_comma_inside_digits() {
    assert_eq!(encode("1,000").unwrap(), vec![60, 1, 2, 26, 26, 26]);
}

#[test]
fn comma_outside_digits_is_punctuation() {
    assert_eq!(encode("a,b").unwrap(), vec![1, 16, 3]);
}

#[test]
fn capital_phrase_of_three_words() {
    assert_eq!(
        encode("WELCOME TO KOREA").unwrap(),
        vec![32, 32, 32, 58, 17, 7, 9, 21, 13, 17, 0, 30, 21, 0, 5, 21, 23, 17, 1, 32, 4]
    );
}

#[test]
fn capital_phrase_of_four_words() {
    assert_eq!(
        encode("AB CD EF GH").unwrap(),
        vec![32, 32, 32, 1, 3, 0, 9, 25, 0, 17, 11, 0, 27, 19, 32, 4]
    );
}

#[test]
fn capital_phrase_closes_and_reopens() {
    assert_eq!(
        encode("AB CD EF 1 GH IJ KL").unwrap(),
        vec![
            32, 32, 32, 1, 3, 0, 9, 25, 0, 17, 11, 32, 4, 0, 60, 1, 0, 32, 32, 32, 27, 19, 0, 10,
            26, 0, 5, 7, 32, 4
        ]
    );
}

#[test]
fn capital_word_alone_gets_two_signs() {
    assert_eq!(encode("ATM").unwrap(), vec![32, 32, 1, 30, 13]);
    assert_eq!(encode("ATM 1").unwrap(), vec![32, 32, 1, 30, 13, 0, 60, 1]);
}

#[test]
fn single_capital_letter_gets_one_sign() {
    assert_eq!(encode("X").unwrap(), vec![32, 45]);
    assert_eq!(encode("Xy").unwrap(), vec![32, 45, 61]);
}

#[test]
fn doubled_initial_literal_syllable() {
    assert_eq!(encode("껐").unwrap(), vec![32, 8, 14, 12]);
    assert_eq!(encode("쪙").unwrap(), vec![32, 40, 49, 54]);
    assert_eq!(encode("팠").unwrap(), vec![25, 35, 12]);
}

#[test]
fn math_symbol_between_syllables() {
    assert_eq!(encode("개+개").unwrap(), vec![8, 23, 0, 34, 0, 8, 23]);
    assert_eq!(encode("1+2").unwrap(), vec![60, 1, 34, 60, 3]);
}

#[test]
fn unsupported_characters_fail() {
    assert_eq!(encode("@#"), Err(EncodeError::Classification('@')));
    assert_eq!(encode("가 @"), Err(EncodeError::Classification('@')));
    assert_eq!(encode_to_unicode("#"), Err(EncodeError::Classification('#')));
}

#[test]
fn vowel_letter_has_no_final_form() {
    assert_eq!(encode("ㅏ."), Err(EncodeError::Lookup('ㅏ')));
}

#[test]
fn empty_and_blank_texts() {
    assert_eq!(encode("").unwrap(), Vec::<u8>::new());
    assert_eq!(encode(" \t\n").unwrap(), Vec::<u8>::new());
}

#[test]
fn digit_runs_after_period_and_hyphen() {
    assert_eq!(encode("0.48").unwrap(), vec![60, 26, 50, 25, 19]);
    assert_eq!(encode("12-34").unwrap(), vec![60, 1, 3, 36, 60, 9, 25]);
    assert_eq!(encode("1 2").unwrap(), vec![60, 1, 0, 60, 3]);
}

#[test]
fn words_are_separated_by_one_blank() {
    assert_eq!(encode("가  나\n다").unwrap(), vec![43, 0, 9, 0, 10]);
}

#[test]
fn latin_run_closes_before_korean_word() {
    assert_eq!(encode("ABC 가").unwrap(), vec![52, 32, 32, 1, 3, 9, 50, 0, 43]);
    assert_eq!(encode("가 abc").unwrap(), vec![43, 0, 52, 1, 3, 9]);
}

#[test]
fn word_abbreviation_with_remainder() {
    assert_eq!(encode("그래서").unwrap(), vec![1, 14]);
    assert_eq!(encode("그래서요").unwrap(), vec![1, 14, 44]);
    assert_eq!(encode("그리고 가").unwrap(), vec![1, 37, 0, 43]);
}

#[test]
fn standalone_and_attached_letters() {
    assert_eq!(encode("ㄱ").unwrap(), vec![63, 1]);
    assert_eq!(encode("ㅏ").unwrap(), vec![63, 35]);
    assert_eq!(encode("ㄱ.").unwrap(), vec![63, 1, 50]);
    assert_eq!(encode("ㅎ말로").unwrap(), vec![56, 52, 17, 2, 16, 37]);
    assert_eq!(encode("ㄱ자형").unwrap(), vec![63, 1, 40, 26, 59]);
}

#[test]
fn vowel_separators() {
    assert_eq!(encode("시예요").unwrap(), vec![32, 21, 36, 12, 44]);
    assert_eq!(encode("소화액").unwrap(), vec![32, 37, 26, 39, 36, 23, 1]);
}

#[test]
fn syllable_decomposition() {
    assert_eq!(classify('가'), Ok(Category::Syllable { cho: 0, jung: 0, jong: 0 }));
    assert_eq!(classify('힣'), Ok(Category::Syllable { cho: 18, jung: 20, jong: 27 }));
    assert_eq!(classify('ㅏ'), Ok(Category::Jamo { index: 30 }));
    assert_eq!(classify('Q'), Ok(Category::Latin { letter: 16, upper: true }));
    assert_eq!(classify('€'), Err(EncodeError::Classification('€')));
}

#[test]
fn glyphs_are_offset_into_braille_block() {
    assert_eq!(cells_to_unicode(&vec![0, 1, 63]), "\u{2800}\u{2801}\u{283F}");
    assert_eq!(encode_to_braille_font("kg").unwrap(), "\u{2805}\u{281B}");
    assert_eq!(encode_to_braille_font("@"), Err(EncodeError::Classification('@')));
}

#[test]
fn decode_hands_text_back() {
    assert_eq!(decode("⠅⠛ abc"), "⠅⠛ abc");
}
