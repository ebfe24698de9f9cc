use korea::{
    decode, encode, encode_to_braille_font, encode_to_unicode, EncodeError,
};

#[test]
fn test_encode() {
    assert_eq!(encode_to_unicode("삼각형 ㄱㄴㄷ").unwrap(), "⠇⠢⠫⠁⠚⠻⠀⠿⠁⠿⠒⠿⠔");
    assert_eq!(encode_to_unicode("걲").unwrap(), "⠈⠹⠁");
    assert_eq!(encode_to_unicode("겄").unwrap(), "⠈⠎⠌");
    assert_eq!(encode_to_unicode("kg").unwrap(), "⠅⠛");
    assert_eq!(encode_to_unicode("(kg)").unwrap(), "⠦⠄⠅⠛⠠⠴");
    assert_eq!(
        encode_to_unicode("나루 + 배 = 나룻배").unwrap(),
        "⠉⠐⠍⠀⠢⠀⠘⠗⠀⠒⠒⠀⠉⠐⠍⠄⠘⠗"
    );
    assert_eq!(
        encode_to_unicode("02-2669-9775~6").unwrap(),
        "⠼⠚⠃⠤⠼⠃⠋⠋⠊⠤⠼⠊⠛⠛⠑⠈⠔⠼⠋"
    );
    assert_eq!(
        encode_to_unicode("WELCOME TO KOREA").unwrap(),
        "⠠⠠⠠⠺⠑⠇⠉⠕⠍⠑⠀⠞⠕⠀⠅⠕⠗⠑⠁⠠⠄"
    );
    assert_eq!(encode_to_unicode("SNS에서").unwrap(), "⠴⠠⠠⠎⠝⠎⠲⠝⠠⠎");
    assert_eq!(encode_to_unicode("ATM").unwrap(), "⠠⠠⠁⠞⠍");
    assert_eq!(encode_to_unicode("ATM 기기").unwrap(), "⠴⠠⠠⠁⠞⠍⠲⠀⠈⠕⠈⠕");
    assert_eq!(encode_to_unicode("1,000").unwrap(), "⠼⠁⠂⠚⠚⠚");
    assert_eq!(encode_to_unicode("0.48").unwrap(), "⠼⠚⠲⠙⠓");
    assert_eq!(
        encode_to_unicode("820718-2036794").unwrap(),
        "⠼⠓⠃⠚⠛⠁⠓⠤⠼⠃⠚⠉⠋⠛⠊⠙"
    );
    assert_eq!(
        encode_to_unicode("5개−3개=2개").unwrap(),
        "⠼⠑⠈⠗⠀⠔⠀⠼⠉⠈⠗⠀⠒⠒⠀⠼⠃⠈⠗"
    );
    assert_eq!(encode_to_unicode("소화액").unwrap(), "⠠⠥⠚⠧⠤⠗⠁");
    assert_eq!(encode_to_unicode("X").unwrap(), "⠠⠭");
    assert_eq!(encode_to_unicode("껐").unwrap(), "⠠⠈⠎⠌");
    assert_eq!(encode_to_unicode("TV를").unwrap(), "⠴⠠⠠⠞⠧⠲⠐⠮");
    assert_eq!(encode_to_unicode("껐어요.").unwrap(), "⠠⠈⠎⠌⠎⠬⠲");
    assert_eq!(encode_to_unicode("5운6기").unwrap(), "⠼⠑⠀⠛⠼⠋⠈⠕");
    assert_eq!(encode_to_unicode("끊").unwrap(), "⠠⠈⠵⠴");
    assert_eq!(encode_to_unicode("끊겼어요").unwrap(), "⠠⠈⠵⠴⠈⠱⠌⠎⠬");
    assert_eq!(encode_to_unicode("시예요").unwrap(), "⠠⠕⠤⠌⠬");
    assert_eq!(encode_to_unicode("정").unwrap(), "⠨⠻");
    assert_eq!(encode_to_unicode("나요").unwrap(), "⠉⠣⠬");
    assert_eq!(encode_to_unicode("사이즈").unwrap(), "⠇⠕⠨⠪");
    assert_eq!(encode_to_unicode("청소를").unwrap(), "⠰⠻⠠⠥⠐⠮");
    assert_eq!(encode_to_unicode("것").unwrap(), "⠸⠎");
    assert_eq!(encode_to_unicode("것이").unwrap(), "⠸⠎⠕");
    assert_eq!(encode_to_unicode("이 옷").unwrap(), "⠕⠀⠥⠄");
    assert_eq!(encode_to_unicode(".").unwrap(), "⠲");
    assert_eq!(encode_to_unicode("안").unwrap(), "⠣⠒");
    assert_eq!(encode_to_unicode("안녕").unwrap(), "⠣⠒⠉⠻");
    assert_eq!(encode_to_unicode("안녕하").unwrap(), "⠣⠒⠉⠻⠚");

    assert_eq!(encode_to_unicode("세요").unwrap(), "⠠⠝⠬");

    assert_eq!(encode_to_unicode("하세요").unwrap(), "⠚⠠⠝⠬");
    assert_eq!(encode_to_unicode("안녕하세요").unwrap(), "⠣⠒⠉⠻⠚⠠⠝⠬");
    //                                           ⠣⠒⠉⠻⠚⠠⠕⠃⠉⠕⠠⠈⠣
    assert_eq!(encode_to_unicode("안녕하십니까").unwrap(), "⠣⠒⠉⠻⠚⠠⠕⠃⠉⠕⠠⠫");

    assert_eq!(encode_to_unicode("그래서 작동").unwrap(), "⠁⠎⠀⠨⠁⠊⠿");
    assert_eq!(encode_to_unicode("그래서 작동하나").unwrap(), "⠁⠎⠀⠨⠁⠊⠿⠚⠉");
    //                                               ⠁⠎⠀⠨⠁⠊⠿⠚⠉⠬
    assert_eq!(
        encode_to_unicode("그래서 작동하나요").unwrap(),
        "⠁⠎⠀⠨⠁⠊⠿⠚⠉⠣⠬"
    );
    assert_eq!(
        encode_to_unicode("그래서 작동하나요?").unwrap(),
        "⠁⠎⠀⠨⠁⠊⠿⠚⠉⠣⠬⠦"
    );
    assert_eq!(encode_to_unicode("이 노래").unwrap(), "⠕⠀⠉⠥⠐⠗");
    assert_eq!(encode_to_unicode("아").unwrap(), "⠣");
    assert_eq!(encode_to_unicode("름").unwrap(), "⠐⠪⠢");
    assert_eq!(encode_to_unicode("아름").unwrap(), "⠣⠐⠪⠢");
    // ⠠⠶
    assert_eq!(encode_to_unicode("사").unwrap(), "⠇");
    assert_eq!(encode_to_unicode("상").unwrap(), "⠇⠶");
    assert_eq!(
        encode_to_unicode("아름다운 세상.").unwrap(),
        "⠣⠐⠪⠢⠊⠣⠛⠀⠠⠝⠇⠶⠲"
    );
    assert_eq!(
        encode_to_unicode("모든 것이 무너진 듯해도").unwrap(),
        "⠑⠥⠊⠵⠀⠸⠎⠕⠀⠑⠍⠉⠎⠨⠟⠀⠊⠪⠄⠚⠗⠊⠥"
    );
}
