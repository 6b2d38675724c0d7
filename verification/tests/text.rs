use ldraw_parts::command::Scalar;
use ldraw_parts::number::{is_numeric, parse_color};
use ldraw_parts::text::{
    chars_of, join_tokens, sanitize_file_name, space, split_words, string_of, strip, token_is,
    tokenize_user_name,
};

fn chars(text: &str) -> Vec<char> {
    text.chars().collect()
}

fn each_string(alphabet: &[char], max_len: usize, mut visit: impl FnMut(&str)) {
    let mut digits: Vec<usize> = Vec::new();
    loop {
        let text: String = digits.iter().map(|&d| alphabet[d]).collect();
        visit(&text);
        let mut at = digits.len();
        loop {
            if at == 0 {
                if digits.len() == max_len {
                    return;
                }
                digits = vec![0; digits.len() + 1];
                break;
            }
            at -= 1;
            if digits[at] + 1 < alphabet.len() {
                digits[at] += 1;
                for later in digits.iter_mut().skip(at + 1) {
                    *later = 0;
                }
                break;
            }
        }
    }
}

#[test]
fn chars_and_back() {
    assert_eq!(chars_of("a\u{e9}\u{3000}z"), vec!['a', '\u{e9}', '\u{3000}', 'z']);
    assert_eq!(chars_of(""), Vec::<char>::new());
    assert_eq!(string_of(&chars("a\u{e9}z")), "a\u{e9}z");
    assert_eq!(string_of(&vec![]), "");
}

#[test]
fn white_space_is_what_char_says() {
    for code in 0..=0x10FFFFu32 {
        if let Some(c) = char::from_u32(code) {
            assert_eq!(space(c), c.is_whitespace(), "{:x}", code);
        }
    }
}

#[test]
fn words_are_split_as_by_split_whitespace() {
    let alphabet = [' ', '\t', 'a', '0', '\u{a0}', '\u{e9}'];
    each_string(&alphabet, 6, |text| {
        let got: Vec<String> = split_words(&chars(text)).iter().map(string_of).collect();
        let want: Vec<String> = text.split_whitespace().map(|w| w.to_string()).collect();
        assert_eq!(got, want, "{:?}", text);
    });
}

#[test]
fn words_of_a_line() {
    let got = split_words(&chars("  1 16\t0.5   s\\stud.dat \r"));
    assert_eq!(got, vec![chars("1"), chars("16"), chars("0.5"), chars("s\\stud.dat")]);
    assert_eq!(split_words(&chars(" \t ")), Vec::<Vec<char>>::new());
}

#[test]
fn tokens_are_joined_by_single_spaces() {
    let tokens = vec![chars("a"), chars("bc"), chars(""), chars("d")];
    assert_eq!(join_tokens(&tokens, 0, 4), "a bc  d");
    assert_eq!(join_tokens(&tokens, 1, 2), "bc");
    assert_eq!(join_tokens(&tokens, 1, 1), "");
    assert_eq!(join_tokens(&tokens, 0, 2), "a bc");
    assert_eq!(join_tokens(&tokens, 4, 4), "");
}

#[test]
fn file_names_use_forward_slashes() {
    assert_eq!(sanitize_file_name(&chars("s\\48\\4-4edge.dat")), "s/48/4-4edge.dat");
    assert_eq!(sanitize_file_name(&chars("plain.dat")), "plain.dat");
    assert_eq!(sanitize_file_name(&chars("\\")), "/");
    assert_eq!(sanitize_file_name(&chars("")), "");
}

#[test]
fn commas_are_stripped() {
    assert_eq!(strip(&chars("castle,"), ','), "castle");
    assert_eq!(strip(&chars(",a,,b,"), ','), "ab");
    assert_eq!(strip(&chars(","), ','), "");
    assert_eq!(strip(&chars("a.b"), ','), "a.b");
}

#[test]
fn handles_stand_in_square_brackets() {
    assert_eq!(tokenize_user_name(&chars("[jdoe]")), Some("jdoe".to_string()));
    assert_eq!(tokenize_user_name(&chars("[]")), Some("".to_string()));
    assert_eq!(tokenize_user_name(&chars("[a]b]")), Some("a]b".to_string()));
    assert_eq!(tokenize_user_name(&chars("[")), None);
    assert_eq!(tokenize_user_name(&chars("]")), None);
    assert_eq!(tokenize_user_name(&chars("")), None);
    assert_eq!(tokenize_user_name(&chars("jdoe]")), None);
    assert_eq!(tokenize_user_name(&chars("[jdoe")), None);
    assert_eq!(tokenize_user_name(&chars("jdoe")), None);
}

#[test]
fn tokens_are_compared_whole() {
    assert!(token_is(&chars("Name:"), "Name:"));
    assert!(!token_is(&chars("Name"), "Name:"));
    assert!(!token_is(&chars("Name::"), "Name:"));
    assert!(!token_is(&chars("name:"), "Name:"));
    assert!(token_is(&chars(""), ""));
}

#[test]
fn colors_are_read_as_unsigned_integers() {
    assert_eq!(parse_color(&chars("16")), Some(16));
    assert_eq!(parse_color(&chars("0")), Some(0));
    assert_eq!(parse_color(&chars("+24")), Some(24));
    assert_eq!(parse_color(&chars("0000000000000000000016")), Some(16));
    assert_eq!(parse_color(&chars("4294967295")), Some(4294967295));
    assert_eq!(parse_color(&chars("4294967296")), None);
    assert_eq!(parse_color(&chars("99999999999999999999999999")), None);
    assert_eq!(parse_color(&chars("")), None);
    assert_eq!(parse_color(&chars("+")), None);
    assert_eq!(parse_color(&chars("-1")), None);
    assert_eq!(parse_color(&chars("1.0")), None);
    assert_eq!(parse_color(&chars("0x10")), None);
}

#[test]
fn colors_are_read_as_by_the_integer_parser() {
    let alphabet = ['+', '-', '0', '1', '9', '4', ' ', 'a'];
    each_string(&alphabet, 5, |text| {
        assert_eq!(parse_color(&chars(text)), text.parse::<u32>().ok(), "{:?}", text);
    });
    for text in ["4294967295", "4294967296", "+4294967295", "42949672950", "04294967295"] {
        assert_eq!(parse_color(&chars(text)), text.parse::<u32>().ok(), "{:?}", text);
    }
}

#[test]
fn numbers_are_those_that_parse_as_floats() {
    let alphabet = ['+', '-', '.', 'e', 'E', '0', '7', 'i', 'n', 'f', 'a', 'N', ' '];
    each_string(&alphabet, 5, |text| {
        assert_eq!(is_numeric(&chars(text)), text.parse::<f32>().is_ok(), "{:?}", text);
    });
    let letters = ['i', 'I', 'n', 'N', 'f', 'F', 't', 'T', 'y', 'Y', 'a', '+'];
    each_string(&letters, 4, |text| {
        assert_eq!(is_numeric(&chars(text)), text.parse::<f32>().is_ok(), "{:?}", text);
    });
    for text in [
        "infinity", "-Infinity", "+INFINITY", "iNfInItY", "infinit", "infinityy", "infinitx",
        "1e400", "1e-400", "123456789012345678901234567890", "0.000000000000000000000000000001",
        "1.5e+10", "1.5e+-10", "1..5", "1.5.", "\u{ff11}", "1\u{e9}", "Inf", "NAN", "nan0",
    ] {
        assert_eq!(is_numeric(&chars(text)), text.parse::<f32>().is_ok(), "{:?}", text);
    }
}

#[test]
fn scalar_keeps_its_text() {
    let s = Scalar::new("-12.50").unwrap();
    assert_eq!(s.text(), "-12.50");
    assert_eq!(s.clone(), s);
    assert_eq!(Scalar::parse(&chars("1e3")).unwrap().text(), "1e3");
    assert_eq!(Scalar::parse(&chars("one")), None);
    assert_eq!(Scalar::new(""), None);
}
