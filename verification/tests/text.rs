use motion_core::number::is_number;
use motion_core::text::{is_decimal_digit, is_whitespace, read_u64, to_chars, trim_bounds};

fn chars(s: &str) -> Vec<char> {
    s.chars().collect()
}

/// A small deterministic source of numbers.
struct Dice(u64);

impl Dice {
    fn roll(&mut self, sides: usize) -> usize {
        self.0 = self.0.wrapping_mul(6364136223846793005).wrapping_add(1442695040888963407);
        ((self.0 >> 33) as usize) % sides
    }
}

#[test]
fn to_chars_gives_every_character() {
    assert_eq!(to_chars(""), Vec::<char>::new());
    assert_eq!(to_chars("a(1,2)"), vec!['a', '(', '1', ',', '2', ')']);
    assert_eq!(to_chars("\u{e9}\u{2003}z"), vec!['\u{e9}', '\u{2003}', 'z']);
}

#[test]
fn is_whitespace_is_that_of_every_character() {
    for code in 0..=0x10FFFFu32 {
        if let Some(c) = char::from_u32(code) {
            assert_eq!(is_whitespace(c), c.is_whitespace(), "U+{:04X}", code);
        }
    }
}

#[test]
fn is_decimal_digit_is_that_of_every_character() {
    for code in 0..=0x10FFFFu32 {
        if let Some(c) = char::from_u32(code) {
            assert_eq!(is_decimal_digit(c), c.is_ascii_digit(), "U+{:04X}", code);
        }
    }
}

#[test]
fn trim_bounds_are_those_of_trimming() {
    for s in ["", " ", "a", "  a", "a  ", " a b ", "\t\r\n x \u{3000}", "\u{a0}\u{85}", " \u{e9} "] {
        let v = chars(s);
        let (a, b) = trim_bounds(&v);
        let kept: String = v[a..b].iter().collect();
        assert_eq!(kept, s.trim(), "{:?}", s);
    }
}

#[test]
fn trim_bounds_of_blank_text_are_empty() {
    let v = chars("   ");
    let (a, b) = trim_bounds(&v);
    assert_eq!(a, b);
}

#[test]
fn read_u64_reads_plain_numbers() {
    assert_eq!(read_u64(&chars("0")), Some(0));
    assert_eq!(read_u64(&chars("750")), Some(750));
    assert_eq!(read_u64(&chars("+12")), Some(12));
    assert_eq!(read_u64(&chars("0007")), Some(7));
    assert_eq!(read_u64(&chars("18446744073709551615")), Some(u64::MAX));
    assert_eq!(read_u64(&chars("000018446744073709551615")), Some(u64::MAX));
}

#[test]
fn read_u64_refuses_what_is_no_number() {
    for s in ["", "+", "-", "-1", "1.0", " 1", "1 ", "1e3", "++1", "0x10", "1_000", "\u{663}"] {
        assert_eq!(read_u64(&chars(s)), None, "{:?}", s);
    }
}

#[test]
fn read_u64_refuses_what_does_not_fit() {
    assert_eq!(read_u64(&chars("18446744073709551616")), None);
    assert_eq!(read_u64(&chars("99999999999999999999999")), None);
    assert_eq!(read_u64(&chars("184467440737095516150")), None);
}

#[test]
fn read_u64_agrees_with_the_standard_reader() {
    let alphabet = ['+', '-', '0', '1', '9', ' ', 'a', '.'];
    let mut dice = Dice(7);
    for _ in 0..20000 {
        let len = dice.roll(6);
        let s: String = (0..len).map(|_| alphabet[dice.roll(alphabet.len())]).collect();
        assert_eq!(read_u64(&chars(&s)), s.parse::<u64>().ok(), "{:?}", s);
    }
    for _ in 0..2000 {
        let len = 18 + dice.roll(5);
        let s: String = (0..len).map(|_| (b'0' + dice.roll(10) as u8) as char).collect();
        assert_eq!(read_u64(&chars(&s)), s.parse::<u64>().ok(), "{:?}", s);
    }
}

#[test]
fn is_number_accepts_the_forms_of_a_number() {
    for s in [
        "0", "10", "-22.5", "+6.0", "144", ".5", "5.", "-.5", "1e3", "1E3", "1e+3", "1.5e-7", "inf",
        "-inf", "+Infinity", "INFINITY", "nan", "NaN", "-nan", "00012.50", "1e0000", "9".repeat(400).as_str(),
    ] {
        assert!(is_number(&chars(s)), "{:?}", s);
    }
}

#[test]
fn is_number_refuses_everything_else() {
    for s in [
        "", "+", "-", ".", "+.", "e5", "1e", "1e+", "1e5.0", "1..2", "1.2.3", "--1", "+-1", " 1", "1 ", "1,5",
        "in", "infinit", "infinityy", "na", "nanx", "i nf", "0x10", "1_0", "back", "next", "on", "1f", "\u{663}",
    ] {
        assert!(!is_number(&chars(s)), "{:?}", s);
    }
}

#[test]
fn is_number_agrees_with_the_standard_reader_on_short_texts() {
    let alphabet = ['+', '-', '.', 'e', 'E', '0', '7', 'i', 'n', 'f', 'a', 'N', ' ', 'x'];
    let n = alphabet.len();
    let mut total = 0u32;
    for len in 0..=4usize {
        let count = n.pow(len as u32);
        for code in 0..count {
            let mut rest = code;
            let mut s = String::new();
            for _ in 0..len {
                s.push(alphabet[rest % n]);
                rest /= n;
            }
            assert_eq!(is_number(&chars(&s)), s.parse::<f64>().is_ok(), "{:?}", s);
            total += 1;
        }
    }
    assert_eq!(total, 1 + 14 + 196 + 2744 + 38416);
}

#[test]
fn is_number_agrees_with_the_standard_reader_on_longer_texts() {
    let alphabet = ['+', '-', '.', 'e', 'E', '0', '1', '5', '9'];
    let mut dice = Dice(99);
    for _ in 0..60000 {
        let len = 5 + dice.roll(8);
        let s: String = (0..len).map(|_| alphabet[dice.roll(alphabet.len())]).collect();
        assert_eq!(is_number(&chars(&s)), s.parse::<f64>().is_ok(), "{:?}", s);
    }
}

#[test]
fn is_number_agrees_with_the_standard_reader_on_words() {
    let letters = ['i', 'I', 'n', 'N', 'f', 'F', 'a', 'A', 't', 'T', 'y', 'Y', 'j', '1'];
    let mut dice = Dice(3);
    for _ in 0..60000 {
        let len = 2 + dice.roll(8);
        let mut s = String::new();
        if dice.roll(3) == 0 {
            s.push(['+', '-'][dice.roll(2)]);
        }
        for _ in 0..len {
            s.push(letters[dice.roll(letters.len())]);
        }
        assert_eq!(is_number(&chars(&s)), s.parse::<f64>().is_ok(), "{:?}", s);
    }
    for base in ["inf", "infinity", "nan"] {
        for mask in 0..(1u32 << base.len()) {
            let s: String = base
                .chars()
                .enumerate()
                .map(|(i, c)| if mask >> i & 1 == 1 { c.to_ascii_uppercase() } else { c })
                .collect();
            for sign in ["", "+", "-"] {
                let t = format!("{}{}", sign, s);
                assert!(is_number(&chars(&t)), "{:?}", t);
                assert!(t.parse::<f64>().is_ok(), "{:?}", t);
            }
        }
    }
}
