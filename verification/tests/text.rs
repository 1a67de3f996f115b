use ffmpeg_caster::text;

const SAMPLES: [&str; 12] = [
    "",
    " ",
    "a",
    "a b",
    "  two\twords \n",
    "one\r\ntwo\n\nthree\r",
    "\n\n",
    "x\u{a0}y\u{3000}z",
    "12ab034",
    "été + 7",
    "a,b,c",
    "\u{85}nel\u{2028}ls",
];

fn string(chars: &[char]) -> String {
    chars.iter().collect()
}

#[test]
fn characters_and_back() {
    for s in SAMPLES {
        let chars = text::to_chars(s);
        assert_eq!(chars, s.chars().collect::<Vec<char>>());
        assert_eq!(text::from_chars(&chars), s);
    }
}

#[test]
fn lines_words_and_trimming_as_in_std() {
    for s in SAMPLES {
        let chars = text::to_chars(s);
        let lines: Vec<String> = text::lines(&chars).iter().map(|l| string(l)).collect();
        assert_eq!(lines, s.lines().collect::<Vec<&str>>());
        let words: Vec<String> = text::words(&chars).iter().map(|w| string(w)).collect();
        assert_eq!(words, s.split_whitespace().collect::<Vec<&str>>());
        assert_eq!(string(text::trim(&chars)), s.trim());
        assert_eq!(string(text::trim_start(&chars)), s.trim_start());
    }
}

#[test]
fn searching_as_in_std() {
    for s in SAMPLES {
        for part in ["", "a", "b", "wo", "\n", "été", "zz"] {
            assert_eq!(
                text::contains(&text::to_chars(s), &text::to_chars(part)),
                s.contains(part)
            );
            assert_eq!(text::starts_with(s, part), s.starts_with(part));
            assert_eq!(text::ends_with(s, part), s.ends_with(part));
            assert_eq!(text::same(s, part), s == part);
        }
        for c in ['a', ' ', '+', '\n', 'é'] {
            let chars = text::to_chars(s);
            assert_eq!(text::has_char(&chars, c), s.contains(c));
            let split = text::split_once(&chars, c).map(|(a, b)| (string(a), string(b)));
            let expected = s
                .split_once(c)
                .map(|(a, b)| (a.to_string(), b.to_string()));
            assert_eq!(split, expected);
            let tail = text::split_last(&chars, c).map(string);
            assert_eq!(tail, s.rsplit_once(c).map(|(_, b)| b.to_string()));
        }
    }
}

#[test]
fn numbers_as_in_std() {
    for n in [0u64, 7, 10, 99, 100, 65_535, u64::MAX] {
        assert_eq!(text::to_decimal(n), n.to_string());
        assert_eq!(
            text::parse_number(&text::to_chars(&n.to_string()), u64::MAX),
            Some(n)
        );
    }
    for s in [
        "", "+", "+5", "-5", "5", "007", " 5", "5 ", "65535", "65536", "99999999999999999999", "5a",
        "+ 5", "++5", "٣",
    ] {
        assert_eq!(
            text::parse_number(&text::to_chars(s), u16::MAX as u64),
            s.parse::<u16>().ok().map(u64::from)
        );
        assert_eq!(
            text::parse_number(&text::to_chars(s), u64::MAX),
            s.parse::<u64>().ok()
        );
    }
}

#[test]
fn rows_of_digits() {
    let runs = |s: &str| -> Vec<String> {
        text::digit_runs(&text::to_chars(s))
            .iter()
            .map(|r| string(r))
            .collect()
    };
    assert_eq!(runs(" 3024 x 1964 Retina"), vec!["3024", "1964"]);
    assert_eq!(runs("12ab034"), vec!["12", "034"]);
    assert_eq!(runs("none"), Vec::<String>::new());
}

#[test]
fn joining() {
    assert_eq!(text::join(&vec![], ", "), "");
    assert_eq!(text::join(&vec!["a"], ", "), "a");
    assert_eq!(text::join(&vec!["a", "", "c"], ", "), "a, , c");
}

#[test]
fn whitespace_as_in_std() {
    for code in 0..=0x10FFFFu32 {
        if let Some(c) = char::from_u32(code) {
            assert_eq!(text::is_whitespace(c), c.is_whitespace());
            assert_eq!(text::is_digit(c), c.is_ascii_digit());
        }
    }
}
