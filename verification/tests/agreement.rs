use chat_leaderboard::decimal::{parse_i64, parse_usize};
use chat_leaderboard::text::chars_of;
use chat_leaderboard::tokens::tokenize;

/// A small deterministic generator, so that every run sees the same strings.
struct Lcg(u64);

impl Lcg {
    fn next(&mut self) -> u64 {
        self.0 = self.0.wrapping_mul(6364136223846793005).wrapping_add(1442695040888963407);
        self.0 >> 33
    }

    fn string(&mut self, alphabet: &[char], max_len: u64) -> String {
        let len = self.next() % (max_len + 1);
        (0..len).map(|_| alphabet[(self.next() % alphabet.len() as u64) as usize]).collect()
    }
}

#[test]
fn tokenize_agrees_with_split_whitespace_on_generated_text() {
    let alphabet = [
        'a', 'B', 'z', '!', '\u{e9}', '\u{1f600}', ' ', ' ', '\t', '\n', '\r', '\u{0b}', '\u{0c}',
        '\u{85}', '\u{a0}', '\u{1680}', '\u{2000}', '\u{200a}', '\u{200b}', '\u{2028}', '\u{2029}',
        '\u{202f}', '\u{205f}', '\u{3000}', '\u{feff}', '\u{180e}',
    ];
    let mut gen = Lcg(7);
    for _ in 0..2000 {
        let s = gen.string(&alphabet, 24);
        let expected: Vec<String> = s.split_whitespace().map(|w| w.to_string()).collect();
        assert_eq!(tokenize(&s), expected, "{:?}", s);
    }
}

#[test]
fn parsers_agree_with_std_on_generated_text() {
    let alphabet = ['0', '1', '2', '7', '8', '9', '9', '+', '-', ' ', 'x'];
    let mut gen = Lcg(11);
    for _ in 0..5000 {
        let s = gen.string(&alphabet, 22);
        assert_eq!(parse_i64(&s), s.parse::<i64>().ok(), "{:?}", s);
        assert_eq!(parse_usize(&s), s.parse::<usize>().ok(), "{:?}", s);
    }
}

#[test]
fn parsers_agree_with_std_near_the_limits() {
    let mut gen = Lcg(13);
    for _ in 0..2000 {
        let near_max = (i64::MAX as i128) - 50 + (gen.next() % 100) as i128;
        let near_min = (i64::MIN as i128) - 50 + (gen.next() % 100) as i128;
        let near_top = (usize::MAX as u128) - 50 + (gen.next() % 100) as u128;
        for s in [near_max.to_string(), near_min.to_string(), format!("+{}", near_max)] {
            assert_eq!(parse_i64(&s), s.parse::<i64>().ok(), "{:?}", s);
        }
        let s = near_top.to_string();
        assert_eq!(parse_usize(&s), s.parse::<usize>().ok(), "{:?}", s);
    }
}

#[test]
fn chars_of_gives_every_character() {
    assert_eq!(chars_of("h\u{e9}y \u{1f600}"), vec!['h', '\u{e9}', 'y', ' ', '\u{1f600}']);
    assert_eq!(chars_of(""), Vec::<char>::new());
}
