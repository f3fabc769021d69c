use fastdl::text::{parse_u64_chars, trim_chars};

#[test]
fn trim_agrees_with_std() {
    for s in ["", "  a b  ", "\t\n x \r\u{b}\u{c}", "\u{85}y\u{a0}", "\u{2000}\u{200a}z\u{3000}", "\u{200b}q", "\u{1680}\u{2028}\u{2029}\u{202f}\u{205f}", "x"] {
        let chars: Vec<char> = s.chars().collect();
        let ours: String = trim_chars(&chars).into_iter().collect();
        assert_eq!(ours, s.trim(), "{s:?}");
    }
}

#[test]
fn parse_agrees_with_std() {
    for s in ["", "0", "+", "+1", "-1", "-0", "007", "18446744073709551615", "18446744073709551616", "99999999999999999999999", "1a", " 1", "１"] {
        let chars: Vec<char> = s.chars().collect();
        assert_eq!(parse_u64_chars(&chars), s.parse::<u64>().ok(), "{s:?}");
    }
}
