use jviewson::search::{line_number_label, normalized_query, split_lines, truncate_for_preview};
use jviewson::startup::file_url_path;
use jviewson::text::{decimal_string, to_ascii_lowercase, trim_chars};

const SAMPLES: &[&str] = &[
    "",
    "a",
    "a\r",
    "a\r\nb\r",
    "\r\n",
    "\n\n",
    "x\ny\r\nz",
    "  Hello\tWORLD  ",
    "\u{85}mid\u{2028}",
    "\u{200b}zero width\u{200b}",
    "ÄÖÜ äöü ẞ",
    "tail\n",
];

#[test]
fn split_lines_agrees_with_std() {
    for s in SAMPLES {
        let std_lines: Vec<String> = s.lines().map(str::to_owned).collect();
        assert_eq!(split_lines(s), std_lines, "input {:?}", s);
    }
}

#[test]
fn trim_agrees_with_std() {
    for s in SAMPLES {
        let ours: String = trim_chars(s).into_iter().collect();
        assert_eq!(ours, s.trim(), "input {:?}", s);
    }
    let every_space: String = (0u32..0x3001)
        .filter_map(char::from_u32)
        .filter(|c| c.is_whitespace())
        .collect();
    let ours: String = trim_chars(&format!("{every_space}x{every_space}")).into_iter().collect();
    assert_eq!(ours, "x");
}

#[test]
fn lowercase_agrees_with_std() {
    for s in SAMPLES {
        assert_eq!(to_ascii_lowercase(s), s.to_ascii_lowercase(), "input {:?}", s);
    }
}

#[test]
fn normalized_query_agrees_with_std() {
    for s in SAMPLES {
        let t = s.trim();
        let expected = if t.is_empty() { None } else { Some(t.to_ascii_lowercase()) };
        assert_eq!(normalized_query(s), expected, "input {:?}", s);
    }
}

#[test]
fn decimal_agrees_with_display() {
    for n in [0u128, 7, 10, 99, 100, 12345, u64::MAX as u128, u128::MAX] {
        assert_eq!(decimal_string(n), n.to_string());
    }
}

#[test]
fn line_number_label_agrees_with_format() {
    for i in [0usize, 8, 99, 12345, 999_998, 123_456_789] {
        assert_eq!(line_number_label(i), format!("{:>6} | ", i + 1));
    }
}

#[test]
fn truncation_agrees_with_char_count() {
    let text = "αβγδε".to_string();
    for max in 0..7 {
        let total = text.chars().count();
        let expected = if total <= max {
            text.clone()
        } else {
            let cut: String = text.chars().take(max).collect();
            format!("{cut}\n\n[Preview truncated: showing {max} of {total} characters]")
        };
        assert_eq!(truncate_for_preview(text.clone(), max), expected);
    }
}

#[test]
fn file_url_agrees_with_std_replace() {
    for raw in ["a%20b", "%2%200", "%20%20", "x", "", "//srv/%20"] {
        let arg = format!("file://{raw}");
        assert_eq!(file_url_path(&arg, false), Some(raw.replace("%20", " ")));
        assert_eq!(
            file_url_path(&arg, true),
            Some(raw.trim_start_matches('/').replace("%20", " "))
        );
    }
}
