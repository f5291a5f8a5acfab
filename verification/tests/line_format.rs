use livechart::line::{char_is_whitespace, parse_line, parse_reading, trim_bounds, LineOutcome};

fn chars(s: &str) -> Vec<char> {
    s.chars().collect()
}

/// What the standard library makes of the same line.
fn by_std(line: &str) -> LineOutcome {
    let text = line.trim();
    if text.is_empty() {
        LineOutcome::Blank
    } else {
        match text.parse::<i32>() {
            Ok(v) => LineOutcome::Value(v),
            Err(_) => LineOutcome::Malformed,
        }
    }
}

#[test]
fn plain_numbers_are_readings() {
    assert_eq!(parse_line("10"), LineOutcome::Value(10));
    assert_eq!(parse_line("0"), LineOutcome::Value(0));
    assert_eq!(parse_line("-7"), LineOutcome::Value(-7));
    assert_eq!(parse_line("+42"), LineOutcome::Value(42));
    assert_eq!(parse_line("007"), LineOutcome::Value(7));
    assert_eq!(parse_line("-0"), LineOutcome::Value(0));
}

#[test]
fn surrounding_white_space_is_ignored() {
    assert_eq!(parse_line("10\n"), LineOutcome::Value(10));
    assert_eq!(parse_line("  \t-15\r\n"), LineOutcome::Value(-15));
    assert_eq!(parse_line("\u{a0}23\u{3000}"), LineOutcome::Value(23));
    assert_eq!(parse_line("\u{2003}\u{85}5\u{2028}\u{2029}"), LineOutcome::Value(5));
}

#[test]
fn lines_of_white_space_are_blank() {
    assert_eq!(parse_line(""), LineOutcome::Blank);
    assert_eq!(parse_line("\n"), LineOutcome::Blank);
    assert_eq!(parse_line(" \t \r\n"), LineOutcome::Blank);
    assert_eq!(parse_line("\u{1680}\u{205f}\u{202f}"), LineOutcome::Blank);
}

#[test]
fn other_text_is_malformed() {
    assert_eq!(parse_line("abc"), LineOutcome::Malformed);
    assert_eq!(parse_line("12a"), LineOutcome::Malformed);
    assert_eq!(parse_line("1 2"), LineOutcome::Malformed);
    assert_eq!(parse_line("+"), LineOutcome::Malformed);
    assert_eq!(parse_line("-"), LineOutcome::Malformed);
    assert_eq!(parse_line("+-5"), LineOutcome::Malformed);
    assert_eq!(parse_line("--5"), LineOutcome::Malformed);
    assert_eq!(parse_line("5-"), LineOutcome::Malformed);
    assert_eq!(parse_line("1.5"), LineOutcome::Malformed);
    assert_eq!(parse_line("1_000"), LineOutcome::Malformed);
    assert_eq!(parse_line("0x10"), LineOutcome::Malformed);
    assert_eq!(parse_line("\u{661}\u{662}"), LineOutcome::Malformed);
    assert_eq!(parse_line("\u{180e}7"), LineOutcome::Malformed);
    assert_eq!(parse_line("\u{200b}7"), LineOutcome::Malformed);
}

#[test]
fn readings_end_at_the_limits_of_32_bits() {
    assert_eq!(parse_line("2147483647"), LineOutcome::Value(i32::MAX));
    assert_eq!(parse_line("-2147483648"), LineOutcome::Value(i32::MIN));
    assert_eq!(parse_line("+2147483647"), LineOutcome::Value(i32::MAX));
    assert_eq!(parse_line("2147483648"), LineOutcome::Malformed);
    assert_eq!(parse_line("-2147483649"), LineOutcome::Malformed);
    assert_eq!(parse_line("21474836470"), LineOutcome::Malformed);
    assert_eq!(parse_line("99999999999999999999999999999999"), LineOutcome::Malformed);
    assert_eq!(parse_line("-99999999999999999999999999999999"), LineOutcome::Malformed);
    assert_eq!(
        parse_line("000000000000000000000000000000002147483647"),
        LineOutcome::Value(i32::MAX)
    );
    assert_eq!(
        parse_line("-000000000000000000000000000000002147483648"),
        LineOutcome::Value(i32::MIN)
    );
    assert_eq!(parse_line("99999999999x"), LineOutcome::Malformed);
}

#[test]
fn white_space_is_what_unicode_says() {
    let mut code: u32 = 0;
    while code <= 0x10ffff {
        if let Some(c) = char::from_u32(code) {
            assert_eq!(char_is_whitespace(c), c.is_whitespace(), "U+{:04X}", code);
        }
        code += 1;
    }
}

#[test]
fn trim_bounds_mark_the_trimmed_text() {
    assert_eq!(trim_bounds(&chars("  12 ")), (2, 4));
    assert_eq!(trim_bounds(&chars("12")), (0, 2));
    assert_eq!(trim_bounds(&chars("")), (0, 0));
    assert_eq!(trim_bounds(&chars("   ")), (3, 3));
    assert_eq!(trim_bounds(&chars(" a b ")), (1, 4));
    for s in ["", " ", "x", " x", "x ", "\t1 2\n", "\u{a0}\u{a0}", "a\u{3000}"] {
        let cs = chars(s);
        let (start, end) = trim_bounds(&cs);
        let text: String = cs[start..end].iter().collect();
        assert_eq!(text, s.trim());
    }
}

#[test]
fn parse_reading_reads_a_part_of_the_text() {
    let cs = chars("ab-12cd");
    assert_eq!(parse_reading(&cs, 2, 5), Some(-12));
    assert_eq!(parse_reading(&cs, 3, 5), Some(12));
    assert_eq!(parse_reading(&cs, 2, 3), None);
    assert_eq!(parse_reading(&cs, 2, 2), None);
    assert_eq!(parse_reading(&cs, 0, 7), None);
    assert_eq!(parse_reading(&cs, 3, 6), None);
}

#[test]
fn parse_line_agrees_with_the_standard_library() {
    let pieces = ["", " ", "\t", "\n", "+", "-", "0", "1", "9", "a", "_", ".", "\u{a0}", "21474836"];
    for a in pieces {
        for b in pieces {
            for c in pieces {
                for d in pieces {
                    let line = format!("{}{}{}{}", a, b, c, d);
                    assert_eq!(parse_line(&line), by_std(&line), "{:?}", line);
                }
            }
        }
    }
    for n in [0i64, 1, -1, 2147483646, 2147483647, 2147483648, -2147483647, -2147483648, -2147483649] {
        let line = format!(" {}\r\n", n);
        assert_eq!(parse_line(&line), by_std(&line), "{:?}", line);
    }
}
