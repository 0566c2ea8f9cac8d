use tz_offset_fmt::{
    batch_end, batch_line, extract_offset, normalize, parse_numeric, BatchEnd, BatchState,
    LineReport, Offset, OffsetError, MAX_TOTAL_MINUTES, MIN_TOTAL_MINUTES,
};

#[test]
fn from_minutes_accepts_exactly_the_real_world_range() {
    assert_eq!(MIN_TOTAL_MINUTES, -720);
    assert_eq!(MAX_TOTAL_MINUTES, 840);
    assert_eq!(Offset::from_minutes(-720).unwrap().total_minutes(), -720);
    assert_eq!(Offset::from_minutes(840).unwrap().total_minutes(), 840);
    assert_eq!(Offset::from_minutes(0).unwrap().total_minutes(), 0);
    assert_eq!(Offset::from_minutes(-721), Err(OffsetError::OutOfRange));
    assert_eq!(Offset::from_minutes(841), Err(OffsetError::OutOfRange));
    assert_eq!(Offset::from_minutes(i16::MIN), Err(OffsetError::OutOfRange));
    assert_eq!(Offset::from_minutes(i16::MAX), Err(OffsetError::OutOfRange));
}

#[test]
fn getters_split_the_magnitude() {
    let o = Offset::from_minutes(-570).unwrap();
    assert_eq!(o.hours(), 9);
    assert_eq!(o.minutes(), 30);
    assert!(o.is_negative());
    let o = Offset::from_minutes(345).unwrap();
    assert_eq!(o.hours(), 5);
    assert_eq!(o.minutes(), 45);
    assert!(!o.is_negative());
    let zero = Offset::from_minutes(0).unwrap();
    assert!(!zero.is_negative());
    assert_eq!(zero.hours(), 0);
    assert_eq!(zero.minutes(), 0);
}

#[test]
fn canonical_text_pads_and_signs() {
    assert_eq!(Offset::from_minutes(0).unwrap().to_string(), "+00:00");
    assert_eq!(Offset::from_minutes(5).unwrap().to_string(), "+00:05");
    assert_eq!(Offset::from_minutes(-5).unwrap().to_string(), "-00:05");
    assert_eq!(Offset::from_minutes(840).unwrap().to_string(), "+14:00");
    assert_eq!(Offset::from_minutes(-720).unwrap().to_string(), "-12:00");
    assert_eq!(Offset::from_minutes(-599).unwrap().to_string(), "-09:59");
}

#[test]
fn canonical_text_reparses_for_every_offset() {
    for m in MIN_TOTAL_MINUTES..=MAX_TOTAL_MINUTES {
        let o = Offset::from_minutes(m).unwrap();
        let text = o.to_string();
        assert_eq!(normalize(&text), Ok(o));
        assert_eq!(extract_offset(&text), Ok(o));
    }
}

#[test]
fn error_messages() {
    assert_eq!(OffsetError::Empty.to_string(), "input is empty");
    assert_eq!(
        OffsetError::OutOfRange.to_string(),
        "offset falls outside -12:00..+14:00"
    );
    assert_eq!(
        OffsetError::InvalidHours.to_string(),
        "hour part is too large to be a real offset"
    );
    assert_eq!(
        OffsetError::InvalidMinutes.to_string(),
        "minute part must be between 00 and 59"
    );
    assert_eq!(
        OffsetError::UnrecognizedFormat.to_string(),
        "not a recognized offset or timezone abbreviation"
    );
}

#[test]
fn each_error_has_an_input() {
    assert_eq!(normalize(" \t\n"), Err(OffsetError::Empty));
    assert_eq!(normalize("-13"), Err(OffsetError::OutOfRange));
    assert_eq!(normalize("+15"), Err(OffsetError::InvalidHours));
    assert_eq!(normalize("+0575"), Err(OffsetError::InvalidMinutes));
    assert_eq!(normalize("UTC*5"), Err(OffsetError::UnrecognizedFormat));
}

#[test]
fn minutes_are_checked_before_hours() {
    assert_eq!(normalize("+99:99"), Err(OffsetError::InvalidMinutes));
    assert_eq!(normalize("+99:59"), Err(OffsetError::InvalidHours));
}

#[test]
fn case_of_ascii_letters_does_not_matter() {
    for (a, b) in [("pst", "PST"), ("Utc-3", "uTC-3"), ("gMt+05:30", "GMT+05:30"), ("aKdT", "AKDT")] {
        assert_eq!(normalize(a), normalize(b));
    }
    assert_eq!(normalize("aKdT").unwrap().total_minutes(), -480);
}

#[test]
fn unicode_whitespace_around_the_offset_is_trimmed() {
    assert_eq!(normalize("\u{3000}PST\u{a0}").unwrap().total_minutes(), -480);
    assert_eq!(normalize("\u{2009}+5:30\u{85}").unwrap().total_minutes(), 330);
    assert_eq!(normalize("\u{200b}PST"), Err(OffsetError::UnrecognizedFormat));
}

#[test]
fn utc_and_gmt_prefixes() {
    assert_eq!(normalize("GMT").unwrap().total_minutes(), 0);
    assert_eq!(normalize("gmt-0130").unwrap().total_minutes(), -90);
    assert_eq!(normalize("UTCX"), Err(OffsetError::UnrecognizedFormat));
    assert_eq!(normalize("UTC 5"), Err(OffsetError::UnrecognizedFormat));
    assert_eq!(normalize("UTC+15"), Err(OffsetError::InvalidHours));
}

#[test]
fn numeric_widths() {
    assert_eq!(parse_numeric("+0").unwrap().total_minutes(), 0);
    assert_eq!(parse_numeric("-12").unwrap().total_minutes(), -720);
    assert_eq!(parse_numeric("+945").unwrap().total_minutes(), 585);
    assert_eq!(parse_numeric("-1145").unwrap().total_minutes(), -705);
    assert_eq!(parse_numeric("+12345"), Err(OffsetError::UnrecognizedFormat));
    assert_eq!(parse_numeric("+"), Err(OffsetError::UnrecognizedFormat));
    assert_eq!(parse_numeric(""), Err(OffsetError::UnrecognizedFormat));
    assert_eq!(parse_numeric("5"), Err(OffsetError::UnrecognizedFormat));
    assert_eq!(parse_numeric("+0000000000000005:00007").unwrap().total_minutes(), 307);
    assert_eq!(parse_numeric("+1:32768"), Err(OffsetError::UnrecognizedFormat));
    assert_eq!(parse_numeric("+1:32767"), Err(OffsetError::InvalidMinutes));
    // Lower-case letters are not upper-cased by the numeric reader itself.
    assert_eq!(parse_numeric("+5a"), Err(OffsetError::UnrecognizedFormat));
}

#[test]
fn extract_offset_paths() {
    // The whole text is an offset.
    assert_eq!(extract_offset("  PST ").unwrap().total_minutes(), -480);
    // Z after a digit.
    assert_eq!(extract_offset("10:30Z").unwrap().total_minutes(), 0);
    // Z after a letter is read as a zone token instead, or not at all.
    assert_eq!(extract_offset("abcZ"), Err(OffsetError::UnrecognizedFormat));
    // Token after the last whitespace.
    assert_eq!(extract_offset("10:30 utc+2").unwrap().total_minutes(), 120);
    // Text from the last sign on.
    assert_eq!(extract_offset("10:30:00-0330").unwrap().total_minutes(), -210);
    assert_eq!(extract_offset("10:30 x+0530").unwrap().total_minutes(), 330);
    // The last sign starts something that is not an offset.
    assert_eq!(extract_offset("2024-01-15"), Err(OffsetError::UnrecognizedFormat));
    // An out-of-range tail is still not an offset of the text.
    assert_eq!(extract_offset("10:30+1500"), Err(OffsetError::UnrecognizedFormat));
    // But a bare out-of-range offset keeps its own error only for Empty.
    assert_eq!(extract_offset("\t"), Err(OffsetError::Empty));
}

#[test]
fn extract_agrees_with_normalize_on_bare_offsets() {
    for input in ["UTC", "+5", "-08:00", " cest ", "GMT+5:30", "-12:00", "+14:00", "z"] {
        assert_eq!(extract_offset(input), normalize(input), "input {:?}", input);
    }
}

#[test]
fn extract_offset_ignores_ascii_case() {
    for (a, b) in [
        ("2024-01-15T10:30:00Z", "2024-01-15t10:30:00z"),
        ("Jan 15 2024 10:30:00 GMT-0800", "JAN 15 2024 10:30:00 gmt-0800"),
        ("2024-01-15 10:30:00 pst", "2024-01-15 10:30:00 PsT"),
        ("Just Some Text", "JUST SOME TEXT"),
    ] {
        assert_eq!(extract_offset(a), extract_offset(b), "inputs {:?} and {:?}", a, b);
    }
}

#[test]
fn padding_with_whitespace_changes_nothing() {
    for core in ["PST", "+05:30", "utc-3", "banana", "+15", "-12:01", "+5:"] {
        for (p, q) in [("", ""), (" ", "\t"), ("\n\u{3000}", ""), ("", "\u{a0}\u{2028}")] {
            let padded = format!("{p}{core}{q}");
            assert_eq!(normalize(&padded), normalize(core), "input {:?}", padded);
        }
    }
}

#[test]
fn non_ascii_text_is_refused_not_panicked_on() {
    assert_eq!(normalize("+\u{e9}"), Err(OffsetError::UnrecognizedFormat));
    assert_eq!(normalize("+\u{e9}12"), Err(OffsetError::UnrecognizedFormat));
    assert_eq!(normalize("+\u{e9}5"), Err(OffsetError::UnrecognizedFormat));
    assert_eq!(normalize("+5\u{e9}1"), Err(OffsetError::UnrecognizedFormat));
    assert_eq!(normalize("utc-\u{20ac}1"), Err(OffsetError::UnrecognizedFormat));
    assert_eq!(normalize("+\u{10348}"), Err(OffsetError::UnrecognizedFormat));
    assert_eq!(parse_numeric("+\u{20ac}"), Err(OffsetError::UnrecognizedFormat));
    assert_eq!(parse_numeric("+1\u{20ac}"), Err(OffsetError::UnrecognizedFormat));
    assert_eq!(parse_numeric("-\u{e9}5"), Err(OffsetError::UnrecognizedFormat));
    assert_eq!(
        extract_offset("10:30 \u{e9}+\u{e9}5"),
        Err(OffsetError::UnrecognizedFormat)
    );
}

#[test]
fn extract_offset_reads_the_token_after_any_whitespace() {
    assert_eq!(
        extract_offset("2024-01-15 10:30:00\u{a0}PST").unwrap().total_minutes(),
        -480
    );
    assert_eq!(
        extract_offset("2024-01-15 10:30:00\u{3000}utc+1").unwrap().total_minutes(),
        60
    );
}

#[test]
fn batch_lines_are_reported_one_by_one() {
    let state = BatchState::new();
    assert!(!state.saw_any && !state.had_error);

    let (state, report) = batch_line(state, "   ");
    assert_eq!(state, BatchState::new());
    assert!(matches!(report, LineReport::Skip));

    let (state, report) = batch_line(state, "  UTC+5:30\t");
    assert_eq!(state, BatchState { saw_any: true, had_error: false });
    match report {
        LineReport::Output(text) => assert_eq!(text, "UTC+5:30 -> +05:30"),
        other => panic!("unexpected report {:?}", other),
    }

    let (state, report) = batch_line(state, "bogus");
    assert_eq!(state, BatchState { saw_any: true, had_error: true });
    match report {
        LineReport::ErrorOutput(text) => assert_eq!(
            text,
            "bogus -> error: not a recognized offset or timezone abbreviation"
        ),
        other => panic!("unexpected report {:?}", other),
    }

    // A bad line does not stop the batch, and is not forgotten.
    let (state, report) = batch_line(state, "-0800");
    assert_eq!(state, BatchState { saw_any: true, had_error: true });
    match report {
        LineReport::Output(text) => assert_eq!(text, "-0800 -> -08:00"),
        other => panic!("unexpected report {:?}", other),
    }
    assert_eq!(batch_end(state), BatchEnd::Failure);
}

#[test]
fn batch_end_decides_the_outcome() {
    assert_eq!(batch_end(BatchState::new()), BatchEnd::Usage);
    assert_eq!(
        batch_end(BatchState { saw_any: false, had_error: true }),
        BatchEnd::Usage
    );
    assert_eq!(
        batch_end(BatchState { saw_any: true, had_error: false }),
        BatchEnd::Success
    );
    let (state, _) = batch_line(BatchState::new(), "Z");
    assert_eq!(batch_end(state), BatchEnd::Success);
    let (state, _) = batch_line(BatchState::new(), "\u{a0}");
    assert_eq!(batch_end(state), BatchEnd::Usage);
    let (state, report) = batch_line(BatchState::new(), "+99:99");
    match report {
        LineReport::ErrorOutput(text) => assert_eq!(
            text,
            "+99:99 -> error: minute part must be between 00 and 59"
        ),
        other => panic!("unexpected report {:?}", other),
    }
    assert_eq!(batch_end(state), BatchEnd::Failure);
}

#[test]
fn sign_symmetry_of_numeric_offsets() {
    for r in ["12", "12:01", "5:30", "13", "15", "5:60", "", "\u{e9}5", "1:2:3"] {
        let minus = parse_numeric(&format!("-{r}"));
        let plus = parse_numeric(&format!("+{r}"));
        match (minus, plus) {
            (Ok(m), Ok(p)) => assert_eq!(p.total_minutes(), -m.total_minutes()),
            (Err(OffsetError::OutOfRange), _) | (_, Err(OffsetError::OutOfRange)) => {}
            (m, p) => assert_eq!(m, p, "text {:?}", r),
        }
    }
}

#[test]
fn utc_and_gmt_in_front_of_a_signed_offset_change_nothing() {
    for n in ["+5", "-08:00", "+0530", "+15", "-12:01", "+5:", "+\u{e9}5 "] {
        for p in ["UTC", "GMT", "utc", "gMt"] {
            assert_eq!(normalize(&format!("{p}{n}")), normalize(n), "{p}{n}");
        }
    }
}

#[test]
fn from_minutes_of_total_minutes_is_the_same_offset() {
    for m in [-720, -1, 0, 1, 840] {
        let o = Offset::from_minutes(m).unwrap();
        assert_eq!(Offset::from_minutes(o.total_minutes()), Ok(o));
    }
}

#[test]
fn datetime_text_before_a_signed_offset_is_ignored() {
    for d in ["2024-01-15T10:30:00", "9999-99-99T99:99:99", "1", "20.5"] {
        for n in ["+05:30", "-0800", "+15", "-12:01", "+5:", "+"] {
            let expected = normalize(n).map_err(|_| OffsetError::UnrecognizedFormat);
            assert_eq!(extract_offset(&format!("{d}{n}")), expected, "{d}{n}");
        }
    }
}

#[test]
fn only_the_last_token_counts() {
    for p in ["", "garbage", "2024-01-15 10:30:00", "\u{3000}x", "PST"] {
        for z in ["PST", "+05:30", "UTC-3", "z", "nzdt"] {
            let text = format!("{p} {z}");
            assert_eq!(extract_offset(&text), normalize(z), "{:?}", text);
        }
    }
}
