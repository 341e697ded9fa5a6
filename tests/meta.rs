use cyborg::meta::IntError;
use cyborg::{Format, FormatError, Meta, MetaError};

#[test]
fn test_from_string() -> Result<(), MetaError> {
    let cases = [
        (
            "Simple 001.cbr",
            Meta {
                series: "Simple".into(),
                number: Some(1),
                suffix: None,
                of: None,
                title: None,
                year: None,
                tags: vec![],
                format: Format::Cbr,
            },
        ),
        (
            "Year 090 (2024).cbt",
            Meta {
                series: "Year".into(),
                number: Some(90),
                suffix: None,
                of: None,
                title: None,
                year: Some(2024),
                tags: vec![],
                format: Format::Cbt,
            },
        ),
        (
            "Dashed - Series-Name 10.cbz",
            Meta {
                series: "Dashed - Series-Name".into(),
                number: Some(10),
                suffix: None,
                of: None,
                title: None,
                year: None,
                tags: vec![],
                format: Format::Cbz,
            },
        ),
        (
            "Tagged (Simple) (Over-Complicated Tag).cbr",
            Meta {
                series: "Tagged".into(),
                number: None,
                suffix: None,
                of: None,
                title: None,
                year: None,
                tags: vec!["Simple".into(), "Over-Complicated Tag".into()],
                format: Format::Cbr,
            },
        ),
        (
            "Year Tagged (2024) (Simple) (Over-Complicated Tag).cbt",
            Meta {
                series: "Year Tagged".into(),
                number: None,
                suffix: None,
                of: None,
                title: None,
                year: Some(2024),
                tags: vec!["Simple".into(), "Over-Complicated Tag".into()],
                format: Format::Cbt,
            },
        ),
        (
            "Special-characters - + & (x) (10) (+) '99 020.cbz",
            Meta {
                series: "Special-characters - + & (x) (10) (+) '99".into(),
                number: Some(20),
                suffix: None,
                of: None,
                title: None,
                year: None,
                tags: vec![],
                format: Format::Cbz,
            },
        ),
        (
            "Limited #01 of #02 (2020) (Tag).cbr",
            Meta {
                series: "Limited".into(),
                number: Some(1),
                suffix: None,
                of: Some(2),
                title: None,
                year: Some(2020),
                tags: vec!["Tag".into()],
                format: Format::Cbr,
            },
        ),
        (
            "Limited #02 (OF #03).cbt",
            Meta {
                series: "Limited".into(),
                number: Some(2),
                suffix: None,
                of: Some(3),
                title: None,
                year: None,
                tags: vec![],
                format: Format::Cbt,
            },
        ),
        (
            "Limited 003 OF #4.cbz",
            Meta {
                series: "Limited".into(),
                number: Some(3),
                suffix: None,
                of: Some(4),
                title: None,
                year: None,
                tags: vec![],
                format: Format::Cbz,
            },
        ),
        (
            "Limited 004 (of 5).cbr",
            Meta {
                series: "Limited".into(),
                number: Some(4),
                suffix: None,
                of: Some(5),
                title: None,
                year: None,
                tags: vec![],
                format: Format::Cbr,
            },
        ),
        (
            "Series With 001 Issue Name (2023).cbt",
            Meta {
                series: "Series With".into(),
                number: Some(1),
                suffix: None,
                of: None,
                title: Some("Issue Name".into()),
                year: Some(2023),
                tags: vec![],
                format: Format::Cbt,
            },
        ),
        (
            "With.Dots 001.cbr",
            Meta {
                series: "With.Dots".into(),
                number: Some(1),
                suffix: None,
                of: None,
                title: None,
                year: None,
                tags: vec![],
                format: Format::Cbr,
            },
        ),
        (
            "With Suffix 001X (2023).cbt",
            Meta {
                series: "With Suffix".into(),
                number: Some(1),
                suffix: Some("X".into()),
                of: None,
                title: None,
                year: Some(2023),
                tags: vec![],
                format: Format::Cbt,
            },
        ),
    ];

    for (input, expected) in cases {
        let meta: Meta = input.parse()?;
        assert_eq!(meta, expected);
    }

    Ok(())
}

fn meta(series: &str, number: Option<usize>, format: Format) -> Meta {
    Meta {
        series: series.into(),
        number,
        suffix: None,
        of: None,
        title: None,
        year: None,
        tags: vec![],
        format,
    }
}

#[test]
fn simple_name_parses_to_series_and_number() {
    let m = Meta::parse("Simple 001.cbr").unwrap();
    assert_eq!(m, meta("Simple", Some(1), Format::Cbr));
}

#[test]
fn limited_series_with_year_and_tag() {
    let m = Meta::parse("Limited #01 of #02 (2020) (Tag).cbr").unwrap();
    assert_eq!(m.number, Some(1));
    assert_eq!(m.of, Some(2));
    assert_eq!(m.year, Some(2020));
    assert_eq!(m.tags, vec!["Tag".to_string()]);
}

#[test]
fn tags_without_number() {
    let m = Meta::parse("Tagged (Simple) (Over-Complicated Tag).cbr").unwrap();
    assert_eq!(m.number, None);
    assert_eq!(m.suffix, None);
    assert_eq!(m.of, None);
    assert_eq!(m.title, None);
    assert_eq!(m.tags, vec!["Simple".to_string(), "Over-Complicated Tag".to_string()]);
}

#[test]
fn tags_are_trimmed_and_blank_ones_dropped() {
    let m = Meta::parse("Series ( a b ) ( )(c).cbz").unwrap();
    assert_eq!(m.series, "Series");
    assert_eq!(m.tags, vec!["a b".to_string(), "c".to_string()]);
}

#[test]
fn adjacent_group_after_year_is_a_tag() {
    let m = Meta::parse("A (2020)(x).cbr").unwrap();
    assert_eq!(m.year, None);
    assert_eq!(m.tags, vec!["2020".to_string(), "x".to_string()]);
}

#[test]
fn format_is_case_insensitive() {
    let m = Meta::parse("Upper 002.CBZ").unwrap();
    assert_eq!(m.format, Format::Cbz);
    let m = Meta::parse("Mixed 002.cB7").unwrap();
    assert_eq!(m.format, Format::Cb7);
}

#[test]
fn unknown_extension_does_not_match() {
    assert_eq!(Meta::parse("Simple 001.pdf"), Err(MetaError::GetCaptures));
    assert_eq!(Meta::parse("Simple 001.cbx"), Err(MetaError::GetCaptures));
    assert_eq!(Meta::parse(".cbr"), Err(MetaError::GetCaptures));
    assert_eq!(Meta::parse(""), Err(MetaError::GetCaptures));
    assert_eq!(Meta::parse("Bad/Name 001.cbr"), Err(MetaError::GetCaptures));
}

#[test]
fn number_too_large_is_an_error() {
    let name = "Big 99999999999999999999999.cbr";
    assert_eq!(Meta::parse(name), Err(MetaError::ParseNumber(IntError::Overflow)));
}

#[test]
fn count_too_large_is_an_error() {
    let name = "Big 1 of 99999999999999999999999.cbr";
    assert_eq!(Meta::parse(name), Err(MetaError::ParseOf(IntError::Overflow)));
}

#[test]
fn title_whitespace_before_extension() {
    let m = Meta::parse("A 1  .cbr").unwrap();
    assert_eq!(m.number, Some(1));
    assert_eq!(m.title, Some(" ".to_string()));
}

#[test]
fn of_clause_that_fails_becomes_title() {
    let m = Meta::parse("X 1 of 3x.cbr").unwrap();
    assert_eq!(m.of, None);
    assert_eq!(m.title, Some("of 3x".to_string()));
}

#[test]
fn non_ascii_letters_are_word_characters() {
    let m = Meta::parse("Astérix 007é.cbz").unwrap();
    assert_eq!(m.series, "Astérix");
    assert_eq!(m.number, Some(7));
    assert_eq!(m.suffix, Some("é".to_string()));
}

#[test]
fn render_pads_number_and_lowercases_format() {
    let m = Meta {
        series: "Limited".into(),
        number: Some(1),
        suffix: Some("A".into()),
        of: Some(2),
        title: Some("The Title".into()),
        year: Some(2020),
        tags: vec!["Tag".into(), "Other".into()],
        format: Format::Cbr,
    };
    assert_eq!(m.render(), "Limited 001A of 2 The Title (2020) (Tag) (Other).cbr");
    assert_eq!(meta("Big", Some(1234), Format::Cbz).render(), "Big 1234.cbz");
    assert_eq!(meta("Two", Some(42), Format::Cbt).render(), "Two 042.cbt");
    assert_eq!(meta("None", None, Format::Cb7).render(), "None.cb7");
}

#[test]
fn render_of_any_record_succeeds() {
    let m = Meta {
        series: String::new(),
        number: None,
        suffix: Some("odd".into()),
        of: Some(0),
        title: None,
        year: Some(0),
        tags: vec![String::new()],
        format: Format::Cbz,
    };
    assert_eq!(m.render(), "odd of 0 (0) ().cbz");
}

#[test]
fn round_trip_normalizes_once() {
    let names = [
        "Limited #01 of #02 (2020) (Tag).cbr",
        "Limited #02 (OF #03).cbt",
        "Series With 1 Issue Name (2023).CBT",
        "Tagged ( Simple )  (Other).cbr",
        "With Suffix 001X (2023).cbt",
    ];
    for name in names {
        let first = Meta::parse(name).unwrap();
        let canonical = first.render();
        let second = Meta::parse(&canonical).unwrap();
        assert_eq!(second, first);
        assert_eq!(second.render(), canonical);
    }
}

#[test]
fn format_parses_and_renders() {
    assert_eq!(Format::parse("CBR"), Ok(Format::Cbr));
    assert_eq!(Format::parse("cbt"), Ok(Format::Cbt));
    assert_eq!(Format::parse("Cb7"), Ok(Format::Cb7));
    assert_eq!(Format::parse("zip"), Err(FormatError));
    assert_eq!(Format::parse("cbzz"), Err(FormatError));
    assert_eq!(Format::Cbz.as_str(), "cbz");
    let f: Format = "cBz".parse().unwrap();
    assert_eq!(f, Format::Cbz);
}

#[test]
fn non_ascii_whitespace_separates_number() {
    let m = Meta::parse("Series\u{00A0}001.cbr").unwrap();
    assert_eq!(m.series, "Series");
    assert_eq!(m.number, Some(1));
}

#[test]
fn non_ascii_symbol_is_not_a_series_character() {
    assert_eq!(Meta::parse("Price € 001.cbr"), Err(MetaError::GetCaptures));
}

#[test]
fn series_takes_shortest_extent() {
    let m = Meta::parse("A 5 B 2.cbr").unwrap();
    assert_eq!(m.series, "A");
    assert_eq!(m.number, Some(5));
    assert_eq!(m.title, Some("B 2".to_string()));
}

#[test]
fn canonical_names_are_fixed_points() {
    let names = [
        "Simple 001.cbr",
        "Limited 001X of 12 The End (2021) (Digital) (Scan Group).cbz",
        "One-Shot (1999) (c2c).cb7",
        "Dashed - Series-Name 010.cbz",
        "Series With 001 Issue Name (2023).cbt",
    ];
    for name in names {
        let m = Meta::parse(name).unwrap();
        assert_eq!(m.render(), name);
    }
}

#[test]
fn digits_of_other_scripts_are_malformed_numbers() {
    assert_eq!(
        Meta::parse("Simple \u{0661}.cbr"),
        Err(MetaError::ParseNumber(IntError::InvalidDigit))
    );
    assert_eq!(
        Meta::parse("Simple 1 of \u{0663}.cbr"),
        Err(MetaError::ParseOf(IntError::InvalidDigit))
    );
    assert_eq!(
        Meta::parse("Simple (\u{0662}\u{0660}\u{0662}\u{0660}).cbr"),
        Err(MetaError::ParseYear(IntError::InvalidDigit))
    );
}

#[test]
fn overflow_before_a_malformed_digit_is_an_overflow() {
    let name = "Big 99999999999999999999999\u{0661}.cbr";
    assert_eq!(Meta::parse(name), Err(MetaError::ParseNumber(IntError::Overflow)));
}

#[test]
fn combining_marks_are_word_characters() {
    let m = Meta::parse("Cafe\u{0301} 001.cbr").unwrap();
    assert_eq!(m.series, "Cafe\u{0301}");
    assert_eq!(m.number, Some(1));
}

#[test]
fn vulgar_fractions_are_not_word_characters() {
    assert_eq!(Meta::parse("Half\u{00BD} 001.cbr"), Err(MetaError::GetCaptures));
}
