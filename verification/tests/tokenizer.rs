use ldraw_parts::command::{BFCDirection, Color, HistoryDate, LDrawCommand, LDrawType, Scalar, Vector};
use ldraw_parts::grammar::DecodeError;
use ldraw_parts::tokenizer::{history_entry, tokenize_date, tokenize_file, tokenize_line};

fn lines(text: &[&str]) -> Vec<String> {
    text.iter().map(|l| l.to_string()).collect()
}

fn chars(text: &str) -> Vec<char> {
    text.chars().collect()
}

fn vector(x: &str, y: &str, z: &str) -> Vector {
    Vector {
        x: Scalar::new(x).unwrap(),
        y: Scalar::new(y).unwrap(),
        z: Scalar::new(z).unwrap(),
    }
}

#[test]
fn name_line_gives_name() {
    assert_eq!(
        tokenize_line("0 Name: 3001.dat", 1),
        Ok(Some(LDrawCommand::Name("3001.dat".to_string())))
    );
}

#[test]
fn name_line_turns_backslashes() {
    assert_eq!(
        tokenize_line("0 Name: s\\3001s01.dat", 1),
        Ok(Some(LDrawCommand::Name("s/3001s01.dat".to_string())))
    );
}

#[test]
fn author_line_with_handle() {
    assert_eq!(
        tokenize_line("0 Author: John Doe [jdoe]", 2),
        Ok(Some(LDrawCommand::Author("John Doe".to_string(), Some("jdoe".to_string()))))
    );
}

#[test]
fn author_line_without_handle() {
    assert_eq!(
        tokenize_line("0 Author: Jane Smith", 2),
        Ok(Some(LDrawCommand::Author("Jane Smith".to_string(), None)))
    );
}

#[test]
fn certify_ccw() {
    assert_eq!(
        tokenize_line("0 BFC CERTIFY CCW", 5),
        Ok(Some(LDrawCommand::BFCCertification(Some(BFCDirection::CCW))))
    );
}

#[test]
fn certify_cw() {
    assert_eq!(
        tokenize_line("0 BFC CERTIFY CW", 5),
        Ok(Some(LDrawCommand::BFCCertification(Some(BFCDirection::CW))))
    );
}

#[test]
fn certify_without_winding() {
    assert_eq!(tokenize_line("0 BFC CERTIFY", 5), Ok(Some(LDrawCommand::BFCCertification(None))));
    assert_eq!(
        tokenize_line("0 BFC CERTIFY sideways", 5),
        Ok(Some(LDrawCommand::BFCCertification(None)))
    );
}

#[test]
fn nocertify() {
    assert_eq!(tokenize_line("0 BFC NOCERTIFY", 5), Ok(Some(LDrawCommand::BFCCertification(None))));
}

#[test]
fn other_bfc_is_comment() {
    assert_eq!(tokenize_line("0 BFC INVERTNEXT", 5), Ok(Some(LDrawCommand::Comment)));
}

#[test]
fn unknown_meta_is_comment() {
    assert_eq!(tokenize_line("0 // a remark", 7), Ok(Some(LDrawCommand::Comment)));
}

#[test]
fn first_line_is_title() {
    let got = tokenize_file(&lines(&["0 some text", "0 Name: x.dat"])).unwrap();
    assert_eq!(
        got,
        vec![
            LDrawCommand::Title("some text".to_string()),
            LDrawCommand::Name("x.dat".to_string())
        ]
    );
}

#[test]
fn first_line_is_title_even_with_keyword() {
    assert_eq!(
        tokenize_line("0 Name: x.dat", 0),
        Ok(Some(LDrawCommand::Title("Name: x.dat".to_string())))
    );
    assert_eq!(
        tokenize_line("0   BFC   CERTIFY  CCW ", 0),
        Ok(Some(LDrawCommand::Title("BFC CERTIFY CCW".to_string())))
    );
}

#[test]
fn first_line_without_type_is_dropped() {
    let got = tokenize_file(&lines(&["anything at all", "0 Name: x.dat"])).unwrap();
    assert_eq!(got, vec![LDrawCommand::Name("x.dat".to_string())]);
}

#[test]
fn blank_lines_give_nothing() {
    assert_eq!(tokenize_line("", 3), Ok(None));
    assert_eq!(tokenize_line("   \t  ", 3), Ok(None));
    assert_eq!(tokenize_line("0", 3), Ok(None));
    assert_eq!(tokenize_line("  3 ", 3), Ok(None));
    assert_eq!(tokenize_line("\u{3000}x\u{a0}", 3), Ok(None));
    let got = tokenize_file(&lines(&["", " ", "0", "\t1\t", "x"])).unwrap();
    assert_eq!(got, vec![]);
}

#[test]
fn unknown_line_type_is_dropped() {
    assert_eq!(tokenize_line("7 1 2 3", 3), Ok(None));
    assert_eq!(tokenize_line("00 Name: x.dat", 3), Ok(None));
}

#[test]
fn license_line() {
    assert_eq!(
        tokenize_line(
            "0 !LICENSE Redistributable under CCAL version 2.0 : see CAreadme.txt",
            4
        ),
        Ok(Some(LDrawCommand::License(
            "Redistributable under CCAL version 2.0".to_string(),
            "CAreadme.txt".to_string()
        )))
    );
}

#[test]
fn short_license_line() {
    assert_eq!(
        tokenize_line("0 !LICENSE a b", 4),
        Ok(Some(LDrawCommand::License("".to_string(), "b".to_string())))
    );
}

#[test]
fn ldraw_org_line() {
    assert_eq!(
        tokenize_line("0 !LDRAW_ORG Part UPDATE 2004-03", 3),
        Ok(Some(LDrawCommand::LDrawOrg(LDrawType::Part)))
    );
    assert_eq!(
        tokenize_line("0 !LDRAW_ORG Unofficial_48_Primitive", 3),
        Ok(Some(LDrawCommand::LDrawOrg(LDrawType::UnofficialPrimitive48)))
    );
}

#[test]
fn ldraw_type_table() {
    let table = [
        ("Part", LDrawType::Part),
        ("Subpart", LDrawType::Subpart),
        ("Primitive", LDrawType::Primitive),
        ("8_Primitive", LDrawType::Primitive8),
        ("48_Primitive", LDrawType::Primitive48),
        ("Shortcut", LDrawType::Shortcut),
        ("Unofficial_Part", LDrawType::UnofficialPart),
        ("Unofficial_Subpart", LDrawType::UnofficialSubpart),
        ("Unofficial_Primitive", LDrawType::UnofficialPrimitive),
        ("Unofficial_8_Primitive", LDrawType::UnofficialPrimitive8),
        ("Unofficial_48_Primitive", LDrawType::UnofficialPrimitive48),
        ("Unofficial_Shortcut", LDrawType::UnofficialShortcut),
    ];
    for (name, kind) in table {
        assert_eq!(LDrawType::from_str(name), Ok(kind));
    }
    assert_eq!(LDrawType::from_str("part"), Err(()));
    assert_eq!(BFCDirection::from_str("CW"), Ok(BFCDirection::CW));
    assert_eq!(BFCDirection::from_str("CCW"), Ok(BFCDirection::CCW));
    assert_eq!(BFCDirection::from_str("ccw"), Err(()));
}

#[test]
fn unknown_ldraw_org_is_an_error() {
    assert_eq!(tokenize_line("0 !LDRAW_ORG Model", 3), Err(DecodeError::UnknownLDrawOrgType));
    assert_eq!(tokenize_line("0 !LDRAW_ORG", 3), Err(DecodeError::UnknownLDrawOrgType));
}

#[test]
fn category_line() {
    assert_eq!(
        tokenize_line("0 !CATEGORY Brick extra", 3),
        Ok(Some(LDrawCommand::Category("Brick".to_string())))
    );
}

#[test]
fn keywords_line_strips_commas() {
    assert_eq!(
        tokenize_line("0 !KEYWORDS castle, wall,, tower", 3),
        Ok(Some(LDrawCommand::Keywords(vec![
            "castle".to_string(),
            "wall".to_string(),
            "tower".to_string()
        ])))
    );
}

#[test]
fn history_line() {
    assert_eq!(
        tokenize_line("0 !HISTORY 2004-03-15 [jdoe] Made BFC compliant", 9),
        Ok(Some(LDrawCommand::History(
            HistoryDate { year: 2004, month: 3, day: 15 },
            Some("jdoe".to_string()),
            "Made BFC compliant".to_string()
        )))
    );
}

#[test]
fn history_line_without_handle_drops_second_token() {
    assert_eq!(
        tokenize_line("0 !HISTORY 2010-12-31 {LEGO} Official update", 9),
        Ok(Some(LDrawCommand::History(
            HistoryDate { year: 2010, month: 12, day: 31 },
            None,
            "Official update".to_string()
        )))
    );
}

#[test]
fn history_with_bad_date_is_an_error() {
    assert_eq!(
        tokenize_line("0 !HISTORY 2004-13-15 [jdoe] text", 9),
        Err(DecodeError::MalformedHistoryDate)
    );
    assert_eq!(
        tokenize_line("0 !HISTORY yesterday [jdoe] text", 9),
        Err(DecodeError::MalformedHistoryDate)
    );
    assert_eq!(tokenize_line("0 !HISTORY", 9), Err(DecodeError::MalformedHistoryDate));
}

#[test]
fn date_is_read_not_handed_back() {
    assert_eq!(
        tokenize_date(&chars("1999-02-28")),
        Some(HistoryDate { year: 1999, month: 2, day: 28 })
    );
    assert_eq!(tokenize_date(&chars("1999-02-30")), None);
}

#[test]
fn history_entry_for_each_date() {
    let tokens = vec![chars("0"), chars("!HISTORY"), chars("x"), chars("[me]"), chars("a"), chars("b")];
    assert_eq!(
        history_entry(Some(HistoryDate { year: 1, month: 2, day: 3 }), &tokens, 2),
        Ok(LDrawCommand::History(
            HistoryDate { year: 1, month: 2, day: 3 },
            Some("me".to_string()),
            "a b".to_string()
        ))
    );
    assert_eq!(history_entry(None, &tokens, 2), Err(DecodeError::MalformedHistoryDate));
}

#[test]
fn triangle_line() {
    assert_eq!(
        tokenize_line("3 16 0 0 0 1 0 0 0 1.5 -2e1", 4),
        Ok(Some(LDrawCommand::Triangle(
            Color { value: 16 },
            vector("0", "0", "0"),
            vector("1", "0", "0"),
            vector("0", "1.5", "-2e1")
        )))
    );
}

#[test]
fn contour_line() {
    assert_eq!(
        tokenize_line("2 24 1 2 3 4 5 6", 4),
        Ok(Some(LDrawCommand::Contour(
            Color { value: 24 },
            vector("1", "2", "3"),
            vector("4", "5", "6")
        )))
    );
}

#[test]
fn quadrilateral_line() {
    assert_eq!(
        tokenize_line("4 7 0 0 0 1 0 0 1 1 0 0 1 0", 4),
        Ok(Some(LDrawCommand::Quadrilateral(
            Color { value: 7 },
            vector("0", "0", "0"),
            vector("1", "0", "0"),
            vector("1", "1", "0"),
            vector("0", "1", "0")
        )))
    );
}

#[test]
fn optional_contour_line() {
    assert_eq!(
        tokenize_line("5 24 0 0 0 1 0 0 1 1 0 0 1 0", 4),
        Ok(Some(LDrawCommand::OptionalContour(
            Color { value: 24 },
            vector("0", "0", "0"),
            vector("1", "0", "0"),
            vector("1", "1", "0"),
            vector("0", "1", "0")
        )))
    );
}

#[test]
fn subfile_reference_line() {
    let got = tokenize_line("1 16 1 2 3 1 0 0 0 1 0 0 0 1 s\\stud.dat", 4).unwrap().unwrap();
    match got {
        LDrawCommand::SubfileReference(color, translation, transform, file, invert) => {
            assert_eq!(color, Color { value: 16 });
            assert_eq!(translation, vector("1", "2", "3"));
            assert_eq!(transform.r0, vector("1", "0", "0"));
            assert_eq!(transform.r1, vector("0", "1", "0"));
            assert_eq!(transform.r2, vector("0", "0", "1"));
            assert_eq!(file, "s/stud.dat");
            assert!(!invert);
        }
        other => panic!("{:?}", other),
    }
}

#[test]
fn geometry_on_first_line_is_geometry() {
    assert_eq!(
        tokenize_line("2 24 1 2 3 4 5 6", 0),
        Ok(Some(LDrawCommand::Contour(
            Color { value: 24 },
            vector("1", "2", "3"),
            vector("4", "5", "6")
        )))
    );
}

#[test]
fn malformed_numbers_are_errors() {
    assert_eq!(tokenize_line("3 16 0 0 0 1 0 0 0 1 x", 4), Err(DecodeError::MalformedNumericField));
    assert_eq!(tokenize_line("3 16 0 0 0 1 0 0 0 1", 4), Err(DecodeError::MalformedNumericField));
    assert_eq!(tokenize_line("3 red 0 0 0 1 0 0 0 1 0", 4), Err(DecodeError::MalformedNumericField));
    assert_eq!(tokenize_line("3 -1 0 0 0 1 0 0 0 1 0", 4), Err(DecodeError::MalformedNumericField));
    assert_eq!(
        tokenize_line("3 4294967296 0 0 0 1 0 0 0 1 0", 4),
        Err(DecodeError::MalformedNumericField)
    );
    assert_eq!(tokenize_line("2 24 1 2 3 4 5", 4), Err(DecodeError::MalformedNumericField));
    assert_eq!(tokenize_line("4 7 0 0 0 1 0 0 1 1 0 0 1 1e", 4), Err(DecodeError::MalformedNumericField));
    assert_eq!(tokenize_line("5 7 0 0 0 1 0 0 1 1 0 0 . 1", 4), Err(DecodeError::MalformedNumericField));
    assert_eq!(
        tokenize_line("1 16 1 2 3 1 0 0 0 1 0 0 0 1", 4),
        Err(DecodeError::MalformedNumericField)
    );
    assert_eq!(
        tokenize_line("1 16 1 2 3 1 0 0 0 one 0 0 0 1 stud.dat", 4),
        Err(DecodeError::MalformedNumericField)
    );
}

#[test]
fn largest_color_is_read() {
    assert_eq!(
        tokenize_line("2 +4294967295 1 2 3 4 5 6", 4),
        Ok(Some(LDrawCommand::Contour(
            Color { value: 4294967295 },
            vector("1", "2", "3"),
            vector("4", "5", "6")
        )))
    );
}

#[test]
fn failure_names_the_line() {
    let err = tokenize_file(&lines(&["0 Title", "", "3 16 0 0 0 1 0 0 0 1 x", "0 !LDRAW_ORG Model"]))
        .unwrap_err();
    assert_eq!(err.kind, DecodeError::MalformedNumericField);
    assert_eq!(err.line_number, 3);
    assert_eq!(err.line, "3 16 0 0 0 1 0 0 0 1 x");
}

#[test]
fn numbers_follow_the_grammar() {
    for good in [
        "0", "-0", "+7", "3.14", "-3.14", "5.", ".5", "2.5E10", "2.5e-10", "1e+3", "inf", "-inf",
        "+infinity", "NaN", "INFINITY", "007",
    ] {
        assert!(Scalar::new(good).is_some(), "{}", good);
        assert_eq!(Scalar::new(good).unwrap().text(), good);
        assert!(good.parse::<f32>().is_ok(), "{}", good);
    }
    for bad in [
        "", "+", "-", ".", "e5", "1e", "1e+", "1.2.3", "1 ", " 1", "0x10", "1_000", "infinit",
        "na", "--1", "1e5.0", "1f", "٣",
    ] {
        assert!(Scalar::new(bad).is_none(), "{}", bad);
        assert!(bad.parse::<f32>().is_err(), "{}", bad);
    }
}
