use elba::ipkg::{parse_items, valid_name_char, Ipkg, IpkgError, IpkgItem};

#[test]
fn test_parse() {
    let input = r#"
package idris-maths 

{- This
    is a
comment
-}
{- This is a comment too-}

    sourcedir= src
-- comment
opts="--quiet"  -- comment
modules =
NumOps
        , Test , Test.Test1

tests = Test.testDouble
    , Test.testTriple
"#;

    let items = parse_items(input).unwrap();
    let expected = vec![
        IpkgItem::PackageName("idris-maths".to_owned()),
        IpkgItem::Vec("sourcedir".to_owned(), vec!["src".to_owned()]),
        IpkgItem::Vec("opts".to_owned(), vec!["--quiet".to_owned()]),
        IpkgItem::Vec(
            "modules".to_owned(),
            vec![
                "NumOps".to_owned(),
                "Test".to_owned(),
                "Test.Test1".to_owned(),
            ],
        ),
        IpkgItem::Vec(
            "tests".to_owned(),
            vec!["Test.testDouble".to_owned(), "Test.testTriple".to_owned()],
        ),
    ];
    assert_eq!(items, expected);
}

#[test]
fn ipkg_fields_from_items() {
    let input = "package maths\nsourcedir = src\nmodules = A, B.C\nmain = Main\nexecutable = run\nbrief = \"first\", \"second\"\n";
    let d = Ipkg::from_str(input).unwrap();
    assert_eq!(d.name, "maths");
    assert_eq!(d.sourcedir, "src");
    assert_eq!(d.modules, vec!["A".to_owned(), "B.C".to_owned()]);
    assert_eq!(d.main, Some("Main".to_owned()));
    assert_eq!(d.executable, Some("run".to_owned()));
    // A key with one field keeps the last of its values.
    assert_eq!(d.brief, Some("second".to_owned()));
    assert!(d.tests.is_empty());
}

#[test]
fn ipkg_unknown_keys_are_ignored() {
    let d = Ipkg::from_str("package p\ncolour = blue\n").unwrap();
    assert_eq!(d.name, "p");
}

#[test]
fn ipkg_sourcedir_needs_a_value() {
    // `=` followed by nothing that is a value gives an empty list of values.
    assert_eq!(
        Ipkg::from_str("package p\nsourcedir =\n").unwrap_err(),
        IpkgError::MissingSourcedir
    );
}

#[test]
fn ipkg_syntax_errors() {
    assert_eq!(Ipkg::from_str("").unwrap_err(), IpkgError::Syntax);
    assert_eq!(Ipkg::from_str("package").unwrap_err(), IpkgError::Syntax);
    // A trailing comment is not consumed by any item.
    assert!(parse_items("package p\n-- the end\n").is_none());
    // An unterminated multi-line comment.
    assert!(parse_items("{- open\npackage p").is_none());
}

#[test]
fn ipkg_separator_without_value_is_left() {
    // The comma after the last value is left, and then nothing can parse it.
    assert!(parse_items("package p\nmodules = A,\n").is_none());
}

#[test]
fn ipkg_quoted_values_may_hold_anything_but_quotes() {
    let items = parse_items("opts = \"-p base, contrib\"").unwrap();
    assert_eq!(
        items,
        vec![IpkgItem::Vec(
            "opts".to_owned(),
            vec!["-p base, contrib".to_owned()]
        )]
    );
    // An empty quoted value is no value.
    assert_eq!(
        parse_items("opts = \"\"").map(|v| v.len()),
        None
    );
}

#[test]
fn ipkg_name_chars() {
    assert!(valid_name_char('a'));
    assert!(valid_name_char('Z'));
    assert!(valid_name_char('7'));
    assert!(valid_name_char('_'));
    assert!(valid_name_char('-'));
    assert!(!valid_name_char('.'));
    assert!(!valid_name_char('é'));
}
