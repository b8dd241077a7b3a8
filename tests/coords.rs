use life_sim::coords::{coordinates_from_tokens, parse_pair, CoordinateParser};

#[test]
fn finds_coordinates_anywhere() {
    let p = CoordinateParser::new().unwrap();
    assert_eq!(
        p.parse_string_to_coordinates("1,2 3,4 foo 15,6x;7,80\n"),
        vec![(1, 2), (3, 4), (15, 6), (7, 80)]
    );
    assert_eq!(p.parse_string_to_coordinates("no numbers, here 5"), vec![]);
}

#[test]
fn skips_numbers_too_large() {
    let p = CoordinateParser::new().unwrap();
    assert_eq!(
        p.parse_string_to_coordinates("99999999999999999999999,1 2,3"),
        vec![(2, 3)]
    );
}

#[test]
fn pairs_from_tokens() {
    assert_eq!(parse_pair("12,34"), Some((12, 34)));
    assert_eq!(parse_pair("12,"), None);
    assert_eq!(parse_pair("1,2,3"), None);
    assert_eq!(parse_pair("a,2"), None);
    assert_eq!(parse_pair("18446744073709551615,0"), Some((usize::MAX, 0)));
    let tokens = vec!["1,2".to_string(), "x".to_string(), "3,4".to_string()];
    assert_eq!(coordinates_from_tokens(&tokens), vec![(1, 2), (3, 4)]);
}
