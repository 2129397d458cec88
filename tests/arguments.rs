use brdgme_game::error::GameError;
use brdgme_game::parser::{
    arg, cmp_ignore_case, first_match, match_first, non_spaces, quoted_double, quoted_single, to_game_error,
};

#[test]
fn match_first_works() {
    let hay: Vec<(&'static str, usize)> = vec![("EGGBACON", 1), ("EGGcheese", 2)];
    assert_eq!(Ok(&1), match_first("eggb", &hay));
    assert_eq!(Ok(&2), match_first("eggc", &hay));
    assert_eq!(
        Err(GameError::InvalidInput("Ambiguous".to_string())),
        match_first("egg", &hay)
    );
    assert_eq!(
        Err(GameError::InvalidInput("Couldn't find any matching options".to_string())),
        match_first("bacon", &hay)
    );
}

#[test]
fn non_spaces_works() {
    assert_eq!(non_spaces("egg bacon cheese"), Ok(("egg".to_string(), " bacon cheese")));
    assert_eq!(non_spaces("egg\nbacon cheese"), Ok(("egg".to_string(), "\nbacon cheese")));
}

#[test]
fn quoted_single_works() {
    assert_eq!(quoted_single("'egg bacon 'cheese"), Ok(("egg bacon ".to_string(), "cheese")));
}

#[test]
fn quoted_double_works() {
    assert_eq!(quoted_double("\"egg bacon \"cheese"), Ok(("egg bacon ".to_string(), "cheese")));
}

#[test]
fn arg_works() {
    assert_eq!(arg("egg bacon cheese"), Ok(("egg".to_string(), " bacon cheese")));
    assert_eq!(arg("'egg bacon 'cheese"), Ok(("egg bacon ".to_string(), "cheese")));
    assert_eq!(arg("\"egg bacon \"cheese"), Ok(("egg bacon ".to_string(), "cheese")));
}

#[test]
fn argument_failures() {
    assert_eq!(quoted_single("'open"), Err(GameError::InvalidInput("Expected '''".to_string())));
    assert_eq!(quoted_double("x"), Err(GameError::InvalidInput("Expected '\"'".to_string())));
    assert_eq!(non_spaces(" x"), Err(GameError::InvalidInput("Invalid input".to_string())));
    assert_eq!(arg(""), Err(GameError::InvalidInput("Invalid input".to_string())));
}

#[test]
fn game_errors_from_argument_failures() {
    let none: Vec<String> = vec![];
    let exp: Vec<String> = vec!["a".to_string(), "b".to_string(), "c".to_string()];
    assert_eq!(
        to_game_error(&none, &exp),
        GameError::InvalidInput("Expected 'a', 'b' or 'c'".to_string())
    );
    assert_eq!(
        to_game_error(&vec!["bad".to_string(), "worse".to_string()], &exp),
        GameError::InvalidInput("bad\nworse\n".to_string())
    );
    assert_eq!(to_game_error(&none, &none), GameError::InvalidInput("Invalid input".to_string()));
}

#[test]
fn case_folding_of_chars() {
    assert!(cmp_ignore_case('a', 'A'));
    assert!(cmp_ignore_case('Z', 'z'));
    assert!(cmp_ignore_case('7', '7'));
    assert!(!cmp_ignore_case('a', 'b'));
    assert!(!cmp_ignore_case('[', '{'));
}

#[test]
fn match_first_lowers_keys() {
    let hay: Vec<(String, char)> = vec![("Ärger".to_string(), 'a'), ("Zug".to_string(), 'z')];
    assert_eq!(match_first("äR", &hay), Ok(&'a'));
    let keys = vec!["apple".to_string(), "apricot".to_string()];
    assert_eq!(first_match("apr", &keys), Ok(1));
    assert_eq!(first_match("APR", &keys), Err(GameError::InvalidInput("Couldn't find any matching options".to_string())));
}
