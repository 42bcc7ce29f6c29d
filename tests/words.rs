use wordle::game_data::{Cursor, Phase};
use wordle::word_list::{parse_word_list, select_secret_word, start_game, StartupError};

fn chars(s: &str) -> Vec<char> {
    s.chars().collect()
}

#[test]
fn empty_word_list_fails_startup() {
    assert_eq!(parse_word_list(b"").err(), Some(StartupError::EmptyWordList));
    assert_eq!(parse_word_list(b"\n\n").err(), Some(StartupError::EmptyWordList));
    assert!(matches!(start_game(b""), Err(StartupError::EmptyWordList)));
    assert_eq!(select_secret_word(&vec![]), Err(StartupError::EmptyWordList));
}

#[test]
fn words_are_read_in_upper_case() {
    let words = parse_word_list(b"crane\nSLATE\n\nTrace\n").unwrap();
    assert_eq!(words, vec![chars("CRANE"), chars("SLATE"), chars("TRACE")]);
}

#[test]
fn malformed_line_is_reported() {
    assert_eq!(parse_word_list(b"crane\ncranes\n").err(), Some(StartupError::MalformedWord(1)));
    assert_eq!(parse_word_list(b"cr4ne").err(), Some(StartupError::MalformedWord(0)));
    assert_eq!(parse_word_list(b"\n\nabc\nslate").err(), Some(StartupError::MalformedWord(2)));
    assert_eq!(parse_word_list(b"crane\r\n").err(), Some(StartupError::MalformedWord(0)));
    assert!(matches!(start_game(b"crane\nxx\n"), Err(StartupError::MalformedWord(1))));
}

#[test]
fn single_word_list_picks_that_word() {
    let w = select_secret_word(&vec![chars("CRANE")]).unwrap();
    assert_eq!(w, chars("CRANE"));
    let g = start_game(b"slate\n").unwrap();
    assert_eq!(g.secret_word(), &chars("SLATE"));
    assert_eq!(g.cursor(), Cursor { row: 0, col: 0 });
    assert_eq!(g.phase(), Phase::Guessing);
}

#[test]
fn secret_word_comes_from_the_list() {
    let words = vec![chars("CRANE"), chars("SLATE"), chars("TRACE")];
    for _ in 0..50 {
        let w = select_secret_word(&words).unwrap();
        assert!(words.contains(&w));
        let g = start_game(b"crane\nslate\ntrace").unwrap();
        assert!(words.contains(g.secret_word()));
    }
}
