use wordle::game_data::{
    score_guess, to_upper_char, Action, Cursor, Feedback, GameData, Input, KeyState, Phase,
};

fn chars(s: &str) -> Vec<char> {
    s.chars().collect()
}

fn game(secret: &str) -> GameData {
    GameData::new(chars(secret))
}

fn type_word(g: &mut GameData, word: &str) {
    for c in word.chars() {
        assert_eq!(g.handle_input(Input::Letter(c)), Action::Typed(to_upper_char(c)));
    }
}

fn row_feedback(g: &GameData, row: usize) -> Vec<Feedback> {
    (0..5).map(|c| g.feedback_at(row, c)).collect()
}

#[test]
fn crate_against_crane_scores_four_exact() {
    let mut g = game("CRANE");
    type_word(&mut g, "CRATE");
    assert_eq!(g.handle_input(Input::Enter), Action::Scored(Phase::Guessing));
    assert_eq!(
        row_feedback(&g, 0),
        vec![
            Feedback::ExactMatch,
            Feedback::ExactMatch,
            Feedback::ExactMatch,
            Feedback::Absent,
            Feedback::ExactMatch
        ]
    );
    assert_eq!(g.cursor(), Cursor { row: 1, col: 0 });
    assert_eq!(g.phase(), Phase::Guessing);
}

#[test]
fn crane_against_crane_wins() {
    let mut g = game("CRANE");
    type_word(&mut g, "CRANE");
    assert_eq!(g.handle_input(Input::Enter), Action::Scored(Phase::Won));
    assert_eq!(row_feedback(&g, 0), vec![Feedback::ExactMatch; 5]);
    assert_eq!(g.phase(), Phase::Won);
    assert_eq!(g.handle_input(Input::Letter('A')), Action::Ignored);
    assert_eq!(g.handle_input(Input::Backspace), Action::Ignored);
}

#[test]
fn equal_words_score_all_exact() {
    for w in ["CRANE", "ABCDE", "ZZZZZ", "A", ""] {
        let tags = score_guess(&chars(w), &chars(w));
        assert_eq!(tags, vec![Feedback::ExactMatch; w.len()]);
    }
}

#[test]
fn exact_count_equals_matching_positions() {
    let cases = [("CRANE", "TRACE", 3usize), ("ABCDE", "EDCBA", 1), ("AAAAA", "BBBBB", 0)];
    for (g, s, n) in cases {
        let tags = score_guess(&chars(g), &chars(s));
        let exact = tags.iter().filter(|t| **t == Feedback::ExactMatch).count();
        let same = chars(g).iter().zip(chars(s).iter()).filter(|(a, b)| a == b).count();
        assert_eq!(exact, n);
        assert_eq!(same, n);
    }
}

#[test]
fn repeated_letter_is_present_every_time() {
    let tags = score_guess(&chars("EERIE"), &chars("CRANE"));
    assert_eq!(
        tags,
        vec![
            Feedback::PresentElsewhere,
            Feedback::PresentElsewhere,
            Feedback::PresentElsewhere,
            Feedback::Absent,
            Feedback::ExactMatch
        ]
    );
}

#[test]
fn five_misses_lose_on_the_fifth() {
    let mut g = game("CRANE");
    for row in 0..5 {
        type_word(&mut g, "BOGUS");
        let expected = if row < 4 { Phase::Guessing } else { Phase::Lost };
        assert_eq!(g.handle_input(Input::Enter), Action::Scored(expected));
        assert_eq!(g.phase(), expected);
    }
    assert_eq!(g.cursor(), Cursor { row: 4, col: 4 });
    assert_eq!(g.handle_input(Input::Enter), Action::Ignored);
}

#[test]
fn can_type_follows_the_active_cell() {
    let mut g = game("CRANE");
    assert!(g.can_type());
    for (i, c) in ['A', 'B', 'C', 'D'].iter().enumerate() {
        g.type_char(c);
        assert_eq!(g.cursor(), Cursor { row: 0, col: i + 1 });
        assert!(g.can_type());
    }
    g.type_char(&'E');
    assert_eq!(g.cursor(), Cursor { row: 0, col: 4 });
    assert!(!g.can_type());
    assert_eq!(g.handle_input(Input::Letter('F')), Action::Ignored);
    assert_eq!(g.letter_at(0, 4), 'E');
}

#[test]
fn remove_char_clears_two_cells() {
    let mut g = game("CRANE");
    type_word(&mut g, "ABCDE");
    g.remove_char();
    assert_eq!(g.cursor(), Cursor { row: 0, col: 3 });
    assert_eq!(g.letter_at(0, 3), ' ');
    assert_eq!(g.letter_at(0, 4), ' ');
    assert_eq!(g.letter_at(0, 2), 'C');
    assert!(g.can_type());
}

#[test]
fn backspace_on_first_column_is_ignored() {
    let mut g = game("CRANE");
    assert_eq!(g.handle_input(Input::Backspace), Action::Ignored);
    assert_eq!(g.cursor(), Cursor { row: 0, col: 0 });
    type_word(&mut g, "ab");
    assert_eq!(g.handle_input(Input::Backspace), Action::Erased);
    assert_eq!(g.cursor(), Cursor { row: 0, col: 1 });
    assert_eq!(g.letter_at(0, 0), 'A');
    assert_eq!(g.letter_at(0, 1), ' ');
}

#[test]
fn enter_on_partial_row_is_ignored() {
    let mut g = game("CRANE");
    type_word(&mut g, "CRAN");
    assert_eq!(g.cursor(), Cursor { row: 0, col: 4 });
    assert_eq!(g.handle_input(Input::Enter), Action::Ignored);
    assert_eq!(row_feedback(&g, 0), vec![Feedback::Unevaluated; 5]);
}

#[test]
fn lower_case_is_typed_upper_and_others_ignored() {
    let mut g = game("CRANE");
    assert_eq!(g.handle_input(Input::Letter('c')), Action::Typed('C'));
    assert_eq!(g.handle_input(Input::Letter('1')), Action::Ignored);
    assert_eq!(g.handle_input(Input::Letter(' ')), Action::Ignored);
    assert_eq!(g.letter_at(0, 0), 'C');
    assert_eq!(g.cursor(), Cursor { row: 0, col: 1 });
}

#[test]
fn escape_quits() {
    let mut g = game("CRANE");
    assert_eq!(g.handle_input(Input::Escape), Action::Quit);
}

#[test]
fn keyboard_takes_the_latest_tag() {
    let mut g = game("CRANE");
    assert_eq!(g.tag_of('T'), KeyState::Unused);
    type_word(&mut g, "CRATE");
    g.handle_input(Input::Enter);
    assert_eq!(g.tag_of('C'), KeyState::Green);
    assert_eq!(g.tag_of('T'), KeyState::Used);
    assert_eq!(g.tag_of('Q'), KeyState::Unused);
    assert_eq!(g.tag_of('?'), KeyState::Unused);
    type_word(&mut g, "NACRE");
    g.handle_input(Input::Enter);
    assert_eq!(g.tag_of('C'), KeyState::Yellow);
    assert_eq!(g.tag_of('N'), KeyState::Yellow);
    assert_eq!(g.tag_of('E'), KeyState::Green);
}

#[test]
fn record_feedback_overwrites() {
    let mut g = game("CRANE");
    g.record_feedback('Q', KeyState::Green);
    assert_eq!(g.tag_of('Q'), KeyState::Green);
    g.record_feedback('Q', KeyState::Used);
    assert_eq!(g.tag_of('Q'), KeyState::Used);
}

#[test]
fn same_letter_twice_in_a_guess_keeps_the_last_tag() {
    let mut g = game("CRANE");
    type_word(&mut g, "EERIE");
    g.handle_input(Input::Enter);
    assert_eq!(g.tag_of('E'), KeyState::Green);
    assert_eq!(g.tag_of('I'), KeyState::Used);
}

#[test]
fn verify_directly_advances_the_row() {
    let mut g = game("CRANE");
    type_word(&mut g, "TRACE");
    assert_eq!(g.verify(), Phase::Guessing);
    assert_eq!(
        row_feedback(&g, 0),
        vec![
            Feedback::Absent,
            Feedback::ExactMatch,
            Feedback::ExactMatch,
            Feedback::PresentElsewhere,
            Feedback::ExactMatch
        ]
    );
    assert_eq!(g.cursor(), Cursor { row: 1, col: 0 });
    assert_eq!(row_feedback(&g, 1), vec![Feedback::Unevaluated; 5]);
}

#[test]
fn fresh_game_is_blank() {
    let g = game("CRANE");
    assert_eq!(g.secret_word(), &chars("CRANE"));
    assert_eq!(g.phase(), Phase::Guessing);
    for r in 0..5 {
        for c in 0..5 {
            assert_eq!(g.letter_at(r, c), ' ');
            assert_eq!(g.feedback_at(r, c), Feedback::Unevaluated);
        }
    }
    for c in 'A'..='Z' {
        assert_eq!(g.tag_of(c), KeyState::Unused);
    }
}
