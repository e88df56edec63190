use guess_session::session::{GuessSession, Outcome, SessionState};

#[test]
fn scenario_low_high_then_win() {
    let mut s = GuessSession::new(42);
    assert_eq!(s.step("10"), Outcome::TooLow);
    assert_eq!(s.state(), SessionState::AwaitingGuess);
    assert_eq!(s.step("90"), Outcome::TooHigh);
    assert_eq!(s.state(), SessionState::AwaitingGuess);
    assert_eq!(s.step("42"), Outcome::Correct);
    assert_eq!(s.state(), SessionState::Won);
}

#[test]
fn scenario_unparseable_aborts_immediately() {
    let mut s = GuessSession::new(7);
    let lines = vec!["banana".to_string(), "5".to_string()];
    let outs = s.run(&lines);
    assert_eq!(outs, vec![Outcome::Unparseable]);
    assert_eq!(s.state(), SessionState::Aborted);
}

#[test]
fn scenario_empty_input_aborts_without_outcome() {
    let mut s = GuessSession::new(7);
    let lines: Vec<String> = Vec::new();
    let outs = s.run(&lines);
    assert!(outs.is_empty());
    assert_eq!(s.state(), SessionState::Aborted);
}

#[test]
fn run_stops_at_win_and_ignores_later_lines() {
    let mut s = GuessSession::new(42);
    let lines = vec![
        "10".to_string(),
        "90".to_string(),
        "42".to_string(),
        "99".to_string(),
    ];
    let outs = s.run(&lines);
    assert_eq!(outs, vec![Outcome::TooLow, Outcome::TooHigh, Outcome::Correct]);
    assert_eq!(s.state(), SessionState::Won);
}

#[test]
fn run_exhausting_input_aborts() {
    let mut s = GuessSession::new(42);
    let lines = vec!["1".to_string(), "2".to_string()];
    let outs = s.run(&lines);
    assert_eq!(outs, vec![Outcome::TooLow, Outcome::TooLow]);
    assert_eq!(s.state(), SessionState::Aborted);
}

#[test]
fn step_trims_surrounding_whitespace() {
    let mut s = GuessSession::new(42);
    assert_eq!(s.step(" 42 \n"), Outcome::Correct);
    assert_eq!(s.state(), SessionState::Won);
}

#[test]
fn step_rejects_non_integer_text() {
    for bad in ["abc", "", "3.5", "  ", "1 2", "--3"] {
        let mut s = GuessSession::new(7);
        assert_eq!(s.step(bad), Outcome::Unparseable);
        assert_eq!(s.state(), SessionState::Aborted);
    }
}

#[test]
fn target_survives_steps() {
    let mut s = GuessSession::new(13);
    assert_eq!(s.revealed_target(), 13);
    s.step("5");
    assert_eq!(s.revealed_target(), 13);
}

#[test]
fn started_target_stays_in_range() {
    for _ in 0..200 {
        let s = GuessSession::start(1, 100);
        let t = s.revealed_target();
        assert!((1..=100).contains(&t));
        assert_eq!(s.state(), SessionState::AwaitingGuess);
    }
}

#[test]
fn started_target_in_singleton_range_is_exact() {
    let mut s = GuessSession::start(13, 13);
    assert_eq!(s.revealed_target(), 13);
    assert_eq!(s.step("13"), Outcome::Correct);
    assert_eq!(s.state(), SessionState::Won);
}

#[test]
fn outcome_messages_match_the_originals() {
    assert_eq!(Outcome::TooLow.message(), "Too small!");
    assert_eq!(Outcome::TooHigh.message(), "Too big!");
    assert_eq!(Outcome::Correct.message(), "You win!");
    assert_eq!(Outcome::Unparseable.message(), "Yo you entered incorrect");
}
