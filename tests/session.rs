use puzzle_gate::board::{press_indicator, START_STATE, TARGET_STATE};
use puzzle_gate::session::{
    activate_puzzle_focus, complete_submission, handle_email_key, handle_key, handle_puzzle_key,
    handle_submitted_key, hint, new_puzzle_state, transition_to_email, App, AppPhase, EmailFocus,
    Hint, KeyCode, KeyOutcome, KeyPress, PuzzleFocus,
};

fn key(code: KeyCode) -> KeyPress {
    KeyPress { code, control: false }
}

fn solved_app() -> App {
    let mut app = App::new(false);
    transition_to_email(&mut app);
    app
}

#[test]
fn new_session_caches_optimal_moves() {
    let app = App::new(false);
    assert_eq!(app.phase, AppPhase::Puzzle);
    assert_eq!(app.puzzle.initial, START_STATE);
    assert_eq!(app.puzzle.current, START_STATE);
    assert_eq!(app.puzzle.optimal_moves, 16);
    assert_eq!(app.puzzle.moves_taken, 0);
    assert_eq!(app.puzzle.focus, PuzzleFocus::Indicator(0));
    assert!(!app.puzzle.show_rules);
    assert_eq!(
        app.puzzle.status,
        "All buttons start OFF. No move cap. Estimated solve depth: 16."
    );
    assert!(app.submitted_email.is_none());
}

#[test]
fn hint_from_start_is_first_indicator() {
    assert_eq!(hint(START_STATE), Hint::Press(0));
    assert_eq!(hint(TARGET_STATE), Hint::AtTarget);
    let mut app = App::new(false);
    app.puzzle.focus = PuzzleFocus::Action(0);
    activate_puzzle_focus(&mut app);
    assert_eq!(app.puzzle.status, "Hint: press indicator 1.");
    assert_eq!(app.puzzle.current, START_STATE);
    assert_eq!(app.puzzle.moves_taken, 0);
}

#[test]
fn pressing_counts_moves() {
    let mut app = App::new(false);
    app.puzzle.focus = PuzzleFocus::Indicator(2);
    activate_puzzle_focus(&mut app);
    assert_eq!(app.puzzle.current, press_indicator(START_STATE, 2));
    assert_eq!(app.puzzle.moves_taken, 1);
    assert_eq!(app.puzzle.status, "Pressed indicator 3.");
}

#[test]
fn reset_restores_initial_board() {
    let mut app = App::new(false);
    for i in [0usize, 4, 5] {
        app.puzzle.focus = PuzzleFocus::Indicator(i);
        activate_puzzle_focus(&mut app);
    }
    assert_eq!(app.puzzle.moves_taken, 3);
    app.puzzle.focus = PuzzleFocus::Action(1);
    activate_puzzle_focus(&mut app);
    assert_eq!(app.puzzle.current, START_STATE);
    assert_eq!(app.puzzle.initial, START_STATE);
    assert_eq!(app.puzzle.moves_taken, 0);
    assert_eq!(app.puzzle.optimal_moves, 16);
}

#[test]
fn rules_toggle() {
    let mut app = App::new(false);
    app.puzzle.focus = PuzzleFocus::Action(2);
    activate_puzzle_focus(&mut app);
    assert!(app.puzzle.show_rules);
    assert_eq!(app.puzzle.status, "Rules expanded.");
    activate_puzzle_focus(&mut app);
    assert!(!app.puzzle.show_rules);
    assert_eq!(app.puzzle.status, "Rules collapsed.");
}

#[test]
fn playing_the_solution_enters_email_phase() {
    let mut app = App::new(false);
    for i in [0usize, 1, 1, 2, 2, 2, 2, 2, 3, 4, 4, 5, 5, 5, 5, 5] {
        assert_eq!(app.phase, AppPhase::Puzzle);
        app.puzzle.focus = PuzzleFocus::Indicator(i);
        assert!(handle_puzzle_key(&mut app, key(KeyCode::Enter)));
    }
    assert_eq!(app.puzzle.current, TARGET_STATE);
    assert_eq!(app.phase, AppPhase::Email);
    assert_eq!(app.email.email, "");
    assert_eq!(app.email.focus, EmailFocus::Input);
}

#[test]
fn focus_navigation_wraps_and_switches_rows() {
    let mut app = App::new(false);
    assert!(handle_puzzle_key(&mut app, key(KeyCode::Left)));
    assert_eq!(app.puzzle.focus, PuzzleFocus::Indicator(5));
    assert!(handle_puzzle_key(&mut app, key(KeyCode::Right)));
    assert_eq!(app.puzzle.focus, PuzzleFocus::Indicator(0));
    app.puzzle.focus = PuzzleFocus::Indicator(5);
    assert!(handle_puzzle_key(&mut app, key(KeyCode::Down)));
    assert_eq!(app.puzzle.focus, PuzzleFocus::Action(2));
    assert!(handle_puzzle_key(&mut app, key(KeyCode::Right)));
    assert_eq!(app.puzzle.focus, PuzzleFocus::Action(0));
    assert!(handle_puzzle_key(&mut app, key(KeyCode::Left)));
    assert_eq!(app.puzzle.focus, PuzzleFocus::Action(2));
    assert!(handle_puzzle_key(&mut app, key(KeyCode::Up)));
    assert_eq!(app.puzzle.focus, PuzzleFocus::Indicator(4));
    assert!(!handle_puzzle_key(&mut app, key(KeyCode::Char('x'))));
}

#[test]
fn debug_solve_only_in_debug_mode() {
    let mut app = App::new(false);
    assert!(!handle_puzzle_key(&mut app, key(KeyCode::F(12))));
    assert_eq!(app.phase, AppPhase::Puzzle);
    assert_eq!(app.puzzle.current, START_STATE);

    let mut app = App::new(true);
    app.puzzle.focus = PuzzleFocus::Indicator(1);
    activate_puzzle_focus(&mut app);
    app.puzzle.focus = PuzzleFocus::Indicator(4);
    activate_puzzle_focus(&mut app);
    assert!(handle_puzzle_key(&mut app, key(KeyCode::F(12))));
    assert_eq!(app.puzzle.current, TARGET_STATE);
    assert_eq!(app.phase, AppPhase::Email);
    assert!(app.puzzle.moves_taken > 2);
}

#[test]
fn email_entry_filters_characters() {
    let mut app = solved_app();
    for c in "a b@c!d.co".chars() {
        handle_email_key(&mut app, key(KeyCode::Char(c)));
    }
    assert_eq!(app.email.email, "ab@cd.co");
    assert_eq!(handle_email_key(&mut app, key(KeyCode::Char('#'))), KeyOutcome::Ignored);
    assert_eq!(handle_email_key(&mut app, key(KeyCode::Backspace)), KeyOutcome::Redraw);
    assert_eq!(app.email.email, "ab@cd.c");
    for _ in 0..200 {
        handle_email_key(&mut app, key(KeyCode::Char('x')));
    }
    assert_eq!(app.email.email.chars().count(), 120);
}

#[test]
fn confirming_invalid_email_keeps_phase() {
    let mut app = solved_app();
    for c in "ab@c".chars() {
        handle_email_key(&mut app, key(KeyCode::Char(c)));
    }
    assert_eq!(handle_email_key(&mut app, key(KeyCode::Tab)), KeyOutcome::Redraw);
    assert_eq!(app.email.focus, EmailFocus::Buttons);
    assert_eq!(handle_email_key(&mut app, key(KeyCode::Enter)), KeyOutcome::Redraw);
    assert_eq!(app.phase, AppPhase::Email);
    assert_eq!(app.email.status, "Please enter a valid email before confirming.");
}

#[test]
fn confirming_valid_email_asks_to_store_then_submits() {
    let mut app = solved_app();
    for c in "a@b.co".chars() {
        handle_email_key(&mut app, key(KeyCode::Char(c)));
    }
    handle_email_key(&mut app, key(KeyCode::Enter));
    assert_eq!(handle_email_key(&mut app, key(KeyCode::Char(' '))), KeyOutcome::Store);
    assert_eq!(app.phase, AppPhase::Email);
    complete_submission(&mut app, false);
    assert_eq!(app.phase, AppPhase::Email);
    assert_eq!(app.email.status, "Could not save the invite; please try again.");
    assert!(app.submitted_email.is_none());
    complete_submission(&mut app, true);
    assert_eq!(app.phase, AppPhase::Submitted);
    assert_eq!(app.submitted_email.as_deref(), Some("a@b.co"));
    assert!(!handle_submitted_key(&mut app, key(KeyCode::Char('q'))));
    assert!(handle_submitted_key(&mut app, key(KeyCode::Enter)));
    assert!(app.should_quit);
}

#[test]
fn solve_again_starts_fresh_puzzle() {
    let mut app = solved_app();
    handle_email_key(&mut app, key(KeyCode::Down));
    assert_eq!(handle_email_key(&mut app, key(KeyCode::Right)), KeyOutcome::Redraw);
    assert_eq!(app.email.selected_button, 1);
    assert_eq!(handle_email_key(&mut app, key(KeyCode::Enter)), KeyOutcome::Redraw);
    assert_eq!(app.phase, AppPhase::Puzzle);
    assert_eq!(app.puzzle.initial, START_STATE);
    assert_eq!(app.puzzle.current, START_STATE);
    assert_eq!(app.puzzle.moves_taken, 0);
    let fresh = new_puzzle_state();
    assert_eq!(fresh.optimal_moves, app.puzzle.optimal_moves);
}

#[test]
fn control_c_quits_in_every_phase() {
    let ctrl_c = KeyPress { code: KeyCode::Char('c'), control: true };
    let mut app = App::new(false);
    assert_eq!(handle_key(&mut app, ctrl_c), KeyOutcome::Redraw);
    assert!(app.should_quit);
    let mut app = solved_app();
    assert_eq!(handle_key(&mut app, ctrl_c), KeyOutcome::Redraw);
    assert!(app.should_quit);
    let mut app = App::new(false);
    assert_eq!(handle_key(&mut app, key(KeyCode::Esc)), KeyOutcome::Redraw);
    assert!(app.should_quit);
}

#[test]
fn debug_solve_reports_moves_used() {
    let mut app = App::new(true);
    assert!(handle_puzzle_key(&mut app, key(KeyCode::F(12))));
    assert_eq!(app.puzzle.moves_taken, 16);
    assert_eq!(app.puzzle.status, "Debug solve used 16 move(s).");
    assert_eq!(app.phase, AppPhase::Email);
    assert_eq!(app.email.status, "Puzzle solved. Enter your email, then confirm invite.");
}

#[test]
fn reset_and_escape_statuses() {
    let mut app = App::new(false);
    app.puzzle.focus = PuzzleFocus::Action(1);
    activate_puzzle_focus(&mut app);
    assert_eq!(app.puzzle.status, "Puzzle reset to original generated state.");
    let before_current = app.puzzle.current;
    assert!(handle_puzzle_key(&mut app, key(KeyCode::Esc)));
    assert!(app.should_quit);
    assert_eq!(app.puzzle.current, before_current);
    assert_eq!(app.phase, AppPhase::Puzzle);
}

#[test]
fn typing_does_not_end_session() {
    let mut app = solved_app();
    assert_eq!(handle_email_key(&mut app, key(KeyCode::Char('a'))), KeyOutcome::Redraw);
    assert!(!app.should_quit);
    assert_eq!(app.phase, AppPhase::Email);
    let ctrl_c = KeyPress { code: KeyCode::Char('c'), control: true };
    handle_key(&mut app, ctrl_c);
    assert_eq!(app.email.email, "a");
    assert_eq!(app.phase, AppPhase::Email);
}
