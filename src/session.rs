use vstd::prelude::*;

use crate::board::{
    lemma_replay_push, press_indicator, press_spec, reachable, replay, same_board, BOARD_SPACE,
    START_STATE, TARGET_STATE,
};
use crate::color::NodeColor;
use crate::laws::lemma_target_reachable;
use crate::email::{email_char, is_email_char, is_valid_email, valid_email};
use crate::solver::{is_least_shortest_path, is_shortest_path, shortest_solution};
use crate::text::{decimal, decimal_text};

verus! {

/// Longest address the input field takes, in characters.
pub const EMAIL_MAX: usize = 120;

/// Upper bound on the move counter that every key stays clear of.
pub const MOVE_LIMIT: usize = 4000000000;

/// The top-level mode of a session.
#[derive(Clone, Copy, Debug, PartialEq, Eq, Structural)]
pub enum AppPhase {
    Puzzle,
    Email,
    Submitted,
}

/// The highlighted control of the puzzle view: one of six indicators or one of three
/// actions (hint, reset, rules).
#[derive(Clone, Copy, Debug, PartialEq, Eq, Structural)]
pub enum PuzzleFocus {
    Indicator(usize),
    Action(usize),
}

/// The highlighted part of the address view.
#[derive(Clone, Copy, Debug, PartialEq, Eq, Structural)]
pub enum EmailFocus {
    Input,
    Buttons,
}

/// The key codes the session reacts to.
#[derive(Clone, Copy, Debug, PartialEq, Eq, Structural)]
pub enum KeyCode {
    Left,
    Right,
    Up,
    Down,
    Enter,
    Tab,
    Backspace,
    Esc,
    F(u8),
    Char(char),
    Other,
}

/// A key event: its code and whether Control was held.
#[derive(Clone, Copy, Debug, PartialEq, Eq, Structural)]
pub struct KeyPress {
    pub code: KeyCode,
    pub control: bool,
}

/// What the caller has to do after a key was handled.
#[derive(Clone, Copy, Debug, PartialEq, Eq, Structural)]
pub enum KeyOutcome {
    /// Nothing changed.
    Ignored,
    /// The state changed and should be drawn again.
    Redraw,
    /// The address in the input field was confirmed and is valid: store it, then
    /// report the result with `complete_submission`.
    Store,
}

/// What the solver suggests from a board.
#[derive(Clone, Copy, Debug, PartialEq, Eq, Structural)]
pub enum Hint {
    /// Press this indicator next.
    Press(usize),
    /// The board already is the target.
    AtTarget,
    /// The target cannot be reached.
    Unavailable,
}

/// One puzzle attempt.
pub struct PuzzleState {
    pub initial: [NodeColor; 6],
    pub current: [NodeColor; 6],
    pub optimal_moves: usize,
    pub moves_taken: usize,
    pub focus: PuzzleFocus,
    pub show_rules: bool,
    pub status: String,
    /// The presses made since the attempt began or was last reset.
    pub history: Ghost<Seq<usize>>,
}

/// The address entry view.
pub struct EmailState {
    pub email: String,
    pub focus: EmailFocus,
    pub selected_button: usize,
    pub status: String,
}

/// A whole session: the active phase and the state of each view.
pub struct App {
    pub phase: AppPhase,
    pub puzzle: PuzzleState,
    pub email: EmailState,
    pub submitted_email: Option<String>,
    pub debug: bool,
    pub should_quit: bool,
}

/// The focus names an existing control.
pub open spec fn focus_valid(f: PuzzleFocus) -> bool {
    match f {
        PuzzleFocus::Indicator(i) => i < 6,
        PuzzleFocus::Action(j) => j < 3,
    }
}

/// `n` is the length of a shortest path from `s` to `g`.
pub open spec fn optimal_count(s: Seq<NodeColor>, g: Seq<NodeColor>, n: nat) -> bool {
    exists|p: Seq<usize>| is_shortest_path(s, g, p) && p.len() == n
}

/// `h` is a correct hint for board `s`.
pub open spec fn hint_fits(s: Seq<NodeColor>, h: Hint) -> bool {
    match h {
        Hint::Press(i) => exists|p: Seq<usize>|
            is_least_shortest_path(s, TARGET_STATE@, p) && p.len() > 0 && p[0] == i,
        Hint::AtTarget => s == TARGET_STATE@,
        Hint::Unavailable => !reachable(s, TARGET_STATE@),
    }
}

/// Focus after moving left, wrapping within the row.
pub open spec fn focus_left(f: PuzzleFocus) -> PuzzleFocus {
    match f {
        PuzzleFocus::Indicator(i) => PuzzleFocus::Indicator(((i + 5) % 6) as usize),
        PuzzleFocus::Action(j) => PuzzleFocus::Action(((j + 2) % 3) as usize),
    }
}

/// Focus after moving right, wrapping within the row.
pub open spec fn focus_right(f: PuzzleFocus) -> PuzzleFocus {
    match f {
        PuzzleFocus::Indicator(i) => PuzzleFocus::Indicator(((i + 1) % 6) as usize),
        PuzzleFocus::Action(j) => PuzzleFocus::Action(((j + 1) % 3) as usize),
    }
}

/// Focus after switching rows: indicator `i` maps to action `i / 2` and action `j`
/// to indicator `2 * j`, each clamped to its row.
pub open spec fn focus_switch(f: PuzzleFocus) -> PuzzleFocus {
    match f {
        PuzzleFocus::Indicator(i) => PuzzleFocus::Action(
            if i / 2 < 2 {
                (i / 2) as usize
            } else {
                2
            },
        ),
        PuzzleFocus::Action(j) => PuzzleFocus::Indicator(
            if j * 2 < 5 {
                (j * 2) as usize
            } else {
                5
            },
        ),
    }
}

impl PuzzleState {
    /// The current board is the initial one after the recorded presses, and the move
    /// counter is their number.
    pub open spec fn wf(&self) -> bool {
        &&& focus_valid(self.focus)
        &&& forall|k: int| 0 <= k < self.history@.len() ==> self.history@[k] < 6
        &&& replay(self.initial@, self.history@) == self.current@
        &&& self.moves_taken == self.history@.len()
    }

    /// A fresh attempt from the start board.
    pub open spec fn is_fresh(&self) -> bool {
        &&& self.initial@ == START_STATE@
        &&& self.current@ == START_STATE@
        &&& self.moves_taken == 0
        &&& self.history@.len() == 0
        &&& self.focus == PuzzleFocus::Indicator(0)
        &&& !self.show_rules
        &&& optimal_count(START_STATE@, TARGET_STATE@, self.optimal_moves as nat)
        &&& self.optimal_moves == 16
        &&& self.status@ == "All buttons start OFF. No move cap. Estimated solve depth: "@
            + decimal(self.optimal_moves as nat) + "."@
    }
}

impl EmailState {
    /// The address view as it opens.
    pub open spec fn is_fresh(&self) -> bool {
        &&& self.email@.len() == 0
        &&& self.focus == EmailFocus::Input
        &&& self.selected_button == 0
    }

    /// The address view as it opens once the puzzle is solved.
    pub open spec fn is_unlocked(&self) -> bool {
        &&& self.is_fresh()
        &&& self.status@ == "Puzzle solved. Enter your email, then confirm invite."@
    }
}

impl App {
    /// The session's invariant: the puzzle state is consistent and starts from the
    /// start board; while the puzzle is active its board is not yet the target.
    pub open spec fn wf(&self) -> bool {
        &&& self.puzzle.wf()
        &&& self.puzzle.initial@ == START_STATE@
        &&& self.phase == AppPhase::Puzzle ==> self.puzzle.current@ != TARGET_STATE@
        &&& self.email.selected_button < 2
        &&& self.email.email@.len() <= EMAIL_MAX
        &&& forall|k: int| 0 <= k < self.email.email@.len() ==> email_char(#[trigger] self.email.email@[k])
    }

    /// A session in the puzzle phase with a fresh attempt.
    pub fn new(debug: bool) -> (r: App)
        ensures
            r.wf(),
            r.phase == AppPhase::Puzzle,
            r.puzzle.is_fresh(),
            r.email.is_fresh(),
            r.submitted_email is None,
            r.debug == debug,
            !r.should_quit,
    {
        let puzzle = new_puzzle_state();
        proof {
            lemma_start_is_not_target();
        }
        App {
            phase: AppPhase::Puzzle,
            puzzle,
            email: EmailState {
                email: String::new(),
                focus: EmailFocus::Input,
                selected_button: 0,
                status: String::from_str("Solve the puzzle to unlock event invite submission."),
            },
            submitted_email: None,
            debug,
            should_quit: false,
        }
    }
}

/// The start board is not the target board.
pub proof fn lemma_start_is_not_target()
    ensures
        START_STATE@ != TARGET_STATE@,
{
    assert(START_STATE@[0] == NodeColor::Off);
    assert(TARGET_STATE@[0] == NodeColor::White);
}

/// Relies on String::push: the character is appended at the end.
#[verifier::external_body]
fn push_char(s: &mut String, c: char)
    ensures
        final(s)@ == old(s)@.push(c),
{
    s.push(c);
}

/// Relies on String::pop: the last character, if any, is removed.
#[verifier::external_body]
fn pop_char(s: &mut String)
    ensures
        old(s)@.len() == 0 ==> final(s)@ == old(s)@,
        old(s)@.len() > 0 ==> final(s)@ == old(s)@.drop_last(),
{
    s.pop();
}

/// A fresh puzzle attempt from the start board, with the length of a shortest
/// solution cached.
pub fn new_puzzle_state() -> (r: PuzzleState)
    ensures
        r.wf(),
        r.is_fresh(),
        r.optimal_moves == 16,
{
    let initial = START_STATE;
    proof {
        lemma_target_reachable();
    }
    let optimal_moves = match shortest_solution(initial, TARGET_STATE) {
        Some(path) => path.len(),
        None => 0,
    };
    let mut status = String::from_str("All buttons start OFF. No move cap. Estimated solve depth: ");
    let depth = decimal_text(optimal_moves);
    status.append(depth.as_str());
    status.append(".");
    proof {
        crate::laws::lemma_optimal_is_sixteen(optimal_moves as nat);
    }
    PuzzleState {
        initial,
        current: initial,
        optimal_moves,
        moves_taken: 0,
        focus: PuzzleFocus::Indicator(0),
        show_rules: false,
        status,
        history: Ghost(Seq::empty()),
    }
}

/// The solver's suggestion for board `state`: the first press of a shortest path to
/// the target.
pub fn hint(state: [NodeColor; 6]) -> (r: Hint)
    ensures
        hint_fits(state@, r),
        r matches Hint::Press(i) ==> i < 6,
{
    match shortest_solution(state, TARGET_STATE) {
        Some(path) => {
            if path.len() > 0 {
                Hint::Press(path[0])
            } else {
                proof {
                    assert(replay(state@, path@) == state@);
                }
                Hint::AtTarget
            }
        },
        None => Hint::Unavailable,
    }
}

/// The status line that reports hint `h`.
pub open spec fn hint_text(h: Hint) -> Seq<char> {
    match h {
        Hint::Press(i) => "Hint: press indicator "@ + decimal((i + 1) as nat) + "."@,
        Hint::AtTarget => "State already matches target."@,
        Hint::Unavailable => "No hint available from this state."@,
    }
}

fn hint_status(h: Hint) -> (r: String)
    requires
        h matches Hint::Press(i) ==> i < 6,
    ensures
        r@ == hint_text(h),
{
    match h {
        Hint::Press(i) => {
            let mut s = String::from_str("Hint: press indicator ");
            let n = decimal_text(i + 1);
            s.append(n.as_str());
            s.append(".");
            s
        },
        Hint::AtTarget => String::from_str("State already matches target."),
        Hint::Unavailable => String::from_str("No hint available from this state."),
    }
}

/// `post` is what activating the focused control of `pre` leaves.
pub open spec fn activated(pre: App, post: App) -> bool {
    &&& post.puzzle.initial == pre.puzzle.initial
    &&& post.puzzle.optimal_moves == pre.puzzle.optimal_moves
    &&& post.puzzle.focus == pre.puzzle.focus
    &&& post.debug == pre.debug
    &&& post.should_quit == pre.should_quit
    &&& post.submitted_email == pre.submitted_email
    &&& post.phase == (if post.puzzle.current@ == TARGET_STATE@ {
        AppPhase::Email
    } else {
        AppPhase::Puzzle
    })
    &&& post.phase == AppPhase::Puzzle ==> post.email == pre.email
    &&& post.phase == AppPhase::Email ==> post.email.is_unlocked()
    &&& match pre.puzzle.focus {
        PuzzleFocus::Indicator(i) => {
            &&& post.puzzle.current@ == press_spec(pre.puzzle.current@, i as int)
            &&& post.puzzle.moves_taken == pre.puzzle.moves_taken + 1
            &&& post.puzzle.show_rules == pre.puzzle.show_rules
            &&& post.puzzle.status@ == "Pressed indicator "@ + decimal((i + 1) as nat) + "."@
        },
        PuzzleFocus::Action(j) => {
            &&& j == 0 ==> post.puzzle.current == pre.puzzle.current
                && post.puzzle.moves_taken == pre.puzzle.moves_taken
                && post.puzzle.show_rules == pre.puzzle.show_rules && exists|h: Hint|
                hint_fits(pre.puzzle.current@, h) && post.puzzle.status@ == hint_text(h)
            &&& j == 1 ==> post.puzzle.current == pre.puzzle.initial && post.puzzle.moves_taken
                == 0 && post.puzzle.show_rules == pre.puzzle.show_rules && post.puzzle.status@
                == "Puzzle reset to original generated state."@
            &&& j == 2 ==> post.puzzle.current == pre.puzzle.current
                && post.puzzle.moves_taken == pre.puzzle.moves_taken
                && post.puzzle.show_rules == !pre.puzzle.show_rules && post.puzzle.status@ == (
                if post.puzzle.show_rules {
                    "Rules expanded."@
                } else {
                    "Rules collapsed."@
                })
        },
    }
}

/// Enters the address phase with a fresh address view.
pub fn transition_to_email(app: &mut App)
    ensures
        final(app).phase == AppPhase::Email,
        final(app).email.is_unlocked(),
        final(app).puzzle == old(app).puzzle,
        final(app).submitted_email == old(app).submitted_email,
        final(app).debug == old(app).debug,
        final(app).should_quit == old(app).should_quit,
{
    app.phase = AppPhase::Email;
    app.email = EmailState {
        email: String::new(),
        focus: EmailFocus::Input,
        selected_button: 0,
        status: String::from_str("Puzzle solved. Enter your email, then confirm invite."),
    };
}

/// Acts on the focused control: presses an indicator, or gives a hint, resets the
/// attempt or toggles the rules. Reaching the target enters the address phase.
pub fn activate_puzzle_focus(app: &mut App)
    requires
        old(app).wf(),
        old(app).phase == AppPhase::Puzzle,
        old(app).puzzle.moves_taken < MOVE_LIMIT,
    ensures
        final(app).wf(),
        activated(*old(app), *final(app)),
{
    match app.puzzle.focus {
        PuzzleFocus::Indicator(index) => {
            let ghost hist = app.puzzle.history@;
            proof {
                lemma_replay_push(app.puzzle.initial@, hist, index);
            }
            app.puzzle.current = press_indicator(app.puzzle.current, index);
            app.puzzle.moves_taken = app.puzzle.moves_taken + 1;
            app.puzzle.history = Ghost(hist.push(index));
            let mut status = String::from_str("Pressed indicator ");
            let n = decimal_text(index + 1);
            status.append(n.as_str());
            status.append(".");
            app.puzzle.status = status;
        },
        PuzzleFocus::Action(j) => {
            if j == 0 {
                let h = hint(app.puzzle.current);
                app.puzzle.status = hint_status(h);
            } else if j == 1 {
                app.puzzle.current = app.puzzle.initial;
                app.puzzle.moves_taken = 0;
                app.puzzle.history = Ghost(Seq::empty());
                app.puzzle.status = String::from_str("Puzzle reset to original generated state.");
                proof {
                    lemma_start_is_not_target();
                }
            } else {
                app.puzzle.show_rules = !app.puzzle.show_rules;
                app.puzzle.status = if app.puzzle.show_rules {
                    String::from_str("Rules expanded.")
                } else {
                    String::from_str("Rules collapsed.")
                };
            }
        },
    }
    if same_board(&app.puzzle.current, &TARGET_STATE) {
        transition_to_email(app);
    }
}

/// `post` differs from `pre` at most in the puzzle focus, which is `f`.
pub open spec fn focus_moved(pre: App, post: App, f: PuzzleFocus) -> bool {
    &&& post.puzzle.focus == f
    &&& post.phase == pre.phase
    &&& post.puzzle.initial == pre.puzzle.initial
    &&& post.puzzle.current == pre.puzzle.current
    &&& post.puzzle.optimal_moves == pre.puzzle.optimal_moves
    &&& post.puzzle.moves_taken == pre.puzzle.moves_taken
    &&& post.puzzle.show_rules == pre.puzzle.show_rules
    &&& post.puzzle.status == pre.puzzle.status
    &&& post.puzzle.history == pre.puzzle.history
    &&& post.email == pre.email
    &&& post.submitted_email == pre.submitted_email
    &&& post.debug == pre.debug
    &&& post.should_quit == pre.should_quit
}

/// `post` is `pre` with the session ended and nothing else changed.
pub open spec fn only_quit(pre: App, post: App) -> bool {
    &&& post.should_quit
    &&& post.phase == pre.phase
    &&& post.puzzle == pre.puzzle
    &&& post.email == pre.email
    &&& post.submitted_email == pre.submitted_email
    &&& post.debug == pre.debug
}

/// `post` differs from `pre` at most in the address view.
pub open spec fn email_view_only(pre: App, post: App) -> bool {
    &&& post.phase == pre.phase
    &&& post.puzzle == pre.puzzle
    &&& post.submitted_email == pre.submitted_email
    &&& post.debug == pre.debug
    &&& post.should_quit == pre.should_quit
}

/// `post` is `pre` after "solve again": a fresh puzzle attempt in the puzzle phase.
pub open spec fn solve_again(pre: App, post: App) -> bool {
    &&& post.phase == AppPhase::Puzzle
    &&& post.puzzle.is_fresh()
    &&& post.email == pre.email
    &&& post.submitted_email == pre.submitted_email
    &&& post.debug == pre.debug
    &&& post.should_quit == pre.should_quit
}

/// `post` is what the debug solve leaves from `pre`: where the target can be reached,
/// a shortest path to it has been played and the address phase entered; otherwise
/// only the status changed.
pub open spec fn debug_solved(pre: App, post: App) -> bool {
    &&& post.debug == pre.debug
    &&& post.should_quit == pre.should_quit
    &&& post.submitted_email == pre.submitted_email
    &&& post.puzzle.initial == pre.puzzle.initial
    &&& post.puzzle.optimal_moves == pre.puzzle.optimal_moves
    &&& post.puzzle.focus == pre.puzzle.focus
    &&& post.puzzle.show_rules == pre.puzzle.show_rules
    &&& reachable(pre.puzzle.current@, TARGET_STATE@) ==> {
        &&& post.puzzle.current@ == TARGET_STATE@
        &&& post.phase == AppPhase::Email
        &&& post.email.is_unlocked()
        &&& exists|p: Seq<usize>|
            is_least_shortest_path(pre.puzzle.current@, TARGET_STATE@, p) && post.puzzle.moves_taken
                == pre.puzzle.moves_taken + p.len() && post.puzzle.status@ == "Debug solve used "@
                + decimal(p.len()) + " move(s)."@
    }
    &&& !reachable(pre.puzzle.current@, TARGET_STATE@) ==> {
        &&& post.puzzle.current == pre.puzzle.current
        &&& post.puzzle.moves_taken == pre.puzzle.moves_taken
        &&& post.phase == AppPhase::Puzzle
        &&& post.email == pre.email
        &&& post.puzzle.status@ == "Debug solve did not find a valid route."@
    }
}

/// What a key does in the puzzle phase; `r` says whether anything changed. Arrows move
/// the focus, Enter and space activate it, Esc quits, and F12 solves the puzzle, but
/// only in debug mode.
pub open spec fn puzzle_key_effect(pre: App, post: App, key: KeyPress, r: bool) -> bool {
    &&& post.debug == pre.debug
    &&& post.phase != AppPhase::Submitted
    &&& !r ==> post == pre
    &&& match key.code {
        KeyCode::Left => r && focus_moved(pre, post, focus_left(pre.puzzle.focus)),
        KeyCode::Right => r && focus_moved(pre, post, focus_right(pre.puzzle.focus)),
        KeyCode::Up | KeyCode::Down => r && focus_moved(pre, post, focus_switch(pre.puzzle.focus)),
        KeyCode::Enter | KeyCode::Char(' ') => r && activated(pre, post),
        KeyCode::F(12) => if pre.debug {
            r && debug_solved(pre, post)
        } else {
            !r
        },
        KeyCode::Esc => r && only_quit(pre, post),
        _ => !r,
    }
}

/// What a key does in the address phase. Typed characters outside the accepted set,
/// or past the length limit, are refused. Confirming a valid address asks the caller
/// to store it; confirming an invalid one only sets the status; "solve again" starts
/// a fresh puzzle.
pub open spec fn email_key_effect(pre: App, post: App, key: KeyPress, r: KeyOutcome) -> bool {
    &&& post.phase != AppPhase::Submitted
    &&& post.debug == pre.debug
    &&& post.submitted_email == pre.submitted_email
    &&& r == KeyOutcome::Ignored || r == KeyOutcome::Store ==> post == pre
    &&& r == KeyOutcome::Store <==> pre.email.focus == EmailFocus::Buttons && (key.code
        == KeyCode::Enter || key.code == KeyCode::Char(' ')) && pre.email.selected_button == 0
        && valid_email(pre.email.email@)
    &&& post.phase == AppPhase::Puzzle ==> post.puzzle.is_fresh()
    &&& pre.email.focus == EmailFocus::Input ==> match key.code {
        KeyCode::Tab | KeyCode::Down | KeyCode::Enter => r == KeyOutcome::Redraw
            && email_view_only(pre, post) && post.email.focus == EmailFocus::Buttons
            && post.email.email == pre.email.email && post.email.selected_button
            == pre.email.selected_button && post.email.status == pre.email.status,
        KeyCode::Backspace => r == KeyOutcome::Redraw && email_view_only(pre, post)
            && post.email.focus == pre.email.focus && post.email.selected_button
            == pre.email.selected_button && post.email.status == pre.email.status && (if pre.email.email@.len() == 0 {
            post.email.email@ == pre.email.email@
        } else {
            post.email.email@ == pre.email.email@.drop_last()
        }),
        KeyCode::Char(c) => if email_char(c) && pre.email.email@.len() < EMAIL_MAX {
            r == KeyOutcome::Redraw && email_view_only(pre, post) && post.email.email@
                == pre.email.email@.push(c) && post.email.status@.len() == 0 && post.email.focus
                == pre.email.focus && post.email.selected_button == pre.email.selected_button
        } else {
            r == KeyOutcome::Ignored
        },
        KeyCode::Esc => r == KeyOutcome::Redraw && only_quit(pre, post),
        _ => r == KeyOutcome::Ignored,
    }
    &&& pre.email.focus == EmailFocus::Buttons ==> match key.code {
        KeyCode::Tab | KeyCode::Up => r == KeyOutcome::Redraw && email_view_only(pre, post)
            && post.email.focus == EmailFocus::Input && post.email.email == pre.email.email
            && post.email.selected_button == pre.email.selected_button && post.email.status
            == pre.email.status,
        KeyCode::Left | KeyCode::Right => r == KeyOutcome::Redraw && email_view_only(pre, post)
            && post.email.selected_button == 1 - pre.email.selected_button && post.email.focus
            == pre.email.focus && post.email.email == pre.email.email && post.email.status
            == pre.email.status,
        KeyCode::Enter | KeyCode::Char(' ') => if pre.email.selected_button == 0 {
            !valid_email(pre.email.email@) ==> r == KeyOutcome::Redraw && email_view_only(pre, post)
                && post.email.email == pre.email.email && post.email.focus == pre.email.focus
                && post.email.selected_button == pre.email.selected_button && post.email.status@
                == "Please enter a valid email before confirming."@
        } else {
            r == KeyOutcome::Redraw && solve_again(pre, post)
        },
        KeyCode::Esc => r == KeyOutcome::Redraw && only_quit(pre, post),
        _ => r == KeyOutcome::Ignored,
    }
}

/// What a key does in the submitted phase: Esc or Enter ends the session, nothing else
/// changes anything.
pub open spec fn submitted_key_effect(pre: App, post: App, key: KeyPress, r: bool) -> bool {
    &&& r == (key.code == KeyCode::Esc || key.code == KeyCode::Enter)
    &&& r ==> only_quit(pre, post)
    &&& !r ==> post == pre
}

/// The debug solve: plays a shortest path from the current board to the target, if
/// there is one, and enters the address phase when the target is reached.
fn auto_solve(app: &mut App)
    requires
        old(app).wf(),
        old(app).phase == AppPhase::Puzzle,
        old(app).puzzle.moves_taken < MOVE_LIMIT,
    ensures
        final(app).wf(),
        debug_solved(*old(app), *final(app)),
{
    match shortest_solution(app.puzzle.current, TARGET_STATE) {
        Some(path) => {
            let ghost start = app.puzzle.current@;
            let mut k: usize = 0;
            while k < path.len()
                invariant
                    k <= path@.len(),
                    path@.len() < BOARD_SPACE,
                    is_shortest_path(start, TARGET_STATE@, path@),
                    app.puzzle.current@ == replay(start, path@.take(k as int)),
                    forall|m: int| 0 <= m < app.puzzle.history@.len() ==> app.puzzle.history@[m] < 6,
                    replay(app.puzzle.initial@, app.puzzle.history@) == app.puzzle.current@,
                    app.puzzle.history@.len() == old(app).puzzle.history@.len() + k,
                    app.puzzle.moves_taken == old(app).puzzle.moves_taken,
                    old(app).puzzle.moves_taken == old(app).puzzle.history@.len(),
                    old(app).puzzle.moves_taken < MOVE_LIMIT,
                    start == old(app).puzzle.current@,
                    app.puzzle.initial == old(app).puzzle.initial,
                    app.puzzle.optimal_moves == old(app).puzzle.optimal_moves,
                    app.puzzle.focus == old(app).puzzle.focus,
                    app.puzzle.show_rules == old(app).puzzle.show_rules,
                    focus_valid(app.puzzle.focus),
                    app.phase == AppPhase::Puzzle,
                    app.email == old(app).email,
                    app.debug == old(app).debug,
                    app.should_quit == old(app).should_quit,
                    app.submitted_email == old(app).submitted_email,
                decreases path@.len() - k,
            {
                let index = path[k];
                proof {
                    assert(path@[k as int] < 6);
                    lemma_replay_push(start, path@.take(k as int), index);
                    assert(path@.take(k as int).push(index) =~= path@.take(k + 1));
                    lemma_replay_push(app.puzzle.initial@, app.puzzle.history@, index);
                }
                app.puzzle.current = press_indicator(app.puzzle.current, index);
                app.puzzle.history = Ghost(app.puzzle.history@.push(index));
                k = k + 1;
            }
            proof {
                assert(path@.take(path@.len() as int) =~= path@);
            }
            app.puzzle.moves_taken = app.puzzle.moves_taken + path.len();
            let mut status = String::from_str("Debug solve used ");
            let n = decimal_text(path.len());
            status.append(n.as_str());
            status.append(" move(s).");
            app.puzzle.status = status;
            proof {
                assert(is_least_shortest_path(start, TARGET_STATE@, path@) && app.puzzle.moves_taken
                    == old(app).puzzle.moves_taken + path@.len() && app.puzzle.status@
                    == "Debug solve used "@ + decimal(path@.len()) + " move(s)."@);
            }
        },
        None => {
            app.puzzle.status = String::from_str("Debug solve did not find a valid route.");
        },
    }
    if same_board(&app.puzzle.current, &TARGET_STATE) {
        transition_to_email(app);
    }
}

/// Handles a key in the puzzle phase and says whether anything changed. Arrows move
/// the focus, Enter and space activate it, Esc quits, and F12 solves the puzzle, but
/// only in debug mode.
pub fn handle_puzzle_key(app: &mut App, key: KeyPress) -> (r: bool)
    requires
        old(app).wf(),
        old(app).phase == AppPhase::Puzzle,
        old(app).puzzle.moves_taken < MOVE_LIMIT,
    ensures
        final(app).wf(),
        puzzle_key_effect(*old(app), *final(app), key, r),
{
    match key.code {
        KeyCode::Left => {
            app.puzzle.focus = match app.puzzle.focus {
                PuzzleFocus::Indicator(index) => PuzzleFocus::Indicator((index + 5) % 6),
                PuzzleFocus::Action(index) => PuzzleFocus::Action((index + 2) % 3),
            };
            true
        },
        KeyCode::Right => {
            app.puzzle.focus = match app.puzzle.focus {
                PuzzleFocus::Indicator(index) => PuzzleFocus::Indicator((index + 1) % 6),
                PuzzleFocus::Action(index) => PuzzleFocus::Action((index + 1) % 3),
            };
            true
        },
        KeyCode::Up | KeyCode::Down => {
            app.puzzle.focus = match app.puzzle.focus {
                PuzzleFocus::Indicator(index) => {
                    let half = index / 2;
                    PuzzleFocus::Action(
                        if half < 2 {
                            half
                        } else {
                            2
                        },
                    )
                },
                PuzzleFocus::Action(index) => {
                    let double = index * 2;
                    PuzzleFocus::Indicator(
                        if double < 5 {
                            double
                        } else {
                            5
                        },
                    )
                },
            };
            true
        },
        KeyCode::Enter => {
            activate_puzzle_focus(app);
            true
        },
        KeyCode::Char(c) => {
            if c == ' ' {
                activate_puzzle_focus(app);
                true
            } else {
                false
            }
        },
        KeyCode::F(n) => {
            if n == 12 && app.debug {
                auto_solve(app);
                true
            } else {
                false
            }
        },
        KeyCode::Esc => {
            app.should_quit = true;
            true
        },
        _ => false,
    }
}

/// Handles a key in the address phase. Typed characters outside the accepted set, or
/// past the length limit, are refused. Confirming a valid address asks the caller to
/// store it; confirming an invalid one only sets the status; "solve again" starts a
/// fresh puzzle.
pub fn handle_email_key(app: &mut App, key: KeyPress) -> (r: KeyOutcome)
    requires
        old(app).wf(),
        old(app).phase == AppPhase::Email,
    ensures
        final(app).wf(),
        email_key_effect(*old(app), *final(app), key, r),
{
    match app.email.focus {
        EmailFocus::Input => match key.code {
            KeyCode::Tab | KeyCode::Down | KeyCode::Enter => {
                app.email.focus = EmailFocus::Buttons;
                KeyOutcome::Redraw
            },
            KeyCode::Backspace => {
                pop_char(&mut app.email.email);
                KeyOutcome::Redraw
            },
            KeyCode::Char(c) => {
                if is_email_char(c) && app.email.email.as_str().unicode_len() < EMAIL_MAX {
                    push_char(&mut app.email.email, c);
                    app.email.status = String::new();
                    KeyOutcome::Redraw
                } else {
                    KeyOutcome::Ignored
                }
            },
            KeyCode::Esc => {
                app.should_quit = true;
                KeyOutcome::Redraw
            },
            _ => KeyOutcome::Ignored,
        },
        EmailFocus::Buttons => match key.code {
            KeyCode::Tab | KeyCode::Up => {
                app.email.focus = EmailFocus::Input;
                KeyOutcome::Redraw
            },
            KeyCode::Left | KeyCode::Right => {
                app.email.selected_button = 1 - app.email.selected_button;
                KeyOutcome::Redraw
            },
            KeyCode::Enter => confirm_email(app),
            KeyCode::Char(c) => {
                if c == ' ' {
                    confirm_email(app)
                } else {
                    KeyOutcome::Ignored
                }
            },
            KeyCode::Esc => {
                app.should_quit = true;
                KeyOutcome::Redraw
            },
            _ => KeyOutcome::Ignored,
        },
    }
}

/// Acts on the selected button of the address view: confirm (button 0) or solve again.
fn confirm_email(app: &mut App) -> (r: KeyOutcome)
    requires
        old(app).wf(),
        old(app).phase == AppPhase::Email,
    ensures
        final(app).wf(),
        old(app).email.selected_button == 0 ==> if valid_email(old(app).email.email@) {
            r == KeyOutcome::Store && *final(app) == *old(app)
        } else {
            r == KeyOutcome::Redraw && email_view_only(*old(app), *final(app))
                && final(app).email.email == old(app).email.email && final(app).email.focus
                == old(app).email.focus && final(app).email.selected_button
                == old(app).email.selected_button && final(app).email.status@
                == "Please enter a valid email before confirming."@
        },
        old(app).email.selected_button != 0 ==> r == KeyOutcome::Redraw && solve_again(
            *old(app),
            *final(app),
        ),
{
    if app.email.selected_button == 0 {
        if !is_valid_email(app.email.email.as_str()) {
            app.email.status = String::from_str("Please enter a valid email before confirming.");
            return KeyOutcome::Redraw;
        }
        return KeyOutcome::Store;
    }
    app.puzzle = new_puzzle_state();
    app.phase = AppPhase::Puzzle;
    proof {
        lemma_start_is_not_target();
    }
    KeyOutcome::Redraw
}

/// Records the outcome of storing the confirmed address: on success the session is
/// submitted with that address; on failure it stays in the address phase and the
/// status says so.
pub fn complete_submission(app: &mut App, stored: bool)
    requires
        old(app).wf(),
        old(app).phase == AppPhase::Email,
        valid_email(old(app).email.email@),
    ensures
        final(app).wf(),
        final(app).email.email == old(app).email.email,
        final(app).puzzle == old(app).puzzle,
        final(app).debug == old(app).debug,
        final(app).should_quit == old(app).should_quit,
        stored ==> final(app).phase == AppPhase::Submitted && (final(app).submitted_email matches Some(
            e,
        ) && e@ == old(app).email.email@),
        !stored ==> final(app).phase == AppPhase::Email && final(app).submitted_email
            == old(app).submitted_email && final(app).email.status@
            == "Could not save the invite; please try again."@,
{
    if stored {
        app.submitted_email = Some(app.email.email.clone());
        app.phase = AppPhase::Submitted;
    } else {
        proof {
            reveal_strlit("Could not save the invite; please try again.");
        }
        app.email.status = String::from_str("Could not save the invite; please try again.");
    }
}

/// Handles a key in the submitted phase: Esc or Enter ends the session.
pub fn handle_submitted_key(app: &mut App, key: KeyPress) -> (r: bool)
    ensures
        submitted_key_effect(*old(app), *final(app), key, r),
{
    match key.code {
        KeyCode::Esc | KeyCode::Enter => {
            app.should_quit = true;
            true
        },
        _ => false,
    }
}

/// Handles one key event in whatever phase is active. Control-C ends the session in
/// every phase.
pub fn handle_key(app: &mut App, key: KeyPress) -> (r: KeyOutcome)
    requires
        old(app).wf(),
        old(app).puzzle.moves_taken < MOVE_LIMIT,
    ensures
        final(app).wf(),
        r == KeyOutcome::Ignored ==> *final(app) == *old(app),
        key.control && key.code == KeyCode::Char('c') ==> r == KeyOutcome::Redraw && only_quit(
            *old(app),
            *final(app),
        ),
        !(key.control && key.code == KeyCode::Char('c')) ==> match old(app).phase {
            AppPhase::Puzzle => r != KeyOutcome::Store && puzzle_key_effect(
                *old(app),
                *final(app),
                key,
                r == KeyOutcome::Redraw,
            ),
            AppPhase::Email => email_key_effect(*old(app), *final(app), key, r),
            AppPhase::Submitted => r != KeyOutcome::Store && submitted_key_effect(
                *old(app),
                *final(app),
                key,
                r == KeyOutcome::Redraw,
            ),
        },
        final(app).phase == AppPhase::Submitted ==> old(app).phase == AppPhase::Submitted,
        r == KeyOutcome::Store ==> old(app).phase == AppPhase::Email && *final(app) == *old(app)
            && valid_email(old(app).email.email@),
        old(app).phase == AppPhase::Puzzle && !old(app).debug && key.code == KeyCode::F(12)
            && !key.control ==> r == KeyOutcome::Ignored,
        old(app).phase == AppPhase::Puzzle && old(app).debug && key.code == KeyCode::F(12)
            && !key.control && reachable(old(app).puzzle.current@, TARGET_STATE@) ==> final(app).phase
            == AppPhase::Email && final(app).puzzle.current@ == TARGET_STATE@,
        final(app).phase == AppPhase::Puzzle && old(app).phase != AppPhase::Puzzle
            ==> final(app).puzzle.is_fresh(),
{
    if key.control && key.code == KeyCode::Char('c') {
        app.should_quit = true;
        return KeyOutcome::Redraw;
    }
    match app.phase {
        AppPhase::Puzzle => {
            if handle_puzzle_key(app, key) {
                KeyOutcome::Redraw
            } else {
                KeyOutcome::Ignored
            }
        },
        AppPhase::Email => handle_email_key(app, key),
        AppPhase::Submitted => {
            if handle_submitted_key(app, key) {
                KeyOutcome::Redraw
            } else {
                KeyOutcome::Ignored
            }
        },
    }
}

} // verus!
