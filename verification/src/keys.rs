//! What keys and the mouse wheel do.
use vstd::prelude::*;
use crate::app_state::{AppState, AppView, PermissionAnswer};
use crate::export;
use crate::number;
use crate::text;
use crate::tui;

verus! {

#[derive(Debug, Clone, Copy, PartialEq, Eq, Structural)]
pub enum Key {
    Up,
    Down,
    PageUp,
    PageDown,
    Home,
    End,
    Char(char),
    Backspace,
    Enter,
    Esc,
    Other,
}

/// What the mouse wheel does.
#[derive(Debug, Clone, Copy, PartialEq, Eq, Structural)]
pub enum Wheel {
    Up,
    Down,
    Other,
}

// ── Scrolling ──

/// The first line shown.
pub open spec fn resolved(scroll: usize, max: usize) -> usize {
    if scroll < max {
        scroll
    } else {
        max
    }
}

pub fn resolve_scroll(scroll: usize, max_scroll: usize) -> (r: usize)
    ensures
        r == resolved(scroll, max_scroll),
{
    if scroll < max_scroll {
        scroll
    } else {
        max_scroll
    }
}

/// The scroll position further up.
pub open spec fn higher(scroll: usize, max: usize, amount: usize) -> usize {
    if resolved(scroll, max) < amount {
        0
    } else {
        (resolved(scroll, max) - amount) as usize
    }
}

/// The scroll position further down; from the last line on it is the end.
pub open spec fn lower(scroll: usize, max: usize, amount: usize) -> usize {
    if resolved(scroll, max) + amount >= max {
        usize::MAX
    } else {
        (resolved(scroll, max) + amount) as usize
    }
}

pub fn scroll_up(state: &mut AppState, amount: usize)
    ensures
        final(state).deep_view() == (AppView {
            scroll: higher(old(state).scroll, old(state).max_scroll, amount),
            ..old(state).deep_view()
        }),
{
    let current: usize = resolve_scroll(state.scroll, state.max_scroll);
    state.scroll = current.saturating_sub(amount);
}

pub fn scroll_down(state: &mut AppState, amount: usize)
    ensures
        final(state).deep_view() == (AppView {
            scroll: lower(old(state).scroll, old(state).max_scroll, amount),
            ..old(state).deep_view()
        }),
{
    let current: usize = resolve_scroll(state.scroll, state.max_scroll);
    if amount >= state.max_scroll - current {
        state.scroll = usize::MAX;
    } else {
        state.scroll = current + amount;
    }
}

pub fn scroll_to_bottom(state: &mut AppState)
    ensures
        final(state).deep_view() == (AppView { scroll: usize::MAX, ..old(state).deep_view() }),
{
    state.scroll = usize::MAX;
}

/// The scroll position after a key.
pub open spec fn scrolled(a: AppView, key: Key, control: bool) -> usize {
    match key {
        Key::Up => higher(a.scroll, a.max_scroll, 1),
        Key::Down => lower(a.scroll, a.max_scroll, 1),
        Key::PageUp => higher(a.scroll, a.max_scroll, 10),
        Key::PageDown => lower(a.scroll, a.max_scroll, 10),
        Key::Home => 0,
        Key::End => usize::MAX,
        Key::Char(c) => if control && (c == 'l' || c == 'L') {
            usize::MAX
        } else {
            a.scroll
        },
        _ => a.scroll,
    }
}

pub fn handle_scroll_key(state: &mut AppState, key: Key, control: bool)
    ensures
        final(state).deep_view() == (AppView {
            scroll: scrolled(old(state).deep_view(), key, control),
            ..old(state).deep_view()
        }),
{
    match key {
        Key::Up => scroll_up(state, 1),
        Key::Down => scroll_down(state, 1),
        Key::PageUp => scroll_up(state, 10),
        Key::PageDown => scroll_down(state, 10),
        Key::Home => {
            state.scroll = 0;
        },
        Key::End => {
            state.scroll = usize::MAX;
        },
        Key::Char(c) => {
            if control && (c == 'l' || c == 'L') {
                state.scroll = usize::MAX;
            }
        },
        _ => {},
    }
}

pub fn handle_scroll_mouse(state: &mut AppState, wheel: Wheel) -> (r: bool)
    ensures
        r == (wheel != Wheel::Other),
        final(state).deep_view() == (AppView {
            scroll: match wheel {
                Wheel::Up => higher(old(state).scroll, old(state).max_scroll, 3),
                Wheel::Down => lower(old(state).scroll, old(state).max_scroll, 3),
                Wheel::Other => old(state).scroll,
            },
            ..old(state).deep_view()
        }),
{
    match wheel {
        Wheel::Up => {
            scroll_up(state, 3);
            true
        },
        Wheel::Down => {
            scroll_down(state, 3);
            true
        },
        Wheel::Other => false,
    }
}

/// Keeps the scroll position in range after the transcript was laid out: it
/// has `lines` lines, of which `height` are shown. The first line shown comes
/// back.
pub fn lay_out(state: &mut AppState, lines: usize, height: u16) -> (r: u16)
    ensures
        ({
            let page = if height == 0 {
                1
            } else {
                height as int
            };
            let max = if lines < page {
                0
            } else {
                (lines - page) as usize
            };
            let scroll = if old(state).scroll != usize::MAX && old(state).scroll > max {
                max
            } else {
                old(state).scroll
            };
            &&& final(state).deep_view() == (AppView {
                max_scroll: max,
                scroll,
                ..old(state).deep_view()
            })
            &&& r == (if resolved(scroll, max) <= u16::MAX {
                resolved(scroll, max) as u16
            } else {
                u16::MAX
            })
        }),
{
    let page: usize = if height == 0 {
        1
    } else {
        height as usize
    };
    let max: usize = lines.saturating_sub(page);
    state.max_scroll = max;
    if state.scroll != usize::MAX && state.scroll > max {
        state.scroll = max;
    }
    let first: usize = resolve_scroll(state.scroll, max);
    if first <= u16::MAX as usize {
        first as u16
    } else {
        u16::MAX
    }
}

// ── Copying ──

/// Whether a key asks for the last reply to be copied.
pub open spec fn is_copy(key: Key, control: bool) -> bool {
    key == Key::Char('y') && control
}

/// The last reply, to be copied, where the key asks for it.
pub fn try_copy_key(state: &AppState, key: Key, control: bool) -> (r: Option<Result<String, String>>)
    ensures
        match r {
            Some(copy) => is_copy(key, control) && export::copy_view(copy) == export::copyable(
                export::current_reply(state.deep_view()),
            ),
            None => !is_copy(key, control),
        },
{
    if let Key::Char(c) = key {
        if c == 'y' && control {
            return Some(state.copy_last_assistant());
        }
    }
    None
}

/// What is said after copying, where `what` was copied.
pub open spec fn copy_report(what: Seq<char>, done: Result<usize, String>) -> Seq<char> {
    match done {
        Ok(n) => what + " ("@ + number::decimal(n as nat) + " bytes)."@,
        Err(e) => "Copy failed: "@ + e@,
    }
}

/// Says what came of copying.
pub fn report_copy(state: &mut AppState, what: &str, done: &Result<usize, String>)
    ensures
        final(state).deep_view() == (AppView {
            messages: old(state).deep_view().messages.push(
                tui::text_message("system"@, copy_report(what@, *done)),
            ),
            scroll: usize::MAX,
            ..old(state).deep_view()
        }),
{
    let said = match done {
        Ok(n) => text::cat4(what, " (", number::usize_text(*n).as_str(), " bytes)."),
        Err(e) => text::cat2("Copy failed: ", e.as_str()),
    };
    state.add_system_message(said.as_str());
}

// ── Keys ──

/// What is to be done after a key.
pub enum KeyAction {
    Nothing,
    /// Tell the tool that waits.
    Answer { answer: PermissionAnswer },
    /// Copy the text, or say why there is none.
    Copy { copy: Result<String, String> },
    /// Run a turn with what the user says.
    Submit { input: String },
    /// Carry out a command.
    Command { input: String },
    Quit,
}

/// The contents of a `KeyAction`.
pub enum KeyActionView {
    Nothing,
    Answer { answer: PermissionAnswer },
    Copy { copy: Result<Seq<char>, Seq<char>> },
    Submit { input: Seq<char> },
    Command { input: Seq<char> },
    Quit,
}

impl DeepView for KeyAction {
    type V = KeyActionView;

    open spec fn deep_view(&self) -> KeyActionView {
        match *self {
            KeyAction::Nothing => KeyActionView::Nothing,
            KeyAction::Answer { answer } => KeyActionView::Answer { answer },
            KeyAction::Copy { copy } => KeyActionView::Copy { copy: export::copy_view(copy) },
            KeyAction::Submit { input } => KeyActionView::Submit { input: input@ },
            KeyAction::Command { input } => KeyActionView::Command { input: input@ },
            KeyAction::Quit => KeyActionView::Quit,
        }
    }
}

/// Whether a key allows or refuses what a tool asks for.
pub open spec fn verdict_of(key: Key) -> Option<bool> {
    match key {
        Key::Char(c) => if c == 'y' || c == 'Y' {
            Some(true)
        } else if c == 'n' || c == 'N' {
            Some(false)
        } else {
            None
        },
        Key::Esc => Some(false),
        _ => None,
    }
}

/// What a key does while a tool waits for permission.
pub open spec fn permission_step(a: AppView, key: Key) -> (AppView, KeyActionView) {
    match (verdict_of(key), a.pending_permission) {
        (Some(allowed), Some(p)) => (
            AppView { pending_permission: None, ..a },
            KeyActionView::Answer { answer: PermissionAnswer { ticket: p.ticket, allowed } },
        ),
        _ => (a, KeyActionView::Nothing),
    }
}

/// What the enter key does: what was typed is sent, or carried out where it
/// starts with a slash. Blank input is dropped.
pub open spec fn enter_step(a: AppView) -> (AppView, KeyActionView) {
    let input = text::trim(a.input);
    let cleared = AppView { input: Seq::empty(), ..a };
    if input.len() == 0 {
        (cleared, KeyActionView::Nothing)
    } else if input[0] == '/' {
        (cleared, KeyActionView::Command { input })
    } else {
        (
            AppView {
                messages: a.messages.push(tui::text_message("user"@, input)),
                scroll: usize::MAX,
                ..cleared
            },
            KeyActionView::Submit { input },
        )
    }
}

/// What a key does.
pub open spec fn key_step(a: AppView, key: Key, control: bool, shift: bool) -> (
    AppView,
    KeyActionView,
) {
    let scroll = AppView { scroll: scrolled(a, key, control), ..a };
    if a.pending_permission is Some {
        permission_step(a, key)
    } else if is_copy(key, control) {
        (a, KeyActionView::Copy { copy: export::copyable(export::current_reply(a)) })
    } else if a.thinking {
        (scroll, KeyActionView::Nothing)
    } else {
        match key {
            Key::Char(c) => if c == 'l' && control {
                (AppView { scroll: usize::MAX, ..a }, KeyActionView::Nothing)
            } else {
                (AppView { input: a.input.push(c), ..a }, KeyActionView::Nothing)
            },
            Key::Backspace => (
                AppView {
                    input: if a.input.len() == 0 {
                        a.input
                    } else {
                        a.input.drop_last()
                    },
                    ..a
                },
                KeyActionView::Nothing,
            ),
            Key::Enter => if shift {
                (AppView { input: a.input.push('\n'), ..a }, KeyActionView::Nothing)
            } else {
                enter_step(a)
            },
            Key::Esc => (a, KeyActionView::Quit),
            Key::Other => (a, KeyActionView::Nothing),
            _ => (scroll, KeyActionView::Nothing),
        }
    }
}

fn read_verdict(key: Key) -> (r: Option<bool>)
    ensures
        r == verdict_of(key),
{
    match key {
        Key::Char(c) => if c == 'y' || c == 'Y' {
            Some(true)
        } else if c == 'n' || c == 'N' {
            Some(false)
        } else {
            None
        },
        Key::Esc => Some(false),
        _ => None,
    }
}

/// What a key does while a tool waits for permission.
pub fn permission_key(state: &mut AppState, key: Key) -> (r: KeyAction)
    ensures
        (final(state).deep_view(), r.deep_view()) == permission_step(old(state).deep_view(), key),
{
    if let Some(allowed) = read_verdict(key) {
        if let Some(answer) = state.respond_permission(allowed) {
            return KeyAction::Answer { answer };
        }
    }
    KeyAction::Nothing
}

fn drop_last_char(s: &str) -> (r: String)
    ensures
        r@ == (if s@.len() == 0 {
            s@
        } else {
            s@.drop_last()
        }),
{
    let v = text::chars_of(s);
    if v.len() == 0 {
        return String::new();
    }
    let r = text::string_of(&v, 0, v.len() - 1);
    assert(r@ =~= s@.drop_last());
    r
}

fn press_enter(state: &mut AppState) -> (r: KeyAction)
    ensures
        (final(state).deep_view(), r.deep_view()) == enter_step(old(state).deep_view()),
{
    let input = text::trimmed(state.input.as_str());
    state.input = String::new();
    let v = text::chars_of(input.as_str());
    if v.len() == 0 {
        KeyAction::Nothing
    } else if v[0] == '/' {
        KeyAction::Command { input }
    } else {
        state.add_user_message(input.as_str());
        KeyAction::Submit { input }
    }
}

/// What a key does.
pub fn handle_key(state: &mut AppState, key: Key, control: bool, shift: bool) -> (r: KeyAction)
    ensures
        (final(state).deep_view(), r.deep_view()) == key_step(
            old(state).deep_view(),
            key,
            control,
            shift,
        ),
{
    if state.has_pending_permission() {
        return permission_key(state, key);
    }
    if let Some(copy) = try_copy_key(state, key, control) {
        return KeyAction::Copy { copy };
    }
    if state.thinking {
        handle_scroll_key(state, key, control);
        return KeyAction::Nothing;
    }
    match key {
        Key::Char(c) => {
            if c == 'l' && control {
                scroll_to_bottom(state);
            } else {
                state.input.push(c);
            }
            KeyAction::Nothing
        },
        Key::Backspace => {
            state.input = drop_last_char(state.input.as_str());
            KeyAction::Nothing
        },
        Key::Enter => {
            if shift {
                state.input.push('\n');
                KeyAction::Nothing
            } else {
                press_enter(state)
            }
        },
        Key::Esc => KeyAction::Quit,
        Key::Other => KeyAction::Nothing,
        _ => {
            handle_scroll_key(state, key, control);
            KeyAction::Nothing
        },
    }
}

// ── Laws ──

/// Scrolling stays within the transcript or at its end.
pub proof fn scrolling_stays_in_range(scroll: usize, max: usize, amount: usize)
    ensures
        higher(scroll, max, amount) <= max,
        lower(scroll, max, amount) < max || lower(scroll, max, amount) == usize::MAX,
{
}

/// Scrolling down takes scrolling up back, where there was room.
pub proof fn scrolling_is_reversible(scroll: usize, max: usize, amount: usize)
    requires
        resolved(scroll, max) >= amount,
    ensures
        resolved(lower(higher(scroll, max, amount), max, amount), max) == resolved(scroll, max),
{
}

/// A key is answered to the tool that waits, and to nothing else, until the
/// question is settled.
pub proof fn questions_come_first(a: AppView, key: Key, control: bool, shift: bool)
    requires
        a.pending_permission is Some,
    ensures
        key_step(a, key, control, shift).1 is Nothing || key_step(a, key, control, shift).1 is Answer,
        key_step(a, key, control, shift).1 is Answer <==> verdict_of(key) is Some,
        key_step(a, key, control, shift).0.input == a.input,
{
}

/// Typing and the backspace key take each other back.
pub proof fn backspace_takes_back(a: AppView, c: char)
    requires
        a.pending_permission is None,
        !a.thinking,
    ensures
        key_step(key_step(a, Key::Char(c), false, false).0, Key::Backspace, false, false).0 == a,
{
    assert(a.input.push(c).drop_last() =~= a.input);
}

/// The enter key sends what was typed, whole but for white space at its ends,
/// and shows it; a line with a slash is a command and is not shown. The input is
/// empty after it, and what was shown stays.
pub proof fn enter_sends_what_was_typed(a: AppView)
    requires
        a.pending_permission is None,
        !a.thinking,
    ensures
        ({
            let (b, action) = key_step(a, Key::Enter, false, false);
            let typed = text::trim(a.input);
            &&& b.input.len() == 0
            &&& typed.len() == 0 ==> action is Nothing && b.messages == a.messages
            &&& typed.len() > 0 && typed[0] == '/' ==> action == (KeyActionView::Command {
                input: typed,
            }) && b.messages == a.messages
            &&& typed.len() > 0 && typed[0] != '/' ==> action == (KeyActionView::Submit {
                input: typed,
            }) && b.messages.drop_last() == a.messages && b.messages.last() == tui::text_message(
                "user"@,
                typed,
            ) && b.scroll == usize::MAX
        }),
{
    let (b, action) = key_step(a, Key::Enter, false, false);
    if action is Submit {
        assert(b.messages.drop_last() =~= a.messages);
    }
}

/// A character that is typed stands at the end of the input, and so does the
/// line feed of an enter key with shift; nothing is sent.
pub proof fn typing_goes_on(a: AppView, c: char, control: bool, shift: bool)
    requires
        a.pending_permission is None,
        !a.thinking,
        !control,
    ensures
        key_step(a, Key::Char(c), control, shift) == (
            AppView { input: a.input.push(c), ..a },
            KeyActionView::Nothing,
        ),
        key_step(a, Key::Enter, control, true) == (
            AppView { input: a.input.push('\n'), ..a },
            KeyActionView::Nothing,
        ),
{
}

/// Questions are answered with yes by `y` and with no by `n` and escape,
/// whatever the case; other keys do not answer. The answer goes to the one who
/// asked, and the question is settled.
pub proof fn answers_go_to_who_asked(a: AppView, key: Key, control: bool, shift: bool)
    requires
        a.pending_permission is Some,
    ensures
        ({
            let (b, action) = key_step(a, key, control, shift);
            let ticket = a.pending_permission.unwrap().ticket;
            let yes = key == Key::Char('y') || key == Key::Char('Y');
            let no = key == Key::Char('n') || key == Key::Char('N') || key == Key::Esc;
            &&& yes ==> action == (KeyActionView::Answer {
                answer: PermissionAnswer { ticket, allowed: true },
            })
            &&& no ==> action == (KeyActionView::Answer {
                answer: PermissionAnswer { ticket, allowed: false },
            })
            &&& yes || no ==> b.pending_permission is None
            &&& !yes && !no ==> action is Nothing && b == a
            &&& b.messages == a.messages
        }),
{
}

/// While a reply comes in keys only scroll and copy; nothing is typed or sent,
/// and the program is not left.
pub proof fn replies_are_not_disturbed(a: AppView, key: Key, control: bool, shift: bool)
    requires
        a.pending_permission is None,
        a.thinking,
    ensures
        ({
            let (b, action) = key_step(a, key, control, shift);
            &&& action is Nothing || action is Copy
            &&& b == (AppView { scroll: b.scroll, ..a })
        }),
{
}

/// Control and `y` copy the last reply; escape leaves the program where nothing
/// is under way.
pub proof fn keys_copy_and_leave(a: AppView, shift: bool)
    requires
        a.pending_permission is None,
    ensures
        key_step(a, Key::Char('y'), true, shift) == (
            a,
            KeyActionView::Copy { copy: export::copyable(export::current_reply(a)) },
        ),
        !a.thinking ==> key_step(a, Key::Esc, false, shift).1 is Quit,
        forall|key: Key, control: bool|
            (#[trigger] key_step(a, key, control, shift)).1 is Quit ==> key == Key::Esc,
{
}

/// Scrolling moves by as many lines as are asked for, as far as there are any:
/// keys by one, pages by ten; home is the first line and end the last.
pub proof fn scrolling_moves_by_lines(a: AppView, amount: usize)
    ensures
        ({
            let first = resolved(a.scroll, a.max_scroll);
            &&& first <= a.max_scroll
            &&& a.scroll <= a.max_scroll ==> first == a.scroll
            &&& first >= amount ==> higher(a.scroll, a.max_scroll, amount) == first - amount
            &&& first < amount ==> higher(a.scroll, a.max_scroll, amount) == 0
            &&& first + amount < a.max_scroll ==> lower(a.scroll, a.max_scroll, amount) == first
                + amount
            &&& first + amount >= a.max_scroll ==> resolved(
                lower(a.scroll, a.max_scroll, amount),
                a.max_scroll,
            ) == a.max_scroll
            &&& scrolled(a, Key::Up, false) == higher(a.scroll, a.max_scroll, 1)
            &&& scrolled(a, Key::Down, false) == lower(a.scroll, a.max_scroll, 1)
            &&& scrolled(a, Key::PageUp, false) == higher(a.scroll, a.max_scroll, 10)
            &&& scrolled(a, Key::PageDown, false) == lower(a.scroll, a.max_scroll, 10)
            &&& resolved(scrolled(a, Key::Home, false), a.max_scroll) == 0
            &&& resolved(scrolled(a, Key::End, false), a.max_scroll) == a.max_scroll
            &&& resolved(scrolled(a, Key::Char('l'), true), a.max_scroll) == a.max_scroll
        }),
{
}

/// After copying the user is told what was copied and how much, or what went
/// wrong.
pub proof fn copies_are_reported(what: Seq<char>, n: usize, error: String)
    ensures
        text::holds(copy_report(what, Ok(n)), what),
        text::holds(copy_report(what, Ok(n)), number::decimal(n as nat)),
        text::holds(copy_report(what, Err(error)), error@),
{
    let none = Seq::<char>::empty();
    let d = number::decimal(n as nat);
    text::holds_itself(what);
    text::holds_itself(d);
    text::holds_itself(error@);
    text::whole_holds_parts(none, what, " ("@ + d + " bytes)."@, what);
    assert(none + what + (" ("@ + d + " bytes)."@) =~= what + " ("@ + d + " bytes)."@);
    text::whole_holds_parts(what + " ("@, d, " bytes)."@, d);
    text::whole_holds_parts("Copy failed: "@, error@, none, error@);
    assert("Copy failed: "@ + error@ + none =~= "Copy failed: "@ + error@);
}

} // verus!
