//! The palette of the terminal: its standard colors.
use vstd::prelude::*;
use crate::style;
use crate::style::{Color, Modifier, Style};

verus! {

/// The text of a conversation.
pub fn body() -> (r: Style)
    ensures
        r == style::colored(Color::White),
{
    Style::default().fg(Color::White)
}

/// What matters little.
pub fn dim() -> (r: Style)
    ensures
        r == style::colored(Color::DarkGray),
{
    Style::default().fg(Color::DarkGray)
}

/// What stands back.
pub fn muted() -> (r: Style)
    ensures
        r == style::colored(Color::DarkGray),
{
    Style::default().fg(Color::DarkGray)
}

/// What the user says.
pub fn user() -> (r: Style)
    ensures
        r == style::colored(Color::White),
{
    Style::default().fg(Color::White)
}

/// The heading of reasoning.
pub fn thought() -> (r: Style)
    ensures
        r == style::colored(Color::Yellow),
{
    Style::default().fg(Color::Yellow)
}

/// What a tool works on.
pub fn tool() -> (r: Style)
    ensures
        r == style::colored(Color::Gray),
{
    Style::default().fg(Color::Gray)
}

/// A tool at work.
pub fn tool_running() -> (r: Style)
    ensures
        r == style::colored(Color::Cyan),
{
    Style::default().fg(Color::Cyan)
}

/// What worked.
pub fn success() -> (r: Style)
    ensures
        r == style::colored(Color::Green),
{
    Style::default().fg(Color::Green)
}

/// What failed.
pub fn error() -> (r: Style)
    ensures
        r == style::colored(Color::Red),
{
    Style::default().fg(Color::Red)
}

/// Code within text.
pub fn inline_code() -> (r: Style)
    ensures
        r == style::colored(Color::Green),
{
    Style::default().fg(Color::Green)
}

/// The marker of a list item.
pub fn list_marker() -> (r: Style)
    ensures
        r == style::colored(Color::Yellow),
{
    Style::default().fg(Color::Yellow)
}

/// The border of code.
pub fn code_border() -> (r: Style)
    ensures
        r == style::colored(Color::DarkGray),
{
    Style::default().fg(Color::DarkGray)
}

/// Code.
pub fn code_body() -> (r: Style)
    ensures
        r == style::colored(Color::Gray),
{
    Style::default().fg(Color::Gray)
}

/// The mode in the status line.
pub fn status_mode() -> (r: Style)
    ensures
        r == style::with_modifier(style::colored(Color::White), Modifier::Bold),
{
    Style::default().fg(Color::White).add_modifier(Modifier::Bold)
}

/// The details in the status line.
pub fn status_meta() -> (r: Style)
    ensures
        r == style::colored(Color::DarkGray),
{
    Style::default().fg(Color::DarkGray)
}

/// What stands out.
pub fn status_accent() -> (r: Style)
    ensures
        r == style::colored(Color::Cyan),
{
    Style::default().fg(Color::Cyan)
}

/// What is being typed.
pub fn input_text() -> (r: Style)
    ensures
        r == style::colored(Color::White),
{
    Style::default().fg(Color::White)
}

/// A keyword in code.
pub fn keyword() -> (r: Style)
    ensures
        r == style::colored(Color::Cyan),
{
    Style::default().fg(Color::Cyan)
}

/// A number in code.
pub fn number() -> (r: Style)
    ensures
        r == style::colored(Color::Yellow),
{
    Style::default().fg(Color::Yellow)
}

/// A type in code.
pub fn type_style() -> (r: Style)
    ensures
        r == style::with_modifier(style::colored(Color::Green), Modifier::Bold),
{
    Style::default().fg(Color::Green).add_modifier(Modifier::Bold)
}

/// A heading of some level.
pub fn heading(level: usize) -> (r: Style)
    ensures
        r == style::with_modifier(
            style::colored(
                if level <= 2 {
                    Color::White
                } else {
                    Color::Gray
                },
            ),
            Modifier::Bold,
        ),
{
    if level <= 2 {
        Style::default().fg(Color::White).add_modifier(Modifier::Bold)
    } else {
        Style::default().fg(Color::Gray).add_modifier(Modifier::Bold)
    }
}

} // verus!
