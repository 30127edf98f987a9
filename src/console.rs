use crate::clock::CivilTime;
use crate::naming::{clock_seq, clock_text};
use vstd::prelude::*;

verus! {

/// Severity of a log record.
#[derive(Clone, Copy, Debug, PartialEq, Eq, Structural)]
pub enum LogLevel {
    Error,
    Warn,
    Info,
    Debug,
    Trace,
}

/// Foreground colours the console uses.
#[derive(Clone, Copy, Debug, PartialEq, Eq, Structural)]
pub enum ConsoleColor {
    Red,
    LightYellow,
    LightCyan,
    Reset,
}

/// The colour of a console line: red for errors, light yellow for warnings,
/// light cyan for debug, the default for the rest.
pub open spec fn level_color_spec(level: LogLevel) -> ConsoleColor {
    match level {
        LogLevel::Error => ConsoleColor::Red,
        LogLevel::Warn => ConsoleColor::LightYellow,
        LogLevel::Debug => ConsoleColor::LightCyan,
        _ => ConsoleColor::Reset,
    }
}

/// The upper-case name a level is printed with.
pub open spec fn level_name_seq(level: LogLevel) -> Seq<char> {
    match level {
        LogLevel::Error => seq!['E', 'R', 'R', 'O', 'R'],
        LogLevel::Warn => seq!['W', 'A', 'R', 'N'],
        LogLevel::Info => seq!['I', 'N', 'F', 'O'],
        LogLevel::Debug => seq!['D', 'E', 'B', 'U', 'G'],
        LogLevel::Trace => seq!['T', 'R', 'A', 'C', 'E'],
    }
}

/// The ANSI escape sequence that selects a 256-colour palette entry as the foreground.
pub open spec fn palette_fg_seq(code: Seq<char>) -> Seq<char> {
    seq!['\u{1b}', '[', '3', '8', ';', '5', ';'] + code + seq!['m']
}

pub open spec fn reset_fg_seq() -> Seq<char> {
    seq!['\u{1b}', '[', '3', '9', 'm']
}

pub open spec fn color_seq(c: ConsoleColor) -> Seq<char> {
    match c {
        ConsoleColor::Red => palette_fg_seq(seq!['1']),
        ConsoleColor::LightYellow => palette_fg_seq(seq!['1', '1']),
        ConsoleColor::LightCyan => palette_fg_seq(seq!['1', '4']),
        ConsoleColor::Reset => reset_fg_seq(),
    }
}

/// `[HH:MM:SS LEVEL]: message`, framed by the level's colour and a reset when
/// `colored`, and ended by a newline.
pub open spec fn console_line_seq(
    level: LogLevel,
    t: CivilTime,
    message: Seq<char>,
    colored: bool,
) -> Seq<char> {
    (if colored {
        color_seq(level_color_spec(level))
    } else {
        Seq::empty()
    }) + seq!['['] + clock_seq(t) + seq![' '] + level_name_seq(level) + seq![']', ':', ' ']
        + message + (if colored {
        reset_fg_seq()
    } else {
        Seq::empty()
    }) + seq!['\n']
}

/// Relies on termion's `color::Red::fg_str`: the foreground escape of palette entry 1.
#[verifier::external_body]
fn red_fg() -> (r: &'static str)
    ensures
        r@ == palette_fg_seq(seq!['1']),
{
    termion::color::Red.fg_str()
}

/// Relies on termion's `color::LightYellow::fg_str`: the foreground escape of palette entry 11.
#[verifier::external_body]
fn light_yellow_fg() -> (r: &'static str)
    ensures
        r@ == palette_fg_seq(seq!['1', '1']),
{
    termion::color::LightYellow.fg_str()
}

/// Relies on termion's `color::LightCyan::fg_str`: the foreground escape of palette entry 14.
#[verifier::external_body]
fn light_cyan_fg() -> (r: &'static str)
    ensures
        r@ == palette_fg_seq(seq!['1', '4']),
{
    termion::color::LightCyan.fg_str()
}

/// Relies on termion's `color::Reset::fg_str`: the escape that restores the default foreground.
#[verifier::external_body]
fn reset_fg() -> (r: &'static str)
    ensures
        r@ == reset_fg_seq(),
{
    termion::color::Reset.fg_str()
}

/// The colour a line of `level` is shown in.
pub fn level_color(level: LogLevel) -> (r: ConsoleColor)
    ensures
        r == level_color_spec(level),
{
    match level {
        LogLevel::Error => ConsoleColor::Red,
        LogLevel::Warn => ConsoleColor::LightYellow,
        LogLevel::Debug => ConsoleColor::LightCyan,
        _ => ConsoleColor::Reset,
    }
}

/// The escape sequence that switches the foreground to `c`.
pub fn color_code(c: ConsoleColor) -> (r: &'static str)
    ensures
        r@ == color_seq(c),
{
    match c {
        ConsoleColor::Red => red_fg(),
        ConsoleColor::LightYellow => light_yellow_fg(),
        ConsoleColor::LightCyan => light_cyan_fg(),
        ConsoleColor::Reset => reset_fg(),
    }
}

/// The name a level is printed with.
pub fn level_name(level: LogLevel) -> (r: &'static str)
    ensures
        r@ == level_name_seq(level),
{
    match level {
        LogLevel::Error => {
            proof { reveal_strlit("ERROR"); }
            "ERROR"
        },
        LogLevel::Warn => {
            proof { reveal_strlit("WARN"); }
            "WARN"
        },
        LogLevel::Info => {
            proof { reveal_strlit("INFO"); }
            "INFO"
        },
        LogLevel::Debug => {
            proof { reveal_strlit("DEBUG"); }
            "DEBUG"
        },
        LogLevel::Trace => {
            proof { reveal_strlit("TRACE"); }
            "TRACE"
        },
    }
}

/// The text of one console line for a record of `level` with `message` at `time`.
pub fn console_line(level: LogLevel, time: &CivilTime, message: &str, colored: bool) -> (r: String)
    requires
        time.wf(),
    ensures
        r@ == console_line_seq(level, *time, message@, colored),
{
    proof {
        reveal_strlit("");
        reveal_strlit("[");
        reveal_strlit(" ");
        reveal_strlit("]: ");
        reveal_strlit("\n");
    }
    let start = if colored {
        color_code(level_color(level))
    } else {
        ""
    };
    let end = if colored {
        reset_fg()
    } else {
        ""
    };
    let s = start.to_owned().concat("[");
    let s = s.concat(clock_text(time).as_str());
    let s = s.concat(" ");
    let s = s.concat(level_name(level));
    let s = s.concat("]: ");
    let s = s.concat(message);
    let s = s.concat(end);
    let s = s.concat("\n");
    assert(s@ =~= console_line_seq(level, *time, message@, colored));
    s
}

} // verus!
