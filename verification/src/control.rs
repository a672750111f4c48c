//! The operator console's command language: a running sim can be paused,
//! inspected and stopped in an orderly way.

use vstd::prelude::*;

use crate::text::str_eq;
use vstd::string::StrSliceExecFns;

verus! {

/// Argument of the `speed` command: uncapped, or a number the runner reads.
#[derive(Clone, Debug)]
pub enum SpeedArg {
    Max,
    /// The pacing in ticks per second, as typed.
    Value(String),
}

/// A console command.
#[derive(Clone, Debug)]
pub enum Command {
    Pause,
    Resume,
    Speed(SpeedArg),
    Status,
    Snapshot,
    /// Print every purse and the treasury.
    Wealth,
    /// Toggle the blight experiment.
    SetBlight(bool),
    Stop,
    Help,
    Unknown(String),
}

/// Unicode white space, as Rust's `char::is_whitespace` defines it.
pub open spec fn is_ws(c: char) -> bool {
    c == ' ' || ('\t' <= c && c <= '\r') || c == '\u{85}' || c == '\u{a0}' || c == '\u{1680}' || ('\u{2000}' <= c
        && c <= '\u{200a}') || c == '\u{2028}' || c == '\u{2029}' || c == '\u{202f}' || c == '\u{205f}' || c
        == '\u{3000}'
}

fn ws(c: char) -> (r: bool)
    ensures
        r == is_ws(c),
{
    c == ' ' || ('\t' <= c && c <= '\r') || c == '\u{85}' || c == '\u{a0}' || c == '\u{1680}' || ('\u{2000}' <= c
        && c <= '\u{200a}') || c == '\u{2028}' || c == '\u{2029}' || c == '\u{202f}' || c == '\u{205f}' || c
        == '\u{3000}'
}

/// First position at or after `i` that is not white space.
pub open spec fn skip_ws(s: Seq<char>, i: int) -> int
    decreases s.len() - i,
{
    if i >= s.len() || !is_ws(s[i]) {
        i
    } else {
        skip_ws(s, i + 1)
    }
}

/// First white-space position at or after `i`.
pub open spec fn skip_word(s: Seq<char>, i: int) -> int
    decreases s.len() - i,
{
    if i >= s.len() || is_ws(s[i]) {
        i
    } else {
        skip_word(s, i + 1)
    }
}

/// The next white-space separated word from position `from`, and where it ends.
pub open spec fn next_word(s: Seq<char>, from: int) -> Option<(Seq<char>, int)> {
    let a = skip_ws(s, from);
    if a >= s.len() {
        None
    } else {
        let b = skip_word(s, a);
        Some((s.subrange(a, b), b))
    }
}

proof fn lemma_skip_ws_bounds(s: Seq<char>, i: int)
    requires
        0 <= i <= s.len(),
    ensures
        i <= skip_ws(s, i) <= s.len(),
    decreases s.len() - i,
{
    if i < s.len() && is_ws(s[i]) {
        lemma_skip_ws_bounds(s, i + 1);
    }
}

proof fn lemma_skip_word_bounds(s: Seq<char>, i: int)
    requires
        0 <= i <= s.len(),
    ensures
        i <= skip_word(s, i) <= s.len(),
    decreases s.len() - i,
{
    if i < s.len() && !is_ws(s[i]) {
        lemma_skip_word_bounds(s, i + 1);
    }
}

/// The next word of `line` from char position `from`: its bounds.
fn next_word_at(line: &str, from: usize) -> (r: Option<(usize, usize)>)
    requires
        from <= line@.len(),
    ensures
        match next_word(line@, from as int) {
            None => r is None,
            Some((w, end)) => r matches Some((a, b)) && b == end && line@.subrange(a as int, b as int) == w && a < b
                && b <= line@.len(),
        },
{
    let n = line.unicode_len();
    let mut a = from;
    proof {
        lemma_skip_ws_bounds(line@, from as int);
    }
    while a < n && ws(line.get_char(a))
        invariant
            n == line@.len(),
            from <= a <= n,
            skip_ws(line@, a as int) == skip_ws(line@, from as int),
        decreases n - a,
    {
        a = a + 1;
    }
    if a >= n {
        return None;
    }
    let mut b = a;
    while b < n && !ws(line.get_char(b))
        invariant
            n == line@.len(),
            a <= b <= n,
            skip_word(line@, b as int) == skip_word(line@, a as int),
            a < n,
        decreases n - b,
    {
        b = b + 1;
    }
    proof {
        assert(!is_ws(line@[a as int]));
        assert(b > a);
    }
    Some((a, b))
}

/// What the console makes of a line.
pub open spec fn command_for(line: Seq<char>, r: Option<Command>) -> bool {
    match next_word(line, 0) {
        None => r is None,
        Some((w, end)) => {
            let second = next_word(line, end);
            if w == "pause"@ || w == "p"@ {
                r == Some(Command::Pause)
            } else if w == "resume"@ || w == "r"@ {
                r == Some(Command::Resume)
            } else if w == "speed"@ || w == "s"@ {
                match second {
                    None => r matches Some(Command::Unknown(t)) && t@ == line,
                    Some((v, _)) => if v == "max"@ {
                        r == Some(Command::Speed(SpeedArg::Max))
                    } else {
                        r matches Some(Command::Speed(SpeedArg::Value(t))) && t@ == v
                    },
                }
            } else if w == "status"@ || w == "st"@ {
                r == Some(Command::Status)
            } else if w == "snapshot"@ || w == "snap"@ {
                r == Some(Command::Snapshot)
            } else if w == "wealth"@ || w == "w"@ {
                r == Some(Command::Wealth)
            } else if w == "blight"@ {
                match second {
                    Some((v, _)) => if v == "on"@ {
                        r == Some(Command::SetBlight(true))
                    } else if v == "off"@ {
                        r == Some(Command::SetBlight(false))
                    } else {
                        r matches Some(Command::Unknown(t)) && t@ == line
                    },
                    None => r matches Some(Command::Unknown(t)) && t@ == line,
                }
            } else if w == "stop"@ || w == "quit"@ || w == "q"@ {
                r == Some(Command::Stop)
            } else if w == "help"@ || w == "h"@ || w == "?"@ {
                r == Some(Command::Help)
            } else {
                r matches Some(Command::Unknown(t)) && t@ == line
            }
        },
    }
}

/// Parse one console line; `None` for a blank line.
pub fn parse(line: &str) -> (r: Option<Command>)
    ensures
        command_for(line@, r),
{
    let (a, b) = match next_word_at(line, 0) {
        Some(p) => p,
        None => {
            return None;
        },
    };
    let w = line.substring_char(a, b);
    let unknown = Some(Command::Unknown(line.to_owned()));
    if str_eq(w, "pause") || str_eq(w, "p") {
        Some(Command::Pause)
    } else if str_eq(w, "resume") || str_eq(w, "r") {
        Some(Command::Resume)
    } else if str_eq(w, "speed") || str_eq(w, "s") {
        match next_word_at(line, b) {
            None => unknown,
            Some((c, d)) => {
                let v = line.substring_char(c, d);
                if str_eq(v, "max") {
                    Some(Command::Speed(SpeedArg::Max))
                } else {
                    Some(Command::Speed(SpeedArg::Value(v.to_owned())))
                }
            },
        }
    } else if str_eq(w, "status") || str_eq(w, "st") {
        Some(Command::Status)
    } else if str_eq(w, "snapshot") || str_eq(w, "snap") {
        Some(Command::Snapshot)
    } else if str_eq(w, "wealth") || str_eq(w, "w") {
        Some(Command::Wealth)
    } else if str_eq(w, "blight") {
        match next_word_at(line, b) {
            Some((c, d)) => {
                let v = line.substring_char(c, d);
                if str_eq(v, "on") {
                    Some(Command::SetBlight(true))
                } else if str_eq(v, "off") {
                    Some(Command::SetBlight(false))
                } else {
                    unknown
                }
            },
            None => unknown,
        }
    } else if str_eq(w, "stop") || str_eq(w, "quit") || str_eq(w, "q") {
        Some(Command::Stop)
    } else if str_eq(w, "help") || str_eq(w, "h") || str_eq(w, "?") {
        Some(Command::Help)
    } else {
        unknown
    }
}

} // verus!
