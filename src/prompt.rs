//! Reading the answers typed at the console.
use vstd::prelude::*;

use crate::config::DEFAULT_CPS;
use crate::text::{chars_of, parse_u32, parse_u32_range, trim, trim_bounds};

verus! {

/// Whether the answer to "recreate the configuration?" is yes: once trimmed, it
/// is the letter `y` in either case.
pub open spec fn is_yes(answer: Seq<char>) -> bool {
    trim(answer) == seq!['y'] || trim(answer) == seq!['Y']
}

/// Whether `answer` asks for the configuration to be made anew.
pub fn wants_recreate(answer: &str) -> (r: bool)
    ensures
        r == is_yes(answer@),
{
    let s = chars_of(answer);
    let (a, b) = trim_bounds(&s, 0, s.len());
    assert(s@.subrange(0, s.len() as int) =~= answer@);
    let ghost t = s@.subrange(a as int, b as int);
    if b - a == 1 {
        let c = s[a];
        assert(t =~= seq![c]);
        assert(seq!['y'][0] == 'y' && seq!['Y'][0] == 'Y');
        c == 'y' || c == 'Y'
    } else {
        assert(t.len() != seq!['y'].len());
        false
    }
}

/// How an entered clicks-per-second line is understood.
#[derive(PartialEq, Eq, Structural, Clone, Copy, Debug)]
pub enum CpsInput {
    /// A positive rate.
    Rate(u32),
    /// The number entered is zero.
    Zero,
    /// The line is not a number, is negative, or is more than a `u32` holds.
    Invalid,
}

/// How the line `s` is understood: once trimmed, as a `u32`.
pub open spec fn cps_input_of(s: Seq<char>) -> CpsInput {
    match parse_u32(trim(s)) {
        Some(n) => if n > 0 {
            CpsInput::Rate(n)
        } else {
            CpsInput::Zero
        },
        None => CpsInput::Invalid,
    }
}

/// Reads an entered clicks-per-second line: trimmed, as a `u32`; zero and
/// anything that is no `u32` are told apart so that the caller can say why it
/// falls back to the default.
pub fn parse_cps_input(line: &str) -> (r: CpsInput)
    ensures
        r == cps_input_of(line@),
{
    let s = chars_of(line);
    let (a, b) = trim_bounds(&s, 0, s.len());
    assert(s@.subrange(0, s.len() as int) =~= line@);
    match parse_u32_range(&s, a, b) {
        Some(v) => if v > 0 {
            CpsInput::Rate(v)
        } else {
            CpsInput::Zero
        },
        None => CpsInput::Invalid,
    }
}

impl CpsInput {
    /// The rate to use: the entered one when positive, `DEFAULT_CPS` otherwise.
    pub fn rate(&self) -> (r: u32)
        ensures
            r >= 1,
            r == (match *self {
                CpsInput::Rate(n) => if n >= 1 {
                    n
                } else {
                    DEFAULT_CPS
                },
                _ => DEFAULT_CPS,
            }),
    {
        match self {
            CpsInput::Rate(n) => if *n >= 1 {
                *n
            } else {
                DEFAULT_CPS
            },
            _ => DEFAULT_CPS,
        }
    }
}

} // verus!
