//! Writing modes: how the sidecar formats a finalized transcript
//! (dictation = untouched, email = greeting/sign-off structure,
//! message = casual chat style, rewrite = local-model grammar pass).
//!
//! The current mode is shared between the overlay thread (which cycles it
//! when the pill's chip is clicked) and the main thread (which reads it when
//! a recording ends) through a single atomic byte.

use std::sync::atomic::{AtomicU8, Ordering};
use std::sync::Arc;
use crate::text::{ascii_lower_char, ascii_lowercase};
use vstd::prelude::*;

verus! {

/// The formatting applied by the sidecar to a finalized transcript.
#[derive(Clone, Copy, PartialEq, Eq, Debug, Structural)]
pub enum WritingMode {
    Dictation,
    Email,
    Message,
    Rewrite,
}

/// The byte that stands for each mode inside the shared atomic.
pub open spec fn mode_code(m: WritingMode) -> u8 {
    match m {
        WritingMode::Dictation => 0,
        WritingMode::Email => 1,
        WritingMode::Message => 2,
        WritingMode::Rewrite => 3,
    }
}

/// Decoding of a stored byte: the four codes map to their modes, and any
/// other byte falls back to dictation.
pub open spec fn mode_of_code(v: u8) -> WritingMode {
    if v == 1 {
        WritingMode::Email
    } else if v == 2 {
        WritingMode::Message
    } else if v == 3 {
        WritingMode::Rewrite
    } else {
        WritingMode::Dictation
    }
}

/// The cycling order of the pill's mode chip.
pub open spec fn next_mode(m: WritingMode) -> WritingMode {
    match m {
        WritingMode::Dictation => WritingMode::Email,
        WritingMode::Email => WritingMode::Message,
        WritingMode::Message => WritingMode::Rewrite,
        WritingMode::Rewrite => WritingMode::Dictation,
    }
}

/// The text shown on the pill's mode chip.
pub open spec fn mode_label(m: WritingMode) -> Seq<char> {
    match m {
        WritingMode::Dictation => "Dictation"@,
        WritingMode::Email => "Email"@,
        WritingMode::Message => "Message"@,
        WritingMode::Rewrite => "Rewrite"@,
    }
}

/// The value sent to the sidecar in the "end" message.
pub open spec fn mode_wire(m: WritingMode) -> Seq<char> {
    match m {
        WritingMode::Dictation => "dictation"@,
        WritingMode::Email => "email"@,
        WritingMode::Message => "message"@,
        WritingMode::Rewrite => "rewrite"@,
    }
}

impl WritingMode {
    /// Decodes a byte read from the shared atomic.
    pub fn from_u8(v: u8) -> (m: WritingMode)
        ensures
            m == mode_of_code(v),
    {
        match v {
            1 => WritingMode::Email,
            2 => WritingMode::Message,
            3 => WritingMode::Rewrite,
            _ => WritingMode::Dictation,
        }
    }

    /// Encodes the mode as the byte stored in the shared atomic.
    pub fn to_u8(self) -> (v: u8)
        ensures
            v == mode_code(self),
    {
        match self {
            WritingMode::Dictation => 0,
            WritingMode::Email => 1,
            WritingMode::Message => 2,
            WritingMode::Rewrite => 3,
        }
    }

    /// The mode that follows this one when the chip is clicked.
    pub fn next(self) -> (m: WritingMode)
        ensures
            m == next_mode(self),
    {
        match self {
            WritingMode::Dictation => WritingMode::Email,
            WritingMode::Email => WritingMode::Message,
            WritingMode::Message => WritingMode::Rewrite,
            WritingMode::Rewrite => WritingMode::Dictation,
        }
    }

    /// Label shown on the pill's mode chip.
    pub fn label(self) -> (s: &'static str)
        ensures
            s@ == mode_label(self),
    {
        match self {
            WritingMode::Dictation => "Dictation",
            WritingMode::Email => "Email",
            WritingMode::Message => "Message",
            WritingMode::Rewrite => "Rewrite",
        }
    }

    /// Value sent to the sidecar in the "end" message.
    pub fn wire(self) -> (s: &'static str)
        ensures
            s@ == mode_wire(self),
    {
        match self {
            WritingMode::Dictation => "dictation",
            WritingMode::Email => "email",
            WritingMode::Message => "message",
            WritingMode::Rewrite => "rewrite",
        }
    }
}

/// Cycling four times returns to the starting mode, and no mode is its own
/// successor: the chip cycles through all four modes and wraps around.
pub proof fn lemma_next_cycles_with_period_four(m: WritingMode)
    ensures
        next_mode(next_mode(next_mode(next_mode(m)))) == m,
        next_mode(m) != m,
        next_mode(next_mode(m)) != m,
        next_mode(next_mode(next_mode(m))) != m,
{
}

/// Starting from dictation, the chip visits every mode within three clicks.
pub proof fn lemma_cycle_from_dictation_visits_every_mode(m: WritingMode)
    ensures
        m == WritingMode::Dictation
            || m == next_mode(WritingMode::Dictation)
            || m == next_mode(next_mode(WritingMode::Dictation))
            || m == next_mode(next_mode(next_mode(WritingMode::Dictation))),
{
}

/// Storing a mode's byte and decoding it gives the mode back.
pub proof fn lemma_code_round_trip(m: WritingMode)
    ensures
        mode_of_code(mode_code(m)) == m,
        mode_code(m) < 4,
{
}

/// Distinct modes have distinct wire values and distinct labels.
pub proof fn lemma_wire_and_label_distinguish_modes(a: WritingMode, b: WritingMode)
    requires
        a != b,
    ensures
        mode_wire(a) != mode_wire(b),
        mode_label(a) != mode_label(b),
{
    reveal_strlit("dictation");
    reveal_strlit("email");
    reveal_strlit("message");
    reveal_strlit("rewrite");
    reveal_strlit("Dictation");
    reveal_strlit("Email");
    reveal_strlit("Message");
    reveal_strlit("Rewrite");
    assert("dictation"@[0] == 'd');
    assert("email"@[0] == 'e');
    assert("message"@[0] == 'm');
    assert("rewrite"@[0] == 'r');
    assert("Dictation"@[0] == 'D');
    assert("Email"@[0] == 'E');
    assert("Message"@[0] == 'M');
    assert("Rewrite"@[0] == 'R');
}

/// The wire value is the label lowercased: the same word, with its capital
/// first letter made small.
pub proof fn lemma_wire_is_label_lowercased(m: WritingMode)
    ensures
        mode_wire(m) == ascii_lowercase(mode_label(m)),
{
    reveal_strlit("dictation");
    reveal_strlit("email");
    reveal_strlit("message");
    reveal_strlit("rewrite");
    reveal_strlit("Dictation");
    reveal_strlit("Email");
    reveal_strlit("Message");
    reveal_strlit("Rewrite");
    assert(ascii_lower_char('D') == 'd');
    assert(ascii_lower_char('E') == 'e');
    assert(ascii_lower_char('M') == 'm');
    assert(ascii_lower_char('R') == 'r');
    assert forall|c: char| 97 <= (c as u32) <= 122 implies ascii_lower_char(c) == c by {}
    assert(mode_wire(m) =~= ascii_lowercase(mode_label(m)));
}

/// Cheaply cloneable handle to the current writing mode, shared between
/// threads. Other threads may change the mode at any time, so what a read
/// returns is only known to be the decoding of some stored byte.
#[derive(Clone)]
pub struct SharedMode(Arc<AtomicU8>);

impl SharedMode {
    /// A new handle whose stored byte is the code of dictation.
    pub fn new() -> (s: SharedMode) {
        SharedMode(Arc::new(AtomicU8::new(WritingMode::Dictation.to_u8())))
    }

    /// Reads the current mode: the decoding of the byte the atomic holds.
    pub fn get(&self) -> (m: WritingMode)
        ensures
            exists|raw: u8| m == mode_of_code(raw),
    {
        let raw = self.0.load(Ordering::Relaxed);
        WritingMode::from_u8(raw)
    }

    /// Advances to the next mode, stores its code and returns it: the
    /// successor of the mode that was read.
    pub fn cycle(&self) -> (m: WritingMode)
        ensures
            exists|raw: u8| m == next_mode(mode_of_code(raw)),
    {
        let raw = self.0.load(Ordering::Relaxed);
        let next = WritingMode::from_u8(raw).next();
        self.0.store(next.to_u8(), Ordering::Relaxed);
        next
    }
}

} // verus!
