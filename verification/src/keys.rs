//! Win32 virtual-key codes used by the shell, and the names by which a
//! user's custom command file may refer to them.

use crate::text::{chars_of, equals_str, lowercase_of, to_lowercase};
use vstd::prelude::*;

verus! {

pub const VK_BACK: u16 = 0x08;
pub const VK_TAB: u16 = 0x09;
pub const VK_RETURN: u16 = 0x0D;
pub const VK_SHIFT: u16 = 0x10;
pub const VK_CONTROL: u16 = 0x11;
pub const VK_MENU: u16 = 0x12;
pub const VK_ESCAPE: u16 = 0x1B;
pub const VK_SPACE: u16 = 0x20;
pub const VK_END: u16 = 0x23;
pub const VK_HOME: u16 = 0x24;
pub const VK_LEFT: u16 = 0x25;
pub const VK_UP: u16 = 0x26;
pub const VK_RIGHT: u16 = 0x27;
pub const VK_DOWN: u16 = 0x28;
pub const VK_DELETE: u16 = 0x2E;
pub const VK_0: u16 = 0x30;
pub const VK_A: u16 = 0x41;
pub const VK_V: u16 = 0x56;
pub const VK_Y: u16 = 0x59;
pub const VK_Z: u16 = 0x5A;
pub const VK_LWIN: u16 = 0x5B;
pub const VK_RWIN: u16 = 0x5C;
pub const VK_F1: u16 = 0x70;
pub const VK_OEM_COMMA: u16 = 0xBC;
pub const VK_OEM_PERIOD: u16 = 0xBE;

/// The key a (lowercased) name stands for in a custom binding: single
/// letters and digits, `f1`..`f12`, and a few named navigation and editing
/// keys. OEM punctuation other than comma and period is left out on
/// purpose: its codes depend on the keyboard layout.
pub open spec fn key_code_of(s: Seq<char>) -> Option<u16> {
    if s.len() == 1 && 0x61 <= (s[0] as u32) <= 0x7a {
        Some((VK_A + ((s[0] as u32) - 0x61)) as u16)
    } else if s.len() == 1 && 0x30 <= (s[0] as u32) <= 0x39 {
        Some((VK_0 + ((s[0] as u32) - 0x30)) as u16)
    } else if s == "f1"@ {
        Some(VK_F1)
    } else if s == "f2"@ {
        Some((VK_F1 + 1) as u16)
    } else if s == "f3"@ {
        Some((VK_F1 + 2) as u16)
    } else if s == "f4"@ {
        Some((VK_F1 + 3) as u16)
    } else if s == "f5"@ {
        Some((VK_F1 + 4) as u16)
    } else if s == "f6"@ {
        Some((VK_F1 + 5) as u16)
    } else if s == "f7"@ {
        Some((VK_F1 + 6) as u16)
    } else if s == "f8"@ {
        Some((VK_F1 + 7) as u16)
    } else if s == "f9"@ {
        Some((VK_F1 + 8) as u16)
    } else if s == "f10"@ {
        Some((VK_F1 + 9) as u16)
    } else if s == "f11"@ {
        Some((VK_F1 + 10) as u16)
    } else if s == "f12"@ {
        Some((VK_F1 + 11) as u16)
    } else if s == "space"@ {
        Some(VK_SPACE)
    } else if s == "enter"@ || s == "return"@ {
        Some(VK_RETURN)
    } else if s == "tab"@ {
        Some(VK_TAB)
    } else if s == "escape"@ || s == "esc"@ {
        Some(VK_ESCAPE)
    } else if s == "backspace"@ {
        Some(VK_BACK)
    } else if s == "delete"@ || s == "del"@ {
        Some(VK_DELETE)
    } else if s == "home"@ {
        Some(VK_HOME)
    } else if s == "end"@ {
        Some(VK_END)
    } else if s == "up"@ {
        Some(VK_UP)
    } else if s == "down"@ {
        Some(VK_DOWN)
    } else if s == "left"@ {
        Some(VK_LEFT)
    } else if s == "right"@ {
        Some(VK_RIGHT)
    } else if s == "comma"@ {
        Some(VK_OEM_COMMA)
    } else if s == "period"@ || s == "dot"@ {
        Some(VK_OEM_PERIOD)
    } else {
        None
    }
}

/// The modifier key a (lowercased) name stands for in a custom binding.
pub open spec fn modifier_code_of(s: Seq<char>) -> Option<u16> {
    if s == "ctrl"@ || s == "control"@ {
        Some(VK_CONTROL)
    } else if s == "shift"@ {
        Some(VK_SHIFT)
    } else if s == "alt"@ {
        Some(VK_MENU)
    } else if s == "win"@ || s == "windows"@ || s == "meta"@ {
        Some(VK_LWIN)
    } else {
        None
    }
}

/// Virtual-key code for a key name, compared without regard to case.
pub fn vk_from_name(name: &str) -> (r: Option<u16>)
    ensures
        r == key_code_of(lowercase_of(name@)),
{
    let lower = to_lowercase(name);
    let s = chars_of(lower.as_str());
    if s.len() == 1 {
        let c = s[0] as u32;
        if 0x61 <= c && c <= 0x7a {
            return Some(VK_A + (c - 0x61) as u16);
        }
        if 0x30 <= c && c <= 0x39 {
            return Some(VK_0 + (c - 0x30) as u16);
        }
    }
    if equals_str(&s, "f1") {
        Some(VK_F1)
    } else if equals_str(&s, "f2") {
        Some(VK_F1 + 1)
    } else if equals_str(&s, "f3") {
        Some(VK_F1 + 2)
    } else if equals_str(&s, "f4") {
        Some(VK_F1 + 3)
    } else if equals_str(&s, "f5") {
        Some(VK_F1 + 4)
    } else if equals_str(&s, "f6") {
        Some(VK_F1 + 5)
    } else if equals_str(&s, "f7") {
        Some(VK_F1 + 6)
    } else if equals_str(&s, "f8") {
        Some(VK_F1 + 7)
    } else if equals_str(&s, "f9") {
        Some(VK_F1 + 8)
    } else if equals_str(&s, "f10") {
        Some(VK_F1 + 9)
    } else if equals_str(&s, "f11") {
        Some(VK_F1 + 10)
    } else if equals_str(&s, "f12") {
        Some(VK_F1 + 11)
    } else if equals_str(&s, "space") {
        Some(VK_SPACE)
    } else if equals_str(&s, "enter") || equals_str(&s, "return") {
        Some(VK_RETURN)
    } else if equals_str(&s, "tab") {
        Some(VK_TAB)
    } else if equals_str(&s, "escape") || equals_str(&s, "esc") {
        Some(VK_ESCAPE)
    } else if equals_str(&s, "backspace") {
        Some(VK_BACK)
    } else if equals_str(&s, "delete") || equals_str(&s, "del") {
        Some(VK_DELETE)
    } else if equals_str(&s, "home") {
        Some(VK_HOME)
    } else if equals_str(&s, "end") {
        Some(VK_END)
    } else if equals_str(&s, "up") {
        Some(VK_UP)
    } else if equals_str(&s, "down") {
        Some(VK_DOWN)
    } else if equals_str(&s, "left") {
        Some(VK_LEFT)
    } else if equals_str(&s, "right") {
        Some(VK_RIGHT)
    } else if equals_str(&s, "comma") {
        Some(VK_OEM_COMMA)
    } else if equals_str(&s, "period") || equals_str(&s, "dot") {
        Some(VK_OEM_PERIOD)
    } else {
        None
    }
}

/// Virtual-key code for a modifier name, compared without regard to case.
pub fn modifier_from_name(name: &str) -> (r: Option<u16>)
    ensures
        r == modifier_code_of(lowercase_of(name@)),
{
    let lower = to_lowercase(name);
    let s = chars_of(lower.as_str());
    if equals_str(&s, "ctrl") || equals_str(&s, "control") {
        Some(VK_CONTROL)
    } else if equals_str(&s, "shift") {
        Some(VK_SHIFT)
    } else if equals_str(&s, "alt") {
        Some(VK_MENU)
    } else if equals_str(&s, "win") || equals_str(&s, "windows") || equals_str(&s, "meta") {
        Some(VK_LWIN)
    } else {
        None
    }
}

/// The Delete and Backspace keys are told apart: a name gives the Delete
/// key exactly when it is "delete" or "del", and the Backspace key exactly
/// when it is "backspace"; the two codes differ.
pub proof fn lemma_delete_and_backspace_names(s: Seq<char>)
    ensures
        key_code_of(s) == Some(VK_DELETE) <==> (s == "delete"@ || s == "del"@),
        key_code_of(s) == Some(VK_BACK) <==> s == "backspace"@,
        VK_DELETE != VK_BACK,
{
    reveal_strlit("f1");
    reveal_strlit("f2");
    reveal_strlit("f3");
    reveal_strlit("f4");
    reveal_strlit("f5");
    reveal_strlit("f6");
    reveal_strlit("f7");
    reveal_strlit("f8");
    reveal_strlit("f9");
    reveal_strlit("f10");
    reveal_strlit("f11");
    reveal_strlit("f12");
    reveal_strlit("space");
    reveal_strlit("enter");
    reveal_strlit("return");
    reveal_strlit("tab");
    reveal_strlit("escape");
    reveal_strlit("esc");
    reveal_strlit("backspace");
    reveal_strlit("delete");
    reveal_strlit("del");
}

} // verus!
