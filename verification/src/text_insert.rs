//! Planning text insertion into the focused window.
//!
//! Two mechanisms: typing, as Unicode key events for each UTF-16 unit,
//! sent a few units per batch so the receiving window's message pump can
//! drain between bursts; and pasting, as one Ctrl+V after the text has been
//! put on the clipboard. Long text is pasted, since sustained synthetic
//! typing has been seen to drop, cut off or repeat characters in the
//! target app; short text is typed, which works in more places and leaves
//! the clipboard alone. This module computes the key events; sending them
//! is the caller's part.

use crate::command_mode::Combo;
use crate::keys::{VK_CONTROL, VK_LWIN, VK_MENU, VK_RWIN, VK_SHIFT, VK_V};
use crate::text::chars_of;
use vstd::prelude::*;

verus! {

/// One synthetic keyboard event: a virtual-key press or release, or, when
/// `unicode` is set, a press or release of the UTF-16 unit in `scan`.
#[derive(Clone, Copy, PartialEq, Eq, Debug, Structural)]
pub struct KeyInput {
    pub vk: u16,
    pub scan: u16,
    pub key_up: bool,
    pub unicode: bool,
}

pub open spec fn press(vk: u16) -> KeyInput {
    KeyInput { vk, scan: 0, key_up: false, unicode: false }
}

pub open spec fn release(vk: u16) -> KeyInput {
    KeyInput { vk, scan: 0, key_up: true, unicode: false }
}

pub open spec fn unit_press(unit: u16) -> KeyInput {
    KeyInput { vk: 0, scan: unit, key_up: false, unicode: true }
}

pub open spec fn unit_release(unit: u16) -> KeyInput {
    KeyInput { vk: 0, scan: unit, key_up: true, unicode: true }
}

/// The events of one combo: modifiers pressed in order, the key tapped,
/// modifiers released in reverse order.
pub open spec fn combo_inputs(modifiers: Seq<u16>, key: u16) -> Seq<KeyInput> {
    Seq::new(modifiers.len(), |i: int| press(modifiers[i])) + seq![press(key), release(key)]
        + Seq::new(modifiers.len(), |i: int| release(modifiers[modifiers.len() - 1 - i]))
}

fn key_press(vk: u16) -> (e: KeyInput)
    ensures
        e == press(vk),
{
    KeyInput { vk, scan: 0, key_up: false, unicode: false }
}

fn key_release(vk: u16) -> (e: KeyInput)
    ensures
        e == release(vk),
{
    KeyInput { vk, scan: 0, key_up: true, unicode: false }
}

/// The events that send a combo as one batch.
pub fn combo_events(c: &Combo) -> (r: Vec<KeyInput>)
    ensures
        r@ == combo_inputs(c.modifiers@, c.key),
{
    let m = &c.modifiers;
    let n = m.len();
    let mut r: Vec<KeyInput> = Vec::new();
    let mut i: usize = 0;
    while i < n
        invariant
            n == m.len(),
            i <= n,
            r@ == Seq::new(i as nat, |j: int| press(m@[j])),
        decreases n - i,
    {
        r.push(key_press(m[i]));
        i = i + 1;
        assert(r@ =~= Seq::new(i as nat, |j: int| press(m@[j])));
    }
    r.push(key_press(c.key));
    r.push(key_release(c.key));
    let ghost head = r@;
    let mut k: usize = 0;
    while k < n
        invariant
            n == m.len(),
            k <= n,
            head.len() == n + 2,
            r@ == head + Seq::new(k as nat, |j: int| release(m@[n - 1 - j])),
        decreases n - k,
    {
        r.push(key_release(m[n - 1 - k]));
        k = k + 1;
        assert(r@ =~= head + Seq::new(k as nat, |j: int| release(m@[n - 1 - j])));
    }
    assert(r@ =~= combo_inputs(c.modifiers@, c.key));
    r
}

/// The modifier keys the shell makes sure are up before it types.
pub open spec fn modifier_key_list() -> Seq<u16> {
    seq![VK_CONTROL, VK_MENU, VK_SHIFT, VK_LWIN, VK_RWIN]
}

/// Ctrl, Alt, Shift and both Windows keys.
pub fn modifier_keys() -> (r: Vec<u16>)
    ensures
        r@ == modifier_key_list(),
{
    let r = vec![VK_CONTROL, VK_MENU, VK_SHIFT, VK_LWIN, VK_RWIN];
    assert(r@ =~= modifier_key_list());
    r
}

/// A key-up for every modifier key, sent before typing so that a modifier
/// of the hotkey cannot combine with the typed characters.
pub fn release_all_modifiers() -> (r: Vec<KeyInput>)
    ensures
        r@ == modifier_key_list().map_values(|vk: u16| release(vk)),
{
    let keys = modifier_keys();
    let mut r: Vec<KeyInput> = Vec::new();
    let mut i: usize = 0;
    while i < keys.len()
        invariant
            i <= keys.len(),
            keys@ == modifier_key_list(),
            r@ == keys@.take(i as int).map_values(|vk: u16| release(vk)),
        decreases keys.len() - i,
    {
        r.push(key_release(keys[i]));
        i = i + 1;
        assert(r@ =~= keys@.take(i as int).map_values(|vk: u16| release(vk)));
    }
    assert(keys@.take(i as int) =~= keys@);
    r
}

/// The paste shortcut: Ctrl down, V tapped, Ctrl up.
pub fn paste_shortcut() -> (r: Vec<KeyInput>)
    ensures
        r@ == combo_inputs(seq![VK_CONTROL], VK_V),
{
    let r = vec![key_press(VK_CONTROL), key_press(VK_V), key_release(VK_V), key_release(VK_CONTROL)];
    assert(r@ =~= combo_inputs(seq![VK_CONTROL], VK_V));
    r
}

/// A key state as `GetAsyncKeyState` reports it is "held" when its top bit
/// is set, that is when it is negative.
pub fn is_key_held(state: i16) -> (r: bool)
    ensures
        r == (state < 0),
{
    let bits = state as u16;
    assert((bits & 0x8000u16 != 0) == (state < 0)) by (bit_vector)
        requires
            bits == state as u16,
    ;
    bits & 0x8000 != 0
}

/// Whether any of the given key states is held.
pub fn any_key_held(states: &Vec<i16>) -> (r: bool)
    ensures
        r == exists|i: int| 0 <= i < states.len() && states@[i] < 0,
{
    let mut i: usize = 0;
    while i < states.len()
        invariant
            i <= states.len(),
            forall|j: int| 0 <= j < i ==> states@[j] >= 0,
        decreases states.len() - i,
    {
        if is_key_held(states[i]) {
            return true;
        }
        i = i + 1;
    }
    false
}

/// Text at least this many characters long is pasted rather than typed.
pub const PASTE_THRESHOLD_CHARS: usize = 100;

/// How a finalized transcript is put into the focused window.
#[derive(Clone, Copy, PartialEq, Eq, Debug, Structural)]
pub enum InsertMethod {
    Type,
    Paste,
}

/// Chooses the insertion mechanism by length in characters: pasting for
/// text of at least `PASTE_THRESHOLD_CHARS` characters, typing otherwise.
pub fn insert_text(text: &str) -> (m: InsertMethod)
    ensures
        m == (if text@.len() >= PASTE_THRESHOLD_CHARS {
            InsertMethod::Paste
        } else {
            InsertMethod::Type
        }),
{
    let chars = chars_of(text);
    if chars.len() >= PASTE_THRESHOLD_CHARS {
        InsertMethod::Paste
    } else {
        InsertMethod::Type
    }
}

/// The UTF-16 units of one character: itself below U+10000, otherwise a
/// surrogate pair.
pub open spec fn char_units(c: char) -> Seq<u16> {
    let cp = c as u32;
    if cp < 0x10000 {
        seq![cp as u16]
    } else {
        let v = cp - 0x10000;
        seq![(0xD800 + v / 0x400) as u16, (0xDC00 + v % 0x400) as u16]
    }
}

/// The UTF-16 encoding of a character sequence.
pub open spec fn utf16_of(s: Seq<char>) -> Seq<u16>
    decreases s.len(),
{
    if s.len() == 0 {
        Seq::empty()
    } else {
        utf16_of(s.drop_last()) + char_units(s.last())
    }
}

/// The UTF-16 encoding of a string.
pub fn utf16_units(text: &str) -> (r: Vec<u16>)
    ensures
        r@ == utf16_of(text@),
{
    let chars = chars_of(text);
    let mut r: Vec<u16> = Vec::new();
    let mut i: usize = 0;
    while i < chars.len()
        invariant
            i <= chars.len(),
            r@ == utf16_of(chars@.take(i as int)),
        decreases chars.len() - i,
    {
        let c = chars[i];
        let cp = c as u32;
        proof {
            vstd::utf8::char_is_scalar(c);
        }
        if cp < 0x10000 {
            r.push(cp as u16);
        } else {
            let v = cp - 0x10000;
            r.push((0xD800 + v / 0x400) as u16);
            r.push((0xDC00 + v % 0x400) as u16);
        }
        proof {
            let t = chars@.take(i + 1);
            assert(t.drop_last() =~= chars@.take(i as int));
            assert(t.last() == c);
        }
        i = i + 1;
        assert(r@ =~= utf16_of(chars@.take(i as int)));
    }
    assert(chars@.take(i as int) =~= chars@);
    r
}

/// UTF-16 units sent per batch when typing.
pub const TYPING_GROUP_SIZE: usize = 4;

/// The events that type the given units: press then release, per unit.
pub open spec fn unit_inputs(units: Seq<u16>) -> Seq<KeyInput> {
    Seq::new(
        2 * units.len(),
        |j: int|
            if j % 2 == 0 {
                unit_press(units[j / 2])
            } else {
                unit_release(units[j / 2])
            },
    )
}

/// The `b`-th group of `TYPING_GROUP_SIZE` units.
pub open spec fn unit_group(units: Seq<u16>, b: int) -> Seq<u16> {
    let start = TYPING_GROUP_SIZE * b;
    let end = if start + TYPING_GROUP_SIZE <= units.len() {
        start + TYPING_GROUP_SIZE
    } else {
        units.len() as int
    };
    units.subrange(start, end)
}

pub open spec fn group_count(n: nat) -> nat {
    ((n + TYPING_GROUP_SIZE - 1) / TYPING_GROUP_SIZE as int) as nat
}

/// The batches that type `units`: one per group of `TYPING_GROUP_SIZE`
/// units, in order, the last one possibly shorter.
pub open spec fn typing_plan(units: Seq<u16>) -> Seq<Seq<KeyInput>> {
    Seq::new(group_count(units.len()), |b: int| unit_inputs(unit_group(units, b)))
}

fn unit_key_press(unit: u16) -> (e: KeyInput)
    ensures
        e == unit_press(unit),
{
    KeyInput { vk: 0, scan: unit, key_up: false, unicode: true }
}

fn unit_key_release(unit: u16) -> (e: KeyInput)
    ensures
        e == unit_release(unit),
{
    KeyInput { vk: 0, scan: unit, key_up: true, unicode: true }
}

/// The events typing `units[start..end]`.
fn group_events(units: &Vec<u16>, start: usize, end: usize) -> (r: Vec<KeyInput>)
    requires
        start <= end <= units.len(),
    ensures
        r@ == unit_inputs(units@.subrange(start as int, end as int)),
{
    let ghost g = units@.subrange(start as int, end as int);
    let mut r: Vec<KeyInput> = Vec::new();
    let mut i: usize = start;
    while i < end
        invariant
            start <= i <= end <= units.len(),
            g == units@.subrange(start as int, end as int),
            r@ == unit_inputs(g.take(i - start)),
        decreases end - i,
    {
        r.push(unit_key_press(units[i]));
        r.push(unit_key_release(units[i]));
        i = i + 1;
        assert(r@ =~= unit_inputs(g.take(i - start)));
    }
    assert(g.take(i - start) =~= g);
    r
}

/// The batches that type `units`, `TYPING_GROUP_SIZE` units per batch.
pub fn typing_batches(units: &Vec<u16>) -> (r: Vec<Vec<KeyInput>>)
    ensures
        r@.len() == typing_plan(units@).len(),
        forall|b: int| 0 <= b < r@.len() ==> #[trigger] r@[b]@ == typing_plan(units@)[b],
{
    let n = units.len();
    let groups = n / TYPING_GROUP_SIZE + if n % TYPING_GROUP_SIZE == 0 {
        0
    } else {
        1
    };
    assert(groups == group_count(n as nat));
    let mut r: Vec<Vec<KeyInput>> = Vec::new();
    let mut b: usize = 0;
    while b < groups
        invariant
            n == units.len(),
            groups == group_count(n as nat),
            groups == n / TYPING_GROUP_SIZE + if n % TYPING_GROUP_SIZE == 0 { 0int } else { 1int },
            b <= groups,
            r@.len() == b,
            forall|k: int| 0 <= k < b ==> #[trigger] r@[k]@ == unit_inputs(unit_group(units@, k)),
        decreases groups - b,
    {
        let start = TYPING_GROUP_SIZE * b;
        let end = if n - start >= TYPING_GROUP_SIZE {
            start + TYPING_GROUP_SIZE
        } else {
            n
        };
        let batch = group_events(units, start, end);
        r.push(batch);
        b = b + 1;
    }
    r
}

/// The batches that type a string, `TYPING_GROUP_SIZE` UTF-16 units each.
pub fn type_text_batches(text: &str) -> (r: Vec<Vec<KeyInput>>)
    ensures
        r@.len() == typing_plan(utf16_of(text@)).len(),
        forall|b: int| 0 <= b < r@.len() ==> #[trigger] r@[b]@ == typing_plan(utf16_of(text@))[b],
{
    let units = utf16_units(text);
    typing_batches(&units)
}

proof fn lemma_unit_inputs_concat(a: Seq<u16>, b: Seq<u16>)
    ensures
        unit_inputs(a + b) == unit_inputs(a) + unit_inputs(b),
{
    let l = unit_inputs(a + b);
    let r = unit_inputs(a) + unit_inputs(b);
    assert forall|j: int| 0 <= j < l.len() implies l[j] == r[j] by {
        if j >= 2 * a.len() {
            let k = j - 2 * a.len();
            assert(k / 2 == j / 2 - a.len() && k % 2 == j % 2);
        }
    }
    assert(l =~= r);
}

/// Typing sends every UTF-16 unit exactly once and in order: the batches,
/// one after another, are the press and release of each unit in turn, and
/// no batch holds more than `TYPING_GROUP_SIZE` units.
pub proof fn lemma_typing_plan_types_every_unit(units: Seq<u16>)
    ensures
        typing_plan(units).flatten() == unit_inputs(units),
        forall|b: int|
            0 <= b < typing_plan(units).len() ==> #[trigger] typing_plan(units)[b].len() <= 2
                * TYPING_GROUP_SIZE,
    decreases units.len(),
{
    let plan = typing_plan(units);
    if units.len() == 0 {
        assert(unit_inputs(units) =~= Seq::empty());
    } else {
        let g: int = if units.len() >= TYPING_GROUP_SIZE {
            TYPING_GROUP_SIZE as int
        } else {
            units.len() as int
        };
        let rest = units.skip(g);
        lemma_typing_plan_types_every_unit(rest);
        assert(plan.drop_first() =~= typing_plan(rest)) by {
            assert forall|b: int| 0 <= b < plan.drop_first().len() implies plan.drop_first()[b]
                == typing_plan(rest)[b] by {
                assert(unit_group(units, b + 1) =~= unit_group(rest, b));
            }
        }
        assert(plan.first() == unit_inputs(units.take(g))) by {
            assert(unit_group(units, 0) =~= units.take(g));
        }
        lemma_unit_inputs_concat(units.take(g), rest);
        assert(units.take(g) + rest =~= units);
    }
}

/// Presses of `vk` minus releases of `vk` among the events.
pub open spec fn net_presses(events: Seq<KeyInput>, vk: u16) -> int
    decreases events.len(),
{
    if events.len() == 0 {
        0
    } else {
        net_presses(events.drop_last(), vk) + if events.last() == press(vk) {
            1int
        } else if events.last() == release(vk) {
            -1int
        } else {
            0int
        }
    }
}

/// How many times `vk` occurs in `keys`.
pub open spec fn key_count(keys: Seq<u16>, vk: u16) -> int
    decreases keys.len(),
{
    if keys.len() == 0 {
        0
    } else {
        key_count(keys.drop_last(), vk) + if keys.last() == vk {
            1int
        } else {
            0int
        }
    }
}

proof fn lemma_net_concat(a: Seq<KeyInput>, b: Seq<KeyInput>, vk: u16)
    ensures
        net_presses(a + b, vk) == net_presses(a, vk) + net_presses(b, vk),
    decreases b.len(),
{
    if b.len() > 0 {
        lemma_net_concat(a, b.drop_last(), vk);
        assert((a + b).drop_last() =~= a + b.drop_last());
    } else {
        assert(a + b =~= a);
    }
}

proof fn lemma_net_of_presses(m: Seq<u16>, vk: u16)
    ensures
        net_presses(Seq::new(m.len(), |i: int| press(m[i])), vk) == key_count(m, vk),
    decreases m.len(),
{
    if m.len() > 0 {
        lemma_net_of_presses(m.drop_last(), vk);
        assert(Seq::new(m.len(), |i: int| press(m[i])).drop_last() =~= Seq::new(
            m.drop_last().len(),
            |i: int| press(m.drop_last()[i]),
        ));
    }
}

proof fn lemma_net_of_reversed_releases(m: Seq<u16>, vk: u16)
    ensures
        net_presses(Seq::new(m.len(), |i: int| release(m[m.len() - 1 - i])), vk) == -key_count(
            m,
            vk,
        ),
    decreases m.len(),
{
    if m.len() > 0 {
        let s = m.drop_last();
        lemma_net_of_reversed_releases(s, vk);
        let all = Seq::new(m.len(), |i: int| release(m[m.len() - 1 - i]));
        let tail = Seq::new(s.len(), |i: int| release(s[s.len() - 1 - i]));
        assert(all =~= seq![release(m.last())] + tail);
        lemma_net_concat(seq![release(m.last())], tail, vk);
        assert(seq![release(m.last())].drop_last() =~= Seq::<KeyInput>::empty());
        assert(seq![release(m.last())].last() == release(m.last()));
        assert(net_presses(Seq::<KeyInput>::empty(), vk) == 0);
        assert(release(m.last()) != press(vk));
        assert(net_presses(seq![release(m.last())], vk) == if m.last() == vk {
            -1int
        } else {
            0int
        });
    }
}

/// A combo leaves no key held: each key is released as many times as it
/// is pressed (modifiers in reverse order after the key's tap).
pub proof fn lemma_combo_releases_every_key(modifiers: Seq<u16>, key: u16, vk: u16)
    ensures
        net_presses(combo_inputs(modifiers, key), vk) == 0,
{
    let downs = Seq::new(modifiers.len(), |i: int| press(modifiers[i]));
    let tap = seq![press(key), release(key)];
    let ups = Seq::new(modifiers.len(), |i: int| release(modifiers[modifiers.len() - 1 - i]));
    lemma_net_concat(downs + tap, ups, vk);
    lemma_net_concat(downs, tap, vk);
    lemma_net_of_presses(modifiers, vk);
    lemma_net_of_reversed_releases(modifiers, vk);
    assert(tap.drop_last() =~= seq![press(key)]);
    assert(seq![press(key)].drop_last() =~= Seq::<KeyInput>::empty());
    assert(seq![press(key)].last() == press(key));
    assert(tap.last() == release(key));
    assert(net_presses(Seq::<KeyInput>::empty(), vk) == 0);
    assert(press(key) != release(vk));
    assert(net_presses(seq![press(key)], vk) == if key == vk {
        1int
    } else {
        0int
    });
    assert(net_presses(tap, vk) == 0);
    assert(combo_inputs(modifiers, key) =~= downs + tap + ups);
}

} // verus!
