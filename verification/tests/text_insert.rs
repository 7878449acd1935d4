use inkvoice_shell::command_mode::Combo;
use inkvoice_shell::keys::{VK_CONTROL, VK_LEFT, VK_LWIN, VK_MENU, VK_RWIN, VK_SHIFT, VK_V};
use inkvoice_shell::text_insert::{
    any_key_held, combo_events, insert_text, is_key_held, modifier_keys, paste_shortcut,
    release_all_modifiers, type_text_batches, typing_batches, utf16_units, InsertMethod, KeyInput,
};

fn down(vk: u16) -> KeyInput {
    KeyInput { vk, scan: 0, key_up: false, unicode: false }
}

fn up(vk: u16) -> KeyInput {
    KeyInput { vk, scan: 0, key_up: true, unicode: false }
}

fn unit_down(u: u16) -> KeyInput {
    KeyInput { vk: 0, scan: u, key_up: false, unicode: true }
}

fn unit_up(u: u16) -> KeyInput {
    KeyInput { vk: 0, scan: u, key_up: true, unicode: true }
}

#[test]
fn combo_presses_modifiers_then_releases_them_in_reverse() {
    let c = Combo { modifiers: vec![VK_CONTROL, VK_SHIFT], key: VK_LEFT };
    assert_eq!(
        combo_events(&c),
        vec![down(VK_CONTROL), down(VK_SHIFT), down(VK_LEFT), up(VK_LEFT), up(VK_SHIFT), up(VK_CONTROL)]
    );
    let bare = Combo { modifiers: vec![], key: 0x0D };
    assert_eq!(combo_events(&bare), vec![down(0x0D), up(0x0D)]);
}

#[test]
fn paste_is_ctrl_v() {
    assert_eq!(paste_shortcut(), vec![down(VK_CONTROL), down(VK_V), up(VK_V), up(VK_CONTROL)]);
}

#[test]
fn release_all_modifiers_lifts_every_modifier() {
    assert_eq!(modifier_keys(), vec![VK_CONTROL, VK_MENU, VK_SHIFT, VK_LWIN, VK_RWIN]);
    assert_eq!(
        release_all_modifiers(),
        vec![up(VK_CONTROL), up(VK_MENU), up(VK_SHIFT), up(VK_LWIN), up(VK_RWIN)]
    );
}

#[test]
fn utf16_encoding_uses_surrogate_pairs_above_the_bmp() {
    assert_eq!(utf16_units("a\u{e9}\u{1F600}"), vec![0x61, 0xE9, 0xD83D, 0xDE00]);
    assert_eq!(utf16_units("\u{10FFFF}"), vec![0xDBFF, 0xDFFF]);
    assert_eq!(utf16_units(""), Vec::<u16>::new());
    let s = "mixed \u{2026} text \u{1F680}\n";
    assert_eq!(utf16_units(s), s.encode_utf16().collect::<Vec<u16>>());
}

#[test]
fn typing_sends_four_units_per_batch() {
    let batches = type_text_batches("hello");
    assert_eq!(batches.len(), 2);
    assert_eq!(batches[0].len(), 8);
    assert_eq!(batches[0][0], unit_down('h' as u16));
    assert_eq!(batches[0][1], unit_up('h' as u16));
    assert_eq!(batches[0][7], unit_up('l' as u16));
    assert_eq!(batches[1], vec![unit_down('o' as u16), unit_up('o' as u16)]);
    assert!(type_text_batches("").is_empty());
    assert_eq!(typing_batches(&vec![1, 2, 3, 4]).len(), 1);
    assert_eq!(typing_batches(&vec![1, 2, 3, 4, 5, 6, 7, 8, 9]).len(), 3);
}

#[test]
fn typed_batches_together_type_every_unit_once() {
    let text = "Dear John,\nthanks \u{1F44D}";
    let flat: Vec<KeyInput> = type_text_batches(text).into_iter().flatten().collect();
    let expected: Vec<KeyInput> =
        text.encode_utf16().flat_map(|u| [unit_down(u), unit_up(u)]).collect();
    assert_eq!(flat, expected);
}

#[test]
fn long_text_is_pasted_short_text_typed() {
    assert_eq!(insert_text(""), InsertMethod::Type);
    assert_eq!(insert_text(&"x".repeat(99)), InsertMethod::Type);
    assert_eq!(insert_text(&"x".repeat(100)), InsertMethod::Paste);
    // Counted in characters, not bytes.
    assert_eq!(insert_text(&"\u{e9}".repeat(99)), InsertMethod::Type);
}

#[test]
fn key_state_top_bit_means_held() {
    assert!(is_key_held(-32768));
    assert!(is_key_held(-1));
    assert!(!is_key_held(0));
    assert!(!is_key_held(1));
    assert!(!is_key_held(32767));
    assert!(!any_key_held(&vec![0, 1, 0]));
    assert!(any_key_held(&vec![0, -32767, 0]));
    assert!(!any_key_held(&vec![]));
}
