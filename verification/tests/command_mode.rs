use inkvoice_shell::command_mode::{
    build_custom_commands, dispatch, entry_problem, match_command, parse_custom_commands, read_command_entries,
    Action, CustomCommand, EntryProblem, RawCommandEntry,
};
use inkvoice_shell::keys::{
    modifier_from_name, vk_from_name, VK_BACK, VK_CONTROL, VK_DOWN, VK_END, VK_HOME, VK_LEFT,
    VK_LWIN, VK_MENU, VK_RETURN, VK_SHIFT, VK_UP, VK_Y, VK_Z,
};

fn kind(text: &str) -> Option<&'static str> {
    match match_command(text, &Vec::new())? {
        Action::Undo => Some("undo"),
        Action::Redo => Some("redo"),
        Action::SelectWord => Some("select_word"),
        Action::SelectSentence => Some("select_sentence"),
        Action::SelectParagraph => Some("select_paragraph"),
        Action::DeleteWord => Some("delete_word"),
        Action::DeleteSentence => Some("delete_sentence"),
        Action::DeleteParagraph => Some("delete_paragraph"),
        Action::NewLine => Some("new_line"),
        Action::GoToStart => Some("go_to_start"),
        Action::GoToEnd => Some("go_to_end"),
        Action::Custom(..) => Some("custom"),
    }
}

#[test]
fn matches_core_verbs() {
    assert_eq!(kind("undo"), Some("undo"));
    assert_eq!(kind("Undo."), Some("undo"));
    assert_eq!(kind("redo that"), Some("redo"));
    assert_eq!(kind("select word"), Some("select_word"));
    assert_eq!(kind("select the last word"), Some("select_word"));
    assert_eq!(kind("select sentence"), Some("select_sentence"));
    assert_eq!(kind("delete that"), Some("delete_word"));
    assert_eq!(kind("delete the word"), Some("delete_word"));
    assert_eq!(kind("delete sentence"), Some("delete_sentence"));
    assert_eq!(kind("new line"), Some("new_line"));
    assert_eq!(kind("newline"), Some("new_line"));
    assert_eq!(kind("go to start"), Some("go_to_start"));
    assert_eq!(kind("go to the beginning"), Some("go_to_start"));
    assert_eq!(kind("go to end"), Some("go_to_end"));
}

#[test]
fn sentence_beats_word_when_both_present() {
    assert_eq!(kind("select this whole sentence, not just a word"), Some("select_sentence"));
}

#[test]
fn matches_paragraph_commands() {
    assert_eq!(kind("select paragraph"), Some("select_paragraph"));
    assert_eq!(kind("delete this paragraph"), Some("delete_paragraph"));
}

#[test]
fn no_custom_commands_file_falls_back_to_builtins() {
    // An absent custom command file reads as no entries at all.
    let custom = parse_custom_commands("");
    assert!(custom.is_empty());
    let action = match_command("undo", &custom);
    assert_eq!(action, Some(Action::Undo));
    assert_eq!(kind("undo"), Some("undo"));
}

#[test]
fn unrecognized_text_is_none() {
    assert_eq!(match_command("hello my name is Vihaan", &Vec::new()), None);
    assert_eq!(match_command("", &Vec::new()), None);
    assert_eq!(match_command("this is just ordinary dictation", &Vec::new()), None);
}

#[test]
fn key_names_ignore_case() {
    assert_eq!(vk_from_name("S"), Some(0x53));
    assert_eq!(vk_from_name("a"), Some(0x41));
    assert_eq!(vk_from_name("7"), Some(0x37));
    assert_eq!(vk_from_name("F12"), Some(0x7B));
    assert_eq!(vk_from_name("f1"), Some(0x70));
    assert_eq!(vk_from_name("Esc"), Some(0x1B));
    assert_eq!(vk_from_name("return"), Some(VK_RETURN));
    assert_eq!(vk_from_name("dot"), Some(0xBE));
    assert_eq!(vk_from_name("comma"), Some(0xBC));
    assert_eq!(vk_from_name("semicolon"), None);
    assert_eq!(vk_from_name("f13"), None);
    assert_eq!(vk_from_name(""), None);
}

#[test]
fn modifier_names_ignore_case() {
    assert_eq!(modifier_from_name("CTRL"), Some(VK_CONTROL));
    assert_eq!(modifier_from_name("Control"), Some(VK_CONTROL));
    assert_eq!(modifier_from_name("shift"), Some(VK_SHIFT));
    assert_eq!(modifier_from_name("alt"), Some(VK_MENU));
    assert_eq!(modifier_from_name("Meta"), Some(VK_LWIN));
    assert_eq!(modifier_from_name("hyper"), None);
}

const FILE: &str = r#"{"commands": [
    {"phrase": "Save", "key": "f2"},
    {"phrase": "bad key", "key": "nope"},
    {"key": "x"},
    {"phrase": "Save File", "modifiers": ["ctrl", 3, "bogus", "Shift"], "key": "S"},
    {"phrase": "open", "modifiers": "ctrl", "key": "o"}
]}"#;

#[test]
fn custom_file_entries_are_validated_and_sorted_longest_first() {
    let cmds = parse_custom_commands(FILE);
    assert_eq!(cmds.len(), 3);
    assert_eq!(cmds[0].phrase, "save file");
    assert_eq!(cmds[0].modifiers, vec![VK_CONTROL, VK_SHIFT]);
    assert_eq!(cmds[0].key, 0x53);
    assert_eq!(cmds[1].phrase, "save");
    assert_eq!(cmds[1].modifiers, Vec::<u16>::new());
    assert_eq!(cmds[1].key, 0x71);
    assert_eq!(cmds[2].phrase, "open");
    assert_eq!(cmds[2].modifiers, Vec::<u16>::new());
    assert_eq!(cmds[2].key, 0x4F);
}

#[test]
fn invalid_json_or_missing_array_gives_no_commands() {
    assert!(parse_custom_commands("{not json").is_empty());
    assert!(parse_custom_commands(r#"{"commands": 3}"#).is_empty());
    assert!(parse_custom_commands(r#"[1, 2]"#).is_empty());
}

#[test]
fn equal_lengths_keep_file_order_and_bytes_decide_length() {
    let entry = |p: &str, k: &str| RawCommandEntry {
        phrase: Some(p.to_string()),
        key: Some(k.to_string()),
        modifiers: None,
    };
    // "écrit" is five characters but six UTF-8 bytes.
    let cmds = build_custom_commands(&vec![
        entry("abcde", "a"),
        entry("écrit", "b"),
        entry("vwxyz", "c"),
        entry("abcdef", "d"),
    ]);
    let phrases: Vec<&str> = cmds.iter().map(|c| c.phrase.as_str()).collect();
    assert_eq!(phrases, vec!["écrit", "abcdef", "abcde", "vwxyz"]);
}

#[test]
fn longest_custom_phrase_wins_and_overrides_builtins() {
    let cmds = parse_custom_commands(FILE);
    assert_eq!(
        match_command("Please SAVE FILE now", &cmds),
        Some(Action::Custom(vec![VK_CONTROL, VK_SHIFT], 0x53))
    );
    assert_eq!(match_command("save it and undo", &cmds), Some(Action::Custom(vec![], 0x71)));
    let undo_override = vec![CustomCommand { phrase: "undo".to_string(), modifiers: vec![VK_MENU], key: 0x5A }];
    assert_eq!(match_command("undo", &undo_override), Some(Action::Custom(vec![VK_MENU], 0x5A)));
    assert_eq!(match_command("redo", &undo_override), Some(Action::Redo));
}

#[test]
fn dispatch_plans_each_action() {
    let combos = |a: Action| -> Vec<(Vec<u16>, u16)> {
        dispatch(&a).into_iter().map(|c| (c.modifiers, c.key)).collect()
    };
    assert_eq!(combos(Action::Undo), vec![(vec![VK_CONTROL], VK_Z)]);
    assert_eq!(combos(Action::Redo), vec![(vec![VK_CONTROL], VK_Y)]);
    assert_eq!(combos(Action::SelectWord), vec![(vec![VK_CONTROL, VK_SHIFT], VK_LEFT)]);
    assert_eq!(combos(Action::DeleteWord), vec![(vec![VK_CONTROL], VK_BACK)]);
    assert_eq!(combos(Action::NewLine), vec![(vec![], VK_RETURN)]);
    assert_eq!(combos(Action::GoToStart), vec![(vec![VK_CONTROL], VK_HOME)]);
    assert_eq!(combos(Action::GoToEnd), vec![(vec![VK_CONTROL], VK_END)]);
    assert_eq!(combos(Action::SelectSentence), vec![(vec![], VK_HOME), (vec![VK_SHIFT], VK_END)]);
    assert_eq!(
        combos(Action::DeleteSentence),
        vec![(vec![], VK_HOME), (vec![VK_SHIFT], VK_END), (vec![], VK_BACK)]
    );
    assert_eq!(
        combos(Action::SelectParagraph),
        vec![(vec![VK_CONTROL], VK_UP), (vec![VK_CONTROL, VK_SHIFT], VK_DOWN)]
    );
    assert_eq!(
        combos(Action::DeleteParagraph),
        vec![(vec![VK_CONTROL], VK_UP), (vec![VK_CONTROL, VK_SHIFT], VK_DOWN), (vec![], VK_BACK)]
    );
    assert_eq!(combos(Action::Custom(vec![VK_MENU], 0x46)), vec![(vec![VK_MENU], 0x46)]);
}

#[test]
fn command_file_entries_are_read_as_plain_values() {
    let entries = read_command_entries(
        r#"{"commands": [
            {"phrase": "Save File", "key": "S", "modifiers": ["Ctrl", 4, "shift"]},
            {"phrase": 12, "key": "x"},
            {"key": "q", "modifiers": "ctrl"}
        ]}"#,
    );
    assert_eq!(entries.len(), 3);
    assert_eq!(entries[0].phrase.as_deref(), Some("Save File"));
    assert_eq!(entries[0].key.as_deref(), Some("S"));
    assert_eq!(
        entries[0].modifiers,
        Some(vec![Some("Ctrl".to_string()), None, Some("shift".to_string())])
    );
    assert_eq!(entries[1].phrase, None);
    assert_eq!(entries[1].key.as_deref(), Some("x"));
    assert_eq!(entries[1].modifiers, None);
    assert_eq!(entries[2].phrase, None);
    assert_eq!(entries[2].modifiers, None);
    assert!(read_command_entries("{\"commands\": {}}").is_empty());
    assert!(read_command_entries("nope").is_empty());
}

#[test]
fn skipped_entries_say_why() {
    let entry = |phrase: Option<&str>, key: Option<&str>| RawCommandEntry {
        phrase: phrase.map(|p| p.to_string()),
        key: key.map(|k| k.to_string()),
        modifiers: None,
    };
    assert_eq!(entry_problem(&entry(None, Some("s"))), Some(EntryProblem::MissingPhrase));
    assert_eq!(entry_problem(&entry(None, None)), Some(EntryProblem::MissingPhrase));
    assert_eq!(entry_problem(&entry(Some("save"), None)), Some(EntryProblem::MissingKey));
    assert_eq!(entry_problem(&entry(Some("save"), Some("nokey"))), Some(EntryProblem::UnknownKey));
    assert_eq!(entry_problem(&entry(Some("save"), Some("S"))), None);
    let built = build_custom_commands(&vec![entry(Some("save"), Some("nokey")), entry(Some("save"), Some("s"))]);
    assert_eq!(built.len(), 1);
}
