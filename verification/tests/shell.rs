use inkvoice_shell::command_mode::Action;
use inkvoice_shell::modes::WritingMode;
use inkvoice_shell::shell::{
    end_mode_wire, normalize_partial, on_final, parse_sidecar_line, ptt_hook, FinalStep, HookKey,
    Mode, PttSignal, ShellEvent, SidecarMessage, ShellState, ShellStep, HOTKEY_ID, HOTKEY_ID_CMD,
};
use inkvoice_shell::text_insert::InsertMethod;

#[test]
fn toggle_hotkeys_start_and_stop_one_recording() {
    let s = ShellState::new();
    let (s, step) = s.step(ShellEvent::Hotkey(HOTKEY_ID));
    assert_eq!(step, ShellStep::Start(Mode::Prose));
    let (s, step) = s.step(ShellEvent::Hotkey(HOTKEY_ID_CMD));
    assert_eq!(step, ShellStep::Busy(Mode::Prose));
    let (s, step) = s.step(ShellEvent::PttDown);
    assert_eq!(step, ShellStep::Nothing);
    let (s, step) = s.step(ShellEvent::Hotkey(HOTKEY_ID));
    assert_eq!(step, ShellStep::Stop);
    assert_eq!(s, ShellState::new());
    let (s, step) = s.step(ShellEvent::Hotkey(HOTKEY_ID_CMD));
    assert_eq!(step, ShellStep::Start(Mode::Command));
    let (_, step) = s.step(ShellEvent::Hotkey(99));
    assert_eq!(step, ShellStep::Nothing);
}

#[test]
fn push_to_talk_recording_stops_only_on_release() {
    let s = ShellState::new();
    let (s, step) = s.step(ShellEvent::PttDown);
    assert_eq!(step, ShellStep::StartPushToTalk);
    let (s, step) = s.step(ShellEvent::Hotkey(HOTKEY_ID));
    assert_eq!(step, ShellStep::HeldByPushToTalk);
    let (s, step) = s.step(ShellEvent::PttDown);
    assert_eq!(step, ShellStep::Nothing);
    let (s, step) = s.step(ShellEvent::PttUp);
    assert_eq!(step, ShellStep::Stop);
    assert_eq!(s, ShellState::new());
    let (_, step) = s.step(ShellEvent::PttUp);
    assert_eq!(step, ShellStep::Nothing);
}

fn key(down: bool, ctrl: bool, shift: bool) -> HookKey {
    HookKey { injected: false, is_space: true, key_down: down, key_up: !down, ctrl, shift }
}

#[test]
fn ptt_hook_posts_once_per_press_and_swallows_the_chord() {
    let d = ptt_hook(false, key(true, true, true));
    assert_eq!((d.held, d.post, d.swallow), (true, PttSignal::Down, true));
    let d = ptt_hook(true, key(true, true, true));
    assert_eq!((d.held, d.post, d.swallow), (true, PttSignal::Quiet, true));
    let d = ptt_hook(true, key(false, false, false));
    assert_eq!((d.held, d.post, d.swallow), (false, PttSignal::Up, true));
    let d = ptt_hook(false, key(false, true, true));
    assert_eq!((d.held, d.post, d.swallow), (false, PttSignal::Quiet, true));
    let d = ptt_hook(false, key(false, true, false));
    assert_eq!((d.held, d.post, d.swallow), (false, PttSignal::Quiet, false));
    let d = ptt_hook(false, key(true, true, false));
    assert_eq!((d.held, d.post, d.swallow), (false, PttSignal::Quiet, false));
    let injected = HookKey { injected: true, ..key(true, true, true) };
    let d = ptt_hook(false, injected);
    assert_eq!((d.held, d.post, d.swallow), (false, PttSignal::Quiet, false));
    let other = HookKey { is_space: false, ..key(true, true, true) };
    let d = ptt_hook(true, other);
    assert_eq!((d.held, d.post, d.swallow), (true, PttSignal::Quiet, false));
}

#[test]
fn command_recordings_end_as_dictation() {
    assert_eq!(end_mode_wire(Mode::Command, WritingMode::Email), "dictation");
    assert_eq!(end_mode_wire(Mode::Prose, WritingMode::Email), "email");
    assert_eq!(end_mode_wire(Mode::Prose, WritingMode::Rewrite), "rewrite");
}

#[test]
fn partials_are_sentence_cased() {
    assert_eq!(normalize_partial("HELLO World"), "Hello world");
    assert_eq!(normalize_partial(""), "");
    assert_eq!(normalize_partial("\u{df}tra\u{df}e"), "SStra\u{df}e");
    assert_eq!(normalize_partial("\u{c9}T\u{c9}"), "\u{c9}t\u{e9}");
}

#[test]
fn sidecar_lines_are_classified() {
    assert_eq!(parse_sidecar_line(r#"{"type":"ready"}"#), SidecarMessage::Ready);
    assert_eq!(
        parse_sidecar_line(r#"{"type":"partial","text":"hi there"}"#),
        SidecarMessage::Partial("hi there".to_string())
    );
    assert_eq!(parse_sidecar_line(r#"{"type":"final"}"#), SidecarMessage::Final(String::new()));
    assert_eq!(parse_sidecar_line(r#"{"type":"final","text":7}"#), SidecarMessage::Final(String::new()));
    assert_eq!(parse_sidecar_line(r#"{"type":"status"}"#), SidecarMessage::Other);
    assert_eq!(parse_sidecar_line("not json"), SidecarMessage::Other);
    assert_eq!(parse_sidecar_line(r#"["type"]"#), SidecarMessage::Other);
}

#[test]
fn finals_are_inserted_or_run() {
    let none = Vec::new();
    assert_eq!(on_final("", Mode::Prose, &none), FinalStep::Skip);
    assert_eq!(on_final("", Mode::Command, &none), FinalStep::Skip);
    assert_eq!(on_final("hi", Mode::Prose, &none), FinalStep::Insert(InsertMethod::Type));
    assert_eq!(on_final(&"a".repeat(120), Mode::Prose, &none), FinalStep::Insert(InsertMethod::Paste));
    assert_eq!(on_final("Undo that", Mode::Command, &none), FinalStep::Run(Action::Undo));
    assert_eq!(on_final("hello there", Mode::Command, &none), FinalStep::Unrecognized);
}

#[test]
fn normalizing_a_partial_twice_changes_nothing() {
    for text in ["HELLO World", "already Normal", "x", "", "42 apples"] {
        let once = normalize_partial(text);
        assert_eq!(normalize_partial(&once), once);
        assert_eq!(once.to_lowercase(), text.to_lowercase());
    }
    assert_eq!(normalize_partial("42 Apples"), "42 apples");
}
