use inkvoice_shell::modes::{SharedMode, WritingMode};

#[test]
fn cycle_covers_all_modes_and_wraps() {
    let m = SharedMode::new();
    assert_eq!(m.get(), WritingMode::Dictation);
    assert_eq!(m.cycle(), WritingMode::Email);
    assert_eq!(m.cycle(), WritingMode::Message);
    assert_eq!(m.cycle(), WritingMode::Rewrite);
    assert_eq!(m.cycle(), WritingMode::Dictation);
}

#[test]
fn wire_values_match_sidecar_mode_format_py_modes_tuple() {
    assert_eq!(WritingMode::Dictation.wire(), "dictation");
    assert_eq!(WritingMode::Email.wire(), "email");
    assert_eq!(WritingMode::Message.wire(), "message");
    assert_eq!(WritingMode::Rewrite.wire(), "rewrite");
}

#[test]
fn labels_name_each_mode() {
    assert_eq!(WritingMode::Dictation.label(), "Dictation");
    assert_eq!(WritingMode::Email.label(), "Email");
    assert_eq!(WritingMode::Message.label(), "Message");
    assert_eq!(WritingMode::Rewrite.label(), "Rewrite");
}

#[test]
fn next_four_times_returns_to_start() {
    for m in [WritingMode::Dictation, WritingMode::Email, WritingMode::Message, WritingMode::Rewrite] {
        assert_eq!(m.next().next().next().next(), m);
        assert_ne!(m.next(), m);
    }
}

#[test]
fn codes_round_trip_and_unknown_bytes_mean_dictation() {
    for m in [WritingMode::Dictation, WritingMode::Email, WritingMode::Message, WritingMode::Rewrite] {
        assert_eq!(WritingMode::from_u8(m.to_u8()), m);
    }
    assert_eq!(WritingMode::Rewrite.to_u8(), 3);
    assert_eq!(WritingMode::from_u8(4), WritingMode::Dictation);
    assert_eq!(WritingMode::from_u8(255), WritingMode::Dictation);
}

#[test]
fn shared_mode_clones_share_state() {
    let a = SharedMode::new();
    let b = a.clone();
    assert_eq!(a.cycle(), WritingMode::Email);
    assert_eq!(b.get(), WritingMode::Email);
    assert_eq!(b.cycle(), WritingMode::Message);
    assert_eq!(a.get(), WritingMode::Message);
}

#[test]
fn wire_is_label_lowercased() {
    for m in [WritingMode::Dictation, WritingMode::Email, WritingMode::Message, WritingMode::Rewrite] {
        assert_eq!(m.wire(), m.label().to_lowercase());
    }
}
