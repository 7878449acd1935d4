use inkvoice_shell::modes::WritingMode;
use inkvoice_shell::overlay::{
    chip_clicked, chip_label, click_point, colorref, display_text, fill_pill_base, pack_bgra,
    point_in_chip, point_in_pill, restore_pill_alpha, tail_for_display, HEIGHT, HINT_COLOR,
    PILL_BG, TEXT_COLOR, WIDTH,
};

#[test]
fn pill_is_a_rounded_rectangle() {
    assert!(point_in_pill(190, 75));
    assert!(!point_in_pill(0, 0));
    assert!(!point_in_pill(1, 1));
    assert!(point_in_pill(28, 0));
    assert!(point_in_pill(0, 28));
    assert!(point_in_pill(379, 75));
    assert!(point_in_pill(380, 75));
    assert!(!point_in_pill(381, 75));
    assert!(!point_in_pill(-5, 75));
    assert!(point_in_pill(352, 149));
    assert!(!point_in_pill(379, 149));
}

#[test]
fn chip_hit_area() {
    assert!(point_in_chip(115, 120));
    assert!(point_in_chip(264, 143));
    assert!(!point_in_chip(265, 130));
    assert!(!point_in_chip(200, 144));
    assert!(!point_in_chip(114, 130));
}

#[test]
fn pixels_pack_as_bgra_and_colorref() {
    assert_eq!(pack_bgra(PILL_BG, 255), 0xFFF5_F0E3);
    assert_eq!(pack_bgra((1, 2, 3), 4), 0x0401_0203);
    assert_eq!(colorref((1, 2, 3)), 0x0003_0201);
    assert_eq!(colorref(HINT_COLOR), 0x0054_5E63);
}

#[test]
fn base_frame_masks_the_pill() {
    let n = (WIDTH * HEIGHT) as usize;
    let mut px = vec![7u32; n];
    fill_pill_base(&mut px);
    assert_eq!(px[0], 0);
    assert_eq!(px[(75 * WIDTH + 190) as usize], 0xFFF5_F0E3);
    assert_eq!(px[(149 * WIDTH + 379) as usize], 0);
    let opaque = px.iter().filter(|&&p| p != 0).count();
    assert!(opaque > n * 9 / 10 && opaque < n);
}

#[test]
fn alpha_is_restored_inside_the_pill_only() {
    let n = (WIDTH * HEIGHT) as usize;
    let mut px = vec![0x0012_3456u32; n];
    restore_pill_alpha(&mut px);
    assert_eq!(px[(75 * WIDTH + 190) as usize], 0xFF12_3456);
    assert_eq!(px[0], 0x0012_3456);
}

#[test]
fn transcript_tail_is_cut_at_a_word_boundary() {
    assert_eq!(tail_for_display("short text", 96), "short text");
    assert_eq!(tail_for_display("hello world foo", 9), "\u{2026} foo");
    assert_eq!(tail_for_display("abcdefghij", 4), "\u{2026}ghij");
    assert_eq!(tail_for_display("exactly", 7), "exactly");
}

#[test]
fn pill_text_and_chip_label() {
    assert_eq!(display_text(""), ("Listening\u{2026}".to_string(), HINT_COLOR));
    assert_eq!(display_text("Hello"), ("Hello".to_string(), TEXT_COLOR));
    let long = "word ".repeat(30);
    let (shown, color) = display_text(&long);
    assert_eq!(color, TEXT_COLOR);
    assert!(shown.starts_with('\u{2026}'));
    assert!(shown.chars().count() <= 97);
    assert_eq!(chip_label(WritingMode::Email), "Mode: Email  \u{25B8}");
    assert_eq!(chip_label(WritingMode::Rewrite), "Mode: Rewrite  \u{25B8}");
}

#[test]
fn click_coordinates_are_signed_words() {
    assert_eq!(click_point(0x000A_FFFF), (-1, 10));
    assert_eq!(click_point((130 << 16) | 200), (200, 130));
    assert_eq!(click_point(0xFFFF_0005u32 as isize), (5, -1));
    assert!(chip_clicked((130 << 16) | 200));
    assert!(!chip_clicked((10 << 16) | 200));
}
