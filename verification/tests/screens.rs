use locket_display::{Color565, DisplayList, DrawOp, Font, KeyboardView, Theme, Ui};

fn c(r: u8, g: u8, b: u8) -> Color565 {
    Color565 { r, g, b }
}

fn txt(s: &str, x: i32, y: i32, color: Color565) -> DrawOp {
    DrawOp::Text { x, y, text: s.chars().collect(), font: Font::Small, color, background: None }
}

fn opaque(s: &str, x: i32, y: i32, color: Color565, bg: Color565) -> DrawOp {
    DrawOp::Text { x, y, text: s.chars().collect(), font: Font::Small, color, background: Some(bg) }
}

fn fill(x: i32, y: i32, w: u32, h: u32, color: Color565) -> DrawOp {
    DrawOp::Fill { x, y, w, h, color }
}

fn wifi(color: Color565) -> Vec<DrawOp> {
    vec![fill(146, 8, 2, 3, color), fill(149, 6, 2, 5, color), fill(152, 4, 2, 7, color), fill(155, 2, 2, 9, color)]
}

fn header_bar(t: &Theme, title: &str) -> Vec<DrawOp> {
    let mut v = vec![fill(0, 0, 160, 13, t.surface), txt(title, 3, 2, t.on_surface), txt(title, 4, 2, t.on_surface)];
    v.extend(wifi(t.on_surface));
    v.push(fill(0, 13, 160, 1, t.divider));
    v
}

fn text_of(op: &DrawOp) -> String {
    match op {
        DrawOp::Text { text, .. } => text.iter().collect(),
        _ => panic!("not a text op: {:?}", op),
    }
}

fn kb(text: &str) -> KeyboardView {
    KeyboardView {
        text: text.to_string(),
        caps: false,
        action_armed: false,
        active_group: None,
        candidates: Vec::new(),
        completion_suffix: None,
        space_completion: None,
    }
}

#[test]
fn phosphor_palette_is_truncated_hex() {
    let t = Theme::phosphor();
    assert_eq!(t.bg, c(1, 5, 1));
    assert_eq!(t.surface, c(1, 15, 3));
    assert_eq!(t.on_surface, c(21, 63, 24));
    assert_eq!(t.text, c(6, 63, 12));
    assert_eq!(t.dim, c(3, 34, 7));
    assert_eq!(t.divider, c(2, 20, 5));
    assert_eq!(t.accent, c(21, 63, 24));
    assert_eq!(t.on_accent, c(1, 5, 1));
    assert_eq!(t.warn, c(31, 44, 0));
    assert_eq!(t.name, "Phosphor");
}

#[test]
fn themes_cycle_in_order_with_phosphor_first() {
    let all = Theme::all();
    let names: Vec<&str> = all.iter().map(|t| t.name).collect();
    assert_eq!(names, vec!["Phosphor", "Modern Dark", "Game Boy"]);
    assert_eq!(all[1].accent, c(0x4D >> 3, 0xD0 >> 2, 0xE1 >> 3));
    assert_eq!(all[2].bg, c(0x9B >> 3, 0xBC >> 2, 0x0F >> 3));
}

#[test]
fn clear_paints_the_background() {
    let t = Theme::game_boy();
    let mut l = DisplayList::new();
    Ui::clear(&mut l, &t);
    assert_eq!(l.ops(), &vec![DrawOp::Clear { color: t.bg }]);
}

#[test]
fn splash_centres_title_and_subtitle() {
    let t = Theme::phosphor();
    let mut l = DisplayList::new();
    Ui::splash(&mut l, &t, "Locket", "connecting");
    let expected = vec![
        DrawOp::Clear { color: t.bg },
        DrawOp::Text { x: 50, y: 38, text: "Locket".chars().collect(), font: Font::Large, color: t.accent, background: None },
        txt("connecting", 50, 72, t.dim),
    ];
    assert_eq!(l.ops(), &expected);
}

#[test]
fn splash_too_wide_title_starts_left_of_the_panel() {
    let t = Theme::phosphor();
    let mut l = DisplayList::new();
    Ui::splash(&mut l, &t, "abcdefghijklmnopqrs", "");
    match &l.ops()[1] {
        DrawOp::Text { x, .. } => assert_eq!(*x, -15),
        op => panic!("{:?}", op),
    }
    match &l.ops()[2] {
        DrawOp::Text { x, .. } => assert_eq!(*x, 80),
        op => panic!("{:?}", op),
    }
}

#[test]
fn wrapped_row_count_counts_columns_and_newlines() {
    assert_eq!(Ui::wrapped_row_count(""), (1, 8));
    assert_eq!(Ui::wrapped_row_count(&"a".repeat(26)), (1, 8));
    assert_eq!(Ui::wrapped_row_count(&"a".repeat(27)), (2, 8));
    assert_eq!(Ui::wrapped_row_count(&"a".repeat(53)), (3, 8));
    assert_eq!(Ui::wrapped_row_count("a\nb"), (2, 8));
    assert_eq!(Ui::wrapped_row_count("\n"), (2, 8));
    assert_eq!(Ui::wrapped_row_count("é"), (1, 8));
    // Rows close at 26 bytes, as the reader wraps them.
    assert_eq!(Ui::wrapped_row_count(&"é".repeat(13)), (1, 8));
    assert_eq!(Ui::wrapped_row_count(&"é".repeat(14)), (2, 8));
    // The ninth three-byte character does not fit the row and is dropped.
    assert_eq!(Ui::wrapped_row_count(&"€".repeat(9)), (1, 8));
    assert_eq!(Ui::wrapped_row_count(&format!("{}abc", "€".repeat(8))), (2, 8));
}

#[test]
fn splash_centres_by_characters() {
    let t = Theme::phosphor();
    let mut l = DisplayList::new();
    Ui::splash(&mut l, &t, "Café", "réseau");
    match &l.ops()[1] {
        DrawOp::Text { x, .. } => assert_eq!(*x, 60),
        op => panic!("{:?}", op),
    }
    match &l.ops()[2] {
        DrawOp::Text { x, .. } => assert_eq!(*x, 62),
        op => panic!("{:?}", op),
    }
}

#[test]
fn response_stream_pads_multibyte_rows_to_the_full_width() {
    let t = Theme::phosphor();
    let mut l = DisplayList::new();
    Ui::response_stream(&mut l, &t, "Café", &"é".repeat(13));
    let ops = l.ops();
    assert_eq!(ops[1], opaque(&format!("Café{}", " ".repeat(19)), 3, 2, t.on_surface, t.surface));
    assert_eq!(ops[7], opaque(&format!("{}{}", "é".repeat(13), " ".repeat(13)), 3, 16, t.text, t.bg));
}

#[test]
fn response_shows_the_last_ten_rows() {
    let t = Theme::modern_dark();
    let body: Vec<String> = (0..12).map(|i| format!("line {}", i)).collect();
    let body = body.join("\n");
    let mut l = DisplayList::new();
    Ui::response(&mut l, &t, "CHAT", &body);
    let mut expected = vec![DrawOp::Clear { color: t.bg }];
    expected.extend(header_bar(&t, "CHAT"));
    for k in 0..10 {
        expected.push(txt(&format!("line {}", k + 2), 3, 16 + 11 * k as i32, t.text));
    }
    assert_eq!(l.ops(), &expected);
}

#[test]
fn response_wraps_a_long_line_at_the_column_limit() {
    let t = Theme::phosphor();
    let mut l = DisplayList::new();
    Ui::response(&mut l, &t, "X", &"a".repeat(30));
    let ops = l.ops();
    assert_eq!(ops.len(), 1 + 8 + 2);
    assert_eq!(ops[9], txt(&"a".repeat(26), 3, 16, t.text));
    assert_eq!(ops[10], txt("aaaa", 3, 27, t.text));
}

#[test]
fn response_wraps_multibyte_rows_by_bytes() {
    let t = Theme::phosphor();
    let mut l = DisplayList::new();
    Ui::response(&mut l, &t, "X", &"é".repeat(14));
    let ops = l.ops();
    assert_eq!(ops.len(), 1 + 8 + 2);
    assert_eq!(text_of(&ops[9]), "é".repeat(13));
    assert_eq!(text_of(&ops[10]), "é");
}

#[test]
fn response_stream_repaints_a_full_grid_without_clearing() {
    let t = Theme::phosphor();
    let mut l = DisplayList::new();
    Ui::response_stream(&mut l, &t, "Chat", "hello\nworld");
    let ops = l.ops();
    assert_eq!(ops.len(), 17);
    assert!(ops.iter().all(|op| !matches!(op, DrawOp::Clear { .. })));
    assert_eq!(ops[0], fill(0, 0, 160, 13, t.surface));
    assert_eq!(ops[1], opaque(&format!("Chat{}", " ".repeat(19)), 3, 2, t.on_surface, t.surface));
    assert_eq!(&ops[2..6], &wifi(t.on_surface)[..]);
    assert_eq!(ops[6], fill(0, 13, 160, 1, t.divider));
    assert_eq!(ops[7], opaque(&format!("hello{}", " ".repeat(21)), 3, 16, t.text, t.bg));
    assert_eq!(ops[8], opaque(&format!("world{}", " ".repeat(21)), 3, 27, t.text, t.bg));
    for k in 2..10 {
        assert_eq!(ops[7 + k], opaque(&" ".repeat(26), 3, 16 + 11 * k as i32, t.text, t.bg));
    }
}

#[test]
fn response_stream_clips_a_long_header() {
    let t = Theme::phosphor();
    let mut l = DisplayList::new();
    Ui::response_stream(&mut l, &t, &"h".repeat(40), "");
    assert_eq!(text_of(&l.ops()[1]), "h".repeat(23));
}

fn numbered(n: usize) -> String {
    (0..n).map(|i| format!("row {}", i)).collect::<Vec<_>>().join("\n")
}

#[test]
fn response_scrolled_shows_a_window_with_a_scrollbar() {
    let t = Theme::phosphor();
    let mut l = DisplayList::new();
    Ui::response_scrolled(&mut l, &t, "READ", &numbered(20), 5);
    let mut expected = vec![DrawOp::Clear { color: t.bg }];
    expected.extend(header_bar(&t, "READ"));
    for k in 0..8 {
        expected.push(txt(&format!("row {}", k + 5), 3, 16 + 11 * k as i32, t.text));
    }
    expected.push(fill(157, 16, 2, 98, t.divider));
    expected.push(fill(157, 40, 2, 39, t.accent));
    expected.push(fill(0, 114, 160, 1, t.divider));
    expected.push(txt("WS scroll  D=type  L=back", 3, 117, t.dim));
    assert_eq!(l.ops(), &expected);
}

#[test]
fn response_scrolled_clamps_to_the_last_screen() {
    let t = Theme::phosphor();
    let mut l = DisplayList::new();
    Ui::response_scrolled(&mut l, &t, "READ", &numbered(20), 100);
    let ops = l.ops();
    assert_eq!(ops[9], txt("row 12", 3, 16, t.text));
    assert_eq!(ops[16], txt("row 19", 3, 93, t.text));
    assert_eq!(ops[17], fill(157, 16, 2, 98, t.divider));
    // The thumb reaches the bottom of the track (16 + 98 = 114).
    assert_eq!(ops[18], fill(157, 75, 2, 39, t.accent));
}

#[test]
fn response_scrolled_short_body_has_no_scrollbar() {
    let t = Theme::phosphor();
    let mut l = DisplayList::new();
    Ui::response_scrolled(&mut l, &t, "READ", "one\ntwo", 3);
    let ops = l.ops();
    assert_eq!(ops.len(), 1 + 8 + 2 + 2);
    assert_eq!(ops[9], txt("one", 3, 16, t.text));
    assert_eq!(ops[10], txt("two", 3, 27, t.text));
    assert_eq!(ops[11], fill(0, 114, 160, 1, t.divider));
}

#[test]
fn menu_centres_the_selected_row() {
    let t = Theme::phosphor();
    let names: Vec<String> = (0..12).map(|i| format!("item {}", i)).collect();
    let items: Vec<&str> = names.iter().map(|s| s.as_str()).collect();
    let mut l = DisplayList::new();
    Ui::menu(&mut l, &t, "SETTINGS", &items, 7, &[], &[]);
    let ops = l.ops();
    let mut expected = vec![DrawOp::Clear { color: t.bg }];
    expected.extend(header_bar(&t, "SETTINGS"));
    for k in 0..8usize {
        let i = k + 3;
        let y = 17 + 11 * k as i32;
        if i == 7 {
            expected.push(fill(0, y - 1, 160, 11, t.surface));
            expected.push(fill(0, y - 1, 2, 11, t.accent));
            expected.push(txt(&format!("item {}", i), 4, y, t.on_surface));
        } else {
            expected.push(txt(&format!("item {}", i), 4, y, t.text));
        }
    }
    expected.push(txt("^", 152, 17, t.dim));
    expected.push(txt("v", 152, 103, t.dim));
    expected.push(fill(0, 114, 160, 1, t.divider));
    expected.push(txt("WS move  A/D change  L ok", 3, 117, t.dim));
    assert_eq!(ops, &expected);
}

#[test]
fn menu_sliders_swatches_and_long_labels() {
    let t = Theme::phosphor();
    let long = "x".repeat(30);
    let items = ["Theme", "Brightness", long.as_str()];
    let swatch = c(3, 4, 5);
    let mut l = DisplayList::new();
    Ui::menu(&mut l, &t, "SETTINGS", &items, 1, &[(1, 5), (2, 12), (1, 9)], &[(0, swatch)]);
    let ops = l.ops();
    let mut expected = vec![DrawOp::Clear { color: t.bg }];
    expected.extend(header_bar(&t, "SETTINGS"));
    expected.push(txt("Theme", 4, 17, t.text));
    expected.push(DrawOp::Frame { x: 143, y: 17, w: 9, h: 9, color: t.dim });
    expected.push(fill(144, 18, 7, 7, swatch));
    expected.push(fill(0, 27, 160, 11, t.surface));
    expected.push(fill(0, 27, 2, 11, t.accent));
    expected.push(txt("Brightness", 4, 28, t.on_surface));
    expected.push(fill(112, 31, 40, 4, t.bg));
    expected.push(fill(112, 31, 20, 4, t.accent));
    expected.push(txt(&"x".repeat(24), 4, 39, t.text));
    expected.push(fill(112, 42, 40, 4, t.divider));
    expected.push(fill(112, 42, 40, 4, t.accent));
    expected.push(fill(0, 114, 160, 1, t.divider));
    expected.push(txt("WS move  A/D change  L ok", 3, 117, t.dim));
    assert_eq!(ops, &expected);
}

#[test]
fn menu_empty_slider_draws_only_the_track() {
    let t = Theme::phosphor();
    let mut l = DisplayList::new();
    Ui::menu(&mut l, &t, "S", &["Volume"], 5, &[(0, 0)], &[]);
    let ops = l.ops();
    assert_eq!(ops[9], txt("Volume", 4, 17, t.text));
    assert_eq!(ops[10], fill(112, 20, 40, 4, t.divider));
    assert_eq!(ops[11], fill(0, 114, 160, 1, t.divider));
}

fn compose_header(t: &Theme, label: &str, color: Color565, right: &str) -> Vec<DrawOp> {
    let mut v = vec![fill(0, 0, 160, 13, t.surface), txt(label, 3, 2, color), txt(label, 4, 2, color)];
    v.push(txt(right, 144 - 6 * right.len() as i32, 2, t.on_surface));
    v.extend(wifi(t.on_surface));
    v.push(fill(0, 13, 160, 1, t.divider));
    v
}

#[test]
fn render_idle_compose_screen() {
    let t = Theme::phosphor();
    let mut l = DisplayList::new();
    Ui::render(&mut l, &t, &kb("hi"), "Nova", "");
    let mut expected = vec![DrawOp::Clear { color: t.bg }];
    expected.extend(compose_header(&t, "AI: Nova", t.on_surface, "s0"));
    expected.push(DrawOp::Frame { x: 1, y: 14, w: 158, h: 76, color: t.divider });
    expected.push(txt("h", 4, 17, t.text));
    expected.push(txt("i", 10, 17, t.text));
    expected.push(fill(16, 17, 6, 9, t.accent));
    expected.push(txt("L = space", 3, 92, t.dim));
    expected.push(txt("Wabcd Aefgh Sijkl Dmnop", 0, 103, t.dim));
    expected.push(txt("Iqrst Juvwx Kyz., L=spc", 0, 114, t.dim));
    assert_eq!(l.ops(), &expected);
}

#[test]
fn render_status_banner_and_caps_count() {
    let t = Theme::phosphor();
    let mut k = kb("");
    k.caps = true;
    k.candidates = vec!["a".to_string(), "b".to_string(), "c".to_string()];
    let mut l = DisplayList::new();
    Ui::render(&mut l, &t, &k, "Nova", "SENDING");
    let ops = l.ops();
    let header = compose_header(&t, "SENDING", t.warn, "CAPS s3");
    assert_eq!(&ops[1..1 + header.len()], &header[..]);
}

#[test]
fn render_action_layer() {
    let t = Theme::phosphor();
    let mut k = kb("");
    k.action_armed = true;
    k.active_group = Some("abcd".to_string());
    let mut l = DisplayList::new();
    Ui::render(&mut l, &t, &k, "Nova", "");
    let ops = l.ops();
    assert_eq!(text_of(&ops[2]), "ACTION: pick one");
    let n = ops.len();
    assert_eq!(ops[n - 3], txt("W=back A=send S=expand", 2, 92, t.warn));
    assert_eq!(ops[n - 2], txt("D=caps I=set J=newline", 2, 103, t.warn));
    assert_eq!(ops[n - 1], txt("K=clear  L=cancel", 2, 114, t.warn));
}

#[test]
fn render_letter_cross_with_word_column() {
    let t = Theme::phosphor();
    let mut k = kb("");
    k.active_group = Some("abc".to_string());
    k.candidates = vec!["hello".to_string(), "wonderfully".to_string()];
    let mut l = DisplayList::new();
    Ui::render(&mut l, &t, &k, "Nova", "");
    let ops = l.ops();
    assert_eq!(text_of(&ops[2]), "STEP 2: pick letter");
    // Frame + block cursor after the header.
    let guide = &ops[ops.len() - 11..];
    let expected = vec![
        txt("W:a", 42, 92, t.accent),
        txt("W:a", 43, 92, t.accent),
        txt("A:b", 2, 103, t.accent),
        txt("A:b", 3, 103, t.accent),
        txt("S:c", 42, 114, t.accent),
        txt("S:c", 43, 114, t.accent),
        fill(90, 92, 1, 36, t.divider),
        txt("I", 94, 92, t.accent),
        txt("hello", 104, 92, t.text),
        txt("J", 94, 103, t.accent),
        txt("wonderful", 104, 103, t.text),
    ];
    assert_eq!(guide, &expected[..]);
}

#[test]
fn render_suggestion_strip() {
    let t = Theme::phosphor();
    let mut k = kb("hel");
    k.space_completion = Some("hello".to_string());
    k.completion_suffix = Some("lo".to_string());
    k.candidates = vec!["hello".to_string(), "help".to_string(), "helium".to_string(), "helm".to_string()];
    let mut l = DisplayList::new();
    Ui::render(&mut l, &t, &k, "Nova", "");
    let ops = l.ops();
    let n = ops.len();
    let expected = vec![
        // draft: typed text, caret, ghost completion
        txt("h", 4, 17, t.text),
        txt("e", 10, 17, t.text),
        txt("l", 16, 17, t.text),
        fill(22, 17, 1, 9, t.accent),
        txt("l", 22, 17, t.dim),
        txt("o", 28, 17, t.dim),
        // guide
        fill(2, 91, 11, 11, t.accent),
        txt("L", 5, 92, t.on_accent),
        txt("hello", 16, 92, t.accent),
        txt("help", 54, 92, t.dim),
        txt("helium", 86, 92, t.dim),
        txt("Wabcd Aefgh Sijkl Dmnop", 0, 103, t.dim),
        txt("Iqrst Juvwx Kyz. L=fill", 0, 114, t.dim),
    ];
    assert_eq!(&ops[n - expected.len()..], &expected[..]);
}

#[test]
fn render_strip_stops_at_the_right_edge() {
    let t = Theme::phosphor();
    let mut k = kb("");
    k.space_completion = Some("abcdefghijklmn".to_string());
    k.candidates = vec!["x".to_string(), "abcdefghijkl".to_string(), "y".to_string()];
    let mut l = DisplayList::new();
    Ui::render(&mut l, &t, &k, "Nova", "");
    let ops = l.ops();
    let n = ops.len();
    // "x" fits at 16 + 84 + 8 = 108; "abcdefghijkl" (72px) would end past
    // the right edge, so the strip stops and "y" is never shown.
    assert_eq!(ops[n - 4], txt("abcdefghijklmn", 16, 92, t.accent));
    assert_eq!(ops[n - 3], txt("x", 108, 92, t.dim));
    assert_eq!(ops[n - 2], txt("Wabcd Aefgh Sijkl Dmnop", 0, 103, t.dim));
}

fn draft_glyphs(ops: &[DrawOp], t: &Theme) -> Vec<(String, i32, i32)> {
    ops.iter()
        .filter_map(|op| match op {
            DrawOp::Text { x, y, text, color, .. } if *y >= 17 && *y <= 81 && (*color == t.text || *color == t.dim) && *x >= 4 =>
                Some((text.iter().collect(), *x, *y)),
            _ => None,
        })
        .collect()
}

#[test]
fn draft_wraps_at_twenty_five_columns_and_on_newline() {
    let t = Theme::phosphor();
    let text = format!("{}\nz", "x".repeat(27));
    let mut l = DisplayList::new();
    Ui::render(&mut l, &t, &kb(&text), "Nova", "");
    let g = draft_glyphs(l.ops(), &t);
    assert_eq!(g.len(), 28);
    assert_eq!(g[24], ("x".to_string(), 4 + 6 * 24, 17));
    assert_eq!(g[25], ("x".to_string(), 4, 28));
    assert_eq!(g[26], ("x".to_string(), 10, 28));
    assert_eq!(g[27], ("z".to_string(), 4, 39));
    assert!(l.ops().contains(&fill(10, 39, 6, 9, t.accent)));
}

#[test]
fn draft_stops_at_the_guide_zone() {
    let t = Theme::phosphor();
    let text = "line\n".repeat(10);
    let mut l = DisplayList::new();
    Ui::render(&mut l, &t, &kb(&text), "Nova", "");
    let g = draft_glyphs(l.ops(), &t);
    // Lines start at 17, 28, ..., 81: six lines fit.
    assert_eq!(g.len(), 24);
    assert_eq!(g[23], ("e".to_string(), 22, 72));
    assert!(g.iter().all(|(_, x, y)| (4..=148).contains(x) && (17..=81).contains(y)));
    // The pen ended below the zone, so no block cursor is drawn.
    assert!(!l.ops().iter().any(|op| matches!(op, DrawOp::Fill { w: 6, h: 9, .. })));
}

#[test]
fn draft_three_byte_characters_draw_as_nothing() {
    let t = Theme::phosphor();
    let mut l = DisplayList::new();
    Ui::render(&mut l, &t, &kb("a€é"), "Nova", "");
    let ops = l.ops();
    let frame = ops.iter().position(|op| matches!(op, DrawOp::Frame { .. })).unwrap();
    assert_eq!(ops[frame + 1], txt("a", 4, 17, t.text));
    assert_eq!(ops[frame + 2], txt("", 10, 17, t.text));
    assert_eq!(ops[frame + 3], txt("é", 16, 17, t.text));
    assert_eq!(ops[frame + 4], fill(22, 17, 6, 9, t.accent));
}

#[test]
fn header_label_that_does_not_fit_is_left_out() {
    let t = Theme::phosphor();
    let title = "p".repeat(30);
    let mut l = DisplayList::new();
    Ui::render(&mut l, &t, &kb(""), &title, "");
    assert_eq!(text_of(&l.ops()[2]), "AI: ");
    let mut l = DisplayList::new();
    Ui::render(&mut l, &t, &kb(""), "Nova", &"s".repeat(33));
    assert_eq!(text_of(&l.ops()[2]), "");
}
