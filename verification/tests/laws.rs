use locket_display::{Color565, DisplayList, DrawOp, KeyboardView, Theme, Ui};

fn texts(ops: &[DrawOp]) -> Vec<(String, i32, i32)> {
    ops.iter()
        .filter_map(|op| match op {
            DrawOp::Text { x, y, text, .. } => Some((text.iter().collect(), *x, *y)),
            _ => None,
        })
        .collect()
}

fn lines(n: usize) -> String {
    (0..n).map(|i| format!("row {}", i)).collect::<Vec<_>>().join("\n")
}

#[test]
fn tail_view_keeps_the_most_recent_rows_past_the_buffer() {
    // 70 rows overflow the 64-row buffer: the oldest are dropped, the last
    // ten are shown.
    let t = Theme::phosphor();
    let mut l = DisplayList::new();
    Ui::response(&mut l, &t, "H", &lines(70));
    let shown: Vec<String> = texts(&l.ops()[9..]).into_iter().map(|(s, _, _)| s).collect();
    let want: Vec<String> = (60..70).map(|i| format!("row {}", i)).collect();
    assert_eq!(shown, want);
}

#[test]
fn reader_keeps_the_last_256_rows() {
    let t = Theme::phosphor();
    let mut l = DisplayList::new();
    Ui::response_scrolled(&mut l, &t, "H", &lines(300), 0);
    let shown = texts(&l.ops()[9..17]);
    assert_eq!(shown[0], ("row 44".to_string(), 3, 16));
    assert_eq!(shown[7], ("row 51".to_string(), 3, 93));
    // The row count that clamps scrolling still sees every row.
    assert_eq!(Ui::wrapped_row_count(&lines(300)), (300, 8));
}

#[test]
fn row_count_matches_the_rows_the_reader_wraps() {
    let t = Theme::phosphor();
    let mixed = format!("{}{}\n{}", "a".repeat(25), "é", "ü".repeat(20));
    for body in [
        "", "a", &"b".repeat(26), &"c".repeat(27), "x\n\ny", &"d".repeat(60), "ab\n",
        &"é".repeat(13), &"é".repeat(14), &"é".repeat(40), &"€".repeat(9), &mixed,
    ] {
        let (count, per_screen) = Ui::wrapped_row_count(body);
        assert_eq!(per_screen, 8);
        let mut l = DisplayList::new();
        Ui::response_scrolled(&mut l, &t, "H", body, 0);
        let shown = texts(&l.ops()[9..]).into_iter().filter(|(_, x, y)| *x == 3 && *y >= 16 && *y < 114).count();
        assert_eq!(shown, count, "body {:?}", body);
    }
}

#[test]
fn wrapping_loses_no_ascii_text() {
    let t = Theme::phosphor();
    let body = "The quick brown fox jumps over the lazy dog.\nPack my box\nwith five dozen jugs";
    let mut l = DisplayList::new();
    Ui::response_scrolled(&mut l, &t, "H", body, 0);
    let rows: Vec<String> = texts(&l.ops()[9..]).into_iter()
        .filter(|(_, x, y)| *x == 3 && *y >= 16 && *y < 114)
        .map(|(s, _, _)| s)
        .collect();
    assert!(rows.iter().all(|r| r.len() <= 26));
    assert_eq!(rows.concat(), body.replace('\n', ""));
}

#[test]
fn thumb_stays_on_its_track() {
    let t = Theme::phosphor();
    let body = lines(40);
    let mut prev = 0;
    for scroll in 0..40 {
        let mut l = DisplayList::new();
        Ui::response_scrolled(&mut l, &t, "H", &body, scroll);
        let thumb = l.ops().iter().find_map(|op| match op {
            DrawOp::Fill { x: 157, y, h, color, .. } if *color == t.accent => Some((*y, *h as i32)),
            _ => None,
        });
        let (y, h) = thumb.unwrap();
        assert!(y >= 16 && y + h <= 114);
        assert!(y >= prev);
        prev = y;
        if scroll == 0 {
            assert_eq!(y, 16);
        }
        if scroll >= 32 {
            assert_eq!(y + h, 114);
        }
    }
}

#[test]
fn selected_menu_row_is_always_visible() {
    let t = Theme::phosphor();
    let names: Vec<String> = (0..13).map(|i| format!("opt {}", i)).collect();
    let items: Vec<&str> = names.iter().map(|s| s.as_str()).collect();
    for selected in 0..13 {
        let mut l = DisplayList::new();
        Ui::menu(&mut l, &t, "M", &items, selected, &[], &[]);
        let shown = texts(l.ops());
        let rows: Vec<&(String, i32, i32)> = shown.iter().filter(|(_, x, y)| *x == 4 && *y >= 17 && *y < 114).collect();
        assert_eq!(rows.len(), 8);
        let sel = rows.iter().position(|(s, _, _)| *s == format!("opt {}", selected)).unwrap();
        if (4..=9).contains(&selected) {
            assert_eq!(sel, 4);
        }
    }
}

#[test]
fn streaming_never_clears_and_fills_every_cell() {
    let t = Theme::modern_dark();
    for body in ["", "short", &"z".repeat(500), "a\nb\nc", &"é".repeat(13), &"€".repeat(30)] {
        let mut l = DisplayList::new();
        Ui::response_stream(&mut l, &t, "Réponse", body);
        let ops = l.ops();
        assert!(ops.iter().all(|op| !matches!(op, DrawOp::Clear { .. })));
        let grid: Vec<_> = texts(&ops[7..]);
        assert_eq!(grid.len(), 10);
        for (k, (s, x, y)) in grid.iter().enumerate() {
            assert_eq!(s.chars().count(), 26);
            assert_eq!((*x, *y), (3, 16 + 11 * k as i32));
        }
        let (title, _, _) = &texts(&ops[1..2])[0];
        assert_eq!(title.chars().count(), 23);
    }
}

#[test]
fn streaming_shows_the_rows_of_the_tail_view() {
    let t = Theme::phosphor();
    for body in ["", "one\ntwo", &lines(30), &"é".repeat(60), "a\n\nb"] {
        let mut tail = DisplayList::new();
        Ui::response(&mut tail, &t, "H", body);
        let rows = texts(&tail.ops()[9..]);
        let mut stream = DisplayList::new();
        Ui::response_stream(&mut stream, &t, "H", body);
        let grid = texts(&stream.ops()[7..]);
        for (k, (line, x, y)) in grid.iter().enumerate() {
            assert_eq!((*x, *y), (3, 16 + 11 * k as i32));
            match rows.get(k) {
                Some((row, rx, ry)) => {
                    assert_eq!((*rx, *ry), (*x, *y));
                    let cells: String = line.chars().take(row.chars().count()).collect();
                    assert_eq!(&cells, row);
                    assert!(line.chars().skip(row.chars().count()).all(|c| c == ' '));
                }
                None => assert!(line.chars().all(|c| c == ' ')),
            }
        }
    }
}

#[test]
fn repeating_a_stream_frame_gives_the_same_steps() {
    let t = Theme::phosphor();
    let mut a = DisplayList::new();
    Ui::response_stream(&mut a, &t, "A much longer header", "first\nframe");
    let mut b = DisplayList::new();
    Ui::response_stream(&mut b, &t, "A much longer header", "first\nframe");
    assert_eq!(a.ops(), b.ops());
    let mut c = DisplayList::new();
    Ui::response_stream(&mut c, &t, "Hi", "x");
    // A shorter header and body still cover every cell the longer ones did.
    for (p, q) in a.ops().iter().zip(c.ops().iter()) {
        if let (DrawOp::Text { text: tp, x: xp, y: yp, .. }, DrawOp::Text { text: tq, x: xq, y: yq, .. }) = (p, q) {
            assert_eq!((xp, yp, tp.len()), (xq, yq, tq.len()));
        }
    }
}

#[test]
fn draft_glyphs_stay_inside_the_frame() {
    let t = Theme::phosphor();
    let kb = KeyboardView {
        text: format!("{}\n{}", "w".repeat(100), "q".repeat(70)),
        caps: false,
        action_armed: false,
        active_group: None,
        candidates: Vec::new(),
        completion_suffix: Some("tail".repeat(40)),
        space_completion: None,
    };
    let mut l = DisplayList::new();
    Ui::render(&mut l, &t, &kb, "Nova", "");
    let ops = l.ops();
    let frame = ops.iter().position(|op| matches!(op, DrawOp::Frame { .. })).unwrap();
    for op in &ops[frame + 1..] {
        if let DrawOp::Text { x, y, color, .. } = op {
            if *color == t.text || (*color == t.dim && *y < 92) {
                assert!((4..=148).contains(x) && (17..=81).contains(y), "{:?}", op);
            }
        }
    }
}

fn erase(ops: &[DrawOp]) -> Vec<String> {
    ops.iter()
        .map(|op| match op {
            DrawOp::Clear { .. } => "clear".to_string(),
            DrawOp::Fill { x, y, w, h, .. } => format!("fill {} {} {} {}", x, y, w, h),
            DrawOp::Frame { x, y, w, h, .. } => format!("frame {} {} {} {}", x, y, w, h),
            DrawOp::Text { x, y, text, font, background, .. } => {
                format!("text {} {} {:?} {:?} {}", x, y, text, font, background.is_some())
            }
        })
        .collect()
}

#[test]
fn switching_theme_only_recolours() {
    let themes = Theme::all();
    let kb = KeyboardView {
        text: "hel".to_string(),
        caps: true,
        action_armed: false,
        active_group: None,
        candidates: vec!["hello".to_string(), "help".to_string()],
        completion_suffix: Some("lo".to_string()),
        space_completion: Some("hello".to_string()),
    };
    let screens = |t: &Theme| -> Vec<Vec<String>> {
        let mut out = Vec::new();
        let mut l = DisplayList::new();
        Ui::render(&mut l, t, &kb, "Nova", "");
        out.push(erase(l.ops()));
        let mut l = DisplayList::new();
        Ui::response_stream(&mut l, t, "Reply", "some streamed text");
        out.push(erase(l.ops()));
        let mut l = DisplayList::new();
        Ui::menu(&mut l, t, "SETTINGS", &["Model", "Theme", "Volume"], 1, &[(2, 7)], &[(1, t.accent)]);
        out.push(erase(l.ops()));
        out
    };
    let first = screens(&themes[0]);
    for t in &themes[1..] {
        assert_eq!(screens(t), first);
    }
}

fn recolour_ops(ops: &[DrawOp], map: &[(Color565, Color565)]) -> Vec<DrawOp> {
    let f = |c: &Color565| map.iter().find(|(a, _)| a == c).map(|(_, b)| *b).unwrap_or(*c);
    ops.iter()
        .map(|op| match op {
            DrawOp::Clear { color } => DrawOp::Clear { color: f(color) },
            DrawOp::Fill { x, y, w, h, color } => DrawOp::Fill { x: *x, y: *y, w: *w, h: *h, color: f(color) },
            DrawOp::Frame { x, y, w, h, color } => DrawOp::Frame { x: *x, y: *y, w: *w, h: *h, color: f(color) },
            DrawOp::Text { x, y, text, font, color, background } => DrawOp::Text {
                x: *x,
                y: *y,
                text: text.clone(),
                font: *font,
                color: f(color),
                background: background.as_ref().map(|b| f(b)),
            },
        })
        .collect()
}

#[test]
fn swapping_the_palette_by_role_turns_one_theme_into_another() {
    let a = Theme::phosphor();
    let b = Theme::modern_dark();
    // The roles the reply views draw with are distinct colours in phosphor.
    let map = [
        (a.bg, b.bg),
        (a.surface, b.surface),
        (a.on_surface, b.on_surface),
        (a.text, b.text),
        (a.divider, b.divider),
    ];
    let body = "The quick brown fox jumps over the lazy dog.\nAgain";
    let mut la = DisplayList::new();
    Ui::response(&mut la, &a, "Reply", body);
    let mut lb = DisplayList::new();
    Ui::response(&mut lb, &b, "Reply", body);
    assert_eq!(recolour_ops(la.ops(), &map), *lb.ops());
    let mut la = DisplayList::new();
    Ui::response_stream(&mut la, &a, "Reply", body);
    let mut lb = DisplayList::new();
    Ui::response_stream(&mut lb, &b, "Reply", body);
    assert_eq!(recolour_ops(la.ops(), &map), *lb.ops());
    // The splash draws with bg, accent and dim.
    let map = [(a.bg, b.bg), (a.accent, b.accent), (a.dim, b.dim)];
    let mut la = DisplayList::new();
    Ui::splash(&mut la, &a, "Locket", "connecting");
    let mut lb = DisplayList::new();
    Ui::splash(&mut lb, &b, "Locket", "connecting");
    assert_eq!(recolour_ops(la.ops(), &map), *lb.ops());
}

#[test]
fn wrapping_appends_to_a_buffer_and_drops_the_oldest_rows() {
    let mut rows: heapless::Vec<heapless::String<26>, 64> = heapless::Vec::new();
    for i in 0..63 {
        let mut r: heapless::String<26> = heapless::String::new();
        r.push_str(&format!("old {}", i)).unwrap();
        rows.push(r).unwrap();
    }
    locket_display::rows::wrap_into("new a\nnew b", &mut rows);
    assert_eq!(rows.len(), 64);
    assert_eq!(rows[0].as_str(), "old 1");
    assert_eq!(rows[61].as_str(), "old 62");
    assert_eq!(rows[62].as_str(), "new a");
    assert_eq!(rows[63].as_str(), "new b");
}

#[test]
fn last_offset_from_the_row_count_shows_the_end_of_the_body() {
    let t = Theme::phosphor();
    for body in [lines(20), lines(3), "é".repeat(200), lines(300)] {
        let (count, per_screen) = Ui::wrapped_row_count(&body);
        let mut l = DisplayList::new();
        Ui::response_scrolled(&mut l, &t, "H", &body, count.saturating_sub(per_screen));
        let shown: Vec<(String, i32, i32)> = texts(&l.ops()[9..])
            .into_iter()
            .filter(|(_, x, y)| *x == 3 && *y >= 16 && *y < 114)
            .collect();
        assert_eq!(shown.len(), count.min(per_screen));
        let last_row: String = {
            let mut tail = DisplayList::new();
            Ui::response(&mut tail, &t, "H", &body);
            texts(tail.ops()).last().unwrap().0.clone()
        };
        assert_eq!(shown.last().unwrap().0, last_row);
    }
}

fn colours(ops: &[DrawOp]) -> Vec<Color565> {
    let mut out = Vec::new();
    for op in ops {
        match op {
            DrawOp::Clear { color } | DrawOp::Fill { color, .. } | DrawOp::Frame { color, .. } => out.push(*color),
            DrawOp::Text { color, background, .. } => {
                out.push(*color);
                if let Some(b) = background {
                    out.push(*b);
                }
            }
        }
    }
    out
}

#[test]
fn reply_views_paint_only_with_their_roles() {
    let t = Theme::game_boy();
    let roles = [t.bg, t.surface, t.on_surface, t.text, t.divider];
    let mut l = DisplayList::new();
    Ui::response(&mut l, &t, "Reply", "body text\nmore");
    Ui::response_stream(&mut l, &t, "Reply", "body text\nmore");
    assert!(colours(l.ops()).iter().all(|c| roles.contains(c)));
    let mut l = DisplayList::new();
    Ui::response_scrolled(&mut l, &t, "Reply", &lines(30), 4);
    let roles = [t.bg, t.surface, t.on_surface, t.text, t.divider, t.accent, t.dim];
    assert!(colours(l.ops()).iter().all(|c| roles.contains(c)));
}
