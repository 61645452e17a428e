use neuterm::color::{Color, NamedColor};
use neuterm::grid::{Cell, CellAttr};
use neuterm::render::{cell_colors, tab_strip, tab_strip_fits};
use neuterm::theme::TabChrome;
use neuterm::triggers::{AppliedStyle, LineDecoration, Rgba};
use neuterm::render::{
    cols_rows_for_size, content_layout_for, fill, fill_rect, is_safe_mono_font_name, is_safe_mono_font_path, font_candidates, builtin_font_files, focus_edges,
    pack_xrgb, pane_area, parse_ansi_palette, parse_rgb, stroke_rect, stroke_rect_sides, ContentLayout, HitRect,
    HitRegions, HitTarget, Selection,
};
use neuterm::schema::{ColorsConfig, Padding};

fn sel(sc: u16, sr: u16, ec: u16, er: u16) -> Selection {
    Selection { start_col: sc, start_row: sr, end_col: ec, end_row: er }
}

#[test]
fn selection_normalizes_by_reading_order() {
    assert_eq!(sel(5, 2, 1, 0).normalized(), (0, 1, 2, 5));
    assert_eq!(sel(1, 0, 5, 2).normalized(), (0, 1, 2, 5));
    assert_eq!(sel(7, 1, 2, 1).normalized(), (1, 2, 1, 7));
}

#[test]
fn selection_contains_cells_between_ends() {
    let s = sel(5, 2, 3, 0);
    assert!(!s.contains(2, 0));
    assert!(s.contains(3, 0));
    assert!(s.contains(0, 1));
    assert!(s.contains(79, 1));
    assert!(s.contains(5, 2));
    assert!(!s.contains(6, 2));
    assert!(!s.contains(0, 3));
    let one_row = sel(4, 1, 2, 1);
    assert!(one_row.contains(3, 1));
    assert!(!one_row.contains(5, 1));
    for r in 0..4u16 {
        for c in 0..8u16 {
            assert_eq!(s.contains(c, r), sel(3, 0, 5, 2).contains(c, r));
        }
    }
}

#[test]
fn topmost_region_wins() {
    let mut h = HitRegions::new();
    h.push(HitRect { x: 0, y: 0, w: 100, h: 20, target: HitTarget::Tab(0) });
    h.push(HitRect { x: 90, y: 0, w: 20, h: 20, target: HitTarget::NewTab });
    assert_eq!(h.hit_test(10, 5), Some(HitTarget::Tab(0)));
    assert_eq!(h.hit_test(95, 5), Some(HitTarget::NewTab));
    assert_eq!(h.hit_test(95, 20), None);
    h.clear();
    assert_eq!(h.hit_test(10, 5), None);
}

#[test]
fn pixels_map_to_cells_inside_the_grid() {
    let l = ContentLayout { x: 10, y: 30, w: 80, h: 40, cell_w: 8, cell_h: 16 };
    assert_eq!(l.cell_at(10, 30), Some((0, 0)));
    assert_eq!(l.cell_at(89, 69), Some((9, 2)));
    assert_eq!(l.cell_at(90, 40), None);
    assert_eq!(l.cell_at(9, 40), None);
    assert_eq!(l.cell_at(-3, -3), None);
    let empty = ContentLayout { x: 0, y: 0, w: 10, h: 10, cell_w: 0, cell_h: 16 };
    assert_eq!(empty.cell_at(1, 1), None);
}

#[test]
fn layout_of_panes_and_grid() {
    let pad = Padding { left: 4, right: 4, top: 2, bottom: 2 };
    let inset = Padding { left: 1, right: 1, top: 0, bottom: 1 };
    assert_eq!(pane_area(200, 100, 24, &inset), (1, 24, 198, 75));
    let l = content_layout_for(200, 100, 24, 8, 16, &pad, &inset);
    assert_eq!((l.x, l.y, l.w, l.h, l.cell_w, l.cell_h), (5, 26, 190, 71, 8, 16));
    assert_eq!(cols_rows_for_size(200, 100, 24, 8, 16, &pad, &inset), (23, 4));
    assert_eq!(cols_rows_for_size(5, 5, 24, 0, 0, &pad, &inset), (1, 1));
}

#[test]
fn theme_colors() {
    assert_eq!(parse_rgb("#102030"), Some([0x10, 0x20, 0x30]));
    assert_eq!(parse_rgb("#10203040"), Some([0x10, 0x20, 0x30]));
    assert_eq!(parse_rgb("red"), None);
    let mut c = ColorsConfig::default();
    c.ansi = vec!["#010203".to_string(), "bogus".to_string()];
    c.brights = vec!["#0a0b0c".to_string()];
    let p = parse_ansi_palette(&c);
    assert_eq!(p[0], [1, 2, 3]);
    assert_eq!(p[1], [0, 0, 0]);
    assert_eq!(p[2], [0, 0, 0]);
    assert_eq!(p[8], [10, 11, 12]);
    assert_eq!(p[15], [0, 0, 0]);
}

fn pixel(buf: &[u8], width: u32, x: u32, y: u32) -> [u8; 4] {
    let i = ((y * width + x) * 4) as usize;
    [buf[i], buf[i + 1], buf[i + 2], buf[i + 3]]
}

#[test]
fn fill_rect_paints_only_the_clipped_rectangle() {
    let (w, h) = (4u32, 3u32);
    let mut buf = vec![7u8; (w * h * 4) as usize];
    fill_rect(&mut buf, w, h, 2, 1, 10, 1, [1, 2, 3]);
    assert_eq!(pixel(&buf, w, 2, 1), [1, 2, 3, 255]);
    assert_eq!(pixel(&buf, w, 3, 1), [1, 2, 3, 255]);
    assert_eq!(pixel(&buf, w, 1, 1), [7, 7, 7, 7]);
    assert_eq!(pixel(&buf, w, 2, 0), [7, 7, 7, 7]);
    assert_eq!(pixel(&buf, w, 2, 2), [7, 7, 7, 7]);
    let before = buf.clone();
    fill_rect(&mut buf, w, h, 2, 1, 10, 1, [1, 2, 3]);
    assert_eq!(buf, before);
}

#[test]
fn fill_ignores_pixels_past_the_buffer() {
    let mut buf = vec![0u8; 10];
    fill(&mut buf, 2, 2, [9, 9, 9]);
    assert_eq!(buf, vec![9, 9, 9, 255, 9, 9, 9, 255, 0, 0]);
}

#[test]
fn stroke_outlines_inside_the_rectangle() {
    let (w, h) = (5u32, 5u32);
    let mut buf = vec![0u8; (w * h * 4) as usize];
    stroke_rect(&mut buf, w, h, 0, 0, 5, 5, [255, 0, 0], 1);
    assert_eq!(pixel(&buf, w, 0, 0), [255, 0, 0, 255]);
    assert_eq!(pixel(&buf, w, 4, 4), [255, 0, 0, 255]);
    assert_eq!(pixel(&buf, w, 4, 2), [255, 0, 0, 255]);
    assert_eq!(pixel(&buf, w, 2, 2), [0, 0, 0, 0]);
    let mut buf2 = vec![0u8; (w * h * 4) as usize];
    stroke_rect_sides(&mut buf2, w, h, 0, 0, 5, 5, [0, 255, 0], 2, false, true, false, false);
    assert_eq!(pixel(&buf2, w, 2, 3), [0, 255, 0, 255]);
    assert_eq!(pixel(&buf2, w, 2, 2), [0, 0, 0, 0]);
}

#[test]
fn rgba_packs_to_xrgb() {
    let rgba = [0x11, 0x22, 0x33, 0xff, 0x44, 0x55, 0x66, 0x00, 0x77];
    let mut out = [0xdeadbeefu32; 3];
    pack_xrgb(&rgba, &mut out);
    assert_eq!(out, [0x112233, 0x445566, 0xdeadbeef]);
}

#[test]
fn monospace_font_files() {
    assert!(is_safe_mono_font_path("/usr/share/fonts/TTF/JetBrainsMono-Regular.ttf"));
    assert!(is_safe_mono_font_path("/usr/share/fonts/dejavu/DejaVuSansMono.TTF"));
    assert!(!is_safe_mono_font_path("/usr/share/fonts/noto/NotoSans[wght].ttf"));
    assert!(!is_safe_mono_font_path("/usr/share/fonts/noto/NotoSans-Regular.ttf"));
    assert!(is_safe_mono_font_path("/usr/share/fonts/liberation-mono-fonts/Liberation-Regular.otf"));
    assert!(!is_safe_mono_font_path("/usr/share/fonts/Hack-Regular.woff2"));
    assert!(!is_safe_mono_font_path("/"));
    assert!(is_safe_mono_font_name("Menlo.ttc", "", Some("ttf")));
    assert!(!is_safe_mono_font_name("Menlo-VariableFont.ttf", "/x", Some("ttf")));
    assert!(!is_safe_mono_font_name("Hack", "", None));
}

#[test]
fn tab_strip_lays_out_chips_then_plus() {
    let chrome = TabChrome::graphite();
    let tab_h = chrome.tab_height(16);
    assert_eq!(tab_h, 28);
    let lens = [5u32, 1, 40];
    assert!(tab_strip_fits(&lens, 8, tab_h, &chrome, 400));
    let r = tab_strip(&lens, 8, tab_h, &chrome, 400);
    assert_eq!(r.len(), 4);
    assert_eq!((r[0].x, r[0].y, r[0].w, r[0].h), (6, 6, 52, 28));
    assert_eq!(r[0].target, HitTarget::Tab(0));
    assert_eq!((r[1].x, r[1].w), (64, 28));
    assert_eq!((r[2].x, r[2].w), (98, 262));
    assert_eq!(r[3].target, HitTarget::NewTab);
    assert_eq!((r[3].x, r[3].w, r[3].h), (366, 28, 28));
    for i in 0..3 {
        assert_eq!(r[i + 1].x, r[i].x + r[i].w + chrome.gap);
    }
    assert!(!tab_strip_fits(&[u32::MAX], 2, tab_h, &chrome, 400));
}

#[test]
fn cell_colors_apply_inverse_decorations_and_selection() {
    let mut ansi = [[0u8; 3]; 16];
    ansi[1] = [200, 0, 0];
    let fg = [1, 1, 1];
    let bg = [2, 2, 2];
    let cell = Cell {
        ch: 'x',
        fg: Color::Named(NamedColor::Red),
        bg: Color::Named(NamedColor::Background),
        attr: CellAttr { bold: false, underline: false, inverse: true },
    };
    assert_eq!(cell_colors(&cell, &ansi, fg, bg, &[], 0, false, [9, 9, 9], [8, 8, 8]), (bg, [200, 0, 0]));
    let red = Rgba { r: 255, g: 0, b: 0, a: 255 };
    let white = Rgba { r: 255, g: 255, b: 255, a: 255 };
    let decs = [
        LineDecoration { start: 0, end: 4, style: AppliedStyle { foreground: Some(white), background: None, bold: false, underline: false } },
        LineDecoration { start: 2, end: 3, style: AppliedStyle { foreground: None, background: Some(red), bold: false, underline: false } },
    ];
    assert_eq!(cell_colors(&cell, &ansi, fg, bg, &decs, 1, false, [9, 9, 9], [8, 8, 8]), ([255, 255, 255], [200, 0, 0]));
    assert_eq!(cell_colors(&cell, &ansi, fg, bg, &decs, 2, false, [9, 9, 9], [8, 8, 8]), ([255, 255, 255], [255, 0, 0]));
    assert_eq!(cell_colors(&cell, &ansi, fg, bg, &decs, 5, false, [9, 9, 9], [8, 8, 8]), (bg, [200, 0, 0]));
    assert_eq!(cell_colors(&cell, &ansi, fg, bg, &decs, 2, true, [9, 9, 9], [8, 8, 8]), ([9, 9, 9], [8, 8, 8]));
}

fn strings(v: &[&str]) -> Vec<String> {
    v.iter().map(|s| s.to_string()).collect()
}

#[test]
fn font_candidates_bubble_the_preferred_family() {
    let builtins = strings(&[
        "/usr/share/fonts/liberation-mono-fonts/LiberationMono-Regular.ttf",
        "/usr/share/fonts/TTF/JetBrainsMono-Regular.ttf",
        "/usr/share/fonts/dejavu/DejaVuSansMono.ttf",
    ]);
    let out = font_candidates("JetBrains Mono", &builtins, None, None);
    assert_eq!(
        out,
        strings(&[
            "/usr/share/fonts/TTF/JetBrainsMono-Regular.ttf",
            "/usr/share/fonts/liberation-mono-fonts/LiberationMono-Regular.ttf",
            "/usr/share/fonts/dejavu/DejaVuSansMono.ttf",
        ])
    );
    // No family, no reordering.
    assert_eq!(font_candidates("", &builtins, None, None), builtins);
    // Of several matches, the last one ends up first.
    let builtins = strings(&[
        "/usr/share/fonts/dejavu/DejaVuSansMono.ttf",
        "/usr/share/fonts/liberation-mono-fonts/LiberationMono-Regular.ttf",
        "/usr/share/fonts/truetype/dejavu/DejaVu-SansMono.ttf",
    ]);
    assert_eq!(
        font_candidates("dejavu sans", &builtins, None, None),
        strings(&[
            "/usr/share/fonts/truetype/dejavu/DejaVu-SansMono.ttf",
            "/usr/share/fonts/dejavu/DejaVuSansMono.ttf",
            "/usr/share/fonts/liberation-mono-fonts/LiberationMono-Regular.ttf",
        ])
    );
}

#[test]
fn font_candidates_take_only_safe_fontconfig_matches() {
    let builtins = strings(&["/usr/share/fonts/liberation-mono-fonts/LiberationMono-Regular.ttf"]);
    let out = font_candidates(
        "Noto Sans",
        &builtins,
        Some("/usr/share/fonts/noto/NotoSans-Regular.ttf".to_string()),
        Some("/usr/share/fonts/TTF/Hack-Regular.ttf".to_string()),
    );
    assert_eq!(
        out,
        strings(&[
            "/usr/share/fonts/liberation-mono-fonts/LiberationMono-Regular.ttf",
            "/usr/share/fonts/TTF/Hack-Regular.ttf",
        ])
    );
    let out = font_candidates(
        "Iosevka",
        &builtins,
        Some("/home/u/.fonts/Iosevka-Regular.ttf".to_string()),
        Some("/usr/share/fonts/noto/NotoSans[wght].ttf".to_string()),
    );
    assert_eq!(
        out,
        strings(&[
            "/home/u/.fonts/Iosevka-Regular.ttf",
            "/usr/share/fonts/liberation-mono-fonts/LiberationMono-Regular.ttf",
        ])
    );
    assert_eq!(builtin_font_files().len(), 8);
    assert_eq!(builtin_font_files()[0], "/usr/share/fonts/adwaita-mono-fonts/AdwaitaMono-Regular.ttf");
}

#[test]
fn focus_outline_only_on_inner_edges() {
    let area = (4, 30, 800, 560);
    // The whole pane area: no side is inside it.
    assert_eq!(focus_edges(4, 30, 800, 560, area, 0, 1, 30), (false, false, false, false));
    // The right half of a side-by-side split: only its left side is inner.
    assert_eq!(focus_edges(405, 30, 399, 560, area, 0, 1, 30), (false, false, true, false));
    // The lower pane of a stacked split: its top is inner.
    assert_eq!(focus_edges(4, 311, 800, 279, area, 0, 1, 30), (true, false, false, false));
    // The upper pane with an inset above the panes: the top is on the edge all the same.
    assert_eq!(focus_edges(4, 34, 800, 270, (4, 34, 800, 556), 4, 1, 30), (false, true, false, false));
    // No overflow at the far end of the coordinate range.
    assert_eq!(focus_edges(u32::MAX, u32::MAX, u32::MAX, u32::MAX, (0, 0, u32::MAX, u32::MAX), 0, 0, 0), (true, false, true, false));
}
