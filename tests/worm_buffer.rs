use bench_ui::{changed_cells, Buffer, Cell, Color, Position, Rect, WormBuffer};
use ratatui::style::{Color as TuiColor, Modifier, Style};
use ratatui::widgets::{Block, Borders, Paragraph, Widget};

fn lib_color(c: TuiColor) -> Color {
    match c {
        TuiColor::Reset => Color::Reset,
        TuiColor::Black => Color::Black,
        TuiColor::Red => Color::Red,
        TuiColor::Green => Color::Green,
        TuiColor::Yellow => Color::Yellow,
        TuiColor::Blue => Color::Blue,
        TuiColor::Magenta => Color::Magenta,
        TuiColor::Cyan => Color::Cyan,
        TuiColor::Gray => Color::Gray,
        TuiColor::DarkGray => Color::DarkGray,
        TuiColor::LightRed => Color::LightRed,
        TuiColor::LightGreen => Color::LightGreen,
        TuiColor::LightYellow => Color::LightYellow,
        TuiColor::LightBlue => Color::LightBlue,
        TuiColor::LightMagenta => Color::LightMagenta,
        TuiColor::LightCyan => Color::LightCyan,
        TuiColor::White => Color::White,
        TuiColor::Rgb(r, g, b) => Color::Rgb(r, g, b),
        TuiColor::Indexed(i) => Color::Indexed(i),
    }
}

fn tui_color(c: Color) -> TuiColor {
    match c {
        Color::Reset => TuiColor::Reset,
        Color::Black => TuiColor::Black,
        Color::Red => TuiColor::Red,
        Color::Green => TuiColor::Green,
        Color::Yellow => TuiColor::Yellow,
        Color::Blue => TuiColor::Blue,
        Color::Magenta => TuiColor::Magenta,
        Color::Cyan => TuiColor::Cyan,
        Color::Gray => TuiColor::Gray,
        Color::DarkGray => TuiColor::DarkGray,
        Color::LightRed => TuiColor::LightRed,
        Color::LightGreen => TuiColor::LightGreen,
        Color::LightYellow => TuiColor::LightYellow,
        Color::LightBlue => TuiColor::LightBlue,
        Color::LightMagenta => TuiColor::LightMagenta,
        Color::LightCyan => TuiColor::LightCyan,
        Color::White => TuiColor::White,
        Color::Rgb(r, g, b) => TuiColor::Rgb(r, g, b),
        Color::Indexed(i) => TuiColor::Indexed(i),
    }
}

fn lib_rect(r: ratatui::layout::Rect) -> Rect {
    Rect { x: r.x, y: r.y, width: r.width, height: r.height }
}

fn tui_rect(r: Rect) -> ratatui::layout::Rect {
    ratatui::layout::Rect { x: r.x, y: r.y, width: r.width, height: r.height }
}

fn lib_buffer(b: &ratatui::buffer::Buffer) -> Buffer {
    let content = b
        .content
        .iter()
        .map(|c| Cell {
            symbol: c.symbol().to_string(),
            fg: lib_color(c.fg),
            bg: lib_color(c.bg),
            underline_color: lib_color(c.underline_color),
            modifier: c.modifier.bits(),
            skip: c.skip,
        })
        .collect();
    Buffer { area: lib_rect(b.area), content }
}

fn tui_buffer(b: &Buffer) -> ratatui::buffer::Buffer {
    let mut out = ratatui::buffer::Buffer::empty(tui_rect(b.area));
    for (dst, src) in out.content.iter_mut().zip(b.content.iter()) {
        dst.set_symbol(&src.symbol);
        dst.fg = tui_color(src.fg);
        dst.bg = tui_color(src.bg);
        dst.underline_color = tui_color(src.underline_color);
        dst.modifier = Modifier::from_bits_truncate(src.modifier);
        dst.skip = src.skip;
    }
    out
}

fn hello_paragraph() -> Paragraph<'static> {
    Paragraph::new("Hello")
        .style(Style::default().fg(TuiColor::Red))
        .block(Block::default().borders(Borders::ALL))
}

fn assert_buffer_eq(expected: &Buffer, actual: &Buffer, area: Rect) {
    for pos in area.positions() {
        let expected_cell = expected.get(pos);
        let actual_cell = actual.get(pos);
        assert_eq!(
            expected_cell, actual_cell,
            "Cell mismatch at {:?}: expected {:?}, got {:?}",
            pos, expected_cell, actual_cell
        );
    }
}

#[test]
fn test_worm_buffer_equivalent_to_direct_render() {
    let area = Rect::new(0, 0, 10, 5);

    // Direct rendering without WormBuffer
    let mut direct_tui = ratatui::buffer::Buffer::empty(tui_rect(area));
    hello_paragraph().render(tui_rect(area), &mut direct_tui);
    let direct_buf = lib_buffer(&direct_tui);

    // Rendering with WormBuffer
    let mut worm_buf = WormBuffer::new();
    let mut cached_buf = Buffer::empty(area);

    // First render - populate the WormBuffer
    worm_buf.cached_render(area, &mut cached_buf, |buf| {
        let mut tui = tui_buffer(buf);
        hello_paragraph().render(tui_rect(area), &mut tui);
        *buf = lib_buffer(&tui);
    });

    // The replayed buffer should match the direct render
    assert_buffer_eq(&direct_buf, &cached_buf, area);

    // A replay into a fresh buffer gives the same picture
    let mut replayed = Buffer::empty(area);
    worm_buf.cached_render(area, &mut replayed, |_| panic!("render must not run again"));
    assert_buffer_eq(&direct_buf, &replayed, area);
}

fn put_x(buf: &mut Buffer) {
    buf.set(Position::new(3, 2), Cell::new("X"));
}

#[test]
fn single_changed_cell_is_recorded_and_replayed() {
    let area = Rect::new(0, 0, 10, 5);
    let mut buf = Buffer::empty(area);
    let mut worm = WormBuffer::new();
    worm.cached_render(area, &mut buf, put_x);
    assert_eq!(worm.len(), 1);
    assert_eq!(buf.get(Position::new(3, 2)).unwrap().symbol, "X");

    let mut fresh = Buffer::empty(area);
    worm.cached_render(area, &mut fresh, |b| {
        b.set(Position::new(0, 0), Cell::new("Y"));
        b.set(Position::new(3, 2), Cell::new("Z"));
    });
    assert_eq!(worm.len(), 1);
    assert_eq!(fresh.get(Position::new(3, 2)).unwrap().symbol, "X");
    assert_eq!(fresh.get(Position::new(0, 0)).unwrap().symbol, " ");
}

#[test]
fn repeated_passes_render_once_and_keep_the_picture() {
    let area = Rect::new(0, 0, 6, 3);
    let mut buf = Buffer::empty(area);
    let mut worm = WormBuffer::new();
    let mut calls = 0;
    worm.cached_render(area, &mut buf, |b| {
        calls += 1;
        b.set(Position::new(1, 1), Cell::new("a"));
        b.set(Position::new(5, 2), Cell::new("b"));
    });
    let first = buf.clone();
    for _ in 0..4 {
        worm.cached_render(area, &mut buf, |b| {
            calls += 1;
            b.set(Position::new(0, 0), Cell::new("q"));
        });
        assert_eq!(buf.content, first.content);
    }
    assert_eq!(calls, 1);
    assert_eq!(worm.len(), 2);
}

#[test]
fn recording_holds_only_changed_cells() {
    let area = Rect::new(0, 0, 4, 4);
    for k in [0usize, 1, 5, 16] {
        let mut buf = Buffer::empty(area);
        let mut worm = WormBuffer::new();
        worm.cached_render(area, &mut buf, |b| {
            for (n, p) in area.positions().into_iter().enumerate() {
                if n < k {
                    b.set(p, Cell::new("#"));
                }
            }
        });
        assert_eq!(worm.len(), k);
    }
}

#[test]
fn restyled_cell_counts_as_changed() {
    let area = Rect::new(0, 0, 3, 1);
    let mut buf = Buffer::empty(area);
    let mut worm = WormBuffer::new();
    worm.cached_render(area, &mut buf, |b| {
        let mut c = Cell::new(" ");
        c.fg = Color::Rgb(1, 2, 3);
        b.set(Position::new(1, 0), c);
        // rewriting a cell with what it held is no change
        b.set(Position::new(2, 0), Cell::new(" "));
    });
    assert_eq!(worm.len(), 1);
}

#[test]
fn reset_captures_again() {
    let area = Rect::new(0, 0, 5, 2);
    let mut buf = Buffer::empty(area);
    let mut worm = WormBuffer::new();
    let mut calls = 0;
    worm.cached_render(area, &mut buf, |b| {
        calls += 1;
        b.set(Position::new(0, 0), Cell::new("1"));
    });
    worm.reset();
    assert!(worm.is_empty());
    worm.cached_render(area, &mut buf, |b| {
        calls += 1;
        b.set(Position::new(0, 0), Cell::new("2"));
        b.set(Position::new(4, 1), Cell::new("3"));
    });
    assert_eq!(calls, 2);
    assert_eq!(worm.len(), 2);
    let mut fresh = Buffer::empty(area);
    worm.cached_render(area, &mut fresh, |_| {});
    assert_eq!(fresh.get(Position::new(0, 0)).unwrap().symbol, "2");
    assert_eq!(fresh.get(Position::new(4, 1)).unwrap().symbol, "3");
}

#[test]
fn reset_on_empty_recording_is_a_no_op() {
    let mut worm = WormBuffer::default();
    worm.reset();
    assert!(worm.is_empty());
    assert_eq!(worm.len(), 0);
}

#[test]
fn nothing_changed_means_render_runs_every_pass() {
    let area = Rect::new(0, 0, 3, 3);
    let mut buf = Buffer::empty(area);
    let mut worm = WormBuffer::new();
    let mut calls = 0;
    for _ in 0..3 {
        worm.cached_render(area, &mut buf, |_| calls += 1);
    }
    assert_eq!(calls, 3);
    assert!(worm.is_empty());
}

#[test]
fn zero_area_captures_nothing() {
    let mut buf = Buffer::empty(Rect::new(0, 0, 4, 4));
    let mut worm = WormBuffer::new();
    let mut calls = 0;
    for _ in 0..2 {
        worm.cached_render(Rect::new(1, 1, 0, 3), &mut buf, |b| {
            calls += 1;
            b.set(Position::new(1, 1), Cell::new("x"));
        });
    }
    assert_eq!(calls, 2);
    assert!(worm.is_empty());
}

#[test]
fn area_is_clipped_to_the_buffer() {
    let mut buf = Buffer::empty(Rect::new(0, 0, 4, 3));
    let mut worm = WormBuffer::new();
    worm.cached_render(Rect::new(2, 1, 10, 10), &mut buf, |b| {
        b.set(Position::new(0, 0), Cell::new("o"));
        b.set(Position::new(3, 2), Cell::new("i"));
    });
    // (0, 0) lies outside the requested area, so it is not recorded
    assert_eq!(worm.len(), 1);
    let mut fresh = Buffer::empty(Rect::new(0, 0, 4, 3));
    worm.cached_render(Rect::new(2, 1, 10, 10), &mut fresh, |_| {});
    assert_eq!(fresh.get(Position::new(3, 2)).unwrap().symbol, "i");
    assert_eq!(fresh.get(Position::new(0, 0)).unwrap().symbol, " ");
}

fn recorded(area: Rect, cells: &[(u16, u16, &str)]) -> WormBuffer {
    let mut buf = Buffer::empty(area);
    let mut worm = WormBuffer::new();
    worm.cached_render(area, &mut buf, |b| {
        for (x, y, s) in cells {
            b.set(Position::new(*x, *y), Cell::new(s));
        }
    });
    worm
}

fn replayed(worm: &mut WormBuffer, area: Rect) -> Buffer {
    let mut buf = Buffer::empty(area);
    worm.cached_render(area, &mut buf, |_| {});
    buf
}

#[test]
fn combine_appends_in_order() {
    let area = Rect::new(0, 0, 4, 2);
    let a = recorded(area, &[(0, 0, "a"), (1, 0, "b")]);
    let b = recorded(area, &[(3, 1, "c")]);
    let ab = a.combine(&b);
    assert_eq!(ab.len(), 3);
    assert_eq!(b.len(), 1);
}

#[test]
fn combine_of_disjoint_recordings_commutes() {
    let area = Rect::new(0, 0, 4, 2);
    let mut ab = recorded(area, &[(0, 0, "a")]).combine(&recorded(area, &[(2, 1, "b")]));
    let mut ba = recorded(area, &[(2, 1, "b")]).combine(&recorded(area, &[(0, 0, "a")]));
    let x = replayed(&mut ab, area);
    let y = replayed(&mut ba, area);
    assert_eq!(x.content, y.content);
    assert_eq!(x.get(Position::new(0, 0)).unwrap().symbol, "a");
    assert_eq!(x.get(Position::new(2, 1)).unwrap().symbol, "b");
}

#[test]
fn combine_of_overlapping_recordings_last_wins() {
    let area = Rect::new(0, 0, 4, 2);
    let mut ab = recorded(area, &[(1, 1, "a")]).combine(&recorded(area, &[(1, 1, "b")]));
    let mut ba = recorded(area, &[(1, 1, "b")]).combine(&recorded(area, &[(1, 1, "a")]));
    assert_eq!(ab.len(), 2);
    assert_eq!(replayed(&mut ab, area).get(Position::new(1, 1)).unwrap().symbol, "b");
    assert_eq!(replayed(&mut ba, area).get(Position::new(1, 1)).unwrap().symbol, "a");
}

#[test]
fn from_buffer_keeps_non_blank_cells() {
    let area = Rect::new(0, 0, 3, 2);
    let mut buf = Buffer::empty(area);
    buf.set(Position::new(2, 0), Cell::new("k"));
    let mut styled = Cell::new(" ");
    styled.bg = Color::Blue;
    buf.set(Position::new(0, 1), styled);
    let mut worm = WormBuffer::from_buffer(&buf);
    assert_eq!(worm.len(), 2);
    let out = replayed(&mut worm, area);
    assert_eq!(out.content, buf.content);
}

#[test]
fn rect_intersection_and_scan_order() {
    let a = Rect::new(0, 0, 4, 3);
    let b = Rect::new(2, 1, 10, 10);
    assert_eq!(a.intersection(b), Rect { x: 2, y: 1, width: 2, height: 2 });
    let ps: Vec<(u16, u16)> = a.intersection(b).positions().iter().map(|p| (p.x, p.y)).collect();
    assert_eq!(ps, vec![(2, 1), (3, 1), (2, 2), (3, 2)]);
    let apart = Rect::new(10, 10, 2, 2).intersection(a);
    assert!(apart.is_empty());
    assert!(apart.positions().is_empty());
}

#[test]
fn rect_new_clamps_to_u16() {
    let r = Rect::new(65530, 10, 100, 3);
    assert_eq!(r.width, 5);
    assert_eq!(r.right(), 65535);
    assert_eq!(r.bottom(), 13);
    assert!(r.contains(Position::new(65534, 12)));
    assert!(!r.contains(Position::new(65534, 13)));
}

#[test]
fn buffer_ignores_positions_outside() {
    let mut buf = Buffer::empty(Rect::new(2, 2, 2, 2));
    assert_eq!(buf.content.len(), 4);
    assert!(buf.get(Position::new(0, 0)).is_none());
    buf.set(Position::new(9, 9), Cell::new("z"));
    assert!(buf.content.iter().all(|c| c.symbol == " "));
    buf.set(Position::new(3, 3), Cell::new("z"));
    assert_eq!(buf.content[3].symbol, "z");
}

#[test]
fn changed_cells_follows_the_digests() {
    let mut buf = Buffer::empty(Rect::new(0, 0, 3, 1));
    buf.set(Position::new(1, 0), Cell::new("m"));
    let positions = vec![Position::new(0, 0), Position::new(1, 0), Position::new(2, 0), Position::new(7, 7)];
    let before = vec![1, 2, 3, 4];
    let after = vec![1, 9, 3, 5];
    let rec = changed_cells(&positions, &before, &after, &buf);
    assert_eq!(rec.len(), 1);
    assert_eq!(rec[0].0, Position::new(1, 0));
    assert_eq!(rec[0].1.symbol, "m");

    let all = changed_cells(&positions, &before, &vec![0, 0, 0, 0], &buf);
    let xs: Vec<u16> = all.iter().map(|(p, _)| p.x).collect();
    assert_eq!(xs, vec![0, 1, 2]);
    assert!(changed_cells(&positions, &before, &before, &buf).is_empty());
}

#[test]
fn clone_and_from_keep_the_recording() {
    let area = Rect::new(0, 0, 3, 2);
    let worm = recorded(area, &[(0, 0, "a"), (2, 1, "b")]);
    let mut copy = worm.clone();
    assert_eq!(copy.len(), 2);
    assert_eq!(replayed(&mut copy, area).get(Position::new(2, 1)).unwrap().symbol, "b");

    let mut buf = Buffer::empty(area);
    buf.set(Position::new(1, 0), Cell::new("z"));
    let from: WormBuffer = (&buf).into();
    assert_eq!(from.len(), 1);
    let also = WormBuffer::from(&buf);
    assert_eq!(also.len(), 1);
}
