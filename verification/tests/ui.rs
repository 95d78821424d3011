use frr_bootc::frr::FrrStatus;
use frr_bootc::net::Interface;
use frr_bootc::panels::{
    bgp_visible_rows, frr_detail_in, frr_panel, gauge_color, header, image_panel,
    interfaces_detail, interfaces_table, interfaces_visible, render_gauge, stats_in, sync_table,
};
use frr_bootc::scene::{
    Cell, Color, Constraint, Drawn, Line, Panel, Rect, Row, Span, Style, Widget, ACCENT, BAD, MUTED,
    OK, WARN,
};
use frr_bootc::snapshot::{Snapshot, SyncUnit};
use frr_bootc::state::{AppState, Tab};
use frr_bootc::system::{DiskInfo, MemInfo};
use frr_bootc::systemd::SyncHealth;
use frr_bootc::ui::{render, render_in};

use ratatui::backend::TestBackend;
use ratatui::buffer::Buffer;
use ratatui::widgets;
use ratatui::{layout, style, text, Frame, Terminal};

// What is drawn, put on a terminal.

fn color(c: Color) -> style::Color {
    match c {
        Color::Black => style::Color::Black,
        Color::Red => style::Color::Red,
        Color::Green => style::Color::Green,
        Color::Yellow => style::Color::Yellow,
        Color::Cyan => style::Color::Cyan,
        Color::DarkGray => style::Color::DarkGray,
    }
}

fn style_of(s: Style) -> style::Style {
    let mut r = style::Style::default();
    if let Some(c) = s.fg {
        r = r.fg(color(c));
    }
    if let Some(c) = s.bg {
        r = r.bg(color(c));
    }
    if s.bold {
        r = r.add_modifier(style::Modifier::BOLD);
    }
    r
}

fn span_of(s: &Span) -> text::Span<'_> {
    text::Span::styled(s.text.as_str(), style_of(s.style))
}

fn line_of(l: &Line) -> text::Line<'_> {
    match l {
        Line::Spans(v) => text::Line::from(v.iter().map(span_of).collect::<Vec<_>>()),
        Line::Text(s, st) => text::Line::styled(s.as_str(), style_of(*st)),
    }
}

fn block_of(p: &Panel) -> widgets::Block<'_> {
    let block = widgets::Block::default()
        .borders(widgets::Borders::ALL)
        .border_type(widgets::BorderType::Rounded)
        .border_style(style_of(p.border));
    match &p.title {
        Some(t) => block.title(span_of(t)),
        None => block,
    }
}

fn row_of(r: &Row) -> widgets::Row<'_> {
    widgets::Row::new(r.cells.iter().map(|c| match c {
        Cell::Empty => widgets::Cell::default(),
        Cell::Text(s) => widgets::Cell::from(s.as_str()),
        Cell::Styled(s) => widgets::Cell::from(span_of(s)),
    }))
}

fn width_of(c: &Constraint) -> layout::Constraint {
    match c {
        Constraint::Length(n) => layout::Constraint::Length(*n),
        Constraint::Min(n) => layout::Constraint::Min(*n),
        Constraint::Percentage(n) => layout::Constraint::Percentage(*n),
        Constraint::Fill(n) => layout::Constraint::Fill(*n),
    }
}

fn paint(frame: &mut Frame, d: &Drawn) {
    let area = layout::Rect::new(d.area.x, d.area.y, d.area.width, d.area.height);
    match &d.widget {
        Widget::Paragraph { panel, lines } => {
            let mut p = widgets::Paragraph::new(lines.iter().map(line_of).collect::<Vec<_>>());
            if let Some(b) = panel {
                p = p.block(block_of(b));
            }
            frame.render_widget(p, area);
        }
        Widget::Table { panel, header, header_style, widths, rows, offset } => {
            let head = widgets::Row::new(header.iter().map(|h| h.as_str())).style(style_of(*header_style));
            let mut t = widgets::Table::new(rows.iter().map(row_of), widths.iter().map(width_of)).header(head);
            if let Some(b) = panel {
                t = t.block(block_of(b));
            }
            let mut state = widgets::TableState::default().with_offset(*offset);
            frame.render_stateful_widget(t, area, &mut state);
        }
        Widget::Gauge { panel, style, percent, label } => {
            let mut g = widgets::Gauge::default()
                .gauge_style(style_of(*style))
                .ratio(f64::from(*percent) / 100.0)
                .label(label.as_str());
            if let Some(b) = panel {
                g = g.block(block_of(b));
            }
            frame.render_widget(g, area);
        }
        Widget::Tabs { titles, selected, style, highlight, divider } => {
            let t = widgets::Tabs::new(titles.iter().map(|t| t.as_str()))
                .select(*selected)
                .style(style_of(*style))
                .highlight_style(style_of(*highlight))
                .divider(divider.as_str());
            frame.render_widget(t, area);
        }
        Widget::Scrollbar { total, position, viewport } => {
            let mut state = widgets::ScrollbarState::new(*total)
                .position(*position)
                .viewport_content_length(*viewport);
            let bar = widgets::Scrollbar::new(widgets::ScrollbarOrientation::VerticalRight)
                .begin_symbol(None)
                .end_symbol(None);
            frame.render_stateful_widget(bar, area, &mut state);
        }
        Widget::Border(p) => frame.render_widget(block_of(p), area),
    }
}

fn draw(terminal: &mut Terminal<TestBackend>, snap: &Snapshot, state: &mut AppState) {
    terminal
        .draw(|frame| {
            let a = frame.area();
            let area = Rect { x: a.x, y: a.y, width: a.width, height: a.height };
            for d in render(area, snap, state, 5).iter() {
                paint(frame, d);
            }
        })
        .unwrap();
}

fn fake_snapshot(n_interfaces: usize) -> Snapshot {
    Snapshot {
        hostname: "test".to_string(),
        now: "now".to_string(),
        uptime: "0d 0h 0m".to_string(),
        load_average: "0.00 0.00 0.00".to_string(),
        cpu_count: 1,
        memory: None,
        disk: None,
        interfaces: (0..n_interfaces)
            .map(|i| Interface {
                name: format!("eth{i}"),
                up: true,
                addrs: Vec::new(),
                rate: None,
            })
            .collect(),
        frr_service_active: false,
        frr: FrrStatus {
            daemons: String::new(),
            route_summary: None,
            bgp_vrf_peers: Vec::new(),
        },
        sync_units: Vec::new(),
        bootc_status: None,
    }
}

/// Every visible cell's symbol, one after the other.
fn buffer_text(buf: &Buffer) -> String {
    let mut text = String::new();
    for y in 0..buf.area.height {
        for x in 0..buf.area.width {
            text.push_str(buf[(x, y)].symbol());
        }
        text.push('\n');
    }
    text
}

#[test]
fn interfaces_detail_scrolls_and_clamps() {
    let snap = fake_snapshot(30);
    let backend = TestBackend::new(60, 15);
    let mut terminal = Terminal::new(backend).unwrap();
    let mut state = AppState {
        tab: Tab::Interfaces,
        ..Default::default()
    };

    draw(&mut terminal, &snap, &mut state);
    let text = buffer_text(terminal.backend().buffer());
    assert!(text.contains("eth0"), "eth0 should be visible unscrolled");

    state.scroll_by(5);
    draw(&mut terminal, &snap, &mut state);
    let text = buffer_text(terminal.backend().buffer());
    assert!(
        !text.contains("eth0"),
        "eth0 should have scrolled off after scroll_by(5)"
    );
    assert!(
        text.contains("eth5"),
        "eth5 should be the first visible interface after scroll_by(5)"
    );

    state.scroll_to_bottom();
    draw(&mut terminal, &snap, &mut state);
    let text = buffer_text(terminal.backend().buffer());
    assert!(
        text.contains("eth29"),
        "the last interface should be visible once scrolled to the bottom"
    );
    // Seven rows are left for the thirty interfaces.
    assert_eq!(state.interfaces_scroll, 23);
}

#[test]
fn frr_detail_renders_with_no_vrfs_without_panicking() {
    let snap = fake_snapshot(0);
    let backend = TestBackend::new(60, 15);
    let mut terminal = Terminal::new(backend).unwrap();
    let mut state = AppState {
        tab: Tab::Frr,
        ..Default::default()
    };
    draw(&mut terminal, &snap, &mut state);
    let text = buffer_text(terminal.backend().buffer());
    assert!(text.contains("inactive"));
}

#[test]
fn tab_switching_changes_the_rendered_view() {
    let snap = fake_snapshot(3);
    let backend = TestBackend::new(60, 20);
    let mut terminal = Terminal::new(backend).unwrap();
    let mut state = AppState::default();

    draw(&mut terminal, &snap, &mut state);
    assert!(buffer_text(terminal.backend().buffer()).contains("Sync Services"));

    state.next_tab();
    assert_eq!(state.tab, Tab::Interfaces);
    draw(&mut terminal, &snap, &mut state);
    let text = buffer_text(terminal.backend().buffer());
    assert!(text.contains("Network Interfaces (3 total)"));
    assert!(!text.contains("Sync Services"));
}

fn area(height: u16) -> Rect {
    Rect { x: 1, y: 2, width: 60, height }
}

fn with_addresses(flags: &[bool]) -> Snapshot {
    let mut snap = fake_snapshot(flags.len());
    for (i, has_address) in flags.iter().enumerate() {
        if *has_address {
            snap.interfaces[i].addrs.push("192.0.2.1/24".to_string());
        }
    }
    snap
}

#[test]
fn the_screen_is_divided_from_top_to_bottom() {
    let snap = fake_snapshot(1);
    let mut state = AppState { tab: Tab::Interfaces, ..Default::default() };
    let whole = Rect { x: 0, y: 0, width: 60, height: 15 };
    let drawn = render(whole, &snap, &mut state, 5);
    let areas: Vec<Rect> = drawn.iter().map(|d| d.area).collect();
    assert_eq!(
        areas,
        vec![
            Rect { x: 0, y: 0, width: 60, height: 3 },
            Rect { x: 0, y: 3, width: 60, height: 1 },
            Rect { x: 0, y: 4, width: 60, height: 10 },
            Rect { x: 0, y: 14, width: 60, height: 1 },
        ]
    );
}

#[test]
fn the_border_leaves_the_inside_to_the_vrfs() {
    let snap = fake_snapshot(1);
    let mut state = AppState { tab: Tab::Frr, ..Default::default() };
    let whole = Rect { x: 0, y: 0, width: 60, height: 15 };
    let drawn = render(whole, &snap, &mut state, 5);
    let areas: Vec<Rect> = drawn.iter().map(|d| d.area).collect();
    assert_eq!(
        &areas[2..5],
        [
            Rect { x: 0, y: 4, width: 60, height: 10 },
            Rect { x: 1, y: 5, width: 58, height: 3 },
            Rect { x: 1, y: 8, width: 58, height: 5 },
        ]
    );
}

#[test]
fn the_overview_has_its_panels_in_order() {
    let mut snap = fake_snapshot(1);
    snap.bootc_status = Some("a\nb".to_string());
    let mut state = AppState::default();
    let whole = Rect { x: 0, y: 0, width: 100, height: 40 };
    let drawn = render(whole, &snap, &mut state, 5);
    assert_eq!(drawn.len(), 10);
    assert_eq!(drawn[8].area.height, 4);
    assert_eq!(drawn[8].area.y, 35);
    assert_eq!(drawn[7].area.height, 6);
    let gauges: Vec<u16> = drawn[2..5].iter().map(|d| d.area.width).collect();
    assert_eq!(gauges.iter().sum::<u16>(), 100);
    assert_eq!(drawn[5].area.height + drawn[6].area.height, 40 - 3 - 1 - 3 - 6 - 4 - 1);
}

#[test]
fn interfaces_are_shown_as_far_as_there_is_room() {
    let snap = with_addresses(&[true, false, true, false]);
    for (budget, expected) in [
        (0, (0, 0)),
        (1, (0, 4)),
        (2, (0, 4)),
        (3, (1, 3)),
        (4, (2, 2)),
        (5, (2, 2)),
        (6, (4, 0)),
        (100, (4, 0)),
    ] {
        assert_eq!(interfaces_visible(&snap, budget), expected, "{budget}");
    }
    assert_eq!(interfaces_visible(&fake_snapshot(0), 3), (0, 0));
}

#[test]
fn interfaces_visible_agrees_with_trying_every_number() {
    let mut x: u64 = 5;
    for _ in 0..300 {
        x = x.wrapping_mul(6364136223846793005).wrapping_add(1442695040888963407);
        let n = ((x >> 8) % 8) as usize;
        let flags: Vec<bool> = (0..n).map(|i| (x >> (20 + i)) & 1 == 1).collect();
        let budget = ((x >> 40) % 18) as usize;
        let cost = |i: usize| if flags[i] { 2 } else { 1 };
        let expected = if budget == 0 {
            (0, 0)
        } else if (0..n).map(cost).sum::<usize>() <= budget {
            (n, 0)
        } else {
            let shown = (0..n)
                .rev()
                .find(|s| (0..*s).map(cost).sum::<usize>() < budget)
                .unwrap_or(0);
            (shown, n - shown)
        };
        assert_eq!(interfaces_visible(&with_addresses(&flags), budget), expected);
    }
}

fn cell_text(c: &Cell) -> String {
    match c {
        Cell::Empty => String::new(),
        Cell::Text(s) => s.clone(),
        Cell::Styled(s) => s.text.clone(),
    }
}

fn rows_of_table(w: &Widget) -> Vec<Vec<String>> {
    match w {
        Widget::Table { rows, .. } => rows
            .iter()
            .map(|r| r.cells.iter().map(cell_text).collect())
            .collect(),
        _ => panic!("no table"),
    }
}

#[test]
fn the_table_of_interfaces_says_what_it_leaves_out() {
    let mut snap = with_addresses(&[true, false, false]);
    snap.interfaces[0].rate = Some((15, 15_625));
    snap.interfaces[1].up = false;
    let drawn = interfaces_table(area(6), &snap);
    assert_eq!(drawn.area, area(6));
    assert_eq!(
        rows_of_table(&drawn.widget),
        vec![
            vec!["eth0", "UP", "rx 120 bit/s / tx 125.0 Kbit/s"],
            vec!["", "", "192.0.2.1/24"],
            vec!["... +2 more"],
        ]
    );
    let drawn = interfaces_table(area(7), &snap);
    assert_eq!(rows_of_table(&drawn.widget)[2], vec!["eth1", "DOWN", "-"]);
    assert!(rows_of_table(&interfaces_table(area(3), &snap).widget).is_empty());
    assert_eq!(
        rows_of_table(&interfaces_table(area(3), &fake_snapshot(0)).widget),
        vec![vec!["(none)"]]
    );
}

#[test]
fn the_full_listing_has_a_scrollbar_only_if_it_does_not_fit() {
    let snap = with_addresses(&[true, true]);
    let mut scroll = 9;
    let drawn = interfaces_detail(area(7), &snap, &mut scroll);
    assert_eq!(drawn.len(), 1);
    assert_eq!(scroll, 0);
    let mut scroll = 9;
    let drawn = interfaces_detail(area(6), &snap, &mut scroll);
    assert_eq!(scroll, 1);
    assert_eq!(drawn.len(), 2);
    match (&drawn[0].widget, &drawn[1].widget) {
        (
            Widget::Table { panel: Some(p), offset, .. },
            Widget::Scrollbar { total, position, viewport },
        ) => {
            assert_eq!(p.title.as_ref().unwrap().text, " Network Interfaces (2 total) ");
            assert_eq!((*offset, *total, *position, *viewport), (1, 4, 1, 3));
        }
        _ => panic!(),
    }
}

#[test]
fn vrfs_are_shown_as_far_as_there_is_room() {
    assert_eq!(bgp_visible_rows(5, 0), (0, 0));
    assert_eq!(bgp_visible_rows(5, 5), (5, 0));
    assert_eq!(bgp_visible_rows(5, 4), (3, 2));
    assert_eq!(bgp_visible_rows(5, 1), (0, 5));
    assert_eq!(bgp_visible_rows(0, 3), (0, 0));
}

fn text_of(l: &Line) -> String {
    match l {
        Line::Spans(v) => v.iter().map(|s| s.text.as_str()).collect(),
        Line::Text(s, _) => s.clone(),
    }
}

fn lines_of_paragraph(w: &Widget) -> Vec<String> {
    match w {
        Widget::Paragraph { lines, .. } => lines.iter().map(text_of).collect(),
        _ => panic!("no paragraph"),
    }
}

fn busy_frr() -> Snapshot {
    let mut snap = fake_snapshot(0);
    snap.frr_service_active = true;
    snap.frr = FrrStatus {
        daemons: "zebra bgpd".to_string(),
        route_summary: Some("3 routes, 2 FIB".to_string()),
        bgp_vrf_peers: vec![
            ("default".to_string(), 2, 2),
            ("vrf-a".to_string(), 0, 2),
            ("vrf-b".to_string(), 1, 2),
            ("vrf-c".to_string(), 0, 0),
        ],
    };
    snap
}

#[test]
fn the_panel_on_frr_fits_its_room() {
    let snap = busy_frr();
    let head = ["frr.service: active", "daemons: zebra bgpd", "IPv4 RIB: 3 routes, 2 FIB"];
    let full = lines_of_paragraph(&frr_panel(area(10), &snap).widget);
    assert_eq!(&full[..3], head);
    assert_eq!(
        &full[3..],
        [
            "BGP peers (per VRF):",
            "  default              2/2 established",
            "  vrf-a                0/2 established",
            "  vrf-b                1/2 established",
            "  vrf-c                0/0 established",
        ]
    );
    let short = lines_of_paragraph(&frr_panel(area(8), &snap).widget);
    assert_eq!(
        &short[3..],
        ["BGP peers (per VRF):", "  default              2/2 established", "  ... +3 more"]
    );
    let one = lines_of_paragraph(&frr_panel(area(6), &snap).widget);
    assert_eq!(&one[3..], ["BGP peers: 4 VRF(s), no room to list"]);
    assert_eq!(lines_of_paragraph(&frr_panel(area(5), &snap).widget).len(), 3);
    assert_eq!(
        lines_of_paragraph(&frr_panel(area(5), &fake_snapshot(0)).widget),
        vec!["frr.service: inactive"]
    );
}

#[test]
fn the_listing_of_vrfs_has_a_color_for_each_state() {
    let snap = busy_frr();
    let parts = vec![area(3), area(4)];
    let mut scroll = u16::MAX;
    let drawn = frr_detail_in(area(9), &parts, &snap, &mut scroll);
    assert_eq!(scroll, 1);
    assert_eq!(drawn.len(), 4);
    assert!(matches!(drawn[0].widget, Widget::Border(_)));
    match &drawn[2].widget {
        Widget::Table { rows, offset, .. } => {
            assert_eq!(*offset, 1);
            let colors: Vec<Option<Color>> = rows
                .iter()
                .map(|r| match &r.cells[1] {
                    Cell::Styled(s) => s.style.fg,
                    _ => panic!(),
                })
                .collect();
            assert_eq!(colors, vec![Some(OK), Some(BAD), Some(WARN), Some(MUTED)]);
        }
        _ => panic!(),
    }
    let mut snap = busy_frr();
    snap.frr.bgp_vrf_peers.clear();
    let mut scroll = 3;
    let drawn = frr_detail_in(area(9), &parts, &snap, &mut scroll);
    assert_eq!(rows_of_table(&drawn[2].widget), vec![vec!["(no BGP peers)"]]);
    assert_eq!(scroll, 0);
}

#[test]
fn sync_services_are_told_by_their_health() {
    let mut snap = fake_snapshot(0);
    snap.sync_units = vec![
        SyncUnit { label: "A", service: "a.service", health: SyncHealth::Failed },
        SyncUnit { label: "B", service: "b.service", health: SyncHealth::TimerNotActive },
        SyncUnit { label: "C", service: "c.service", health: SyncHealth::Healthy },
    ];
    assert_eq!(
        rows_of_table(&sync_table(area(6), &snap).widget),
        vec![
            vec!["A", "FAILED", "journalctl -u a.service"],
            vec!["B", "timer not active", ""],
            vec!["C", "ok", ""],
        ]
    );
}

#[test]
fn gauges_get_worse_as_they_fill_up() {
    for (percent, expected) in [(0, OK), (69, OK), (70, WARN), (89, WARN), (90, BAD), (65535, BAD)] {
        assert_eq!(gauge_color(percent), expected);
    }
    match render_gauge(area(3), "X", Some((250, "full".to_string()))).widget {
        Widget::Gauge { percent, label, style, .. } => {
            assert_eq!(percent, 100);
            assert_eq!(label, "100%  full");
            assert_eq!(style.fg, Some(BAD));
        }
        _ => panic!(),
    }
    assert_eq!(
        lines_of_paragraph(&render_gauge(area(3), "X", None).widget),
        vec![" unknown"]
    );
}

#[test]
fn the_row_of_gauges_shows_load_memory_and_disk() {
    let mut snap = fake_snapshot(0);
    snap.memory = Some(MemInfo { used: 1536, total: 2048, available: 512 });
    snap.disk = Some(DiskInfo { used: 512, total: 1024, percent_used: 51 });
    let drawn = stats_in(&vec![area(1), area(2), area(3)], &snap);
    assert_eq!(lines_of_paragraph(&drawn[0].widget), vec![" 0.00 0.00 0.00   (1 CPUs)"]);
    match (&drawn[1].widget, &drawn[2].widget) {
        (
            Widget::Gauge { percent: m, label: ml, .. },
            Widget::Gauge { percent: d, label: dl, .. },
        ) => {
            assert_eq!((*m, ml.as_str()), (75, "75%  1.5Ki / 2.0Ki"));
            assert_eq!((*d, dl.as_str()), (51, "51%  512B / 1.0Ki"));
        }
        _ => panic!(),
    }
}

#[test]
fn header_and_image_show_what_they_are_given() {
    let snap = fake_snapshot(0);
    assert_eq!(
        lines_of_paragraph(&header(area(3), &snap).widget),
        vec![" test frr-bootc router console   now   uptime 0d 0h 0m"]
    );
    assert_eq!(
        lines_of_paragraph(&image_panel(area(4), "a\nb").widget),
        vec!["a", "b"]
    );
}

#[test]
fn the_footer_names_the_keys_that_do_something() {
    let snap = fake_snapshot(0);
    let areas = vec![area(3); 7];
    let parts = vec![area(3); 3];
    let mut state = AppState::default();
    let drawn = render_in(&areas, &parts, &snap, &mut state, 5);
    let footer = drawn.last().unwrap();
    assert_eq!(
        lines_of_paragraph(&footer.widget),
        vec!["1Overview 2Interfaces 3FRR/BGP bShell   (every 5s)"]
    );
    let mut state = AppState { tab: Tab::Interfaces, ..Default::default() };
    let drawn = render_in(&vec![area(3); 4], &vec![], &snap, &mut state, 7);
    let footer = drawn.last().unwrap();
    assert_eq!(
        lines_of_paragraph(&footer.widget),
        vec!["1Overview 2Interfaces 3FRR/BGP \u{2191}\u{2193}Scroll PgUp/PgDnPage bShell   (every 7s)"]
    );
    match &footer.widget {
        Widget::Paragraph { lines, .. } => match &lines[0] {
            Line::Spans(v) => {
                assert_eq!(v[0].style.bg, Some(ACCENT));
                assert_eq!(v[0].style.fg, Some(Color::Black));
            }
            _ => panic!(),
        },
        _ => panic!(),
    }
}

#[test]
fn drawing_twice_moves_nothing() {
    let snap = fake_snapshot(30);
    let whole = Rect { x: 0, y: 0, width: 60, height: 15 };
    let mut state = AppState { tab: Tab::Interfaces, interfaces_scroll: 500, frr_scroll: 7 };
    render(whole, &snap, &mut state, 5);
    let at = state.interfaces_scroll;
    render(whole, &snap, &mut state, 5);
    assert_eq!((state.interfaces_scroll, state.frr_scroll), (at, 7));
}

#[test]
fn a_status_of_very_many_lines_takes_all_the_room() {
    let mut snap = fake_snapshot(0);
    for n in [65_530, 65_533, 65_534, 65_536, 70_000] {
        snap.bootc_status = Some("x\n".repeat(n));
        let mut state = AppState::default();
        let whole = Rect { x: 0, y: 0, width: 100, height: 40 };
        let drawn = render(whole, &snap, &mut state, 5);
        assert_eq!(drawn.len(), 10);
        assert_eq!(lines_of_paragraph(&drawn[8].widget).len(), n);
        assert!(drawn[8].area.height > 20);
    }
}

#[test]
fn a_listing_of_very_many_rows_still_scrolls() {
    let snap = fake_snapshot(65_536);
    let mut scroll = u16::MAX;
    let drawn = interfaces_detail(area(13), &snap, &mut scroll);
    assert_eq!(scroll, 65_525);
    match &drawn[1].widget {
        Widget::Scrollbar { total, position, viewport } => {
            assert_eq!((*total, *position, *viewport), (65_535, 65_525, 10));
        }
        _ => panic!(),
    }
}

#[test]
fn the_parts_of_a_screen_do_not_overlap() {
    let mut snap = fake_snapshot(3);
    for status in [None, Some("a\nb\nc".to_string())] {
        snap.bootc_status = status;
        for height in 0..45 {
            for width in [0, 1, 7, 60, 61, 133] {
                for tab in [Tab::Overview, Tab::Interfaces, Tab::Frr] {
                    let whole = Rect { x: 3, y: 2, width, height };
                    let mut state = AppState { tab, ..Default::default() };
                    let drawn = render(whole, &snap, &mut state, 5);
                    for d in &drawn {
                        assert!(d.area.x >= 3 && d.area.x + d.area.width <= 3 + width);
                        assert!(d.area.y >= 2 && d.area.y + d.area.height <= 2 + height);
                    }
                    // All but the listing of VRFs and the scrollbars are
                    // drawn next to or under each other.
                    if tab == Tab::Overview {
                        for i in 0..drawn.len() {
                            for j in 0..i {
                                let (a, b) = (drawn[j].area, drawn[i].area);
                                assert!(
                                    a.y + a.height <= b.y || a.x + a.width <= b.x,
                                    "{a:?} {b:?}"
                                );
                            }
                        }
                    }
                }
            }
        }
    }
}
