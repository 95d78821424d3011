//! The panels of the dashboard: what each of them shows in the room it has.

use vstd::prelude::*;
use crate::frr::{count_views, FrrStatus, FrrView};
use crate::net::{interface_views, rate_text, Interface, InterfaceView};
use crate::plain::{peers, peers_text, throughput, throughput_text};
use crate::scene::{
    bold, bold_style, color_style, colored, lemma_line_push, lemma_row_push, line_views, plain,
    plain_style, raw_span, row_views, span_views, styled_span, Cell, CellView, Color, Constraint,
    drawn_views, Drawn, DrawnView, Line, LineView, Panel, PanelView, Rect, Row, Span, SpanView, Style, Widget,
    WidgetView, ACCENT, BAD, MUTED, OK, WARN,
};
use crate::snapshot::{unit_views, Snapshot, SnapshotView, SyncUnit, SyncUnitView};
use crate::state::{place_of, title_of, Tab};
use crate::system::{bytes_text, fmt_bytes, memory_percent, percent_of};
use crate::systemd::SyncHealth;
use crate::text::{
    cat, cat3, cat5, decimal, join, join_of, law_joined_words_are_had_back, lines, lines_of,
    none_white, number, pad, padded, texts, words_of,
};

verus! {

/// The border of a panel.
pub open spec fn panel_of(title: Seq<char>) -> PanelView {
    PanelView {
        title: Some(styled_span(" "@ + title + " "@, bold_style(ACCENT))),
        border: color_style(MUTED),
    }
}

/// The border of a panel.
pub fn panel(title: &str) -> (r: Panel)
    ensures
        r@ == panel_of(title@),
{
    let t = cat3(" ", title, " ");
    Panel { title: Some(Span::styled(t.as_str(), bold(ACCENT))), border: colored(MUTED) }
}

/// The color of a gauge: it gets worse as it fills up.
pub open spec fn gauge_color_of(percent: u16) -> Color {
    if percent < 70 {
        OK
    } else if percent < 90 {
        WARN
    } else {
        BAD
    }
}

/// The color of a gauge.
pub fn gauge_color(percent: u16) -> (r: Color)
    ensures
        r == gauge_color_of(percent),
{
    if percent <= 69 {
        OK
    } else if percent <= 89 {
        WARN
    } else {
        BAD
    }
}

// ---------------------------------------------------------------------------
// Interfaces
// ---------------------------------------------------------------------------

/// How many rows an interface takes: a second one for its addresses.
pub open spec fn rows_for(i: InterfaceView) -> nat {
    if i.addrs.len() > 0 {
        2
    } else {
        1
    }
}

/// How many rows some interfaces take.
pub open spec fn rows_for_all(v: Seq<InterfaceView>) -> nat
    decreases v.len(),
{
    if v.len() == 0 {
        0
    } else {
        rows_for_all(v.drop_last()) + rows_for(v.last())
    }
}

/// The greatest number of interfaces, but no more than `k`, that leave a row
/// free.
pub open spec fn most_with_a_row_free(v: Seq<InterfaceView>, budget: nat, k: nat) -> nat
    decreases k,
{
    if k == 0 || rows_for_all(v.take(k as int)) < budget {
        k
    } else {
        most_with_a_row_free(v, budget, (k - 1) as nat)
    }
}

/// How many of the interfaces are shown in so many rows, and how many are left
/// out. Unless all of them fit, a row is kept free to say how many are left
/// out; without a single row there is nothing to say it in.
pub open spec fn visible_of(v: Seq<InterfaceView>, budget: nat) -> (nat, nat) {
    if budget == 0 {
        (0, 0)
    } else if rows_for_all(v) <= budget {
        (v.len(), 0)
    } else {
        let shown = most_with_a_row_free(v, budget, (v.len() - 1) as nat);
        (shown, (v.len() - shown) as nat)
    }
}

proof fn lemma_rows_bound(v: Seq<InterfaceView>)
    ensures
        v.len() <= rows_for_all(v) <= 2 * v.len(),
    decreases v.len(),
{
    if v.len() > 0 {
        lemma_rows_bound(v.drop_last());
    }
}

proof fn lemma_rows_grow(v: Seq<InterfaceView>, j: int, k: int)
    requires
        0 <= j <= k <= v.len(),
    ensures
        rows_for_all(v.take(j)) <= rows_for_all(v.take(k)),
    decreases k - j,
{
    if j < k {
        lemma_rows_grow(v, j, k - 1);
        assert(v.take(k).drop_last() =~= v.take(k - 1));
    }
}

/// A number of interfaces that leaves a row free, when one more does not, is
/// the greatest one.
proof fn lemma_most(v: Seq<InterfaceView>, budget: nat, k: nat, n: nat)
    requires
        k <= n <= v.len(),
        rows_for_all(v.take(k as int)) < budget,
        k < n ==> rows_for_all(v.take(k as int + 1)) >= budget,
    ensures
        most_with_a_row_free(v, budget, n) == k,
    decreases n - k,
{
    if k < n {
        lemma_rows_grow(v, k as int + 1, n as int);
        lemma_most(v, budget, k, (n - 1) as nat);
    }
}

/// How many of the interfaces are shown in so many rows, and how many are left
/// out.
pub fn interfaces_visible(snap: &Snapshot, budget: usize) -> (r: (usize, usize))
    ensures
        (r.0 as nat, r.1 as nat) == visible_of(snap@.interfaces, budget as nat),
        r.0 + r.1 <= snap@.interfaces.len(),
{
    if budget == 0 {
        return (0, 0);
    }
    let v = &snap.interfaces;
    let total = v.len();
    let ghost all = interface_views(v@);
    let mut used: usize = 0;
    let mut shown: usize = 0;
    proof {
        assert(all.take(0) =~= seq![]);
    }
    while shown < total
        invariant
            all == interface_views(v@),
            all == snap@.interfaces,
            total == v.len(),
            shown <= total,
            0 < budget,
            used <= budget,
            used == rows_for_all(all.take(shown as int)),
        decreases total - shown,
    {
        let cost: usize = if v[shown].addrs.len() == 0 { 1 } else { 2 };
        proof {
            assert(all.take(shown + 1).drop_last() =~= all.take(shown as int));
            assert(all.take(shown + 1).last() == v@[shown as int]@);
        }
        if budget - used < cost {
            proof {
                assert(all.take(total as int) =~= all);
                lemma_rows_grow(all, shown + 1, total as int);
            }
            if used == budget {
                // The interfaces so far take every row, so the last of them
                // gives way to the line that says what is left out.
                proof {
                    assert(shown > 0) by {
                        assert(all.take(0) =~= seq![]);
                    }
                    assert(all.take(shown as int).drop_last() =~= all.take(shown - 1));
                    lemma_most(all, budget as nat, (shown - 1) as nat, (total - 1) as nat);
                }
                return (shown - 1, total - (shown - 1));
            }
            proof {
                lemma_most(all, budget as nat, shown as nat, (total - 1) as nat);
            }
            return (shown, total - shown);
        }
        used = used + cost;
        shown += 1;
    }
    proof {
        assert(all.take(total as int) =~= all);
    }
    (total, 0)
}

/// The row of an interface.
pub open spec fn interface_row(i: InterfaceView) -> Seq<CellView> {
    seq![
        CellView::Text(i.name),
        CellView::Styled(
            if i.up {
                styled_span("UP"@, color_style(OK))
            } else {
                styled_span("DOWN"@, color_style(BAD))
            },
        ),
        CellView::Text(
            match i.rate {
                Some(rate) => throughput(rate),
                None => "-"@,
            },
        ),
    ]
}

/// The row of an interface's addresses.
pub open spec fn address_row(i: InterfaceView) -> Seq<CellView> {
    seq![
        CellView::Empty,
        CellView::Empty,
        CellView::Styled(styled_span(join_of(i.addrs, " "@), color_style(MUTED))),
    ]
}

/// The rows of some interfaces.
pub open spec fn interface_rows(v: Seq<InterfaceView>) -> Seq<Seq<CellView>>
    decreases v.len(),
{
    if v.len() == 0 {
        seq![]
    } else {
        let first = interface_rows(v.drop_last()).push(interface_row(v.last()));
        if v.last().addrs.len() > 0 {
            first.push(address_row(v.last()))
        } else {
            first
        }
    }
}

fn rows_of_interfaces(v: &Vec<Interface>, shown: usize) -> (r: Vec<Row>)
    requires
        shown <= v.len(),
    ensures
        row_views(r@) == interface_rows(interface_views(v@).take(shown as int)),
{
    let mut out: Vec<Row> = Vec::new();
    let mut k: usize = 0;
    let ghost all = interface_views(v@);
    proof {
        assert(row_views(out@) =~= interface_rows(all.take(0)));
    }
    while k < shown
        invariant
            k <= shown <= v.len(),
            all == interface_views(v@),
            row_views(out@) == interface_rows(all.take(k as int)),
        decreases shown - k,
    {
        let i = &v[k];
        proof {
            assert(all.take(k + 1).drop_last() =~= all.take(k as int));
            assert(all.take(k + 1).last() == i@);
        }
        let state = if i.up {
            Span::styled("UP", colored(OK))
        } else {
            Span::styled("DOWN", colored(BAD))
        };
        let rate = match i.rate {
            Some(rate) => throughput_text(rate),
            None => "-".to_owned(),
        };
        let row = Row {
            cells: vec![Cell::Text(i.name.clone()), Cell::Styled(state), Cell::Text(rate)],
        };
        proof {
            assert(row@ =~= interface_row(i@));
            lemma_row_push(out@, row);
        }
        out.push(row);
        if i.addrs.len() > 0 {
            let addrs = join(&i.addrs, " ");
            let row = Row {
                cells: vec![
                    Cell::Empty,
                    Cell::Empty,
                    Cell::Styled(Span::styled(addrs.as_str(), colored(MUTED))),
                ],
            };
            proof {
                assert(row@ =~= address_row(i@));
                lemma_row_push(out@, row);
            }
            out.push(row);
        }
        k += 1;
    }
    out
}

/// The row that says how many interfaces are left out.
pub open spec fn more_row(extra: nat) -> Seq<CellView> {
    seq![CellView::Styled(styled_span("... +"@ + decimal(extra) + " more"@, color_style(MUTED)))]
}

/// The rows of the overview's table of interfaces, when it has room for so
/// many.
pub open spec fn overview_rows(v: Seq<InterfaceView>, budget: nat) -> Seq<Seq<CellView>> {
    if v.len() == 0 {
        seq![seq![CellView::Text("(none)"@)]]
    } else {
        let (shown, extra) = visible_of(v, budget);
        let rows = interface_rows(v.take(shown as int));
        if extra > 0 {
            rows.push(more_row(extra))
        } else {
            rows
        }
    }
}

/// A number of rows without some, but never less than none.
pub open spec fn less_by(n: nat, k: nat) -> nat {
    if n < k {
        0
    } else {
        (n - k) as nat
    }
}

/// A table of interfaces.
pub open spec fn interface_table_of(
    title: Seq<char>,
    rows: Seq<Seq<CellView>>,
    offset: nat,
) -> WidgetView {
    WidgetView::Table {
        panel: Some(panel_of(title)),
        header: seq!["Interface"@, "State"@, "Throughput / Address"@],
        header_style: bold_style(MUTED),
        widths: seq![Constraint::Length(18), Constraint::Length(8), Constraint::Min(20)],
        rows,
        offset,
    }
}

fn interface_table(title: &str, rows: Vec<Row>, offset: usize) -> (r: Widget)
    ensures
        r@ == interface_table_of(title@, row_views(rows@), offset as nat),
{
    let header = vec![
        "Interface".to_owned(),
        "State".to_owned(),
        "Throughput / Address".to_owned(),
    ];
    let widths = vec![Constraint::Length(18), Constraint::Length(8), Constraint::Min(20)];
    proof {
        assert(texts(header@) =~= seq!["Interface"@, "State"@, "Throughput / Address"@]);
        assert(widths@ =~= seq![
            Constraint::Length(18),
            Constraint::Length(8),
            Constraint::Min(20),
        ]);
    }
    Widget::Table {
        panel: Some(panel(title)),
        header,
        header_style: bold(MUTED),
        widths,
        rows,
        offset,
    }
}

fn none_row() -> (r: Vec<Row>)
    ensures
        row_views(r@) == seq![seq![CellView::Text("(none)"@)]],
{
    let row = Row { cells: vec![Cell::Text("(none)".to_owned())] };
    let out = vec![row];
    proof {
        assert(out@[0]@ =~= seq![CellView::Text("(none)"@)]);
        assert(row_views(out@) =~= seq![seq![CellView::Text("(none)"@)]]);
    }
    out
}

/// The overview's table of interfaces. Its border and its header take three
/// rows of the area.
pub open spec fn interfaces_table_of(area: Rect, s: SnapshotView) -> DrawnView {
    DrawnView {
        area,
        widget: interface_table_of(
            "Network Interfaces"@,
            overview_rows(s.interfaces, less_by(area.height as nat, 3)),
            0,
        ),
    }
}

/// The overview's table of interfaces.
pub fn interfaces_table(area: Rect, snap: &Snapshot) -> (r: Drawn)
    ensures
        r@ == interfaces_table_of(area, snap@),
{
    let budget: usize = area.height.saturating_sub(3) as usize;
    let rows = if snap.interfaces.len() == 0 {
        none_row()
    } else {
        let (shown, extra) = interfaces_visible(snap, budget);
        let mut rows = rows_of_interfaces(&snap.interfaces, shown);
        if extra > 0 {
            let n = number(extra as u128);
            let text = cat3("... +", n.as_str(), " more");
            let row = Row { cells: vec![Cell::Styled(Span::styled(text.as_str(), colored(MUTED)))] };
            proof {
                assert(row@ =~= more_row(extra as nat));
                lemma_row_push(rows@, row);
            }
            rows.push(row);
        }
        rows
    };
    proof {
        assert(row_views(rows@) == overview_rows(snap@.interfaces, budget as nat));
    }
    Drawn { area, widget: interface_table("Network Interfaces", rows, 0) }
}

// ---------------------------------------------------------------------------
// FRR
// ---------------------------------------------------------------------------

/// How many VRFs are shown in so many rows, and how many are left out. Unless
/// all of them fit, a row is kept free to say how many are left out.
pub open spec fn vrfs_visible(total: nat, budget: nat) -> (nat, nat) {
    if budget == 0 {
        (0, 0)
    } else if total <= budget {
        (total, 0)
    } else {
        ((budget - 1) as nat, (total - (budget - 1)) as nat)
    }
}

/// How many VRFs are shown in so many rows, and how many are left out.
pub fn bgp_visible_rows(total: usize, budget: usize) -> (r: (usize, usize))
    ensures
        (r.0 as nat, r.1 as nat) == vrfs_visible(total as nat, budget as nat),
{
    if budget == 0 {
        (0, 0)
    } else if total <= budget {
        (total, 0)
    } else {
        (budget - 1, total - (budget - 1))
    }
}

/// The color of a VRF. One without peers is neither well nor unwell.
pub open spec fn vrf_color(established: u32, total: u32) -> Color {
    if total == 0 {
        MUTED
    } else if established == total {
        OK
    } else if established == 0 {
        BAD
    } else {
        WARN
    }
}

fn color_of_vrf(established: u32, total: u32) -> (r: Color)
    ensures
        r == vrf_color(established, total),
{
    if total == 0 {
        MUTED
    } else if established == total {
        OK
    } else if established == 0 {
        BAD
    } else {
        WARN
    }
}

/// What is said of FRR before its BGP peers: whether it runs and, while it
/// does, its daemons and its routes as far as they are known.
pub open spec fn frr_summary(active: bool, f: FrrView) -> Seq<LineView> {
    let head = seq![
        LineView::Spans(
            seq![
                raw_span("frr.service: "@),
                if active {
                    styled_span("active"@, color_style(OK))
                } else {
                    styled_span("inactive"@, color_style(BAD))
                },
            ],
        ),
    ];
    let daemons = if f.daemons.len() > 0 {
        seq![LineView::Text("daemons: "@ + f.daemons, plain_style())]
    } else {
        seq![]
    };
    let routes = match f.route_summary {
        Some(r) => seq![LineView::Text("IPv4 RIB: "@ + r, plain_style())],
        None => seq![],
    };
    if active {
        head + daemons + routes
    } else {
        head
    }
}

fn summary_of_frr(active: bool, f: &FrrStatus) -> (r: Vec<Line>)
    ensures
        line_views(r@) == frr_summary(active, f@),
{
    let state = if active {
        Span::styled("active", colored(OK))
    } else {
        Span::styled("inactive", colored(BAD))
    };
    let spans = vec![Span::raw("frr.service: "), state];
    proof {
        assert(span_views(spans@) =~= seq![raw_span("frr.service: "@), state@]);
    }
    let mut out = vec![Line::Spans(spans)];
    if active {
        if f.daemons.unicode_len() > 0 {
            out.push(Line::Text(cat("daemons: ", f.daemons.as_str()), plain()));
        }
        match &f.route_summary {
            Some(routes) => {
                out.push(Line::Text(cat("IPv4 RIB: ", routes.as_str()), plain()));
            },
            None => {},
        }
    }
    proof {
        assert(line_views(out@) =~= frr_summary(active, f@));
    }
    out
}

/// The line of a VRF.
pub open spec fn vrf_line(c: (Seq<char>, u32, u32)) -> LineView {
    LineView::Spans(
        seq![
            raw_span("  "@ + padded(c.0, 20) + " "@),
            styled_span(peers_text(c.1, c.2), color_style(vrf_color(c.1, c.2))),
        ],
    )
}

/// What is said of the BGP peers in so many rows: a heading and the VRFs, or
/// how many there are if there is room for one line alone, or nothing.
pub open spec fn bgp_lines(v: Seq<(Seq<char>, u32, u32)>, budget: nat) -> Seq<LineView> {
    if v.len() == 0 || budget == 0 {
        seq![]
    } else if budget == 1 {
        seq![
            LineView::Text(
                "BGP peers: "@ + decimal(v.len()) + " VRF(s), no room to list"@,
                color_style(MUTED),
            ),
        ]
    } else {
        let (shown, extra) = vrfs_visible(v.len(), (budget - 1) as nat);
        let heading = seq![
            LineView::Spans(seq![styled_span("BGP peers (per VRF):"@, color_style(MUTED))]),
        ];
        let vrfs = Seq::new(shown, |i: int| vrf_line(v[i]));
        let more = if extra > 0 {
            seq![LineView::Text("  ... +"@ + decimal(extra) + " more"@, color_style(MUTED))]
        } else {
            seq![]
        };
        heading + vrfs + more
    }
}

fn lines_of_bgp(v: &Vec<(String, u32, u32)>, budget: usize) -> (r: Vec<Line>)
    ensures
        line_views(r@) == bgp_lines(count_views(v@), budget as nat),
{
    let mut out: Vec<Line> = Vec::new();
    let ghost all = count_views(v@);
    if v.len() == 0 || budget == 0 {
        proof {
            assert(line_views(out@) =~= seq![]);
        }
        return out;
    }
    let total = v.len();
    if budget == 1 {
        let n = number(total as u128);
        out.push(
            Line::Text(
                cat3("BGP peers: ", n.as_str(), " VRF(s), no room to list"),
                colored(MUTED),
            ),
        );
        proof {
            assert(line_views(out@) =~= bgp_lines(all, budget as nat));
        }
        return out;
    }
    let heading = vec![Span::styled("BGP peers (per VRF):", colored(MUTED))];
    proof {
        assert(span_views(heading@) =~= seq![
            styled_span("BGP peers (per VRF):"@, color_style(MUTED)),
        ]);
    }
    out.push(Line::Spans(heading));
    let ghost before = line_views(out@);
    let (shown, extra) = bgp_visible_rows(total, budget - 1);
    let mut k: usize = 0;
    while k < shown
        invariant
            k <= shown <= v.len(),
            all == count_views(v@),
            line_views(out@) =~= before + Seq::new(k as nat, |i: int| vrf_line(all[i])),
        decreases shown - k,
    {
        let name = pad(v[k].0.as_str(), 20);
        let text = cat3("  ", name.as_str(), " ");
        let count = peers(v[k].1, v[k].2);
        let spans = vec![
            Span::raw(text.as_str()),
            Span::styled(count.as_str(), colored(color_of_vrf(v[k].1, v[k].2))),
        ];
        let line = Line::Spans(spans);
        proof {
            assert(span_views(spans@) =~= seq![
                raw_span(text@),
                styled_span(count@, color_style(vrf_color(all[k as int].1, all[k as int].2))),
            ]);
            assert(line@ == vrf_line(all[k as int]));
            lemma_line_push(out@, line);
        }
        out.push(line);
        k += 1;
    }
    if extra > 0 {
        let n = number(extra as u128);
        let line = Line::Text(cat3("  ... +", n.as_str(), " more"), colored(MUTED));
        proof {
            lemma_line_push(out@, line);
        }
        out.push(line);
    }
    proof {
        assert(line_views(out@) =~= bgp_lines(all, budget as nat));
    }
    out
}

/// The lines of the overview's panel on FRR, when it is so high. The border
/// takes two rows; the BGP peers get what the rest of the lines leave.
pub open spec fn frr_panel_lines(height: nat, active: bool, f: FrrView) -> Seq<LineView> {
    let summary = frr_summary(active, f);
    if active {
        summary + bgp_lines(f.bgp_vrf_peers, less_by(less_by(height, 2), summary.len()))
    } else {
        summary
    }
}

/// The overview's panel on FRR.
pub open spec fn frr_panel_of(area: Rect, s: SnapshotView) -> DrawnView {
    DrawnView {
        area,
        widget: WidgetView::Paragraph {
            panel: Some(panel_of("FRR"@)),
            lines: frr_panel_lines(area.height as nat, s.frr_service_active, s.frr),
        },
    }
}

/// The overview's panel on FRR.
pub fn frr_panel(area: Rect, snap: &Snapshot) -> (r: Drawn)
    ensures
        r@ == frr_panel_of(area, snap@),
{
    let mut out = summary_of_frr(snap.frr_service_active, &snap.frr);
    if snap.frr_service_active {
        let budget: usize = (area.height as usize).saturating_sub(2).saturating_sub(out.len());
        let ghost summary = out@;
        let mut more = lines_of_bgp(&snap.frr.bgp_vrf_peers, budget);
        let ghost rest = more@;
        out.append(&mut more);
        proof {
            assert(line_views(summary).len() == summary.len());
            assert(line_views(out@) =~= line_views(summary) + line_views(rest));
        }
    }
    Drawn { area, widget: Widget::Paragraph { panel: Some(panel("FRR")), lines: out } }
}

// ---------------------------------------------------------------------------
// Sync services
// ---------------------------------------------------------------------------

/// The row of a sync service.
pub open spec fn unit_row(u: SyncUnitView) -> Seq<CellView> {
    match u.health {
        SyncHealth::Failed => seq![
            CellView::Text(u.label),
            CellView::Styled(styled_span("FAILED"@, color_style(BAD))),
            CellView::Styled(styled_span("journalctl -u "@ + u.service, color_style(MUTED))),
        ],
        SyncHealth::TimerNotActive => seq![
            CellView::Text(u.label),
            CellView::Styled(styled_span("timer not active"@, color_style(WARN))),
            CellView::Empty,
        ],
        SyncHealth::Healthy => seq![
            CellView::Text(u.label),
            CellView::Styled(styled_span("ok"@, color_style(OK))),
            CellView::Empty,
        ],
    }
}

/// The panel on the sync services.
pub open spec fn sync_table_of(area: Rect, s: SnapshotView) -> DrawnView {
    DrawnView {
        area,
        widget: WidgetView::Table {
            panel: Some(panel_of("Sync Services"@)),
            header: seq!["Sync Service"@, "Status"@, "Detail"@],
            header_style: bold_style(MUTED),
            widths: seq![Constraint::Length(22), Constraint::Length(18), Constraint::Min(20)],
            rows: Seq::new(s.sync_units.len(), |i: int| unit_row(s.sync_units[i])),
            offset: 0,
        },
    }
}

fn row_of_unit(u: &SyncUnit) -> (r: Row)
    ensures
        r@ == unit_row(u@),
{
    let (state, detail) = match u.health {
        SyncHealth::Failed => {
            let text = cat("journalctl -u ", u.service);
            (
                Span::styled("FAILED", colored(BAD)),
                Cell::Styled(Span::styled(text.as_str(), colored(MUTED))),
            )
        },
        SyncHealth::TimerNotActive => (
            Span::styled("timer not active", colored(WARN)),
            Cell::Empty,
        ),
        SyncHealth::Healthy => (Span::styled("ok", colored(OK)), Cell::Empty),
    };
    let row = Row { cells: vec![Cell::Text(u.label.to_owned()), Cell::Styled(state), detail] };
    proof {
        assert(row@ =~= unit_row(u@));
    }
    row
}

/// The panel on the sync services.
pub fn sync_table(area: Rect, snap: &Snapshot) -> (r: Drawn)
    ensures
        r@ == sync_table_of(area, snap@),
{
    let v = &snap.sync_units;
    let mut rows: Vec<Row> = Vec::new();
    let mut k: usize = 0;
    while k < v.len()
        invariant
            k <= v.len(),
            row_views(rows@) =~= Seq::new(k as nat, |i: int| unit_row(unit_views(v@)[i])),
        decreases v.len() - k,
    {
        let row = row_of_unit(&v[k]);
        proof {
            lemma_row_push(rows@, row);
        }
        rows.push(row);
        k += 1;
    }
    let header = vec!["Sync Service".to_owned(), "Status".to_owned(), "Detail".to_owned()];
    let widths = vec![Constraint::Length(22), Constraint::Length(18), Constraint::Min(20)];
    proof {
        assert(texts(header@) =~= seq!["Sync Service"@, "Status"@, "Detail"@]);
        assert(widths@ =~= seq![
            Constraint::Length(22),
            Constraint::Length(18),
            Constraint::Min(20),
        ]);
        assert(row_views(rows@) =~= Seq::new(
            snap@.sync_units.len(),
            |i: int| unit_row(snap@.sync_units[i]),
        ));
    }
    Drawn {
        area,
        widget: Widget::Table {
            panel: Some(panel("Sync Services")),
            header,
            header_style: bold(MUTED),
            widths,
            rows,
            offset: 0,
        },
    }
}

// ---------------------------------------------------------------------------
// Listings that scroll
// ---------------------------------------------------------------------------

/// How many rows of a listing count for scrolling: all of them, as far as
/// sixteen bits hold their number.
pub open spec fn counted(rows: nat) -> nat {
    if rows > u16::MAX {
        u16::MAX as nat
    } else {
        rows
    }
}

fn count(rows: usize) -> (r: u16)
    ensures
        r == counted(rows as nat),
{
    if rows > 0xffff {
        u16::MAX
    } else {
        rows as u16
    }
}

/// How far a listing is scrolled: as far as was asked for, but not past the
/// position that shows its last row at the bottom. No position is beyond what
/// sixteen bits hold.
pub open spec fn clamped(scroll: u16, rows: nat, visible: nat) -> u16 {
    let last = less_by(counted(rows), visible);
    if scroll < last {
        scroll
    } else {
        last as u16
    }
}

fn clamp(scroll: u16, rows: usize, visible: u16) -> (r: u16)
    ensures
        r == clamped(scroll, rows as nat, visible as nat),
{
    let total: u16 = count(rows);
    let last: u16 = total.saturating_sub(visible);
    if scroll < last {
        scroll
    } else {
        last
    }
}

/// The scrollbar of a listing. There is none when everything fits.
pub open spec fn scrollbar_of(area: Rect, rows: nat, visible: nat, at: u16) -> Seq<DrawnView> {
    if counted(rows) <= visible {
        seq![]
    } else {
        seq![
            DrawnView {
                area,
                widget: WidgetView::Scrollbar {
                    total: counted(rows),
                    position: at as nat,
                    viewport: visible,
                },
            },
        ]
    }
}

/// Adds the scrollbar of a listing, unless everything fits.
fn render_scrollbar(out: &mut Vec<Drawn>, area: Rect, rows: usize, visible: u16, at: u16)
    ensures
        drawn_views(final(out)@) == drawn_views(old(out)@) + scrollbar_of(
            area,
            rows as nat,
            visible as nat,
            at,
        ),
{
    let total: usize = count(rows) as usize;
    if total > visible as usize {
        out.push(
            Drawn {
                area,
                widget: Widget::Scrollbar {
                    total,
                    position: at as usize,
                    viewport: visible as usize,
                },
            },
        );
    }
    proof {
        assert(drawn_views(out@) =~= drawn_views(old(out)@) + scrollbar_of(
            area,
            rows as nat,
            visible as nat,
            at,
        ));
    }
}

/// The rows of the full listing of interfaces.
pub open spec fn detail_rows(v: Seq<InterfaceView>) -> Seq<Seq<CellView>> {
    if v.len() == 0 {
        seq![seq![CellView::Text("(none)"@)]]
    } else {
        interface_rows(v)
    }
}

/// How far the listing of interfaces is scrolled when it is drawn.
pub open spec fn interfaces_at(area: Rect, s: SnapshotView, scroll: u16) -> u16 {
    clamped(scroll, detail_rows(s.interfaces).len(), less_by(area.height as nat, 3))
}

/// The full listing of interfaces, scrolled.
pub open spec fn interfaces_detail_of(area: Rect, s: SnapshotView, scroll: u16) -> Seq<DrawnView> {
    let rows = detail_rows(s.interfaces);
    let at = interfaces_at(area, s, scroll);
    seq![
        DrawnView {
            area,
            widget: interface_table_of(
                "Network Interfaces ("@ + decimal(s.interfaces.len()) + " total)"@,
                rows,
                at as nat,
            ),
        },
    ] + scrollbar_of(area, rows.len(), less_by(area.height as nat, 3), at)
}

/// The full listing of interfaces. It is scrolled no further than to its end.
pub fn interfaces_detail(area: Rect, snap: &Snapshot, scroll: &mut u16) -> (r: Vec<Drawn>)
    ensures
        *final(scroll) == interfaces_at(area, snap@, *old(scroll)),
        drawn_views(r@) == interfaces_detail_of(area, snap@, *old(scroll)),
{
    let rows = if snap.interfaces.len() == 0 {
        none_row()
    } else {
        proof {
            assert(snap@.interfaces.take(snap.interfaces.len() as int) =~= snap@.interfaces);
        }
        rows_of_interfaces(&snap.interfaces, snap.interfaces.len())
    };
    proof {
        assert(row_views(rows@) == detail_rows(snap@.interfaces));
        assert(row_views(rows@).len() == rows.len());
    }
    let visible: u16 = area.height.saturating_sub(3);
    let count = rows.len();
    let at = clamp(*scroll, count, visible);
    *scroll = at;
    let n = number(snap.interfaces.len() as u128);
    let title = cat3("Network Interfaces (", n.as_str(), " total)");
    let mut out = vec![Drawn { area, widget: interface_table(title.as_str(), rows, at as usize) }];
    proof {
        assert(drawn_views(out@) =~= seq![out@[0]@]);
    }
    render_scrollbar(&mut out, area, count, visible, at);
    out
}

/// The row of a VRF.
pub open spec fn vrf_row(c: (Seq<char>, u32, u32)) -> Seq<CellView> {
    seq![
        CellView::Text(c.0),
        CellView::Styled(styled_span(peers_text(c.1, c.2), color_style(vrf_color(c.1, c.2)))),
    ]
}

/// The rows of the full listing of VRFs.
pub open spec fn vrf_rows(active: bool, v: Seq<(Seq<char>, u32, u32)>) -> Seq<Seq<CellView>> {
    if !active {
        seq![]
    } else if v.len() == 0 {
        seq![seq![CellView::Text("(no BGP peers)"@)]]
    } else {
        Seq::new(v.len(), |i: int| vrf_row(v[i]))
    }
}

fn rows_of_vrfs(active: bool, v: &Vec<(String, u32, u32)>) -> (r: Vec<Row>)
    ensures
        row_views(r@) == vrf_rows(active, count_views(v@)),
{
    let mut out: Vec<Row> = Vec::new();
    let ghost all = count_views(v@);
    if active {
        if v.len() == 0 {
            let row = Row { cells: vec![Cell::Text("(no BGP peers)".to_owned())] };
            proof {
                assert(row@ =~= seq![CellView::Text("(no BGP peers)"@)]);
            }
            out.push(row);
        }
        let mut k: usize = 0;
        while k < v.len()
            invariant
                k <= v.len(),
                all == count_views(v@),
                v.len() > 0 ==> row_views(out@) =~= Seq::new(k as nat, |i: int| vrf_row(all[i])),
                v.len() == 0 ==> row_views(out@) =~= vrf_rows(true, all),
            decreases v.len() - k,
        {
            let count = peers(v[k].1, v[k].2);
            let style = colored(color_of_vrf(v[k].1, v[k].2));
            let row = Row {
                cells: vec![
                    Cell::Text(v[k].0.clone()),
                    Cell::Styled(Span::styled(count.as_str(), style)),
                ],
            };
            proof {
                assert(row@ =~= vrf_row(all[k as int]));
                lemma_row_push(out@, row);
            }
            out.push(row);
            k += 1;
        }
    }
    proof {
        assert(row_views(out@) =~= vrf_rows(active, all));
    }
    out
}

/// How far the listing of VRFs is scrolled when its table is drawn in `part`.
pub open spec fn vrfs_at(part: Rect, s: SnapshotView, scroll: u16) -> u16 {
    clamped(
        scroll,
        vrf_rows(s.frr_service_active, s.frr.bgp_vrf_peers).len(),
        less_by(part.height as nat, 1),
    )
}

/// How the inside of the listing of VRFs is divided: three rows for what is
/// said of FRR, and the rest for the table.
pub open spec fn frr_detail_parts() -> Seq<Constraint> {
    seq![Constraint::Length(3), Constraint::Fill(1)]
}

/// How the inside of the listing of VRFs is divided.
pub fn frr_detail_constraints() -> (r: Vec<Constraint>)
    ensures
        r@ == frr_detail_parts(),
{
    let v = vec![Constraint::Length(3), Constraint::Fill(1)];
    proof {
        assert(v@ =~= frr_detail_parts());
    }
    v
}

/// The full listing of VRFs, scrolled, with the inside of its border divided
/// into `parts`. The table's header takes one row.
pub open spec fn frr_detail_of(
    area: Rect,
    parts: Seq<Rect>,
    s: SnapshotView,
    scroll: u16,
) -> Seq<DrawnView> {
    let rows = vrf_rows(s.frr_service_active, s.frr.bgp_vrf_peers);
    let at = vrfs_at(parts[1], s, scroll);
    seq![
        DrawnView { area, widget: WidgetView::Border(panel_of("FRR / BGP (all VRFs)"@)) },
        DrawnView {
            area: parts[0],
            widget: WidgetView::Paragraph {
                panel: None,
                lines: frr_summary(s.frr_service_active, s.frr),
            },
        },
        DrawnView {
            area: parts[1],
            widget: WidgetView::Table {
                panel: None,
                header: seq!["VRF"@, "BGP Peers"@],
                header_style: bold_style(MUTED),
                widths: seq![Constraint::Length(24), Constraint::Min(20)],
                rows,
                offset: at as nat,
            },
        },
    ] + scrollbar_of(parts[1], rows.len(), less_by(parts[1].height as nat, 1), at)
}

/// The full listing of VRFs, with the inside of its border divided into
/// `parts`. It is scrolled no further than to its end.
pub fn frr_detail_in(area: Rect, parts: &Vec<Rect>, snap: &Snapshot, scroll: &mut u16) -> (r: Vec<
    Drawn,
>)
    requires
        parts.len() == 2,
    ensures
        *final(scroll) == vrfs_at(parts@[1], snap@, *old(scroll)),
        drawn_views(r@) == frr_detail_of(area, parts@, snap@, *old(scroll)),
{
    let summary = summary_of_frr(snap.frr_service_active, &snap.frr);
    let rows = rows_of_vrfs(snap.frr_service_active, &snap.frr.bgp_vrf_peers);
    proof {
        assert(row_views(rows@).len() == rows.len());
    }
    let visible: u16 = parts[1].height.saturating_sub(1);
    let count = rows.len();
    let at = clamp(*scroll, count, visible);
    *scroll = at;
    let header = vec!["VRF".to_owned(), "BGP Peers".to_owned()];
    let widths = vec![Constraint::Length(24), Constraint::Min(20)];
    proof {
        assert(texts(header@) =~= seq!["VRF"@, "BGP Peers"@]);
        assert(widths@ =~= seq![Constraint::Length(24), Constraint::Min(20)]);
    }
    let mut out = vec![
        Drawn { area, widget: Widget::Border(panel("FRR / BGP (all VRFs)")) },
        Drawn { area: parts[0], widget: Widget::Paragraph { panel: None, lines: summary } },
        Drawn {
            area: parts[1],
            widget: Widget::Table {
                panel: None,
                header,
                header_style: bold(MUTED),
                widths,
                rows,
                offset: at as usize,
            },
        },
    ];
    proof {
        assert(drawn_views(out@) =~= seq![out@[0]@, out@[1]@, out@[2]@]);
    }
    render_scrollbar(&mut out, parts[1], count, visible, at);
    out
}

// ---------------------------------------------------------------------------
// Header, tab bar, gauges, image and footer
// ---------------------------------------------------------------------------

/// The header: which host this is, what time it is there, and how long it has
/// been up.
pub open spec fn header_of(area: Rect, s: SnapshotView) -> DrawnView {
    DrawnView {
        area,
        widget: WidgetView::Paragraph {
            panel: Some(PanelView { title: None, border: color_style(ACCENT) }),
            lines: seq![
                LineView::Spans(
                    seq![
                        styled_span(" "@ + s.hostname + " "@, bold_style(ACCENT)),
                        styled_span("frr-bootc router console"@, color_style(MUTED)),
                        raw_span("   "@),
                        raw_span(s.now),
                        raw_span("   uptime "@),
                        raw_span(s.uptime),
                    ],
                ),
            ],
        },
    }
}

/// The header.
pub fn header(area: Rect, snap: &Snapshot) -> (r: Drawn)
    ensures
        r@ == header_of(area, snap@),
{
    let host = cat3(" ", snap.hostname.as_str(), " ");
    let spans = vec![
        Span::styled(host.as_str(), bold(ACCENT)),
        Span::styled("frr-bootc router console", colored(MUTED)),
        Span::raw("   "),
        Span::raw(snap.now.as_str()),
        Span::raw("   uptime "),
        Span::raw(snap.uptime.as_str()),
    ];
    let lines = vec![Line::Spans(spans)];
    proof {
        assert(span_views(spans@) =~= seq![
            styled_span(host@, bold_style(ACCENT)),
            styled_span("frr-bootc router console"@, color_style(MUTED)),
            raw_span("   "@),
            raw_span(snap@.now),
            raw_span("   uptime "@),
            raw_span(snap@.uptime),
        ]);
        assert(line_views(lines@) =~= seq![LineView::Spans(span_views(spans@))]);
    }
    let border = Panel { title: None, border: colored(ACCENT) };
    Drawn { area, widget: Widget::Paragraph { panel: Some(border), lines } }
}

/// The tab bar.
pub open spec fn tab_bar_of(area: Rect, active: Tab) -> DrawnView {
    DrawnView {
        area,
        widget: WidgetView::Tabs {
            titles: seq![
                title_of(Tab::Overview),
                title_of(Tab::Interfaces),
                title_of(Tab::Frr),
            ],
            selected: place_of(active) as nat,
            style: color_style(MUTED),
            highlight: bold_style(ACCENT),
            divider: " "@,
        },
    }
}

/// The tab bar.
pub fn tab_bar(area: Rect, active: Tab) -> (r: Drawn)
    ensures
        r@ == tab_bar_of(area, active),
{
    let titles = vec![
        Tab::Overview.title().to_owned(),
        Tab::Interfaces.title().to_owned(),
        Tab::Frr.title().to_owned(),
    ];
    proof {
        assert(texts(titles@) =~= seq![
            title_of(Tab::Overview),
            title_of(Tab::Interfaces),
            title_of(Tab::Frr),
        ]);
    }
    Drawn {
        area,
        widget: Widget::Tabs {
            titles,
            selected: active.index(),
            style: colored(MUTED),
            highlight: bold(ACCENT),
            divider: " ".to_owned(),
        },
    }
}

/// A gauge, or that nothing is known. No gauge is more than full.
pub open spec fn gauge_of(
    area: Rect,
    title: Seq<char>,
    data: Option<(u16, Seq<char>)>,
) -> DrawnView {
    DrawnView {
        area,
        widget: match data {
            Some((percent, label)) => {
                let p: u16 = if percent > 100 {
                    100
                } else {
                    percent
                };
                WidgetView::Gauge {
                    panel: Some(panel_of(title)),
                    style: color_style(gauge_color_of(p)),
                    percent: p as nat,
                    label: decimal(p as nat) + "%  "@ + label,
                }
            },
            None => WidgetView::Paragraph {
                panel: Some(panel_of(title)),
                lines: seq![LineView::Text(" unknown"@, plain_style())],
            },
        },
    }
}

/// What a gauge shows, as a mathematical value.
pub open spec fn gauge_data(data: Option<(u16, String)>) -> Option<(u16, Seq<char>)> {
    match data {
        Some((percent, label)) => Some((percent, label@)),
        None => None,
    }
}

/// A gauge, or that nothing is known.
pub fn render_gauge(area: Rect, title: &str, data: Option<(u16, String)>) -> (r: Drawn)
    ensures
        r@ == gauge_of(area, title@, gauge_data(data)),
{
    let border = panel(title);
    match data {
        Some((percent, label)) => {
            let percent: u16 = if percent > 100 { 100 } else { percent };
            let n = number(percent as u128);
            let text = cat3(n.as_str(), "%  ", label.as_str());
            Drawn {
                area,
                widget: Widget::Gauge {
                    panel: Some(border),
                    style: colored(gauge_color(percent)),
                    percent,
                    label: text,
                },
            }
        },
        None => {
            let lines = vec![Line::Text(" unknown".to_owned(), plain())];
            proof {
                assert(line_views(lines@) =~= seq![LineView::Text(" unknown"@, plain_style())]);
            }
            Drawn { area, widget: Widget::Paragraph { panel: Some(border), lines } }
        },
    }
}

/// How the row of gauges is divided.
pub open spec fn stats_parts() -> Seq<Constraint> {
    seq![Constraint::Percentage(34), Constraint::Percentage(33), Constraint::Percentage(33)]
}

/// How the row of gauges is divided.
pub fn stats_constraints() -> (r: Vec<Constraint>)
    ensures
        r@ == stats_parts(),
{
    let v = vec![
        Constraint::Percentage(34),
        Constraint::Percentage(33),
        Constraint::Percentage(33),
    ];
    proof {
        assert(v@ =~= stats_parts());
    }
    v
}

/// The row of gauges, divided into `parts`: the load, the memory and the disk.
pub open spec fn stats_of(parts: Seq<Rect>, s: SnapshotView) -> Seq<DrawnView> {
    seq![
        DrawnView {
            area: parts[0],
            widget: WidgetView::Paragraph {
                panel: Some(panel_of("Load (1/5/15m)"@)),
                lines: seq![
                    LineView::Text(
                        " "@ + s.load_average + "   ("@ + decimal(s.cpu_count) + " CPUs)"@,
                        plain_style(),
                    ),
                ],
            },
        },
        gauge_of(
            parts[1],
            "Memory"@,
            match s.memory {
                Some(m) => Some(
                    (
                        percent_of(m.used, m.total) as u16,
                        bytes_text(m.used) + " / "@ + bytes_text(m.total),
                    ),
                ),
                None => None,
            },
        ),
        gauge_of(
            parts[2],
            "Disk (/)"@,
            match s.disk {
                Some(d) => Some(
                    (d.percent_used as u16, bytes_text(d.used) + " / "@ + bytes_text(d.total)),
                ),
                None => None,
            },
        ),
    ]
}

/// The row of gauges, divided into `parts`.
pub fn stats_in(parts: &Vec<Rect>, snap: &Snapshot) -> (r: Vec<Drawn>)
    requires
        parts.len() == 3,
    ensures
        drawn_views(r@) == stats_of(parts@, snap@),
{
    let cpus = number(snap.cpu_count as u128);
    let load = cat5(" ", snap.load_average.as_str(), "   (", cpus.as_str(), " CPUs)");
    let lines = vec![Line::Text(load, plain())];
    proof {
        assert(line_views(lines@) =~= seq![LineView::Text(load@, plain_style())]);
    }
    let memory = match &snap.memory {
        Some(m) => {
            let used = fmt_bytes(m.used);
            let total = fmt_bytes(m.total);
            Some((memory_percent(m.used, m.total), cat3(used.as_str(), " / ", total.as_str())))
        },
        None => None,
    };
    let disk = match &snap.disk {
        Some(d) => {
            let used = fmt_bytes(d.used);
            let total = fmt_bytes(d.total);
            Some((d.percent_used as u16, cat3(used.as_str(), " / ", total.as_str())))
        },
        None => None,
    };
    let out = vec![
        Drawn {
            area: parts[0],
            widget: Widget::Paragraph { panel: Some(panel("Load (1/5/15m)")), lines },
        },
        render_gauge(parts[1], "Memory", memory),
        render_gauge(parts[2], "Disk (/)", disk),
    ];
    proof {
        assert(drawn_views(out@) =~= stats_of(parts@, snap@));
    }
    out
}

/// The panel on the system image.
pub open spec fn image_panel_of(area: Rect, status: Seq<char>) -> DrawnView {
    DrawnView {
        area,
        widget: WidgetView::Paragraph {
            panel: Some(panel_of("System Image (bootc)"@)),
            lines: Seq::new(
                lines_of(status).len(),
                |i: int| LineView::Text(lines_of(status)[i], plain_style()),
            ),
        },
    }
}

/// The panel on the system image.
pub fn image_panel(area: Rect, status: &str) -> (r: Drawn)
    ensures
        r@ == image_panel_of(area, status@),
{
    let all = lines(status);
    let mut out: Vec<Line> = Vec::new();
    let mut k: usize = 0;
    while k < all.len()
        invariant
            k <= all.len(),
            texts(all@) == lines_of(status@),
            line_views(out@) =~= Seq::new(
                k as nat,
                |i: int| LineView::Text(lines_of(status@)[i], plain_style()),
            ),
        decreases all.len() - k,
    {
        let line = Line::Text(all[k].clone(), plain());
        proof {
            lemma_line_push(out@, line);
            assert(texts(all@)[k as int] == all@[k as int]@);
        }
        out.push(line);
        k += 1;
    }
    proof {
        assert(texts(all@).len() == all.len());
    }
    Drawn {
        area,
        widget: Widget::Paragraph { panel: Some(panel("System Image (bootc)")), lines: out },
    }
}

/// A key and what it does.
pub open spec fn hint(key: Seq<char>, label: Seq<char>) -> Seq<SpanView> {
    seq![
        styled_span(key, (Style { fg: Some(Color::Black), bg: Some(ACCENT), bold: false })),
        styled_span(label, color_style(MUTED)),
        raw_span(" "@),
    ]
}

fn add_hint(spans: &mut Vec<Span>, key: &str, label: &str)
    ensures
        span_views(final(spans)@) == span_views(old(spans)@) + hint(key@, label@),
{
    let style = Style { fg: Some(Color::Black), bg: Some(ACCENT), bold: false };
    spans.push(Span::styled(key, style));
    spans.push(Span::styled(label, colored(MUTED)));
    spans.push(Span::raw(" "));
    proof {
        assert(span_views(spans@) =~= span_views(old(spans)@) + hint(key@, label@));
    }
}

/// The hints of the footer. The keys that scroll are named where there is
/// something to scroll.
pub open spec fn footer_spans(tab: Tab, refresh_secs: u64) -> Seq<SpanView> {
    let tabs = hint("1"@, "Overview"@) + hint("2"@, "Interfaces"@) + hint("3"@, "FRR/BGP"@);
    let shown = if tab == Tab::Overview {
        tabs
    } else {
        tabs + hint("\u{2191}\u{2193}"@, "Scroll"@) + hint("PgUp/PgDn"@, "Page"@)
    };
    (shown + hint("b"@, "Shell"@)).push(
        raw_span("  (every "@ + decimal(refresh_secs as nat) + "s)"@),
    )
}

/// The footer.
pub open spec fn footer_of(area: Rect, tab: Tab, refresh_secs: u64) -> DrawnView {
    DrawnView {
        area,
        widget: WidgetView::Paragraph {
            panel: None,
            lines: seq![LineView::Spans(footer_spans(tab, refresh_secs))],
        },
    }
}

/// The footer: what the keys do, and how often the data is gathered.
pub fn footer(area: Rect, tab: Tab, refresh_secs: u64) -> (r: Drawn)
    ensures
        r@ == footer_of(area, tab, refresh_secs),
{
    let mut spans: Vec<Span> = Vec::new();
    proof {
        assert(span_views(spans@) =~= seq![]);
    }
    add_hint(&mut spans, "1", "Overview");
    proof {
        assert(span_views(spans@) =~= hint("1"@, "Overview"@));
    }
    add_hint(&mut spans, "2", "Interfaces");
    add_hint(&mut spans, "3", "FRR/BGP");
    if tab != Tab::Overview {
        add_hint(&mut spans, "\u{2191}\u{2193}", "Scroll");
        add_hint(&mut spans, "PgUp/PgDn", "Page");
    }
    add_hint(&mut spans, "b", "Shell");
    let n = number(refresh_secs as u128);
    let every = cat3("  (every ", n.as_str(), "s)");
    let ghost before = spans@;
    let last = Span::raw(every.as_str());
    spans.push(last);
    proof {
        assert(span_views(spans@) =~= span_views(before).push(last@));
        assert(span_views(spans@) =~= footer_spans(tab, refresh_secs));
    }
    let lines = vec![Line::Spans(spans)];
    proof {
        assert(line_views(lines@) =~= seq![LineView::Spans(footer_spans(tab, refresh_secs))]);
    }
    Drawn { area, widget: Widget::Paragraph { panel: None, lines } }
}

// ---------------------------------------------------------------------------
// Laws
// ---------------------------------------------------------------------------

proof fn lemma_row_count(v: Seq<InterfaceView>)
    ensures
        interface_rows(v).len() == rows_for_all(v),
    decreases v.len(),
{
    if v.len() > 0 {
        lemma_row_count(v.drop_last());
    }
}

proof fn lemma_most_is_greatest(v: Seq<InterfaceView>, budget: nat, n: nat)
    requires
        0 < budget,
        n <= v.len(),
    ensures
        ({
            let k = most_with_a_row_free(v, budget, n);
            &&& k <= n
            &&& rows_for_all(v.take(k as int)) < budget
            &&& k < n ==> rows_for_all(v.take(k as int + 1)) >= budget
        }),
    decreases n,
{
    assert(v.take(0) =~= seq![]);
    if n > 0 && rows_for_all(v.take(n as int)) >= budget {
        lemma_most_is_greatest(v, budget, (n - 1) as nat);
    }
}

/// The overview's table of interfaces has no more rows than it has room for,
/// so that nothing of it is cut off.
pub proof fn law_overview_rows_fit(v: Seq<InterfaceView>, budget: nat)
    requires
        v.len() > 0,
    ensures
        overview_rows(v, budget).len() <= budget,
{
    let (shown, extra) = visible_of(v, budget);
    lemma_row_count(v.take(shown as int));
    if budget == 0 {
        assert(v.take(0) =~= seq![]);
    } else if rows_for_all(v) <= budget {
        assert(v.take(v.len() as int) =~= v);
    } else {
        lemma_rows_bound(v);
        lemma_most_is_greatest(v, budget, (v.len() - 1) as nat);
    }
}

/// With a row to say it in, every interface is either shown or counted among
/// those that are left out.
pub proof fn law_no_interface_is_lost(v: Seq<InterfaceView>, budget: nat)
    requires
        budget > 0,
    ensures
        visible_of(v, budget).0 + visible_of(v, budget).1 == v.len(),
{
    if rows_for_all(v) > budget {
        lemma_most_is_greatest(v, budget, (v.len() - 1) as nat);
    }
}

/// No interface is left out that there is room for: all of them are shown if
/// they fit, and otherwise one more would leave no row to say how many are
/// left out.
pub proof fn law_as_many_interfaces_as_fit(v: Seq<InterfaceView>, budget: nat)
    requires
        budget > 0,
    ensures
        ({
            let (shown, extra) = visible_of(v, budget);
            &&& extra == 0 <==> rows_for_all(v) <= budget
            &&& extra > 1 ==> rows_for_all(v.take(shown as int + 1)) >= budget
        }),
{
    if rows_for_all(v) > budget {
        lemma_rows_bound(v);
        lemma_most_is_greatest(v, budget, (v.len() - 1) as nat);
    }
}

/// The VRFs that are shown, and the line that says how many are left out, fit
/// into the room there is, and no VRF is lost.
pub proof fn law_vrfs_fit(total: nat, budget: nat)
    ensures
        ({
            let (shown, extra) = vrfs_visible(total, budget);
            &&& shown + (if extra > 0 {
                1int
            } else {
                0int
            }) <= budget
            &&& budget > 0 ==> shown + extra == total
            &&& total <= budget ==> shown == total
        }),
{
}

/// The panel on FRR has no more lines than it has room for, unless what comes
/// before the BGP peers already takes more.
pub proof fn law_frr_panel_fits(height: nat, active: bool, f: FrrView)
    ensures
        ({
            let n = frr_panel_lines(height, active, f).len();
            n <= less_by(height, 2) || n == frr_summary(active, f).len()
        }),
{
}

/// A VRF is shown as well only if it has peers and all of them are up; one
/// without peers is neither well nor unwell.
pub proof fn law_only_full_vrfs_are_well(established: u32, total: u32)
    ensures
        vrf_color(established, total) == OK <==> total > 0 && established == total,
        vrf_color(established, total) == MUTED <==> total == 0,
        vrf_color(established, total) == BAD <==> total > 0 && established == 0,
{
}

/// A listing is never scrolled past its end: where it does not fit, its last
/// row is at the bottom or further down, and where it fits, it is not scrolled
/// at all.
pub proof fn law_scrolling_stops_at_the_end(scroll: u16, rows: nat, visible: nat)
    ensures
        clamped(scroll, rows, visible) <= scroll,
        rows <= visible ==> clamped(scroll, rows, visible) == 0,
        rows > visible ==> clamped(scroll, rows, visible) + visible <= rows,
{
}

/// Scrolling as far as it goes shows the last row at the bottom, as far as
/// sixteen bits hold the number of rows.
pub proof fn law_the_end_can_be_reached(rows: nat, visible: nat)
    requires
        visible < rows <= u16::MAX,
    ensures
        clamped(u16::MAX, rows, visible) + visible == rows,
{
}

/// There is a scrollbar exactly where there is more than fits. No screen shows
/// as many rows as sixteen bits count.
pub proof fn law_scrollbar_means_more(area: Rect, rows: nat, visible: nat, at: u16)
    requires
        visible < u16::MAX,
    ensures
        scrollbar_of(area, rows, visible, at).len() > 0 <==> rows > visible,
{
}

/// The full listing of interfaces leaves nothing out.
pub proof fn law_listing_is_full(v: Seq<InterfaceView>)
    requires
        v.len() > 0,
    ensures
        detail_rows(v).len() == rows_for_all(v),
        forall|i: int|
            0 <= i < v.len() ==> detail_rows(v).contains(interface_row(#[trigger] v[i])) && (
            v[i].addrs.len() > 0 ==> detail_rows(v).contains(address_row(v[i]))),
{
    lemma_row_count(v);
    assert forall|i: int| 0 <= i < v.len() implies interface_rows(v).contains(
        interface_row(#[trigger] v[i]),
    ) && (v[i].addrs.len() > 0 ==> interface_rows(v).contains(address_row(v[i]))) by {
        lemma_rows_contain(v, i);
    }
}

/// The full listing of VRFs leaves none out, and keeps their order.
pub proof fn law_vrf_listing_is_full(v: Seq<(Seq<char>, u32, u32)>, i: int)
    requires
        0 <= i < v.len(),
    ensures
        vrf_rows(true, v).len() == v.len(),
        vrf_rows(true, v)[i] == vrf_row(v[i]),
{
}

proof fn lemma_rows_contain(v: Seq<InterfaceView>, i: int)
    requires
        0 <= i < v.len(),
    ensures
        interface_rows(v).contains(interface_row(v[i])),
        v[i].addrs.len() > 0 ==> interface_rows(v).contains(address_row(v[i])),
    decreases v.len(),
{
    let before = interface_rows(v.drop_last());
    let rows = interface_rows(v);
    let n = before.len() as int;
    if i == v.len() - 1 {
        assert(rows[n] == interface_row(v[i]));
        if v[i].addrs.len() > 0 {
            assert(rows[n + 1] == address_row(v[i]));
        }
    } else {
        lemma_rows_contain(v.drop_last(), i);
        assert(v.drop_last()[i] == v[i]);
        assert(rows.take(n) =~= before);
        let a = choose|a: int| 0 <= a < n && before[a] == interface_row(v[i]);
        assert(rows[a] == before[a]);
        if v[i].addrs.len() > 0 {
            let b = choose|b: int| 0 <= b < n && before[b] == address_row(v[i]);
            assert(rows[b] == before[b]);
        }
    }
}

/// What a cell shows.
pub open spec fn cell_text(c: CellView) -> Seq<char> {
    match c {
        CellView::Empty => seq![],
        CellView::Text(t) => t,
        CellView::Styled(s) => s.text,
    }
}

/// The color of what a cell shows.
pub open spec fn cell_color(c: CellView) -> Option<Color> {
    match c {
        CellView::Styled(s) => s.style.fg,
        _ => None,
    }
}

/// What a line shows, span by span.
pub open spec fn line_texts(l: LineView) -> Seq<Seq<char>> {
    match l {
        LineView::Spans(v) => Seq::new(v.len(), |i: int| v[i].text),
        LineView::Text(t, _) => seq![t],
    }
}

/// An interface's row of addresses shows every one of them: splitting the third
/// cell at white space gives back the list. The cells in front are empty.
pub proof fn law_every_address_is_shown(i: InterfaceView)
    requires
        forall|k: int|
            0 <= k < i.addrs.len() ==> (#[trigger] i.addrs[k]).len() > 0 && none_white(i.addrs[k]),
    ensures
        address_row(i).len() == 3,
        cell_text(address_row(i)[0]).len() == 0,
        cell_text(address_row(i)[1]).len() == 0,
        words_of(cell_text(address_row(i)[2])) == i.addrs,
        cell_color(address_row(i)[2]) == Some(Color::DarkGray),
{
    law_joined_words_are_had_back(i.addrs);
}

/// Two interfaces whose addresses differ, in whatever place, have different
/// rows of addresses.
pub proof fn law_other_addresses_are_shown_otherwise(i: InterfaceView, j: InterfaceView)
    requires
        forall|k: int|
            0 <= k < i.addrs.len() ==> (#[trigger] i.addrs[k]).len() > 0 && none_white(i.addrs[k]),
        forall|k: int|
            0 <= k < j.addrs.len() ==> (#[trigger] j.addrs[k]).len() > 0 && none_white(j.addrs[k]),
    ensures
        i.addrs != j.addrs ==> address_row(i) != address_row(j),
{
    law_every_address_is_shown(i);
    law_every_address_is_shown(j);
}

/// One address more is shown behind the others, after a space, whatever it is.
pub proof fn law_one_address_more(i: InterfaceView, j: InterfaceView, addr: Seq<char>)
    requires
        j.addrs == i.addrs.push(addr),
    ensures
        i.addrs.len() == 0 ==> cell_text(address_row(j)[2]) == addr,
        i.addrs.len() > 0 ==> cell_text(address_row(j)[2]) == cell_text(address_row(i)[2]).push(' ')
            + addr,
{
    reveal_strlit(" ");
    assert(i.addrs.push(addr).drop_last() =~= i.addrs);
    let t = join_of(i.addrs, " "@);
    assert(t + " "@ =~= t.push(' '));
}

/// An interface's first row shows its name, whether it is up, and how fast it
/// is, or a dash.
pub proof fn law_interface_is_shown(i: InterfaceView)
    ensures
        interface_row(i).len() == 3,
        cell_text(interface_row(i)[0]) == i.name,
        i.up ==> cell_text(interface_row(i)[1]) == "UP"@ && cell_color(interface_row(i)[1]) == Some(
            Color::Green,
        ),
        !i.up ==> cell_text(interface_row(i)[1]) == "DOWN"@ && cell_color(interface_row(i)[1])
            == Some(Color::Red),
        i.rate is None ==> cell_text(interface_row(i)[2]) == "-"@,
        i.rate matches Some(rate) ==> cell_text(interface_row(i)[2]) == "rx "@ + rate_text(rate.0)
            + " / tx "@ + rate_text(rate.1),
{
}

/// One interface more adds its row, and its addresses' row if it has any,
/// behind those of the others.
pub proof fn law_one_interface_more(v: Seq<InterfaceView>, i: InterfaceView)
    ensures
        interface_rows(seq![]).len() == 0,
        i.addrs.len() == 0 ==> interface_rows(v.push(i)) == interface_rows(v).push(
            interface_row(i),
        ),
        i.addrs.len() > 0 ==> interface_rows(v.push(i)) == interface_rows(v).push(
            interface_row(i),
        ).push(address_row(i)),
{
    assert(v.push(i).drop_last() =~= v);
}

/// The overview shows the rows of the first interfaces. Where some are left
/// out, the last row says how many; where none is, there is no such row.
pub proof fn law_overview_shows_the_first(v: Seq<InterfaceView>, budget: nat)
    requires
        v.len() > 0,
        budget > 0,
    ensures
        exists|n: int|
            0 <= n <= v.len() && {
                let rows = overview_rows(v, budget);
                let first = #[trigger] interface_rows(v.take(n));
                if n == v.len() {
                    rows == first
                } else {
                    &&& rows.len() == first.len() + 1
                    &&& rows.drop_last() == first
                    &&& rows.last().len() == 1
                    &&& cell_text(rows.last()[0]) == "... +"@ + decimal((v.len() - n) as nat)
                        + " more"@
                }
            },
{
    law_no_interface_is_lost(v, budget);
    let (shown, extra) = visible_of(v, budget);
    let rows = overview_rows(v, budget);
    let first = interface_rows(v.take(shown as int));
    if extra > 0 {
        assert(rows.drop_last() =~= first);
    }
}

/// A VRF shows its name and how many of its peers are established, in the
/// listing and in the overview, in the color that tells how it fares.
pub proof fn law_vrf_is_shown(c: (Seq<char>, u32, u32))
    ensures
        ({
            let told = decimal(c.1 as nat) + "/"@ + decimal(c.2 as nat) + " established"@;
            &&& vrf_row(c).len() == 2
            &&& cell_text(vrf_row(c)[0]) == c.0
            &&& cell_text(vrf_row(c)[1]) == told
            &&& cell_color(vrf_row(c)[1]) == Some(vrf_color(c.1, c.2))
            &&& line_texts(vrf_line(c)) == seq!["  "@ + padded(c.0, 20) + " "@, told]
            &&& vrf_line(c) matches LineView::Spans(v) && v[1].style.fg == Some(
                vrf_color(c.1, c.2),
            )
        }),
{
    let told = decimal(c.1 as nat) + "/"@ + decimal(c.2 as nat) + " established"@;
    assert(line_texts(vrf_line(c)) =~= seq!["  "@ + padded(c.0, 20) + " "@, told]);
}

/// The overview tells of the BGP peers under a heading: the first VRFs in
/// order, and how many are left out. Where there is room for one line alone it
/// tells how many VRFs there are.
pub proof fn law_overview_shows_vrfs(v: Seq<(Seq<char>, u32, u32)>, budget: nat)
    requires
        v.len() > 0,
    ensures
        budget == 0 ==> bgp_lines(v, budget).len() == 0,
        budget == 1 ==> bgp_lines(v, budget).len() == 1 && line_texts(bgp_lines(v, budget)[0])
            == seq!["BGP peers: "@ + decimal(v.len()) + " VRF(s), no room to list"@],
        budget > 1 ==> line_texts(bgp_lines(v, budget)[0]) == seq!["BGP peers (per VRF):"@],
        v.len() < budget ==> {
            &&& bgp_lines(v, budget).len() == v.len() + 1
            &&& forall|i: int|
                0 <= i < v.len() ==> bgp_lines(v, budget)[i + 1] == #[trigger] vrf_line(v[i])
        },
        1 < budget <= v.len() ==> {
            &&& bgp_lines(v, budget).len() == budget
            &&& forall|i: int|
                0 <= i < budget - 2 ==> bgp_lines(v, budget)[i + 1] == #[trigger] vrf_line(v[i])
            &&& line_texts(bgp_lines(v, budget).last()) == seq![
                "  ... +"@ + decimal((v.len() - (budget - 2)) as nat) + " more"@,
            ]
        },
{
    if budget == 1 {
        assert(line_texts(bgp_lines(v, budget)[0]) =~= seq![
            "BGP peers: "@ + decimal(v.len()) + " VRF(s), no room to list"@,
        ]);
    }
    if budget > 1 {
        assert(line_texts(bgp_lines(v, budget)[0]) =~= seq!["BGP peers (per VRF):"@]);
        if budget <= v.len() {
            assert(line_texts(bgp_lines(v, budget).last()) =~= seq![
                "  ... +"@ + decimal((v.len() - (budget - 2)) as nat) + " more"@,
            ]);
        }
    }
}

/// What is said of FRR: whether its service runs first, in a color; while it
/// runs, its daemons and its routes, as far as they are known.
pub proof fn law_frr_is_shown(active: bool, f: FrrView)
    ensures
        ({
            let lines = frr_summary(active, f);
            let known: int = if f.daemons.len() > 0 {
                1
            } else {
                0
            };
            &&& active ==> line_texts(lines[0]) == seq!["frr.service: "@, "active"@]
            &&& !active ==> lines.len() == 1 && line_texts(lines[0]) == seq![
                "frr.service: "@,
                "inactive"@,
            ]
            &&& active && f.daemons.len() > 0 ==> line_texts(lines[1]) == seq![
                "daemons: "@ + f.daemons,
            ]
            &&& active && f.route_summary is Some ==> line_texts(lines[1 + known]) == seq![
                "IPv4 RIB: "@ + f.route_summary->0,
            ]
            &&& active ==> lines.len() == 1 + known + (if f.route_summary is Some {
                1int
            } else {
                0int
            })
        }),
{
    let lines = frr_summary(active, f);
    if active {
        assert(line_texts(lines[0]) =~= seq!["frr.service: "@, "active"@]);
        if f.daemons.len() > 0 {
            assert(line_texts(lines[1]) =~= seq!["daemons: "@ + f.daemons]);
        }
        if f.route_summary is Some {
            assert(line_texts(lines.last()) =~= seq!["IPv4 RIB: "@ + f.route_summary->0]);
        }
    } else {
        assert(line_texts(lines[0]) =~= seq!["frr.service: "@, "inactive"@]);
    }
}

/// The overview's panel on FRR says that and then, while the service runs, as
/// much of the BGP peers as the rest of the panel has lines inside its border.
pub proof fn law_frr_panel_uses_its_room(height: nat, active: bool, f: FrrView)
    requires
        height >= 2 + frr_summary(active, f).len(),
    ensures
        !active ==> frr_panel_lines(height, active, f) == frr_summary(active, f),
        active ==> frr_panel_lines(height, active, f) == frr_summary(active, f) + bgp_lines(
            f.bgp_vrf_peers,
            (height - 2 - frr_summary(active, f).len()) as nat,
        ),
{
}

/// A sync service shows its label and how it fares; one that failed also shows
/// where to read why.
pub proof fn law_unit_is_shown(u: SyncUnitView)
    ensures
        unit_row(u).len() == 3,
        cell_text(unit_row(u)[0]) == u.label,
        u.health == SyncHealth::Failed ==> {
            &&& cell_text(unit_row(u)[1]) == "FAILED"@
            &&& cell_color(unit_row(u)[1]) == Some(Color::Red)
            &&& cell_text(unit_row(u)[2]) == "journalctl -u "@ + u.service
        },
        u.health == SyncHealth::TimerNotActive ==> {
            &&& cell_text(unit_row(u)[1]) == "timer not active"@
            &&& cell_color(unit_row(u)[1]) == Some(Color::Yellow)
            &&& cell_text(unit_row(u)[2]).len() == 0
        },
        u.health == SyncHealth::Healthy ==> {
            &&& cell_text(unit_row(u)[1]) == "ok"@
            &&& cell_color(unit_row(u)[1]) == Some(Color::Green)
            &&& cell_text(unit_row(u)[2]).len() == 0
        },
{
}

/// Every sync service has its row, in order.
pub proof fn law_all_units_are_shown(area: Rect, s: SnapshotView, i: int)
    requires
        0 <= i < s.sync_units.len(),
    ensures
        sync_table_of(area, s).area == area,
        sync_table_of(area, s).widget is Table,
        sync_table_of(area, s).widget->rows.len() == s.sync_units.len(),
        sync_table_of(area, s).widget->rows[i] == unit_row(s.sync_units[i]),
{
}

/// The header shows the host, the time and how long it has been up, in this
/// order.
pub proof fn law_header_is_shown(area: Rect, s: SnapshotView)
    ensures
        header_of(area, s).area == area,
        header_of(area, s).widget matches WidgetView::Paragraph { panel, lines } && lines.len() == 1
            && line_texts(lines[0]) == seq![
            " "@ + s.hostname + " "@,
            "frr-bootc router console"@,
            "   "@,
            s.now,
            "   uptime "@,
            s.uptime,
        ],
{
    if let WidgetView::Paragraph { panel, lines } = header_of(area, s).widget {
        assert(line_texts(lines[0]) =~= seq![
            " "@ + s.hostname + " "@,
            "frr-bootc router console"@,
            "   "@,
            s.now,
            "   uptime "@,
            s.uptime,
        ]);
    }
}

/// The tab bar marks the active tab among the three by its title.
pub proof fn law_active_tab_is_marked(area: Rect, active: Tab)
    ensures
        tab_bar_of(area, active).area == area,
        tab_bar_of(area, active).widget is Tabs,
        ({
            let w = tab_bar_of(area, active).widget;
            &&& w->titles == seq!["Overview"@, "Interfaces"@, "FRR / BGP"@]
            &&& w->selected < 3
            &&& active == Tab::Overview ==> w->titles[w->selected as int] == "Overview"@
            &&& active == Tab::Interfaces ==> w->titles[w->selected as int] == "Interfaces"@
            &&& active == Tab::Frr ==> w->titles[w->selected as int] == "FRR / BGP"@
        }),
{
}

/// A gauge is as full as it is told to be, but never more than full, and says
/// so. It is green below seventy percent, yellow below ninety, and red from
/// there on.
pub proof fn law_gauge_is_as_full_as_told(
    area: Rect,
    title: Seq<char>,
    percent: u16,
    label: Seq<char>,
)
    ensures
        ({
            let w = gauge_of(area, title, Some((percent, label))).widget;
            &&& w is Gauge
            &&& percent <= 100 ==> w->percent == percent
            &&& percent > 100 ==> w->percent == 100
            &&& w->Gauge_label == decimal(w->percent) + "%  "@ + label
            &&& w->percent <= 69 ==> w->Gauge_style.fg == Some(Color::Green)
            &&& 70 <= w->percent <= 89 ==> w->Gauge_style.fg == Some(Color::Yellow)
            &&& 90 <= w->percent ==> w->Gauge_style.fg == Some(Color::Red)
        }),
        ({
            let w = gauge_of(area, title, None).widget;
            w matches WidgetView::Paragraph { panel, lines } && lines.len() == 1 && line_texts(
                lines[0],
            ) == seq![" unknown"@]
        }),
{
    if let WidgetView::Paragraph { panel, lines } = gauge_of(area, title, None).widget {
        assert(line_texts(lines[0]) =~= seq![" unknown"@]);
    }
}

/// The row of gauges shows the load and the number of processors, and how much
/// of the memory and of the disk is used, each in its own part.
pub proof fn law_gauges_are_shown(parts: Seq<Rect>, s: SnapshotView)
    requires
        parts.len() == 3,
    ensures
        ({
            let d = stats_of(parts, s);
            &&& d.len() == 3
            &&& d[0].area == parts[0] && d[1].area == parts[1] && d[2].area == parts[2]
            &&& d[0].widget matches WidgetView::Paragraph { panel, lines } && lines.len() == 1
                && line_texts(lines[0]) == seq![
                " "@ + s.load_average + "   ("@ + decimal(s.cpu_count) + " CPUs)"@,
            ]
            &&& s.memory is Some ==> d[1].widget is Gauge && d[1].widget->Gauge_label == decimal(
                d[1].widget->percent,
            ) + "%  "@ + (bytes_text(s.memory->0.used) + " / "@ + bytes_text(s.memory->0.total))
            &&& s.disk is Some ==> {
                &&& d[2].widget is Gauge
                &&& s.disk->0.percent_used <= 100 ==> d[2].widget->percent
                    == s.disk->0.percent_used
                &&& d[2].widget->Gauge_label == decimal(d[2].widget->percent) + "%  "@ + (
                bytes_text(s.disk->0.used) + " / "@ + bytes_text(s.disk->0.total))
            }
            &&& s.memory is None ==> d[1].widget is Paragraph
            &&& s.disk is None ==> d[2].widget is Paragraph
        }),
{
    if let WidgetView::Paragraph { panel, lines } = stats_of(parts, s)[0].widget {
        assert(line_texts(lines[0]) =~= seq![
            " "@ + s.load_average + "   ("@ + decimal(s.cpu_count) + " CPUs)"@,
        ]);
    }
}

/// The panel on the system image shows every line of its status, in order.
pub proof fn law_image_is_shown(area: Rect, status: Seq<char>, i: int)
    requires
        0 <= i < lines_of(status).len(),
    ensures
        image_panel_of(area, status).widget matches WidgetView::Paragraph { panel, lines }
            && lines.len() == lines_of(status).len() && line_texts(lines[i]) == seq![
            lines_of(status)[i],
        ],
{
    if let WidgetView::Paragraph { panel, lines } = image_panel_of(area, status).widget {
        assert(line_texts(lines[i]) =~= seq![lines_of(status)[i]]);
    }
}

/// The footer names the keys of the three tabs and of the shell on every tab,
/// and the keys that scroll on every tab but the overview. At its end it says
/// how often the data is gathered.
pub proof fn law_footer_names_the_keys(tab: Tab, refresh_secs: u64)
    ensures
        ({
            let spans = footer_spans(tab, refresh_secs);
            let n: int = if tab == Tab::Overview {
                9
            } else {
                15
            };
            &&& spans.len() == n + 4
            &&& spans[0].text == "1"@ && spans[1].text == "Overview"@
            &&& spans[3].text == "2"@ && spans[4].text == "Interfaces"@
            &&& spans[6].text == "3"@ && spans[7].text == "FRR/BGP"@
            &&& tab != Tab::Overview ==> spans[9].text == "\u{2191}\u{2193}"@ && spans[10].text
                == "Scroll"@ && spans[12].text == "PgUp/PgDn"@ && spans[13].text == "Page"@
            &&& spans[n].text == "b"@ && spans[n + 1].text == "Shell"@
            &&& spans.last().text == "  (every "@ + decimal(refresh_secs as nat) + "s)"@
        }),
{
}

/// The overview's table of interfaces has the room of its area but for its
/// border and its header, and is never scrolled.
pub proof fn law_interfaces_have_room(area: Rect, s: SnapshotView)
    ensures
        ({
            let d = interfaces_table_of(area, s);
            &&& d.area == area
            &&& d.widget is Table
            &&& d.widget->offset == 0
            &&& d.widget->header == seq!["Interface"@, "State"@, "Throughput / Address"@]
            &&& area.height >= 3 ==> d.widget->rows == overview_rows(
                s.interfaces,
                (area.height - 3) as nat,
            )
            &&& s.interfaces.len() == 0 ==> d.widget->rows.len() == 1 && cell_text(
                d.widget->rows[0][0],
            ) == "(none)"@
        }),
{
}

/// The listing of interfaces says how many there are, and shows all their rows
/// from where it is scrolled to.
pub proof fn law_listing_is_scrolled(area: Rect, s: SnapshotView, scroll: u16)
    ensures
        ({
            let d = interfaces_detail_of(area, s, scroll);
            &&& d[0].area == area
            &&& d[0].widget is Table
            &&& d[0].widget->rows == detail_rows(s.interfaces)
            &&& d[0].widget->offset == interfaces_at(area, s, scroll)
            &&& d[0].widget->Table_panel == Some(
                panel_of("Network Interfaces ("@ + decimal(s.interfaces.len()) + " total)"@),
            )
            &&& s.interfaces.len() == 0 ==> d[0].widget->rows.len() == 1 && cell_text(
                d[0].widget->rows[0][0],
            ) == "(none)"@
            &&& scroll + less_by(area.height as nat, 3) <= detail_rows(s.interfaces).len()
                <= u16::MAX ==> d[0].widget->offset == scroll
        }),
{
}

/// The listing of VRFs shows what is said of FRR and then all their rows, from
/// where the listing is scrolled to.
pub proof fn law_vrf_listing_is_scrolled(
    area: Rect,
    parts: Seq<Rect>,
    s: SnapshotView,
    scroll: u16,
)
    requires
        parts.len() == 2,
    ensures
        ({
            let d = frr_detail_of(area, parts, s, scroll);
            let n = s.frr.bgp_vrf_peers.len();
            &&& d.len() >= 3
            &&& d[0].area == area && d[1].area == parts[0] && d[2].area == parts[1]
            &&& d[1].widget matches WidgetView::Paragraph { panel, lines } && lines == frr_summary(
                s.frr_service_active,
                s.frr,
            )
            &&& d[2].widget is Table
            &&& d[2].widget->header == seq!["VRF"@, "BGP Peers"@]
            &&& s.frr_service_active && n > 0 ==> d[2].widget->rows.len() == n
            &&& s.frr_service_active && n == 0 ==> d[2].widget->rows.len() == 1 && cell_text(
                d[2].widget->rows[0][0],
            ) == "(no BGP peers)"@
            &&& !s.frr_service_active ==> d[2].widget->rows.len() == 0
            &&& s.frr_service_active && scroll + less_by(parts[1].height as nat, 1) <= n <= u16::MAX
                ==> d[2].widget->offset == scroll
        }),
{
}

/// An interface takes a row, and a second one exactly if it has addresses.
pub proof fn law_addresses_take_a_row(v: Seq<InterfaceView>, i: InterfaceView)
    ensures
        rows_for_all(seq![]) == 0,
        i.addrs.len() == 0 ==> rows_for_all(v.push(i)) == rows_for_all(v) + 1,
        i.addrs.len() > 0 ==> rows_for_all(v.push(i)) == rows_for_all(v) + 2,
{
    assert(v.push(i).drop_last() =~= v);
}

/// A scrollbar tells how many rows there are, as far as sixteen bits hold that,
/// which of them is at the top, and how many are seen at once.
pub proof fn law_scrollbar_tells_the_place(area: Rect, rows: nat, visible: nat, at: u16)
    requires
        visible < rows <= u16::MAX,
    ensures
        scrollbar_of(area, rows, visible, at) == seq![
            DrawnView {
                area,
                widget: WidgetView::Scrollbar {
                    total: rows,
                    position: at as nat,
                    viewport: visible,
                },
            },
        ],
{
}

} // verus!
