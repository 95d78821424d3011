//! What is to be drawn on the terminal: widgets, each with the area it is
//! drawn in.

use vstd::prelude::*;
use crate::text::texts;

verus! {

/// A color of the terminal.
#[derive(Clone, Copy, PartialEq, Eq, Debug, Structural)]
pub enum Color {
    Black,
    Red,
    Green,
    Yellow,
    Cyan,
    DarkGray,
}

/// What is as it should be.
pub const OK: Color = Color::Green;

/// What needs a look.
pub const WARN: Color = Color::Yellow;

/// What is broken.
pub const BAD: Color = Color::Red;

/// What stands out.
pub const ACCENT: Color = Color::Cyan;

/// What stays in the background.
pub const MUTED: Color = Color::DarkGray;

/// How a text is drawn. A color that is not given is the terminal's own.
#[derive(Clone, Copy, PartialEq, Eq, Debug)]
pub struct Style {
    pub fg: Option<Color>,
    pub bg: Option<Color>,
    pub bold: bool,
}

/// The terminal's own style.
pub open spec fn plain_style() -> Style {
    Style { fg: None, bg: None, bold: false }
}

/// The terminal's own style.
pub fn plain() -> (r: Style)
    ensures
        r == plain_style(),
{
    Style { fg: None, bg: None, bold: false }
}

/// A style in a color.
pub open spec fn color_style(c: Color) -> Style {
    Style { fg: Some(c), bg: None, bold: false }
}

/// A style in a color.
pub fn colored(c: Color) -> (r: Style)
    ensures
        r == color_style(c),
{
    Style { fg: Some(c), bg: None, bold: false }
}

/// A bold style in a color.
pub open spec fn bold_style(c: Color) -> Style {
    Style { fg: Some(c), bg: None, bold: true }
}

/// A bold style in a color.
pub fn bold(c: Color) -> (r: Style)
    ensures
        r == bold_style(c),
{
    Style { fg: Some(c), bg: None, bold: true }
}

/// A text in one style.
#[derive(Debug)]
pub struct Span {
    pub text: String,
    pub style: Style,
}

/// A span as a mathematical value.
pub struct SpanView {
    pub text: Seq<char>,
    pub style: Style,
}

impl View for Span {
    type V = SpanView;

    open spec fn view(&self) -> SpanView {
        SpanView { text: self.text@, style: self.style }
    }
}

/// Spans as mathematical values.
pub open spec fn span_views(v: Seq<Span>) -> Seq<SpanView> {
    Seq::new(v.len(), |i: int| v[i]@)
}

/// A text in the terminal's own style.
pub open spec fn raw_span(text: Seq<char>) -> SpanView {
    SpanView { text, style: plain_style() }
}

/// A text in a style.
pub open spec fn styled_span(text: Seq<char>, style: Style) -> SpanView {
    SpanView { text, style }
}

impl Span {
    /// A text in the terminal's own style.
    pub fn raw(text: &str) -> (r: Span)
        ensures
            r@ == raw_span(text@),
    {
        Span { text: text.to_owned(), style: plain() }
    }

    /// A text in a style.
    pub fn styled(text: &str, style: Style) -> (r: Span)
        ensures
            r@ == styled_span(text@, style),
    {
        Span { text: text.to_owned(), style }
    }
}

/// A line: spans next to each other, or one text in a style.
#[derive(Debug)]
pub enum Line {
    Spans(Vec<Span>),
    Text(String, Style),
}

/// A line as a mathematical value.
pub enum LineView {
    Spans(Seq<SpanView>),
    Text(Seq<char>, Style),
}

impl View for Line {
    type V = LineView;

    open spec fn view(&self) -> LineView {
        match self {
            Line::Spans(v) => LineView::Spans(span_views(v@)),
            Line::Text(s, style) => LineView::Text(s@, *style),
        }
    }
}

/// Lines as mathematical values.
pub open spec fn line_views(v: Seq<Line>) -> Seq<LineView> {
    Seq::new(v.len(), |i: int| v[i]@)
}

/// Appending a line appends what it is.
pub proof fn lemma_line_push(v: Seq<Line>, l: Line)
    ensures
        line_views(v.push(l)) == line_views(v).push(l@),
{
    assert(line_views(v.push(l)) =~= line_views(v).push(l@));
}

/// A cell of a table.
#[derive(Debug)]
pub enum Cell {
    Empty,
    Text(String),
    Styled(Span),
}

/// A cell as a mathematical value.
pub enum CellView {
    Empty,
    Text(Seq<char>),
    Styled(SpanView),
}

impl View for Cell {
    type V = CellView;

    open spec fn view(&self) -> CellView {
        match self {
            Cell::Empty => CellView::Empty,
            Cell::Text(s) => CellView::Text(s@),
            Cell::Styled(s) => CellView::Styled(s@),
        }
    }
}

/// A row of a table.
#[derive(Debug)]
pub struct Row {
    pub cells: Vec<Cell>,
}

impl View for Row {
    type V = Seq<CellView>;

    open spec fn view(&self) -> Seq<CellView> {
        Seq::new(self.cells@.len(), |i: int| self.cells@[i]@)
    }
}

/// Rows as mathematical values.
pub open spec fn row_views(v: Seq<Row>) -> Seq<Seq<CellView>> {
    Seq::new(v.len(), |i: int| v[i]@)
}

/// Appending a row appends what it is.
pub proof fn lemma_row_push(v: Seq<Row>, r: Row)
    ensures
        row_views(v.push(r)) == row_views(v).push(r@),
{
    assert(row_views(v.push(r)) =~= row_views(v).push(r@));
}

/// A border round a widget, with rounded corners and perhaps a title.
#[derive(Debug)]
pub struct Panel {
    pub title: Option<Span>,
    pub border: Style,
}

/// A border as a mathematical value.
pub struct PanelView {
    pub title: Option<SpanView>,
    pub border: Style,
}

impl View for Panel {
    type V = PanelView;

    open spec fn view(&self) -> PanelView {
        PanelView {
            title: match self.title {
                Some(s) => Some(s@),
                None => None,
            },
            border: self.border,
        }
    }
}

/// A border that may be there.
pub open spec fn panel_view(p: Option<Panel>) -> Option<PanelView> {
    match p {
        Some(p) => Some(p@),
        None => None,
    }
}

/// A part of the terminal.
#[derive(Clone, Copy, PartialEq, Eq, Debug, Structural)]
pub struct Rect {
    pub x: u16,
    pub y: u16,
    pub width: u16,
    pub height: u16,
}

/// How much room a part of something is to have.
#[derive(Clone, Copy, PartialEq, Eq, Debug, Structural)]
pub enum Constraint {
    Length(u16),
    Min(u16),
    Percentage(u16),
    Fill(u16),
}

/// Something to be drawn.
#[derive(Debug)]
pub enum Widget {
    /// Lines of text.
    Paragraph { panel: Option<Panel>, lines: Vec<Line> },
    /// A table, scrolled down by some rows.
    Table {
        panel: Option<Panel>,
        header: Vec<String>,
        header_style: Style,
        widths: Vec<Constraint>,
        rows: Vec<Row>,
        offset: usize,
    },
    /// A bar that is filled to a percentage.
    Gauge { panel: Option<Panel>, style: Style, percent: u16, label: String },
    /// A list of titles, one of which is selected.
    Tabs {
        titles: Vec<String>,
        selected: usize,
        style: Style,
        highlight: Style,
        divider: String,
    },
    /// A scrollbar on the right edge.
    Scrollbar { total: usize, position: usize, viewport: usize },
    /// A border round nothing.
    Border(Panel),
}

/// A widget as a mathematical value.
pub enum WidgetView {
    Paragraph { panel: Option<PanelView>, lines: Seq<LineView> },
    Table {
        panel: Option<PanelView>,
        header: Seq<Seq<char>>,
        header_style: Style,
        widths: Seq<Constraint>,
        rows: Seq<Seq<CellView>>,
        offset: nat,
    },
    Gauge { panel: Option<PanelView>, style: Style, percent: nat, label: Seq<char> },
    Tabs {
        titles: Seq<Seq<char>>,
        selected: nat,
        style: Style,
        highlight: Style,
        divider: Seq<char>,
    },
    Scrollbar { total: nat, position: nat, viewport: nat },
    Border(PanelView),
}

impl View for Widget {
    type V = WidgetView;

    open spec fn view(&self) -> WidgetView {
        match self {
            Widget::Paragraph { panel, lines } => WidgetView::Paragraph {
                panel: panel_view(*panel),
                lines: line_views(lines@),
            },
            Widget::Table { panel, header, header_style, widths, rows, offset } => WidgetView::Table {
                panel: panel_view(*panel),
                header: texts(header@),
                header_style: *header_style,
                widths: widths@,
                rows: row_views(rows@),
                offset: *offset as nat,
            },
            Widget::Gauge { panel, style, percent, label } => WidgetView::Gauge {
                panel: panel_view(*panel),
                style: *style,
                percent: *percent as nat,
                label: label@,
            },
            Widget::Tabs { titles, selected, style, highlight, divider } => WidgetView::Tabs {
                titles: texts(titles@),
                selected: *selected as nat,
                style: *style,
                highlight: *highlight,
                divider: divider@,
            },
            Widget::Scrollbar { total, position, viewport } => WidgetView::Scrollbar {
                total: *total as nat,
                position: *position as nat,
                viewport: *viewport as nat,
            },
            Widget::Border(panel) => WidgetView::Border(panel@),
        }
    }
}

/// A widget and where it is drawn.
#[derive(Debug)]
pub struct Drawn {
    pub area: Rect,
    pub widget: Widget,
}

/// A drawing as a mathematical value.
pub struct DrawnView {
    pub area: Rect,
    pub widget: WidgetView,
}

impl View for Drawn {
    type V = DrawnView;

    open spec fn view(&self) -> DrawnView {
        DrawnView { area: self.area, widget: self.widget@ }
    }
}

/// Drawings as mathematical values.
pub open spec fn drawn_views(v: Seq<Drawn>) -> Seq<DrawnView> {
    Seq::new(v.len(), |i: int| v[i]@)
}

// ---------------------------------------------------------------------------
// Laws
// ---------------------------------------------------------------------------

/// What is drawn counts in full: every text with its style, every cell of a
/// row, every row, every line and every widget with its area, in order.
pub proof fn law_drawn_counts_in_full(
    spans: Seq<Span>,
    cells: Row,
    rows: Seq<Row>,
    lines: Seq<Line>,
    all: Seq<Drawn>,
    i: int,
)
    ensures
        span_views(spans).len() == spans.len(),
        0 <= i < spans.len() ==> span_views(spans)[i].text == spans[i].text@ && span_views(
            spans,
        )[i].style == spans[i].style,
        cells@.len() == cells.cells@.len(),
        0 <= i < cells.cells@.len() ==> match cells.cells@[i] {
            Cell::Empty => cells@[i] == CellView::Empty,
            Cell::Text(t) => cells@[i] == CellView::Text(t@),
            Cell::Styled(s) => cells@[i] is Styled && cells@[i]->Styled_0.text == s.text@
                && cells@[i]->Styled_0.style == s.style,
        },
        row_views(rows).len() == rows.len(),
        0 <= i < rows.len() ==> row_views(rows)[i] == rows[i]@,
        line_views(lines).len() == lines.len(),
        0 <= i < lines.len() ==> match lines[i] {
            Line::Spans(v) => line_views(lines)[i] == LineView::Spans(span_views(v@)),
            Line::Text(t, style) => line_views(lines)[i] == LineView::Text(t@, style),
        },
        drawn_views(all).len() == all.len(),
        0 <= i < all.len() ==> drawn_views(all)[i].area == all[i].area && drawn_views(all)[i].widget
            == all[i].widget@,
{
}

/// A color says the same everywhere: what is well is green, what needs a look
/// is yellow, and what is broken is red.
pub proof fn law_colors_are_told_apart(c: Color, d: Color)
    ensures
        OK == Color::Green && WARN == Color::Yellow && BAD == Color::Red,
        ACCENT == Color::Cyan && MUTED == Color::DarkGray,
        color_style(c).fg == Some(c) && !color_style(c).bold,
        bold_style(c).fg == Some(c) && bold_style(c).bold,
        plain_style().fg is None && plain_style().bg is None && !plain_style().bold,
        c != d ==> color_style(c) != color_style(d),
{
}

} // verus!
