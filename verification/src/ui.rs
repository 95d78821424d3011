//! The whole screen: how it is divided, and what is drawn in each part.

use vstd::prelude::*;
use crate::outside::{
    end_of, fits_across, fits_along, inner, inside, laid_out, split, start_of,
};
use crate::panels::{
    detail_rows, footer, footer_of, frr_detail_constraints, frr_detail_in, frr_detail_of,
    frr_detail_parts, frr_panel, frr_panel_of, header, header_of, image_panel, image_panel_of, interfaces_at,
    interfaces_detail, interfaces_detail_of, interfaces_table, interfaces_table_of, stats_constraints,
    stats_in, stats_of, stats_parts, sync_table, sync_table_of, tab_bar, tab_bar_of, vrf_rows,
    vrfs_at,
};
use crate::scene::{drawn_views, Constraint, Drawn, DrawnView, Rect};
use crate::snapshot::{Snapshot, SnapshotView};
use crate::state::{AppState, Tab};
use crate::text::{lines, lines_of, texts};

verus! {

/// The height of the panel on the system image: a row for each line of the
/// status and two for the border, as far as sixteen bits hold it. There is no
/// panel without a status.
pub open spec fn image_height(status: Option<Seq<char>>) -> u16 {
    match status {
        Some(s) => if lines_of(s).len() + 2 > u16::MAX {
            u16::MAX
        } else {
            (lines_of(s).len() + 2) as u16
        },
        None => 0,
    }
}

fn image_rows(snap: &Snapshot) -> (r: u16)
    ensures
        r == image_height(snap@.bootc_status),
{
    match &snap.bootc_status {
        Some(s) => {
            let n = lines(s.as_str());
            proof {
                assert(texts(n@).len() == n.len());
            }
            if n.len() > 0xffff - 2 {
                u16::MAX
            } else {
                n.len() as u16 + 2
            }
        },
        None => 0,
    }
}

/// How the screen is divided. On the overview, the panels on the interfaces
/// and on FRR share what the others leave, three to two.
pub open spec fn screen_parts(tab: Tab, image: u16) -> Seq<Constraint> {
    let head = seq![Constraint::Length(3), Constraint::Length(1)];
    let body = match tab {
        Tab::Overview => {
            let panels = seq![
                Constraint::Length(3),
                Constraint::Fill(3),
                Constraint::Fill(2),
                Constraint::Length(6),
            ];
            if image > 0 {
                panels.push(Constraint::Length(image))
            } else {
                panels
            }
        },
        Tab::Interfaces | Tab::Frr => seq![Constraint::Fill(1)],
    };
    (head + body).push(Constraint::Length(1))
}

fn screen_constraints(tab: Tab, image: u16) -> (r: Vec<Constraint>)
    ensures
        r@ == screen_parts(tab, image),
{
    let mut v = vec![Constraint::Length(3), Constraint::Length(1)];
    match tab {
        Tab::Overview => {
            v.push(Constraint::Length(3));
            v.push(Constraint::Fill(3));
            v.push(Constraint::Fill(2));
            v.push(Constraint::Length(6));
            if image > 0 {
                v.push(Constraint::Length(image));
            }
        },
        Tab::Interfaces | Tab::Frr => {
            v.push(Constraint::Fill(1));
        },
    }
    v.push(Constraint::Length(1));
    proof {
        assert(v@ =~= screen_parts(tab, image));
    }
    v
}

/// How many parts the third part of the screen is divided into.
pub open spec fn inner_parts(tab: Tab) -> nat {
    match tab {
        Tab::Overview => 3,
        Tab::Interfaces => 0,
        Tab::Frr => 2,
    }
}

/// What the open tab shows, with the screen divided into `areas` and its third
/// part into `parts`.
pub open spec fn tab_of(
    areas: Seq<Rect>,
    parts: Seq<Rect>,
    s: SnapshotView,
    state: AppState,
) -> Seq<DrawnView> {
    match state.tab {
        Tab::Overview => {
            let panels = stats_of(parts, s) + seq![
                interfaces_table_of(areas[3], s),
                frr_panel_of(areas[4], s),
                sync_table_of(areas[5], s),
            ];
            match s.bootc_status {
                Some(status) => panels.push(image_panel_of(areas[6], status)),
                None => panels,
            }
        },
        Tab::Interfaces => interfaces_detail_of(areas[2], s, state.interfaces_scroll),
        Tab::Frr => frr_detail_of(areas[2], parts, s, state.frr_scroll),
    }
}

/// The whole screen, divided into `areas`, with its third part divided into
/// `parts`.
pub open spec fn screen_of(
    areas: Seq<Rect>,
    parts: Seq<Rect>,
    s: SnapshotView,
    state: AppState,
    refresh_secs: u64,
) -> Seq<DrawnView> {
    (seq![header_of(areas[0], s), tab_bar_of(areas[1], state.tab)] + tab_of(
        areas,
        parts,
        s,
        state,
    )).push(footer_of(areas.last(), state.tab, refresh_secs))
}

/// The state after the screen has been drawn: the open tab is scrolled no
/// further than to its end.
pub open spec fn settled(
    areas: Seq<Rect>,
    parts: Seq<Rect>,
    s: SnapshotView,
    state: AppState,
) -> AppState {
    match state.tab {
        Tab::Overview => state,
        Tab::Interfaces => AppState {
            interfaces_scroll: interfaces_at(areas[2], s, state.interfaces_scroll),
            ..state
        },
        Tab::Frr => AppState { frr_scroll: vrfs_at(parts[1], s, state.frr_scroll), ..state },
    }
}

/// Draws the screen, divided into `areas`, with its third part divided into
/// `parts`.
pub fn render_in(
    areas: &Vec<Rect>,
    parts: &Vec<Rect>,
    snap: &Snapshot,
    state: &mut AppState,
    refresh_secs: u64,
) -> (r: Vec<Drawn>)
    requires
        areas@.len() == screen_parts(old(state).tab, image_height(snap@.bootc_status)).len(),
        parts@.len() == inner_parts(old(state).tab),
    ensures
        *final(state) == settled(areas@, parts@, snap@, *old(state)),
        drawn_views(r@) == screen_of(areas@, parts@, snap@, *old(state), refresh_secs),
{
    let ghost before = *state;
    let mut out = vec![header(areas[0], snap), tab_bar(areas[1], state.tab)];
    let ghost head = out@;
    let mut body = match state.tab {
        Tab::Overview => {
            let mut v = stats_in(parts, snap);
            let ghost stats = v@;
            v.push(interfaces_table(areas[3], snap));
            v.push(frr_panel(areas[4], snap));
            v.push(sync_table(areas[5], snap));
            match &snap.bootc_status {
                Some(status) => {
                    v.push(image_panel(areas[6], status.as_str()));
                },
                None => {},
            }
            proof {
                assert(drawn_views(v@) =~= tab_of(areas@, parts@, snap@, before)) by {
                    assert(drawn_views(stats) =~= stats_of(parts@, snap@));
                    assert(forall|i: int|
                        0 <= i < stats.len() ==> drawn_views(v@)[i] == drawn_views(stats)[i]);
                }
            }
            v
        },
        Tab::Interfaces => interfaces_detail(areas[2], snap, &mut state.interfaces_scroll),
        Tab::Frr => frr_detail_in(areas[2], parts, snap, &mut state.frr_scroll),
    };
    let ghost shown = body@;
    out.append(&mut body);
    out.push(footer(areas[areas.len() - 1], state.tab, refresh_secs));
    proof {
        assert(drawn_views(head) =~= seq![
            header_of(areas@[0], snap@),
            tab_bar_of(areas@[1], before.tab),
        ]);
        assert(drawn_views(out@) =~= (drawn_views(head) + drawn_views(shown)).push(
            footer_of(areas@.last(), before.tab, refresh_secs),
        ));
    }
    out
}

/// Whether the third part of the screen is divided into `parts` as the open
/// tab wants it.
pub open spec fn divided(tab: Tab, area: Rect, parts: Seq<Rect>) -> bool {
    match tab {
        Tab::Overview => {
            &&& laid_out(false, stats_parts(), area, parts)
            &&& fits_across(false, 3, area, parts)
            &&& fits_along(false, area, parts)
        },
        Tab::Interfaces => parts == Seq::<Rect>::empty(),
        Tab::Frr => {
            &&& laid_out(true, frr_detail_parts(), inside(area), parts)
            &&& fits_across(true, 2, inside(area), parts)
            &&& fits_along(true, inside(area), parts)
        },
    }
}

/// Whether the screen is divided into `areas`, and its third part into
/// `parts`, as the open tab wants it.
pub open spec fn screen_divided(
    area: Rect,
    tab: Tab,
    image: u16,
    areas: Seq<Rect>,
    parts: Seq<Rect>,
) -> bool {
    &&& laid_out(true, screen_parts(tab, image), area, areas)
    &&& fits_across(true, screen_parts(tab, image).len(), area, areas)
    &&& fits_along(true, area, areas)
    &&& divided(tab, areas[2], parts)
}

/// Divides the row of gauges.
fn stats_areas(area: Rect) -> (r: Vec<Rect>)
    ensures
        divided(Tab::Overview, area, r@),
{
    split(false, &stats_constraints(), area)
}

/// Divides the inside of the listing of VRFs.
fn frr_detail_areas(area: Rect) -> (r: Vec<Rect>)
    ensures
        divided(Tab::Frr, area, r@),
{
    split(true, &frr_detail_constraints(), inner(area))
}

/// Divides the screen and draws it.
pub fn render(area: Rect, snap: &Snapshot, state: &mut AppState, refresh_secs: u64) -> (r: Vec<
    Drawn,
>)
    ensures
        exists|areas: Seq<Rect>, parts: Seq<Rect>|
            {
                &&& #[trigger] screen_divided(
                    area,
                    old(state).tab,
                    image_height(snap@.bootc_status),
                    areas,
                    parts,
                )
                &&& *final(state) == settled(areas, parts, snap@, *old(state))
                &&& drawn_views(r@) == screen_of(areas, parts, snap@, *old(state), refresh_secs)
            },
{
    let image: u16 = image_rows(snap);
    let tab = state.tab;
    let areas = split(true, &screen_constraints(tab, image), area);
    let parts: Vec<Rect> = match tab {
        Tab::Overview => stats_areas(areas[2]),
        Tab::Interfaces => Vec::new(),
        Tab::Frr => frr_detail_areas(areas[2]),
    };
    proof {
        assert(screen_divided(
            area,
            tab,
            image_height(snap@.bootc_status),
            areas@,
            parts@,
        ));
    }
    render_in(&areas, &parts, snap, state, refresh_secs)
}

// ---------------------------------------------------------------------------
// Laws
// ---------------------------------------------------------------------------

/// Drawing the same data again in the same room shows the same and moves
/// nothing.
pub proof fn law_drawing_settles(
    areas: Seq<Rect>,
    parts: Seq<Rect>,
    s: SnapshotView,
    state: AppState,
    refresh_secs: u64,
)
    ensures
        ({
            let after = settled(areas, parts, s, state);
            &&& settled(areas, parts, s, after) == after
            &&& screen_of(areas, parts, s, after, refresh_secs) == screen_of(
                areas,
                parts,
                s,
                state,
                refresh_secs,
            )
        }),
{
}

/// Drawing opens no other tab, and scrolls none but the open one.
pub proof fn law_drawing_keeps_the_tab(
    areas: Seq<Rect>,
    parts: Seq<Rect>,
    s: SnapshotView,
    state: AppState,
)
    ensures
        ({
            let after = settled(areas, parts, s, state);
            &&& after.tab == state.tab
            &&& state.tab != Tab::Interfaces ==> after.interfaces_scroll == state.interfaces_scroll
            &&& state.tab != Tab::Frr ==> after.frr_scroll == state.frr_scroll
        }),
{
}

/// The parts of a screen lie inside it, one under the other, as wide as it is.
/// Where its third part is divided again, those parts do not overlap either.
pub proof fn law_parts_do_not_overlap(
    area: Rect,
    tab: Tab,
    image: u16,
    areas: Seq<Rect>,
    parts: Seq<Rect>,
)
    requires
        screen_divided(area, tab, image, areas, parts),
    ensures
        forall|i: int|
            0 <= i < areas.len() ==> area.y <= (#[trigger] areas[i]).y && end_of(true, areas[i])
                <= end_of(true, area) && areas[i].x == area.x && areas[i].width == area.width,
        forall|i: int, j: int|
            0 <= i < j < areas.len() ==> end_of(true, #[trigger] areas[i]) <= (
            #[trigger] areas[j]).y,
        forall|i: int, j: int|
            0 <= i < j < parts.len() ==> end_of(tab == Tab::Frr, #[trigger] parts[i]) <= start_of(
                tab == Tab::Frr,
                #[trigger] parts[j],
            ),
{
}

/// Every tab has the header at the top, the tab bar with its own title marked
/// under it, and the footer at the bottom, and shows its own data between them.
pub proof fn law_every_tab_is_framed(
    areas: Seq<Rect>,
    parts: Seq<Rect>,
    s: SnapshotView,
    state: AppState,
    refresh_secs: u64,
)
    requires
        areas.len() >= 4,
        parts.len() == inner_parts(state.tab),
    ensures
        ({
            let d = screen_of(areas, parts, s, state, refresh_secs);
            &&& d.len() > 3
            &&& d[0] == header_of(areas[0], s)
            &&& d[1] == tab_bar_of(areas[1], state.tab)
            &&& d.last() == footer_of(areas.last(), state.tab, refresh_secs)
            &&& state.tab == Tab::Overview ==> {
                &&& d.len() == (if s.bootc_status is Some {
                    10int
                } else {
                    9int
                })
                &&& d[2].area == parts[0] && d[3].area == parts[1] && d[4].area == parts[2]
                &&& d[5] == interfaces_table_of(areas[3], s)
                &&& d[6] == frr_panel_of(areas[4], s)
                &&& d[7] == sync_table_of(areas[5], s)
                &&& s.bootc_status matches Some(status) ==> d[8] == image_panel_of(areas[6], status)
            }
            &&& state.tab == Tab::Interfaces ==> d[2].area == areas[2] && d[2].widget is Table
                && d[2].widget->rows == detail_rows(s.interfaces)
            &&& state.tab == Tab::Frr ==> d[2].area == areas[2] && d[4].area == parts[1]
                && d[4].widget is Table && d[4].widget->rows == vrf_rows(
                s.frr_service_active,
                s.frr.bgp_vrf_peers,
            )
        }),
{
}

/// The panel on the image is as high as its lines and its border, as far as
/// sixteen bits hold that, and there is none where there is no status.
pub proof fn law_image_panel_is_as_high_as_needed(status: Seq<char>)
    ensures
        lines_of(status).len() + 2 <= u16::MAX ==> image_height(Some(status)) == lines_of(
            status,
        ).len() + 2,
        lines_of(status).len() + 2 > u16::MAX ==> image_height(Some(status)) == u16::MAX,
        image_height(None) == 0,
{
}

/// How the screen is divided: three rows for the header, one for the tab bar
/// and one for the footer on every tab, and between them all that is left for a
/// listing, or the panels of the overview.
pub proof fn law_screen_is_divided_by_tab(tab: Tab, image: u16)
    ensures
        ({
            let c = screen_parts(tab, image);
            &&& c[0] == Constraint::Length(3)
            &&& c[1] == Constraint::Length(1)
            &&& c.last() == Constraint::Length(1)
            &&& tab != Tab::Overview ==> c.len() == 4 && c[2] == Constraint::Fill(1)
            &&& tab == Tab::Overview ==> {
                &&& c.len() == (if image > 0 {
                    8int
                } else {
                    7int
                })
                &&& c[2] == Constraint::Length(3)
                &&& c[3] == Constraint::Fill(3)
                &&& c[4] == Constraint::Fill(2)
                &&& c[5] == Constraint::Length(6)
                &&& image > 0 ==> c[6] == Constraint::Length(image)
            }
        }),
{
}

} // verus!
