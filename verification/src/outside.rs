//! What the library takes on trust from the standard library and from other
//! crates.

use vstd::prelude::*;
use ratatui::layout;
use vstd::utf8::{decode_utf8, valid_utf8};
use crate::scene::{Constraint, Rect};

verus! {

/// What `String::from_utf8_lossy` makes of a string of bytes.
pub uninterp spec fn utf8_lossy(bytes: Seq<u8>) -> Seq<char>;

/// Whether bytes, if they are UTF-8, are made the text that they encode.
pub open spec fn decodes(bytes: Seq<u8>) -> bool {
    valid_utf8(bytes) ==> utf8_lossy(bytes) == decode_utf8(bytes)
}

/// Calls `String::from_utf8_lossy`: a text made of the bytes alone, with
/// replacement characters where they are not UTF-8, and exactly the text that
/// they encode where they are.
#[verifier::external_body]
pub(crate) fn from_utf8_lossy(bytes: &[u8]) -> (r: String)
    ensures
        r@ == utf8_lossy(bytes@),
        valid_utf8(bytes@) ==> r@ == decode_utf8(bytes@),
{
    String::from_utf8_lossy(bytes).into_owned()
}

/// A text as `str`'s `Debug` writes it: in double quotes, with escapes.
pub uninterp spec fn debug_quoted(s: Seq<char>) -> Seq<char>;

/// Whether a text is made of printable ASCII characters alone, and of none
/// that stands in quotes with a backslash.
pub open spec fn is_plain(s: Seq<char>) -> bool {
    forall|i: int|
        0 <= i < s.len() ==> ' ' <= #[trigger] s[i] && s[i] <= '~' && s[i] != '"' && s[i] != '\''
            && s[i] != '\\'
}

/// A text in double quotes.
pub open spec fn in_quotes(s: Seq<char>) -> Seq<char> {
    seq!['"'] + s + seq!['"']
}

/// Writes a text with `Debug`: a text made of the given one alone, and the
/// given one in double quotes where it is made of printable ASCII characters
/// other than quotes and backslashes. How the other characters are escaped
/// rests on tables of Unicode properties and is not stated.
#[verifier::external_body]
pub(crate) fn quote(s: &str) -> (r: String)
    ensures
        r@ == debug_quoted(s@),
        is_plain(s@) ==> r@ == in_quotes(s@),
{
    format!("{s:?}")
}

/// A network state of the `nmstate` crate.
#[verifier::external_type_specification]
#[verifier::external_body]
pub struct ExNetworkState(nmstate::NetworkState);

/// An error of the `nmstate` crate.
#[verifier::external_type_specification]
#[verifier::external_body]
pub struct ExNmstateError(nmstate::NmstateError);

/// Whether reading a text with `NetworkState::new_from_yaml` can come to this.
pub uninterp spec fn reads_as(
    yaml: Seq<char>,
    read: Result<nmstate::NetworkState, nmstate::NmstateError>,
) -> bool;

/// Whether a text is a desired state: a state can be read from it.
pub open spec fn is_desired_state(yaml: Seq<char>) -> bool {
    exists|state: nmstate::NetworkState| #[trigger] reads_as(yaml, Ok(state))
}

/// Calls `nmstate::NetworkState::new_from_yaml`, which reads a desired state
/// from a YAML document and touches nothing else. Whether it succeeds depends
/// on the text alone. What the state holds, or the error says, is only said to
/// be what was read from this text.
#[verifier::external_body]
pub(crate) fn read_desired_state(
    yaml: &str,
) -> (r: Result<nmstate::NetworkState, nmstate::NmstateError>)
    ensures
        reads_as(yaml@, r),
        (r is Ok) == is_desired_state(yaml@),
{
    nmstate::NetworkState::new_from_yaml(yaml)
}

/// Whether some parts are what `Layout` makes of an area: one next to the
/// other, or one under the other if `vertical`.
pub uninterp spec fn laid_out(
    vertical: bool,
    constraints: Seq<Constraint>,
    area: Rect,
    parts: Seq<Rect>,
) -> bool;

/// What any layout of an area is like: there is a part for each constraint,
/// and across the direction of the layout each part is as large as the area.
pub open spec fn fits_across(vertical: bool, n: nat, area: Rect, parts: Seq<Rect>) -> bool {
    &&& parts.len() == n
    &&& forall|i: int|
        0 <= i < parts.len() ==> if vertical {
            (#[trigger] parts[i]).x == area.x && parts[i].width == area.width
        } else {
            parts[i].y == area.y && parts[i].height == area.height
        }
}

/// Where a part starts along the direction of a layout.
pub open spec fn start_of(vertical: bool, r: Rect) -> int {
    if vertical {
        r.y as int
    } else {
        r.x as int
    }
}

/// Where a part ends along the direction of a layout: before this position.
/// None is beyond what sixteen bits hold.
pub open spec fn end_of(vertical: bool, r: Rect) -> int {
    let end = if vertical {
        r.y + r.height
    } else {
        r.x + r.width
    };
    if end > u16::MAX {
        u16::MAX as int
    } else {
        end
    }
}

/// What any layout of an area is like along its direction: each part lies
/// inside the area, and of up to a hundred parts each ends before the next one
/// starts.
pub open spec fn fits_along(vertical: bool, area: Rect, parts: Seq<Rect>) -> bool {
    &&& forall|i: int|
        0 <= i < parts.len() ==> {
            &&& start_of(vertical, area) <= start_of(vertical, #[trigger] parts[i])
            &&& end_of(vertical, parts[i]) <= end_of(vertical, area)
        }
    &&& parts.len() <= 100 ==> forall|i: int, j: int|
        0 <= i < j < parts.len() ==> end_of(vertical, #[trigger] parts[i]) <= start_of(
            vertical,
            #[trigger] parts[j],
        )
}

/// Calls `ratatui::layout::Layout::split`, with its default of no spacing and
/// no overlap. That the parts lie inside the area is required of the solver
/// that places them. That they do not overlap is wanted of it with a weight
/// that the wishes of a hundred parts do not reach. The solver walks hash maps,
/// so of how the length is divided it is otherwise only said that it is what
/// the solver made of these constraints.
#[verifier::external_body]
pub(crate) fn split(vertical: bool, constraints: &Vec<Constraint>, area: Rect) -> (r: Vec<Rect>)
    ensures
        laid_out(vertical, constraints@, area, r@),
        fits_across(vertical, constraints@.len(), area, r@),
        fits_along(vertical, area, r@),
{
    let parts = constraints.iter().map(|c| match c {
        Constraint::Length(n) => layout::Constraint::Length(*n),
        Constraint::Min(n) => layout::Constraint::Min(*n),
        Constraint::Percentage(n) => layout::Constraint::Percentage(*n),
        Constraint::Fill(n) => layout::Constraint::Fill(*n),
    });
    let Rect { x, y, width, height } = area;
    let direction = match vertical {
        true => layout::Direction::Vertical,
        false => layout::Direction::Horizontal,
    };
    let rects = layout::Layout::new(direction, parts).split(layout::Rect { x, y, width, height });
    rects.iter().map(|r| Rect { x: r.x, y: r.y, width: r.width, height: r.height }).collect()
}

/// What a border leaves of an area: all of it but its edges.
pub open spec fn inside(area: Rect) -> Rect {
    Rect {
        x: if area.width == 0 || area.x == u16::MAX {
            area.x
        } else {
            (area.x + 1) as u16
        },
        y: if area.height == 0 || area.y == u16::MAX {
            area.y
        } else {
            (area.y + 1) as u16
        },
        width: if area.width < 2 {
            0
        } else {
            (area.width - 2) as u16
        },
        height: if area.height < 2 {
            0
        } else {
            (area.height - 2) as u16
        },
    }
}

/// Calls `ratatui::widgets::Block::inner` on a block with all its borders: the
/// area without its edges. An area that is too small to have an inside is left
/// with a width or height of zero.
#[verifier::external_body]
pub(crate) fn inner(area: Rect) -> (r: Rect)
    ensures
        r == inside(area),
{
    let Rect { x, y, width, height } = area;
    let r = ratatui::widgets::Block::bordered().inner(layout::Rect { x, y, width, height });
    Rect { x: r.x, y: r.y, width: r.width, height: r.height }
}

} // verus!
