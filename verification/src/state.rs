//! What lives on between two drawings of the dashboard: which tab is open,
//! how far each listing is scrolled, and when the data was last gathered.

use vstd::prelude::*;

verus! {

/// Seconds between two times that the data is gathered.
pub const REFRESH_SECS: u64 = 5;

const REFRESH_NANOS: u128 = 5_000_000_000;

/// The tabs of the dashboard. The overview shortens what does not fit; the
/// others show everything and scroll.
#[derive(Clone, Copy, PartialEq, Eq, Debug, Structural)]
pub enum Tab {
    Overview,
    Interfaces,
    Frr,
}

impl Default for Tab {
    fn default() -> (r: Self)
        ensures
            r == Tab::Overview,
    {
        Tab::Overview
    }
}

/// The tab at a place in the tab bar.
pub open spec fn tab_at(i: int) -> Tab {
    if i == 0 {
        Tab::Overview
    } else if i == 1 {
        Tab::Interfaces
    } else {
        Tab::Frr
    }
}

/// The place of a tab in the tab bar.
pub open spec fn place_of(t: Tab) -> int {
    match t {
        Tab::Overview => 0,
        Tab::Interfaces => 1,
        Tab::Frr => 2,
    }
}

/// What a tab is called.
pub open spec fn title_of(t: Tab) -> Seq<char> {
    match t {
        Tab::Overview => "Overview"@,
        Tab::Interfaces => "Interfaces"@,
        Tab::Frr => "FRR / BGP"@,
    }
}

/// The tab after another; the first one comes after the last one.
pub open spec fn tab_after(t: Tab) -> Tab {
    tab_at((place_of(t) + 1) % 3)
}

/// The tab before another; the last one comes before the first one.
pub open spec fn tab_before(t: Tab) -> Tab {
    tab_at((place_of(t) + 2) % 3)
}

impl Tab {
    /// What the tab is called.
    pub fn title(self) -> (r: &'static str)
        ensures
            r@ == title_of(self),
    {
        match self {
            Tab::Overview => "Overview",
            Tab::Interfaces => "Interfaces",
            Tab::Frr => "FRR / BGP",
        }
    }

    /// Its place in the tab bar.
    pub fn index(self) -> (r: usize)
        ensures
            r == place_of(self),
    {
        match self {
            Tab::Overview => 0,
            Tab::Interfaces => 1,
            Tab::Frr => 2,
        }
    }

    /// The tab after it.
    pub fn next(self) -> (r: Tab)
        ensures
            r == tab_after(self),
    {
        match self {
            Tab::Overview => Tab::Interfaces,
            Tab::Interfaces => Tab::Frr,
            Tab::Frr => Tab::Overview,
        }
    }

    /// The tab before it.
    pub fn prev(self) -> (r: Tab)
        ensures
            r == tab_before(self),
    {
        match self {
            Tab::Overview => Tab::Frr,
            Tab::Interfaces => Tab::Overview,
            Tab::Frr => Tab::Interfaces,
        }
    }
}

/// The open tab, and how far the listing of each of the two tabs that scroll
/// is scrolled. Each tab keeps a position of its own, so that switching away
/// and back does not lose the place.
pub struct AppState {
    pub tab: Tab,
    pub interfaces_scroll: u16,
    pub frr_scroll: u16,
}

impl Default for AppState {
    fn default() -> (r: Self)
        ensures
            r == (AppState { tab: Tab::Overview, interfaces_scroll: 0, frr_scroll: 0 }),
    {
        AppState { tab: Tab::Overview, interfaces_scroll: 0, frr_scroll: 0 }
    }
}

/// A position moved by some rows, as far as there are positions.
pub open spec fn moved(at: u16, delta: int) -> u16 {
    if at + delta < 0 {
        0
    } else if at + delta > u16::MAX {
        u16::MAX
    } else {
        (at + delta) as u16
    }
}

/// How far the open tab is scrolled. The overview does not scroll.
pub open spec fn scroll_of(s: AppState) -> Option<u16> {
    match s.tab {
        Tab::Overview => None,
        Tab::Interfaces => Some(s.interfaces_scroll),
        Tab::Frr => Some(s.frr_scroll),
    }
}

/// The state with the open tab scrolled to a position. The overview stays as
/// it is.
pub open spec fn scrolled(s: AppState, at: u16) -> AppState {
    match s.tab {
        Tab::Overview => s,
        Tab::Interfaces => AppState { interfaces_scroll: at, ..s },
        Tab::Frr => AppState { frr_scroll: at, ..s },
    }
}

/// The state with the open tab scrolled by some rows.
pub open spec fn scrolled_by(s: AppState, delta: int) -> AppState {
    match scroll_of(s) {
        Some(at) => scrolled(s, moved(at, delta)),
        None => s,
    }
}

fn shift(at: u16, delta: i16) -> (r: u16)
    ensures
        r == moved(at, delta as int),
{
    let sum: i32 = at as i32 + delta as i32;
    if sum < 0 {
        0
    } else if sum > 0xffff {
        u16::MAX
    } else {
        sum as u16
    }
}

impl AppState {
    /// Opens the next tab.
    pub fn next_tab(&mut self)
        ensures
            *final(self) == (AppState { tab: tab_after(old(self).tab), ..*old(self) }),
    {
        self.tab = self.tab.next();
    }

    /// Opens the tab before.
    pub fn prev_tab(&mut self)
        ensures
            *final(self) == (AppState { tab: tab_before(old(self).tab), ..*old(self) }),
    {
        self.tab = self.tab.prev();
    }

    /// Opens a tab.
    pub fn set_tab(&mut self, tab: Tab)
        ensures
            *final(self) == (AppState { tab, ..*old(self) }),
    {
        self.tab = tab;
    }

    /// Scrolls the open tab. The overview has nothing to scroll.
    pub fn scroll_by(&mut self, delta: i16)
        ensures
            *final(self) == scrolled_by(*old(self), delta as int),
    {
        match self.tab {
            Tab::Overview => {},
            Tab::Interfaces => {
                self.interfaces_scroll = shift(self.interfaces_scroll, delta);
            },
            Tab::Frr => {
                self.frr_scroll = shift(self.frr_scroll, delta);
            },
        }
    }

    fn scroll_to(&mut self, at: u16)
        ensures
            *final(self) == scrolled(*old(self), at),
    {
        match self.tab {
            Tab::Overview => {},
            Tab::Interfaces => {
                self.interfaces_scroll = at;
            },
            Tab::Frr => {
                self.frr_scroll = at;
            },
        }
    }

    /// Scrolls the open tab to its top.
    pub fn scroll_to_top(&mut self)
        ensures
            *final(self) == scrolled(*old(self), 0),
    {
        self.scroll_to(0);
    }

    /// Scrolls the open tab as far as it goes. How far that is becomes known
    /// when the tab is drawn.
    pub fn scroll_to_bottom(&mut self)
        ensures
            *final(self) == scrolled(*old(self), u16::MAX),
    {
        self.scroll_to(u16::MAX);
    }
}

/// A key that was pressed.
#[derive(Clone, Copy)]
pub enum Key {
    Char(char),
    Tab,
    BackTab,
    Left,
    Right,
    Up,
    Down,
    PageUp,
    PageDown,
    Home,
    End,
    Other,
}

/// Whether a key asks for a login shell.
pub open spec fn asks_for_login(key: Key) -> bool {
    key == Key::Char('b') || key == Key::Char('B')
}

/// The state after a key. Number keys open a tab; the tab keys and the
/// sideways arrows go round; the others scroll. No other key does anything,
/// that of an interrupt included.
pub open spec fn pressed(s: AppState, key: Key) -> AppState {
    match key {
        Key::Char(c) => if c == '1' {
            AppState { tab: Tab::Overview, ..s }
        } else if c == '2' {
            AppState { tab: Tab::Interfaces, ..s }
        } else if c == '3' {
            AppState { tab: Tab::Frr, ..s }
        } else {
            s
        },
        Key::Tab | Key::Right => AppState { tab: tab_after(s.tab), ..s },
        Key::BackTab | Key::Left => AppState { tab: tab_before(s.tab), ..s },
        Key::Down => scrolled_by(s, 1),
        Key::Up => scrolled_by(s, -1),
        Key::PageDown => scrolled_by(s, 10),
        Key::PageUp => scrolled_by(s, -10),
        Key::Home => scrolled(s, 0),
        Key::End => scrolled(s, u16::MAX),
        Key::Other => s,
    }
}

/// Takes in a key, and says whether it asks for a login shell.
pub fn press(state: &mut AppState, key: Key) -> (login: bool)
    ensures
        login == asks_for_login(key),
        *final(state) == pressed(*old(state), key),
{
    match key {
        Key::Char(c) => {
            if c == 'b' || c == 'B' {
                return true;
            }
            if c == '1' {
                state.set_tab(Tab::Overview);
            } else if c == '2' {
                state.set_tab(Tab::Interfaces);
            } else if c == '3' {
                state.set_tab(Tab::Frr);
            }
        },
        Key::Tab | Key::Right => state.next_tab(),
        Key::BackTab | Key::Left => state.prev_tab(),
        Key::Down => state.scroll_by(1),
        Key::Up => state.scroll_by(-1),
        Key::PageDown => state.scroll_by(10),
        Key::PageUp => state.scroll_by(-10),
        Key::Home => state.scroll_to_top(),
        Key::End => state.scroll_to_bottom(),
        Key::Other => {},
    }
    false
}

/// How long it is, in nanoseconds, until the data is to be gathered again,
/// when it was gathered a given time ago.
pub open spec fn nanos_left(elapsed_nanos: nat) -> nat {
    if elapsed_nanos >= REFRESH_SECS as nat * 1_000_000_000 {
        0
    } else {
        (REFRESH_SECS as nat * 1_000_000_000 - elapsed_nanos) as nat
    }
}

/// How long to wait for a key, in nanoseconds, when the data was gathered a
/// given time ago: no longer than until it is to be gathered again.
pub fn time_left(elapsed_nanos: u128) -> (r: u128)
    ensures
        r == nanos_left(elapsed_nanos as nat),
{
    if elapsed_nanos >= REFRESH_NANOS {
        0
    } else {
        REFRESH_NANOS - elapsed_nanos
    }
}

/// Whether the data is to be gathered again, when it was gathered a given time
/// ago.
pub open spec fn is_due(elapsed_nanos: nat) -> bool {
    elapsed_nanos >= REFRESH_SECS as nat * 1_000_000_000
}

/// Whether the data is to be gathered again.
pub fn refresh_due(elapsed_nanos: u128) -> (r: bool)
    ensures
        r == is_due(elapsed_nanos as nat),
{
    elapsed_nanos >= REFRESH_NANOS
}

// ---------------------------------------------------------------------------
// Laws
// ---------------------------------------------------------------------------

/// Going one tab on and one back, either way round, leads back, and so does
/// going round once.
pub proof fn law_tabs_go_round(t: Tab)
    ensures
        tab_before(tab_after(t)) == t,
        tab_after(tab_before(t)) == t,
        tab_after(tab_after(tab_after(t))) == t,
        tab_at(place_of(t)) == t,
{
}

/// Every tab can be reached from every other one by going on.
pub proof fn law_every_tab_is_reached(a: Tab, b: Tab)
    ensures
        a == b || tab_after(a) == b || tab_after(tab_after(a)) == b,
{
}

/// No key but those that switch tabs opens another tab, and none of those
/// that switch tabs scrolls: a tab that is left and opened again is where it
/// was.
pub proof fn law_switching_keeps_the_place(s: AppState, key: Key)
    ensures
        pressed(s, key).tab == s.tab || (pressed(s, key).interfaces_scroll == s.interfaces_scroll
            && pressed(s, key).frr_scroll == s.frr_scroll),
{
}

/// Scrolling one tab moves no other one.
pub proof fn law_tabs_scroll_apart(s: AppState, key: Key)
    ensures
        s.tab != Tab::Interfaces ==> pressed(s, key).interfaces_scroll == s.interfaces_scroll,
        s.tab != Tab::Frr ==> pressed(s, key).frr_scroll == s.frr_scroll,
{
}

/// On the overview nothing scrolls.
pub proof fn law_overview_does_not_scroll(s: AppState, delta: int, at: u16)
    requires
        s.tab == Tab::Overview,
    ensures
        scrolled_by(s, delta) == s,
        scrolled(s, at) == s,
{
}

/// Waiting as long as is left brings the time at which the data is gathered
/// again, and any shorter wait does not.
pub proof fn law_waiting_ends_at_the_refresh(elapsed: nat, wait: nat)
    ensures
        is_due(elapsed + nanos_left(elapsed)),
        wait < nanos_left(elapsed) ==> !is_due(elapsed + wait),
{
}

/// Scrolling moves by exactly as many rows as asked for, as long as it stays
/// within what sixteen bits hold; where it would not, it stops at the end that
/// it would pass.
pub proof fn law_scrolling_is_exact(at: u16, delta: int)
    ensures
        0 <= at + delta <= u16::MAX ==> moved(at, delta) == at + delta,
        at + delta < 0 ==> moved(at, delta) == 0,
        at + delta > u16::MAX ==> moved(at, delta) == u16::MAX,
{
}

/// On a tab that scrolls, the arrow keys move its listing by one row and the
/// page keys by ten, and `Home` and `End` move it to either end. Whatever a key
/// does, the place of the other listing and the tab stay.
pub proof fn law_keys_scroll_the_open_tab(s: AppState)
    ensures
        s.tab == Tab::Interfaces ==> {
            let at = |key: Key| pressed(s, key).interfaces_scroll;
            &&& s.interfaces_scroll < u16::MAX ==> at(Key::Down) == s.interfaces_scroll + 1
            &&& s.interfaces_scroll > 0 ==> at(Key::Up) == s.interfaces_scroll - 1
            &&& s.interfaces_scroll <= u16::MAX - 10 ==> at(Key::PageDown) == s.interfaces_scroll
                + 10
            &&& s.interfaces_scroll >= 10 ==> at(Key::PageUp) == s.interfaces_scroll - 10
            &&& at(Key::Home) == 0 && at(Key::End) == u16::MAX
        },
        s.tab == Tab::Frr ==> {
            let at = |key: Key| pressed(s, key).frr_scroll;
            &&& s.frr_scroll < u16::MAX ==> at(Key::Down) == s.frr_scroll + 1
            &&& s.frr_scroll > 0 ==> at(Key::Up) == s.frr_scroll - 1
            &&& s.frr_scroll <= u16::MAX - 10 ==> at(Key::PageDown) == s.frr_scroll + 10
            &&& s.frr_scroll >= 10 ==> at(Key::PageUp) == s.frr_scroll - 10
            &&& at(Key::Home) == 0 && at(Key::End) == u16::MAX
        },
        forall|key: Key|
            #![trigger pressed(s, key)]
            key is Up || key is Down || key is PageUp || key is PageDown || key is Home
                || key is End ==> {
                let t = pressed(s, key);
                &&& t.tab == s.tab
                &&& s.tab != Tab::Interfaces ==> t.interfaces_scroll == s.interfaces_scroll
                &&& s.tab != Tab::Frr ==> t.frr_scroll == s.frr_scroll
            },
{
}

/// The digits choose a tab, the tab and arrow keys turn to its neighbor, `b`
/// asks for the login prompt, and every other character does nothing.
pub proof fn law_keys_choose_tabs(s: AppState, c: char)
    ensures
        pressed(s, Key::Char('1')).tab == Tab::Overview,
        pressed(s, Key::Char('2')).tab == Tab::Interfaces,
        pressed(s, Key::Char('3')).tab == Tab::Frr,
        c != '1' && c != '2' && c != '3' ==> pressed(s, Key::Char(c)) == s,
        asks_for_login(Key::Char(c)) <==> c == 'b' || c == 'B',
        pressed(s, Key::Right) == pressed(s, Key::Tab),
        pressed(s, Key::Left) == pressed(s, Key::BackTab),
        s.tab == Tab::Overview ==> pressed(s, Key::Tab).tab == Tab::Interfaces,
        s.tab == Tab::Interfaces ==> pressed(s, Key::Tab).tab == Tab::Frr,
        s.tab == Tab::Frr ==> pressed(s, Key::Tab).tab == Tab::Overview,
        pressed(pressed(s, Key::Tab), Key::BackTab) == s,
        pressed(s, Key::Other) == s,
        forall|key: Key| #[trigger] asks_for_login(key) ==> key is Char,
{
}

/// The data is gathered anew every five seconds: what has passed and what is
/// left make up that time until it is due.
pub proof fn law_refresh_is_every_five_seconds(elapsed: nat)
    ensures
        elapsed < 5_000_000_000 ==> elapsed + nanos_left(elapsed) == 5_000_000_000,
        elapsed >= 5_000_000_000 ==> nanos_left(elapsed) == 0,
        is_due(elapsed) <==> elapsed >= 5_000_000_000,
{
}

} // verus!
