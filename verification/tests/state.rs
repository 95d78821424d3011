use frr_bootc::state::{press, refresh_due, time_left, AppState, Key, Tab, REFRESH_SECS};

fn state(tab: Tab, interfaces_scroll: u16, frr_scroll: u16) -> AppState {
    AppState { tab, interfaces_scroll, frr_scroll }
}

#[test]
fn tabs_go_round_both_ways() {
    let mut s = AppState::default();
    assert_eq!(s.tab, Tab::Overview);
    for expected in [Tab::Interfaces, Tab::Frr, Tab::Overview] {
        s.next_tab();
        assert_eq!(s.tab, expected);
    }
    for expected in [Tab::Frr, Tab::Interfaces, Tab::Overview] {
        s.prev_tab();
        assert_eq!(s.tab, expected);
    }
    s.set_tab(Tab::Frr);
    assert_eq!(s.tab, Tab::Frr);
    assert_eq!(Tab::default(), Tab::Overview);
}

#[test]
fn tabs_have_titles_and_places() {
    assert_eq!(
        [Tab::Overview.title(), Tab::Interfaces.title(), Tab::Frr.title()],
        ["Overview", "Interfaces", "FRR / BGP"]
    );
    assert_eq!(
        [Tab::Overview.index(), Tab::Interfaces.index(), Tab::Frr.index()],
        [0, 1, 2]
    );
}

#[test]
fn scrolling_stops_at_both_ends() {
    let mut s = state(Tab::Interfaces, 3, 9);
    s.scroll_by(5);
    assert_eq!((s.interfaces_scroll, s.frr_scroll), (8, 9));
    s.scroll_by(-100);
    assert_eq!((s.interfaces_scroll, s.frr_scroll), (0, 9));
    s.scroll_to_bottom();
    assert_eq!((s.interfaces_scroll, s.frr_scroll), (u16::MAX, 9));
    s.scroll_by(1);
    assert_eq!(s.interfaces_scroll, u16::MAX);
    s.scroll_by(i16::MIN);
    assert_eq!(s.interfaces_scroll, u16::MAX - 32768);
    s.scroll_to_top();
    assert_eq!((s.interfaces_scroll, s.frr_scroll), (0, 9));
}

#[test]
fn the_overview_does_not_scroll() {
    let mut s = state(Tab::Overview, 3, 9);
    s.scroll_by(5);
    s.scroll_to_bottom();
    s.scroll_to_top();
    assert_eq!((s.interfaces_scroll, s.frr_scroll), (3, 9));
}

#[test]
fn switching_tabs_keeps_the_place() {
    let mut s = state(Tab::Frr, 3, 9);
    s.scroll_by(1);
    s.next_tab();
    s.next_tab();
    s.scroll_by(2);
    s.next_tab();
    assert_eq!((s.tab, s.interfaces_scroll, s.frr_scroll), (Tab::Frr, 5, 10));
}

#[test]
fn keys_do_what_the_footer_says() {
    for (key, tab, scroll) in [
        (Key::Char('1'), Tab::Overview, 20),
        (Key::Char('2'), Tab::Interfaces, 20),
        (Key::Char('3'), Tab::Frr, 20),
        (Key::Tab, Tab::Frr, 20),
        (Key::Right, Tab::Frr, 20),
        (Key::BackTab, Tab::Overview, 20),
        (Key::Left, Tab::Overview, 20),
        (Key::Down, Tab::Interfaces, 21),
        (Key::Up, Tab::Interfaces, 19),
        (Key::PageDown, Tab::Interfaces, 30),
        (Key::PageUp, Tab::Interfaces, 10),
        (Key::Home, Tab::Interfaces, 0),
        (Key::End, Tab::Interfaces, u16::MAX),
        (Key::Other, Tab::Interfaces, 20),
        (Key::Char('c'), Tab::Interfaces, 20),
    ] {
        let mut s = state(Tab::Interfaces, 20, 4);
        assert!(!press(&mut s, key));
        assert_eq!((s.tab, s.interfaces_scroll, s.frr_scroll), (tab, scroll, 4));
    }
    for key in [Key::Char('b'), Key::Char('B')] {
        let mut s = state(Tab::Interfaces, 20, 4);
        assert!(press(&mut s, key));
        assert_eq!((s.tab, s.interfaces_scroll, s.frr_scroll), (Tab::Interfaces, 20, 4));
    }
}

#[test]
fn the_wait_ends_when_the_data_is_due() {
    assert_eq!(REFRESH_SECS, 5);
    assert_eq!(time_left(0), 5_000_000_000);
    assert_eq!(time_left(4_999_999_999), 1);
    assert_eq!(time_left(5_000_000_000), 0);
    assert_eq!(time_left(u128::MAX), 0);
    assert!(!refresh_due(4_999_999_999));
    assert!(refresh_due(5_000_000_000));
}
