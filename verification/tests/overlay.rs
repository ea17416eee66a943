use voice_inputter::overlay::{
    place, takes_clicks, Click, Overlay, Region, HOVER_GRACE, OVERLAY_LINGER, TIMER_FAST,
    TIMER_IDLE,
};

#[test]
fn always_means_while_listening() {
    let mut o = Overlay::new();
    let t = o.tick("always", false, true, false, 0);
    assert!(t.show && t.appear && t.draw);
    assert_eq!(t.timer, Some(TIMER_FAST));
    let t = o.tick("always", false, true, true, 1);
    assert!(t.show && !t.appear);
    assert_eq!(t.timer, None);
    let t = o.tick("always", false, false, true, 2);
    assert!(!t.show && t.draw);
    let t = o.tick("always", false, false, false, 3);
    assert!(!t.draw);
    assert_eq!(t.timer, Some(TIMER_IDLE));
}

#[test]
fn hidden_means_never() {
    let mut o = Overlay::new();
    assert!(!o.tick("hidden", true, true, false, 0).show);
}

#[test]
fn with_dictation_it_lingers() {
    let mut o = Overlay::new();
    assert!(!o.tick("dictation", false, true, false, 0).show);
    assert!(o.tick("dictation", true, true, false, 1).show);
    assert!(o.tick("dictation", false, true, true, 10).show);
    assert!(o.tick("dictation", false, true, true, 9 + OVERLAY_LINGER).show);
    assert!(!o.tick("dictation", false, true, true, 10 + OVERLAY_LINGER).show);
    // unless the mouse is over it, or was a moment ago
    o.mouse_move(Region::Pill);
    assert!(o.tick("dictation", false, true, true, 2 * OVERLAY_LINGER).show);
    o.mouse_leave(2 * OVERLAY_LINGER);
    assert!(o.hover_active(2 * OVERLAY_LINGER + HOVER_GRACE - 1));
    assert!(!o.hover_active(2 * OVERLAY_LINGER + HOVER_GRACE));
}

#[test]
fn closed_until_the_next_dictation() {
    let mut o = Overlay::new();
    o.tick("always", true, true, false, 0);
    assert_eq!(o.click(Region::Close, true), Click::Toggle);
    o.tick("always", false, true, true, 1);
    assert!(!o.tick("always", false, true, true, 2).show);
    assert!(o.tick("always", true, true, false, 3).show);
    assert_eq!(o.click(Region::Close, false), Click::Nothing);
    assert_eq!(o.click(Region::Mic, false), Click::Toggle);
    assert_eq!(o.click(Region::Gear, false), Click::OpenSettings);
    assert_eq!(o.click(Region::Pill, false), Click::Nothing);
}

#[test]
fn the_mouse() {
    let mut o = Overlay::new();
    assert!(o.mouse_move(Region::Mic));
    assert!(!o.mouse_move(Region::Gear));
    assert!(o.over_button());
    assert!(!o.faded(true, true));
    assert!(!o.faded(false, false));
    assert!(o.faded(false, true));
    assert!(!o.over_button());
    assert!(takes_clicks(Region::Pill));
    assert!(!takes_clicks(Region::Outside));
}

#[test]
fn in_the_middle_above_the_lower_edge() {
    assert_eq!(place(0, 1920, 1040, 300, 80, 20), (810, 940));
    assert_eq!(place(-1920, 0, 1040, 301, 80, 20), (-1111, 940));
    assert_eq!(place(0, 100, 50, 201, 10, 5), (-50, 35));
}
