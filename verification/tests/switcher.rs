//! The window switcher.

use wlr_utils::keys::Key;
use wlr_utils::switcher::{
    overlay_options, resolve_candidates, switch_next, switch_start, Args, Candidates, Layout,
    LayoutArg, Listing, Live, LiveArg, Mode, Note, Selection, SwitchEvent, SwitchStep, Toplevel,
};

fn args() -> Args {
    Args {
        no_gpu: false,
        layout: LayoutArg::default(),
        live: LiveArg::All,
        hold: false,
        no_hold: false,
        cycle_next: Key { name: "J".to_string() },
        cycle_prev: Key { name: "K".to_string() },
        include_system: false,
        scratchpad: false,
        doctor: false,
    }
}

fn window(id: &str, app_id: &str) -> (Toplevel, usize) {
    let w = Toplevel {
        identifier: id.to_string(),
        app_id: app_id.to_string(),
        title: format!("title of {id}"),
    };
    (w, 3)
}

fn selection(is_window: bool) -> Selection {
    Selection {
        token: "t".to_string(),
        is_window,
        identifier: "i".to_string(),
        app_id: "a".to_string(),
        title: "x".to_string(),
        dup_index: 1,
    }
}

#[test]
fn hold_is_on_for_the_strip_unless_forced() {
    let mut a = args();
    assert!(overlay_options(&a).hold);
    a.no_hold = true;
    assert!(!overlay_options(&a).hold);
    a = args();
    a.layout = LayoutArg::Grid;
    assert!(!overlay_options(&a).hold);
    a.hold = true;
    assert!(overlay_options(&a).hold);
    a.layout = LayoutArg::Card;
    a.hold = false;
    assert!(!overlay_options(&a).hold);
}

#[test]
fn options_follow_the_arguments() {
    let mut a = args();
    a.layout = LayoutArg::Card;
    a.live = LiveArg::Current;
    a.include_system = true;
    a.scratchpad = true;
    let o = overlay_options(&a);
    assert_eq!(o.mode, Mode::Windows);
    assert_eq!(o.layout, Layout::Card);
    assert_eq!(o.live, Live::Current);
    assert!(o.show_system);
    assert!(o.scratchpad);
    assert_eq!(o.cycle.next.name, "J");
    assert_eq!(o.cycle.prev.name, "K");
    assert_eq!(Live::from(LiveArg::Off), Live::Off);
    assert_eq!(Live::from(LiveArg::All), Live::All);
}

#[test]
fn candidates_are_counted_as_shown() {
    let system = || Listing::Ordered(vec![window("a", ""), window("b", "")]);
    assert!(matches!(resolve_candidates(&system(), false), Candidates::Empty));
    assert!(matches!(resolve_candidates(&system(), true), Candidates::Choose));
    assert!(matches!(
        resolve_candidates(&Listing::Ordered(vec![]), true),
        Candidates::Empty
    ));
    assert!(matches!(
        resolve_candidates(&Listing::Scratchpad(None), true),
        Candidates::Unavailable
    ));
    assert!(matches!(
        resolve_candidates(&Listing::Scratchpad(Some(vec![])), false),
        Candidates::Empty
    ));
}

#[test]
fn a_sole_window_is_selected_as_if_picked() {
    let windows = || vec![window("a", ""), window("b", "app")];
    for listing in [Listing::Ordered(windows()), Listing::Scratchpad(Some(windows()))] {
        match resolve_candidates(&listing, false) {
            Candidates::Sole(s) => {
                assert_eq!(s.token, "Window: b");
                assert!(s.is_window);
                assert_eq!(s.identifier, "b");
                assert_eq!(s.app_id, "app");
                assert_eq!(s.title, "title of b");
                assert_eq!(s.dup_index, 3);
            }
            other => panic!("{other:?}"),
        }
    }
}

#[test]
fn the_report_ends_the_switcher() {
    let mut a = args();
    a.doctor = true;
    assert!(matches!(switch_start(&a), SwitchStep::Report));
    let end = |e| switch_next(SwitchStep::Report, e, &a);
    assert!(matches!(end(SwitchEvent::Done), SwitchStep::Exit(0, Note::Silent)));
    assert!(matches!(end(SwitchEvent::Failed), SwitchStep::Exit(1, Note::ReportError)));
}

#[test]
fn the_switcher_goes_step_by_step() {
    let mut a = args();
    assert!(matches!(switch_start(&a), SwitchStep::Lock));
    let next = |s, e| switch_next(s, e, &a);
    assert!(matches!(
        next(SwitchStep::Lock, SwitchEvent::Failed),
        SwitchStep::Exit(0, Note::Silent)
    ));
    assert!(matches!(next(SwitchStep::Lock, SwitchEvent::Done), SwitchStep::Connect));
    assert!(matches!(
        next(SwitchStep::Connect, SwitchEvent::Failed),
        SwitchStep::Exit(2, Note::CallError)
    ));
    assert!(matches!(
        next(SwitchStep::Connect, SwitchEvent::Connected(false)),
        SwitchStep::Exit(2, Note::NoWindowCapture)
    ));
    assert!(matches!(
        next(SwitchStep::Connect, SwitchEvent::Connected(true)),
        SwitchStep::List(false)
    ));
    a.scratchpad = true;
    assert!(matches!(
        switch_next(SwitchStep::Connect, SwitchEvent::Connected(true), &a),
        SwitchStep::List(true)
    ));
}

#[test]
fn listings_decide_whether_there_is_an_overlay() {
    let a = args();
    let listed = |l| {
        switch_next(SwitchStep::List(false), SwitchEvent::Listed(Listing::Ordered(l)), &a)
    };
    assert!(matches!(listed(vec![]), SwitchStep::Exit(0, Note::Silent)));
    assert!(matches!(listed(vec![window("a", "x"), window("b", "x")]), SwitchStep::Overlay));
    match listed(vec![window("a", "x"), window("b", "")]) {
        SwitchStep::Activate(s) => assert_eq!(s.identifier, "a"),
        other => panic!("{other:?}"),
    }
    assert!(matches!(
        switch_next(SwitchStep::List(true), SwitchEvent::Listed(Listing::Scratchpad(None)), &a),
        SwitchStep::Exit(2, Note::NoSwayIpc)
    ));
}

#[test]
fn only_windows_are_activated() {
    let a = args();
    let overlay = |e| switch_next(SwitchStep::Overlay, e, &a);
    assert!(matches!(overlay(SwitchEvent::Done), SwitchStep::Exit(1, Note::Silent)));
    assert!(matches!(overlay(SwitchEvent::Failed), SwitchStep::Exit(2, Note::CallError)));
    assert!(matches!(
        overlay(SwitchEvent::Picked(selection(false))),
        SwitchStep::Exit(0, Note::Silent)
    ));
    assert!(matches!(overlay(SwitchEvent::Picked(selection(true))), SwitchStep::Activate(_)));
    let activate = |e| switch_next(SwitchStep::Activate(selection(true)), e, &a);
    assert!(matches!(activate(SwitchEvent::Done), SwitchStep::Exit(0, Note::Silent)));
    assert!(matches!(activate(SwitchEvent::Failed), SwitchStep::Exit(2, Note::CallError)));
}
