use pebbles_widgets::dialog::{self, alert_dialog, Dialogs};
use pebbles_widgets::overlay::{self, Overlays};
use pebbles_widgets::per_window::WindowSlots;
use pebbles_widgets::sheet::{self, Sheets, Side};
use pebbles_widgets::toast::{self, ToastVariant, Toasts, MAX_VISIBLE};
use pebbles_widgets::window::{self, WindowCommand, WindowQueues};

const MAIN: u32 = 0;

#[test]
fn open_slides_in_and_close_defers_removal() {
    let mut s = Sheets::new();
    sheet::init(&mut s, MAIN);
    let id = sheet::open(&mut s, MAIN, Side::Right, true);
    assert!(sheet::is_open(&s, MAIN), "opened");

    // Close: is_open reports false at once, but the panel survives the exit tween.
    assert!(sheet::close_sheet(&mut s, MAIN, id).is_some());
    assert!(!sheet::is_open(&s, MAIN), "reports closed immediately");
    assert!(sheet::is_present(&s, MAIN), "entry still rendered during the exit tween");
    assert!(sheet::finish_close(&mut s, MAIN, id));
    assert!(!sheet::is_present(&s, MAIN), "removed after the exit tween");
}

#[test]
fn sheet_removal_timer_is_ignored_once_a_new_sheet_opened() {
    let mut s = Sheets::new();
    let first = sheet::open(&mut s, MAIN, Side::Left, true);
    sheet::close_sheet(&mut s, MAIN, first);
    let second = sheet::open(&mut s, MAIN, Side::Bottom, false);
    assert_ne!(first, second);
    // The first sheet's removal timer fires late: the new sheet stays.
    assert!(!sheet::finish_close(&mut s, MAIN, first));
    assert!(sheet::is_open(&s, MAIN));
}

#[test]
fn sheet_dismiss_respects_dismissible() {
    let mut s = Sheets::new();
    sheet::open(&mut s, MAIN, Side::Top, false);
    assert!(sheet::dismiss_top(&mut s, MAIN).is_none());
    assert!(sheet::is_open(&s, MAIN));
    sheet::open(&mut s, MAIN, Side::Top, true);
    assert!(sheet::dismiss_top(&mut s, MAIN).is_some());
    assert!(!sheet::is_open(&s, MAIN));
}

#[test]
fn sheet_close_with_a_stale_id_does_nothing() {
    let mut s = Sheets::new();
    let id = sheet::open(&mut s, MAIN, Side::Right, true);
    assert!(sheet::close_sheet(&mut s, MAIN, id + 1).is_none());
    assert!(sheet::is_open(&s, MAIN));
    // Id 0 closes whatever is open.
    assert!(sheet::close_sheet(&mut s, MAIN, 0).is_some());
    assert!(!sheet::is_open(&s, MAIN));
}

#[test]
fn sheet_removal_keys_differ_per_window() {
    assert_eq!(sheet::removal_key(0), 0x7042_0000_0000_0000);
    assert_ne!(sheet::removal_key(1), sheet::removal_key(2));
}

#[test]
fn side_flip_is_an_involution() {
    for s in [Side::Left, Side::Right, Side::Top, Side::Bottom] {
        assert_eq!(s.flip().flip(), s);
    }
    assert_eq!(Side::Left.flip(), Side::Right);
    assert_eq!(Side::Top.flip(), Side::Bottom);
}

#[test]
fn dialog_open_then_close_by_id() {
    let mut d = Dialogs::new();
    dialog::init(&mut d, MAIN);
    assert!(!dialog::is_open(&d, MAIN));
    let id = dialog::open(&mut d, MAIN, true);
    assert_eq!(id, 1);
    assert!(dialog::is_open(&d, MAIN));
    assert!(!dialog::is_open(&d, 7), "another window is not affected");
    assert!(dialog::close_dialog(&mut d, MAIN, id + 5).is_none());
    assert!(dialog::is_open(&d, MAIN));
    let closed = dialog::close_dialog(&mut d, MAIN, id).expect("closes");
    assert_eq!(closed.id, id);
    assert!(!dialog::is_open(&d, MAIN));
}

#[test]
fn dialog_stays_open_until_ended() {
    let mut d = Dialogs::new();
    dialog::init(&mut d, MAIN);
    let id = dialog::open(&mut d, MAIN, false);
    // None of these ends it.
    dialog::init(&mut d, MAIN);
    assert!(dialog::close_dialog(&mut d, MAIN, id + 1).is_none());
    assert!(dialog::dismiss_top(&mut d, MAIN).is_none());
    dialog::open(&mut d, 3, true);
    assert!(dialog::close_dialog(&mut d, 3, 0).is_some());
    dialog::drop_window(&mut d, 3);
    assert!(dialog::is_open(&d, MAIN));
    assert!(dialog::is_open(&d, MAIN), "asking changes nothing");
    // Closing by 0 ends it.
    assert_eq!(dialog::close_dialog(&mut d, MAIN, 0).map(|e| e.id), Some(id));
    assert!(!dialog::is_open(&d, MAIN));
    // Dropping the window ends one too.
    dialog::open(&mut d, MAIN, false);
    dialog::drop_window(&mut d, MAIN);
    assert!(!dialog::is_open(&d, MAIN));
}

#[test]
fn dialog_dismiss_needs_dismissible() {
    let mut d = Dialogs::new();
    dialog::open(&mut d, MAIN, false);
    assert!(dialog::dismiss_top(&mut d, MAIN).is_none());
    assert!(dialog::is_open(&d, MAIN));
    dialog::open(&mut d, MAIN, true);
    assert!(dialog::dismiss_top(&mut d, MAIN).is_some());
    assert!(!dialog::is_open(&d, MAIN));
}

#[test]
fn alert_dialog_defaults_and_buttons() {
    let a = alert_dialog("Delete file?".to_string());
    assert_eq!(a.confirm, "Continue");
    assert_eq!(a.cancel, "Cancel");
    assert!(!a.dismissible);
    assert!(!a.destructive);
    let a = a
        .description("This cannot be undone.".to_string())
        .confirm("Delete".to_string())
        .destructive(true)
        .on_confirm(11)
        .on_cancel(12);
    let mut d = Dialogs::new();
    let id = a.open(&mut d, MAIN);
    assert!(dialog::is_open(&d, MAIN));
    // Non-dismissible by default: Escape does nothing.
    assert!(dialog::dismiss_top(&mut d, MAIN).is_none());
    assert_eq!(a.respond(&mut d, MAIN, true), Some(11));
    assert!(!dialog::is_open(&d, MAIN));
    a.open(&mut d, MAIN);
    assert_eq!(a.respond(&mut d, MAIN, false), Some(12));
    assert!(id >= 1);
}

#[test]
fn overlay_show_hide_and_child() {
    let mut o = Overlays::new();
    overlay::init(&mut o, MAIN);
    assert!(!overlay::is_open(&o, MAIN));
    overlay::show_overlay(&mut o, MAIN, false);
    assert!(overlay::is_open(&o, MAIN));
    assert!(!overlay::child_is_open(&o, MAIN));
    overlay::set_child(&mut o, MAIN);
    assert!(overlay::child_is_open(&o, MAIN));
    overlay::clear_child(&mut o, MAIN);
    assert!(!overlay::child_is_open(&o, MAIN));
    assert!(overlay::is_open(&o, MAIN));
    overlay::hide_overlay(&mut o, MAIN);
    assert!(!overlay::is_open(&o, MAIN));
    // A child needs an open overlay.
    overlay::set_child(&mut o, MAIN);
    assert!(!overlay::child_is_open(&o, MAIN));
}

#[test]
fn guarded_overlay_is_collected_when_its_owner_died() {
    let mut o = Overlays::new();
    overlay::show_overlay(&mut o, MAIN, true);
    assert!(!overlay::gc_dead(&mut o, MAIN, true), "owner alive: kept");
    assert!(overlay::is_open(&o, MAIN));
    assert!(overlay::gc_dead(&mut o, MAIN, false));
    assert!(!overlay::is_open(&o, MAIN));
    overlay::show_overlay(&mut o, MAIN, false);
    assert!(!overlay::gc_dead(&mut o, MAIN, false), "unguarded: kept");
}

#[test]
fn overlay_census_counts_open_windows() {
    let mut o = Overlays::new();
    overlay::init(&mut o, 1);
    overlay::init(&mut o, 2);
    overlay::show_overlay(&mut o, 2, false);
    overlay::show_overlay(&mut o, 3, false);
    assert_eq!(overlay::census_overlays(&o), 2);
    overlay::show_passive(&mut o, 1);
    assert!(overlay::passive_is_open(&o, 1));
    assert_eq!(overlay::census_passive(&o), 1);
    overlay::hide_passive(&mut o, 1);
    assert!(!overlay::passive_is_open(&o, 1));
    assert_eq!(overlay::census_passive(&o), 0);
    overlay::drop_window(&mut o, 2);
    assert_eq!(overlay::census_overlays(&o), 1);
}

#[test]
fn overlay_census_follows_shows_and_hides() {
    let mut o = Overlays::new();
    overlay::init(&mut o, 1);
    assert_eq!(overlay::census_overlays(&o), 0);
    overlay::show_overlay(&mut o, 1, false);
    assert_eq!(overlay::census_overlays(&o), 1, "a show in a window with none adds one");
    overlay::show_overlay(&mut o, 1, true);
    assert_eq!(overlay::census_overlays(&o), 1, "replacing keeps the count");
    overlay::show_overlay(&mut o, 4, false);
    assert_eq!(overlay::census_overlays(&o), 2);
    overlay::hide_overlay(&mut o, 1);
    assert_eq!(overlay::census_overlays(&o), 1, "hiding an open one takes one away");
    overlay::hide_overlay(&mut o, 1);
    assert_eq!(overlay::census_overlays(&o), 1, "hiding a closed one changes nothing");
    overlay::drop_window(&mut o, 4);
    assert_eq!(overlay::census_overlays(&o), 0);
}

#[test]
fn toasts_show_newest_three_per_window() {
    let mut t = Toasts::new();
    assert!(!toast::any_open(&t, MAIN));
    let mut ids = Vec::new();
    for _ in 0..5 {
        ids.push(toast::show(&mut t, MAIN, ToastVariant::Success, true));
    }
    toast::show(&mut t, 9, ToastVariant::Default, true);
    assert!(toast::any_open(&t, MAIN));
    let v = toast::visible(&t, MAIN);
    assert_eq!(v.len(), MAX_VISIBLE);
    assert_eq!(v.iter().map(|r| r.id).collect::<Vec<_>>(), vec![ids[2], ids[3], ids[4]]);
    assert!(v.iter().all(|r| r.window == MAIN));
}

#[test]
fn toast_dismiss_marks_leaving_then_removal_drops_it() {
    let mut t = Toasts::new();
    let id = toast::show(&mut t, MAIN, ToastVariant::Warning, true);
    assert!(toast::dismiss_toast(&mut t, MAIN, id));
    assert!(!toast::dismiss_toast(&mut t, MAIN, id), "a second dismissal does nothing");
    assert!(toast::visible(&t, MAIN)[0].leaving);
    assert!(toast::any_open(&t, MAIN), "a leaving toast stays until it is removed");
    assert_eq!(toast::visible(&t, MAIN).len(), 1);
    toast::remove_toast(&mut t, MAIN, id);
    assert!(!toast::any_open(&t, MAIN));
    assert!(!toast::dismiss_toast(&mut t, MAIN, id));
}

#[test]
fn toast_keys_and_default_variant() {
    assert_eq!(toast::timer_key(5), 0x7040_0000_0000_0005);
    assert_eq!(toast::removal_key(5), 0x7041_0000_0000_0005);
    assert_eq!(ToastVariant::default(), ToastVariant::Default);
}

#[test]
fn closing_a_window_drops_all_its_state() {
    let mut o = Overlays::new();
    let mut d = Dialogs::new();
    let mut s = Sheets::new();
    let mut t = Toasts::new();
    overlay::show_overlay(&mut o, 4, false);
    dialog::open(&mut d, 4, true);
    sheet::open(&mut s, 4, Side::Left, true);
    toast::show(&mut t, 4, ToastVariant::Default, true);
    toast::show(&mut t, MAIN, ToastVariant::Default, true);
    window::drop_window_state(&mut o, &mut d, &mut s, &mut t, 4);
    assert!(!overlay::is_open(&o, 4));
    assert!(!dialog::is_open(&d, 4));
    assert!(!sheet::is_open(&s, 4));
    assert!(!toast::any_open(&t, 4));
    assert!(toast::any_open(&t, MAIN));
}

#[test]
fn window_requests_drain_in_order() {
    let mut q = WindowQueues::new();
    let a = window::open_window(&mut q);
    let b = window::open_window(&mut q);
    assert_eq!((a, b), (1, 2));
    assert_eq!(window::take_open_requests(&mut q), vec![a, b]);
    assert!(window::take_open_requests(&mut q).is_empty());
    window::close_window(&mut q, b);
    assert_eq!(window::take_close_requests(&mut q), vec![b]);
    window::set_window_title(&mut q, a, "Docs".to_string());
    window::set_window_size(&mut q, a, 800, 600);
    window::focus_window(&mut q, a);
    let cmds = window::take_window_commands(&mut q);
    assert_eq!(cmds.len(), 3);
    assert!(matches!(&cmds[0], WindowCommand::SetTitle(id, t) if *id == a && t == "Docs"));
    assert!(matches!(cmds[1], WindowCommand::SetSize(id, 800, 600) if id == a));
    assert!(matches!(cmds[2], WindowCommand::Focus(id) if id == a));
    assert!(window::take_window_commands(&mut q).is_empty());
}

#[test]
fn per_window_slots_map_windows() {
    let mut w: WindowSlots<u8> = WindowSlots::new();
    assert_eq!(w.get(3), None);
    w.set(3, 7);
    w.set(5, 9);
    w.set(3, 8);
    assert_eq!(w.get(3), Some(8));
    assert_eq!(w.windows().len(), 2);
    assert_eq!(w.remove(3), Some(8));
    assert_eq!(w.get(3), None);
    assert_eq!(w.windows(), vec![5]);
}

#[test]
fn passive_overlay_stays_across_menu_overlays() {
    let mut o = Overlays::new();
    overlay::init(&mut o, MAIN);
    overlay::show_passive(&mut o, MAIN);
    for i in 0..5 {
        overlay::show_overlay(&mut o, MAIN, i % 2 == 0);
        assert!(overlay::passive_is_open(&o, MAIN));
        overlay::hide_overlay(&mut o, MAIN);
        assert!(overlay::passive_is_open(&o, MAIN));
    }
    overlay::hide_passive(&mut o, 3);
    assert!(overlay::passive_is_open(&o, MAIN), "another window's hide leaves it");
    overlay::hide_passive(&mut o, MAIN);
    assert!(!overlay::passive_is_open(&o, MAIN));
}

#[test]
fn removing_a_toast_keeps_the_others() {
    let mut t = Toasts::new();
    let a = toast::show(&mut t, MAIN, ToastVariant::Default, true);
    let b = toast::show(&mut t, MAIN, ToastVariant::Success, true);
    let c = toast::show(&mut t, 2, ToastVariant::Warning, true);
    toast::remove_toast(&mut t, MAIN, a);
    let v = toast::visible(&t, MAIN);
    assert_eq!(v.len(), 1);
    assert_eq!(v[0].id, b);
    toast::remove_toast(&mut t, MAIN, c);
    assert_eq!(toast::visible(&t, 2)[0].id, c, "another window's toast is not removed");
    toast::remove_toast(&mut t, MAIN, b);
    assert!(!toast::any_open(&t, MAIN));
    assert!(toast::any_open(&t, 2));
}
