use pebbles_widgets::press::{pointer, press_state, PointerEvent, PressKind, PressReply};
use pebbles_widgets::editor::{KeyInput, Motion};
use pebbles_widgets::global_menu::{
    global_menu_config, is_global_menu_enabled, reset_global_menu, set_global_menu,
    set_global_menu_enabled, set_global_menu_style, show, standard_entries, standard_key,
    MenuConfig, MenuSource, STD_COPY, STD_CUT, STD_PASTE, STD_SELECT_ALL,
};
use pebbles_widgets::image::{base64_payload, decode, decode_base64, ImageLoadError};
use pebbles_widgets::list_nav::list_nav;
use pebbles_widgets::menu::{
    actions, menu_check, menu_item, menu_label, menu_separator, menu_sub, navigable, nth_sub,
    reserve_gutter, row_views, MenuEntry, MenuNav, MenuReply, MenuRun, RowTarget,
};
use pebbles_widgets::native_menu::{menu, menu_bar, NativeEntry};
use pebbles_widgets::search::{
    command, command_group, command_item, command_palette, filter_options, label_matches_query,
    multi_label, query_key, row_option,
};

fn down() -> KeyInput {
    KeyInput::Move { motion: Motion::Down, extend: false }
}

fn up() -> KeyInput {
    KeyInput::Move { motion: Motion::Up, extend: false }
}

fn right() -> KeyInput {
    KeyInput::Move { motion: Motion::Right, extend: false }
}

fn left() -> KeyInput {
    KeyInput::Move { motion: Motion::Left, extend: false }
}

#[test]
fn list_nav_moves_picks_and_dismisses() {
    let mut n = list_nav();
    assert_eq!(n.active(), None);
    let r = n.handle(3, &up());
    assert!(r.consumed);
    assert_eq!(n.active(), Some(2), "Up from none selects the last row");
    n.set_active(None);
    n.handle(3, &down());
    assert_eq!(n.active(), Some(0), "Down from none selects the first row");
    n.handle(3, &down());
    n.handle(3, &down());
    n.handle(3, &down());
    assert_eq!(n.active(), Some(2), "stops at the last row");
    assert_eq!(n.handle(3, &KeyInput::Enter).pick, Some(2));
    assert!(n.handle(3, &KeyInput::Escape).escape);
    let r = n.handle(3, &KeyInput::Insert(vec!['a']));
    assert!(!r.consumed, "typing is left to the field");
    n.clamp(2);
    assert_eq!(n.active(), Some(1));
    n.clamp(0);
    assert_eq!(n.active(), None);
    let r = n.handle(0, &down());
    assert!(r.consumed);
    assert_eq!(n.active(), None);
}

fn sample_menu() -> Vec<MenuEntry> {
    vec![
        menu_label("File".to_string()),
        MenuEntry::Item(menu_item("New".to_string()).shortcut("Mod+N".to_string()).on_select(1)),
        MenuEntry::Item(menu_item("Open".to_string()).disabled(true).on_select(2)),
        menu_separator(),
        menu_sub(
            "Recent".to_string(),
            vec![
                MenuEntry::Item(menu_item("a.txt".to_string()).on_select(10)),
                MenuEntry::Item(menu_item("b.txt".to_string()).on_select(11)),
            ],
        ),
        menu_check("Autosave".to_string(), true, 3),
        MenuEntry::Item(menu_item("Quit".to_string()).destructive().on_select(4)),
    ]
}

#[test]
fn menu_rows_and_actions() {
    let m = sample_menu();
    assert_eq!(
        navigable(&m),
        vec![RowTarget::Action(0), RowTarget::Sub(0), RowTarget::Action(1), RowTarget::Action(2)]
    );
    assert_eq!(
        actions(&m),
        vec![MenuRun::Select(Some(1)), MenuRun::Toggle(3, false), MenuRun::Select(Some(4))]
    );
    assert!(reserve_gutter(&m), "a check item reserves the gutter");
    let plain = vec![MenuEntry::Item(menu_item("x".to_string()))];
    assert!(!reserve_gutter(&plain));
    let with_icon = vec![MenuEntry::Item(menu_item("x".to_string()).icon(0xe001))];
    assert!(reserve_gutter(&with_icon));
    let views = row_views(&m, Some(1));
    assert_eq!(views.len(), m.len());
    assert_eq!(views[0].nav_row, None);
    assert_eq!(views[1].nav_row, Some(0));
    assert_eq!(views[2].nav_row, None, "disabled items are skipped");
    assert_eq!(views[4].nav_row, Some(1));
    assert!(views[4].highlighted);
    assert_eq!(views.iter().filter(|v| v.highlighted).count(), 1);
    assert_eq!(nth_sub(&m, 0).map(|v| v.len()), Some(2));
    assert!(nth_sub(&m, 1).is_none());
}

#[test]
fn menu_keyboard_opens_submenus_and_runs_actions() {
    let m = sample_menu();
    let mut k = MenuNav::new();
    assert_eq!(k.key(&m, false, &down()), MenuReply::Moved);
    assert_eq!(k.key(&m, false, &KeyInput::Enter), MenuReply::Run(0));
    assert_eq!(k.key(&m, false, &down()), MenuReply::Moved);
    assert_eq!(k.key(&m, false, &KeyInput::Enter), MenuReply::Moved, "Enter on a submenu row");
    assert_eq!(k.key(&m, false, &right()), MenuReply::OpenSub(0));
    assert_eq!(k.open_sub, Some(0));
    assert_eq!(k.key(&m, true, &down()), MenuReply::Moved);
    assert_eq!(k.key(&m, true, &down()), MenuReply::Moved);
    assert_eq!(k.key(&m, true, &KeyInput::Enter), MenuReply::RunChild(0, 1));
    assert_eq!(k.key(&m, true, &left()), MenuReply::CloseSub);
    assert_eq!(k.open_sub, None);
    assert_eq!(k.child.active, None);
    assert_eq!(k.key(&m, false, &up()), MenuReply::Moved);
    assert_eq!(k.key(&m, false, &KeyInput::Enter), MenuReply::Run(0));
    assert_eq!(k.key(&m, false, &KeyInput::Escape), MenuReply::Dismiss);
    assert_eq!(k.key(&m, false, &KeyInput::Insert(vec!['q'])), MenuReply::Ignored);
}

#[test]
fn submenu_hidden_by_hover_gives_the_keyboard_back() {
    let m = sample_menu();
    let mut k = MenuNav::new();
    k.key(&m, false, &down());
    k.key(&m, false, &down());
    k.key(&m, false, &right());
    // The panel closed on its own: the parent list owns the keys again.
    assert_eq!(k.key(&m, false, &down()), MenuReply::Moved);
    assert_eq!(k.nav.active, Some(2));
}

#[test]
fn native_menu_converts_entries() {
    let accel = |s: &String| -> Option<String> {
        if s == "Mod+N" {
            Some("Control+KeyN".to_string())
        } else {
            None
        }
    };
    let file = menu("File".to_string(), &sample_menu(), &accel);
    assert_eq!(file.label, "File");
    assert_eq!(file.entries.len(), 7);
    assert!(matches!(&file.entries[0], NativeEntry::Item { label, enabled: false, on_select: None, .. } if label == "File"));
    assert!(matches!(&file.entries[1], NativeEntry::Item { label, accelerator: Some(a), enabled: true, on_select: Some(1) } if label == "New" && a == "Control+KeyN"));
    assert!(matches!(&file.entries[2], NativeEntry::Item { enabled: false, on_select: Some(2), accelerator: None, .. }));
    assert!(matches!(&file.entries[3], NativeEntry::Separator));
    assert!(matches!(&file.entries[4], NativeEntry::Submenu { entries, .. } if entries.len() == 2));
    assert!(matches!(&file.entries[5], NativeEntry::Check { checked: true, enabled: true, on_toggle: 3, accelerator: None, .. }));
    let bar = menu_bar(vec![file, menu("Edit".to_string(), &Vec::new(), &accel)]);
    assert_eq!(bar.menus.len(), 2);
    assert_eq!(bar.menus[1].label, "Edit");
}

#[test]
fn global_menu_settings() {
    let mut cfg: MenuConfig<u8> = global_menu_config();
    assert!(is_global_menu_enabled(&cfg));
    match show(&cfg, false) {
        Some(MenuSource::Standard(std)) => {
            assert_eq!(std.len(), 5);
            assert!(matches!(&std[0], MenuEntry::Item(it) if it.label == "Cut" && it.disabled));
        }
        _ => panic!("the standard set shows by default"),
    }
    set_global_menu(&mut cfg, vec![menu_label("Mine".to_string())]);
    assert!(matches!(show(&cfg, true), Some(MenuSource::Custom(v)) if v.len() == 1));
    set_global_menu_style(&mut cfg, 7);
    assert_eq!(cfg.style, Some(7));
    reset_global_menu(&mut cfg);
    assert!(matches!(show(&cfg, true), Some(MenuSource::Standard(_))));
    set_global_menu_enabled(&mut cfg, false);
    assert!(!is_global_menu_enabled(&cfg));
    assert!(show(&cfg, true).is_none());
}

#[test]
fn standard_entries_follow_focus() {
    let on = standard_entries(true);
    let labels: Vec<String> = on
        .iter()
        .map(|e| match e {
            MenuEntry::Item(it) => it.label.clone(),
            _ => "-".to_string(),
        })
        .collect();
    assert_eq!(labels, vec!["Cut", "Copy", "Paste", "-", "Select All"]);
    assert!(on.iter().all(|e| !matches!(e, MenuEntry::Item(it) if it.disabled)));
    assert!(matches!(standard_key(STD_CUT), Some(KeyInput::Cut)));
    assert!(matches!(standard_key(STD_COPY), Some(KeyInput::Copy)));
    assert!(matches!(standard_key(STD_PASTE), Some(KeyInput::Paste)));
    assert!(matches!(standard_key(STD_SELECT_ALL), Some(KeyInput::SelectAll)));
    assert!(standard_key(99).is_none());
}

#[test]
fn search_is_case_insensitive_substring() {
    let q = query_key("ApP");
    assert_eq!(q, vec!['a', 'p', 'p']);
    assert!(label_matches_query("Apple", &q));
    assert!(label_matches_query("PINEAPPLE", &q));
    assert!(!label_matches_query("Banana", &q));
    assert!(label_matches_query("Banana", &[]), "an empty query matches everything");
    let opts: Vec<String> = ["Apple", "Banana", "Grape", "pineapple"].iter().map(|s| s.to_string()).collect();
    assert_eq!(filter_options(&opts, "AP"), vec![0, 2, 3]);
    assert_eq!(filter_options(&opts, ""), vec![0, 1, 2, 3]);
    assert!(filter_options(&opts, "kiwi").is_empty());
    let rows = filter_options(&opts, "an");
    assert_eq!(rows, vec![1]);
    assert_eq!(row_option(&rows, 0), Some(1));
    assert_eq!(row_option(&rows, 1), None);
}

#[test]
fn multi_select_label() {
    let opts: Vec<String> = ["Red", "Green", "Blue"].iter().map(|s| s.to_string()).collect();
    assert_eq!(multi_label(&vec![], &opts, "Pick colors"), "Pick colors".chars().collect::<Vec<_>>());
    assert_eq!(multi_label(&vec![2], &opts, "x"), "Blue".chars().collect::<Vec<_>>());
    assert_eq!(multi_label(&vec![2, 0], &opts, "x"), "Blue, Red".chars().collect::<Vec<_>>());
    assert_eq!(multi_label(&vec![0, 1, 2], &opts, "x"), "3 selected".chars().collect::<Vec<_>>());
    assert_eq!(multi_label(&vec![9, 1], &opts, "x"), "Green".chars().collect::<Vec<_>>(), "unknown options are skipped");
}

#[test]
fn command_palette_filters_groups_and_picks() {
    let groups = vec![
        command_group(
            "Files".to_string(),
            vec![
                command_item("New File".to_string()).on_select(1),
                command_item("Open File".to_string()).shortcut("⌘O".to_string()).on_select(2),
            ],
        ),
        command_group("View".to_string(), vec![command_item("Zoom In".to_string()).on_select(3)]),
    ];
    let inline = command(groups.clone());
    assert_eq!(inline.placeholder, "Type a command…");
    assert_eq!(inline.empty, "No results.");
    assert!(!inline.modal);
    assert_eq!(inline.visible(""), vec![(0, 0), (0, 1), (1, 0)]);
    assert_eq!(inline.visible("FILE"), vec![(0, 0), (0, 1)]);
    assert_eq!(inline.visible("zoom"), vec![(1, 0)]);
    assert!(inline.visible("nothing").is_empty());
    let rows = inline.visible("open");
    let p = inline.pick(&rows, 0);
    assert_eq!(p.run, Some(2));
    assert!(!p.dismiss);
    let palette = command_palette(groups).placeholder("Search…".to_string());
    assert!(palette.modal);
    assert_eq!(palette.placeholder, "Search…");
    let p = palette.pick(&palette.visible(""), 2);
    assert_eq!(p.run, Some(3));
    assert!(p.dismiss);
    assert_eq!(palette.pick(&vec![], 0).run, None);
}

/// A 1×1 PNG.
const PIXEL_PNG: &str = "iVBORw0KGgoAAAANSUhEUgAAAAEAAAABCAYAAAAfFcSJAAAADUlEQVR42mNk+M9QDwADhgGAWjR9awAAAABJRU5ErkJggg==";

#[test]
fn base64_payload_takes_the_text_after_the_last_marker() {
    assert_eq!(base64_payload("data:image/png;base64,QUJD"), "QUJD");
    assert_eq!(base64_payload("  QUJD \n"), "QUJD");
    assert_eq!(base64_payload("base64,x;base64, QUJD "), "QUJD");
    assert_eq!(base64_payload("plain"), "plain");
}

#[test]
fn decodes_a_base64_png() {
    let uri = format!("data:image/png;base64,{PIXEL_PNG}");
    let img = decode_base64(&uri).expect("decodes");
    assert_eq!((img.width, img.height), (1, 1));
    assert_eq!(img.rgba.len(), 4);
    let again = decode_base64(PIXEL_PNG).expect("the bare payload decodes too");
    assert_eq!(again.rgba, img.rgba);
}

#[test]
fn decode_errors_name_the_failing_stage() {
    assert!(matches!(decode_base64("data:image/png;base64,@@@"), Err(ImageLoadError::Base64(_))));
    // "QUJD" is valid base64 for "ABC", which is no image.
    assert!(matches!(decode_base64("QUJD"), Err(ImageLoadError::Image(_))));
    assert!(matches!(decode(b"not an image"), Err(ImageLoadError::Image(_))));
}

#[test]
fn button_and_pressable_pointer_protocol() {
    let mut st = press_state();
    let r = pointer(PressKind::Button, false, &mut st, PointerEvent::Enter);
    assert_eq!(r, PressReply { hover: Some(true), highlight: None, focus: false });
    let r = pointer(PressKind::Button, false, &mut st, PointerEvent::Down);
    assert_eq!(r, PressReply { hover: None, highlight: Some(true), focus: true });
    assert!(st.pressed && st.hovered);
    let r = pointer(PressKind::Button, false, &mut st, PointerEvent::Up);
    assert_eq!(r.highlight, Some(false));
    assert!(!st.pressed);

    // A pressable ends a press on release without a highlight report...
    let mut st = press_state();
    pointer(PressKind::Pressable, false, &mut st, PointerEvent::Down);
    let r = pointer(PressKind::Pressable, false, &mut st, PointerEvent::Up);
    assert_eq!(r.highlight, None);
    assert!(!st.pressed);
    // ...but leaving while pressed reports the highlight's end.
    pointer(PressKind::Pressable, false, &mut st, PointerEvent::Down);
    let r = pointer(PressKind::Pressable, false, &mut st, PointerEvent::Exit);
    assert_eq!(r, PressReply { hover: Some(false), highlight: Some(false), focus: false });
    assert!(!st.pressed && !st.hovered);

    // An inert (disabled or loading) control ignores the pointer.
    let mut st = press_state();
    let r = pointer(PressKind::Button, true, &mut st, PointerEvent::Down);
    assert_eq!(r, PressReply { hover: None, highlight: None, focus: false });
    assert!(!st.pressed);
}
