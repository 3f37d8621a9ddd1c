use pebbles_widgets::date_format::{DateFormat, DateOrder};
use pebbles_widgets::editor::{
    apply_mask, field_key, Editor, FieldCallbacks, FieldEvent, KeyInput, Mask, Motion, UNDO_LIMIT,
};
use pebbles_widgets::otp::{input_otp, OtpState};
use pebbles_widgets::text_field::{
    field_setup, format_currency, group_thousands, kind_filter, kind_format, kind_placeholder,
    next_boundary, ordered, prev_boundary, Affordance, CharFilter, InputKind,
};
use pebbles_widgets::time_field::{label12, mask_time, time_options};

fn chars(s: &str) -> Vec<char> {
    s.chars().collect()
}

fn editor(text: &str) -> Editor {
    let v = chars(text);
    let n = v.len();
    Editor {
        value: v,
        anchor: n,
        focus: n,
        preedit: Vec::new(),
        undo: Vec::new(),
        redo: Vec::new(),
        multiline: false,
    }
}

fn key(e: &mut Editor, k: KeyInput) -> (bool, bool) {
    let o = e.apply(k, None, None, None, &[], None);
    (o.changed, o.submitted)
}

fn text(e: &Editor) -> String {
    e.value.iter().collect()
}

#[test]
fn date_format_presets_and_mask() {
    let mdy = DateFormat::mdy();
    assert_eq!(mdy.order, DateOrder::Mdy);
    assert_eq!(mdy.separator, '/');
    assert_eq!(DateFormat::ymd().separator, '-');
    assert_eq!(mdy.mask("12252024"), "12/25/2024");
    assert_eq!(mdy.mask("1a2"), "12");
    assert_eq!(mdy.mask("123"), "12/3");
    assert_eq!(mdy.mask("1225202499"), "12/25/2024", "at most eight digits");
    assert_eq!(DateFormat::ymd().mask("20240102"), "2024-01-02");
    assert_eq!(mdy.widths(), [2, 2, 4]);
    assert_eq!(DateFormat::ymd().widths(), [4, 2, 2]);
}

#[test]
fn date_format_parse_and_format() {
    let mdy = DateFormat::mdy();
    assert_eq!(mdy.parse("12/25/2024"), Some((2024, 12, 25)));
    assert_eq!(mdy.parse("13/25/2024"), None, "month out of range");
    assert_eq!(mdy.parse("12/32/2024"), None, "day out of range");
    assert_eq!(mdy.parse("12/25/24"), None, "the year needs four characters");
    assert_eq!(mdy.parse("12/25"), None);
    assert_eq!(mdy.parse("02/31/2024"), Some((2024, 2, 31)), "no month-length check");
    assert_eq!(mdy.parse("13/01/2024"), None);
    assert_eq!(mdy.parse("1/2/2024/5"), None, "four parts");
    assert_eq!(DateFormat::dmy().parse("25/12/2024"), Some((2024, 12, 25)));
    assert_eq!(DateFormat::ymd().parse("2024-01-02"), Some((2024, 1, 2)));
    assert_eq!(mdy.format(2024, 1, 2), "01/02/2024");
    assert_eq!(DateFormat::dmy().format(987, 3, 4), "04/03/0987");
    assert_eq!(DateFormat::ymd().separator('.').format(2024, 12, 31), "2024.12.31");
    assert_eq!(mdy.hint(), "MM/DD/YYYY");
    assert_eq!(DateFormat::ymd().hint(), "YYYY-MM-DD");
    assert!(mdy.allows('7') && mdy.allows('/') && !mdy.allows('-'));
}

#[test]
fn date_round_trip_through_format_and_parse() {
    for f in [DateFormat::mdy(), DateFormat::dmy(), DateFormat::ymd()] {
        for (y, m, d) in [(2024, 2, 29), (1, 1, 1), (9999, 12, 31)] {
            assert_eq!(f.parse(&f.format(y, m, d)), Some((y, m, d)));
        }
    }
}

#[test]
fn date_mask_is_idempotent_on_examples() {
    let f = DateFormat::dmy();
    for s in ["", "1", "311", "31122024", "3/1-2x2"] {
        let once = f.mask(s);
        assert_eq!(f.mask(&once), once);
    }
}

#[test]
fn time_mask_labels_and_slots() {
    assert_eq!(mask_time("0930"), "09:30");
    assert_eq!(mask_time("9"), "9");
    assert_eq!(mask_time("12:345"), "12:34");
    assert_eq!(mask_time(&mask_time("1745")), "17:45");
    assert_eq!(label12(0, 5), "12:05 AM");
    assert_eq!(label12(12, 0), "12:00 PM");
    assert_eq!(label12(23, 59), "11:59 PM");
    let half = time_options(false, 30);
    assert_eq!(half.len(), 48);
    assert_eq!(half[0], "00:00");
    assert_eq!(half[1], "00:30");
    assert_eq!(half[47], "23:30");
    let twelve = time_options(true, 60);
    assert_eq!(twelve.len(), 24);
    assert_eq!(twelve[13], "01:00 PM");
    assert_eq!(time_options(false, 0).len(), 1440, "a zero step counts as one minute");
    assert_eq!(time_options(false, 1000).len(), 2);
}

#[test]
fn thousands_and_currency() {
    assert_eq!(group_thousands("1234567"), "1,234,567");
    assert_eq!(group_thousands("123"), "123");
    assert_eq!(group_thousands("a1b2c3d4"), "1,234");
    assert_eq!(group_thousands(""), "");
    assert_eq!(format_currency("1234.5"), "$1,234.5");
    assert_eq!(format_currency("1234.567"), "$1,234.56");
    assert_eq!(format_currency(".5"), "$0.5");
    assert_eq!(format_currency("abc"), "");
    assert_eq!(format_currency("1000000"), "$1,000,000");
    assert_eq!(format_currency("12.3.4"), "$12.34");
    let once = format_currency("98765.4321");
    assert_eq!(format_currency(&once), once);
}

#[test]
fn kinds_and_filters() {
    assert_eq!(kind_filter(InputKind::Text), None);
    assert_eq!(kind_filter(InputKind::Integer), Some(CharFilter::SignedInteger));
    let phone = kind_filter(InputKind::Phone).unwrap();
    assert!(phone.allows('(') && phone.allows('5') && !phone.allows('x'));
    let email = kind_filter(InputKind::Email).unwrap();
    assert!(email.allows('@') && !email.allows(' '));
    assert_eq!(kind_placeholder(InputKind::Currency), "$0.00");
    assert_eq!(kind_placeholder(InputKind::Search), "Search…");
    assert_eq!(kind_format(InputKind::Currency), Some(Mask::Currency));
    assert_eq!(kind_format(InputKind::Number), None);
    assert_eq!(InputKind::default(), InputKind::Text);
}

#[test]
fn field_setup_prefers_explicit_settings() {
    let s = field_setup(InputKind::Currency, None, None, "", None, false, false, false, true);
    assert_eq!(s.filter, Some(CharFilter::UnsignedDecimal));
    assert_eq!(s.format, Some(Mask::Currency));
    assert_eq!(s.placeholder, chars("$0.00"));
    assert_eq!(s.trailing, Affordance::Nothing);
    let s = field_setup(InputKind::Currency, Some(CharFilter::SignedInteger), None, "Amount", None, false, false, false, true);
    assert_eq!(s.filter, Some(CharFilter::SignedInteger));
    assert_eq!(s.placeholder, chars("Amount"));
    let pw = field_setup(InputKind::Password, None, None, "", None, false, false, false, true);
    assert_eq!(pw.obscure, Some('•'));
    assert_eq!(pw.trailing, Affordance::RevealToggle);
    let shown = field_setup(InputKind::Password, None, None, "", None, true, false, false, true);
    assert_eq!(shown.obscure, None);
    let search = field_setup(InputKind::Search, None, None, "", None, false, false, false, false);
    assert_eq!(search.trailing, Affordance::ClearButton);
    let disabled = field_setup(InputKind::Search, None, None, "", None, false, false, true, false);
    assert_eq!(disabled.trailing, Affordance::Nothing);
}

#[test]
fn utf8_boundaries_and_order() {
    let s = "aé😀";
    assert_eq!(next_boundary(s, 0), 1);
    assert_eq!(next_boundary(s, 1), 3);
    assert_eq!(next_boundary(s, 3), 7);
    assert_eq!(prev_boundary(s, 7), 3);
    assert_eq!(prev_boundary(s, 3), 1);
    assert_eq!(prev_boundary(s, 0), 0);
    assert_eq!(ordered(5, 2), (2, 5));
    assert_eq!(ordered(2, 5), (2, 5));
}

#[test]
fn editor_types_deletes_and_submits() {
    let mut e = editor("");
    assert_eq!(key(&mut e, KeyInput::Insert(chars("hello"))), (true, false));
    assert_eq!(text(&e), "hello");
    assert_eq!((e.anchor, e.focus), (5, 5));
    assert_eq!(key(&mut e, KeyInput::Backspace), (true, false));
    assert_eq!(text(&e), "hell");
    assert_eq!(key(&mut e, KeyInput::Enter), (false, true), "single-line Enter submits");
    key(&mut e, KeyInput::Move { motion: Motion::Left, extend: true });
    key(&mut e, KeyInput::Move { motion: Motion::Left, extend: true });
    assert_eq!((e.anchor, e.focus), (4, 2));
    key(&mut e, KeyInput::Insert(chars("X")));
    assert_eq!(text(&e), "heX");
    key(&mut e, KeyInput::SelectAll);
    assert_eq!((e.anchor, e.focus), (0, 3));
    key(&mut e, KeyInput::Delete);
    assert_eq!(text(&e), "");
}

#[test]
fn editor_newlines_depend_on_multiline() {
    let mut e = editor("");
    key(&mut e, KeyInput::Insert(chars("a\nb\r")));
    assert_eq!(text(&e), "ab");
    let mut m = editor("");
    m.multiline = true;
    key(&mut m, KeyInput::Insert(chars("a")));
    assert_eq!(key(&mut m, KeyInput::Enter), (true, false));
    assert_eq!(text(&m), "a\n");
}

#[test]
fn editor_filter_and_max_length() {
    let mut e = editor("12");
    let o = e.apply(KeyInput::Insert(chars("3a4-5")), Some(CharFilter::SignedInteger), Some(4), None, &[], None);
    assert!(o.changed);
    assert_eq!(text(&e), "1234");
    let o = e.apply(KeyInput::Insert(chars("9")), None, Some(4), None, &[], None);
    assert!(!o.changed, "full: nothing inserted");
    assert_eq!(text(&e), "1234");
}

#[test]
fn editor_undo_redo_round_trip() {
    let mut e = editor("");
    key(&mut e, KeyInput::Insert(chars("ab")));
    key(&mut e, KeyInput::Insert(chars("c")));
    assert_eq!(text(&e), "abc");
    key(&mut e, KeyInput::Undo);
    assert_eq!(text(&e), "ab");
    key(&mut e, KeyInput::Undo);
    assert_eq!(text(&e), "");
    assert_eq!(key(&mut e, KeyInput::Undo), (false, false), "nothing left to undo");
    key(&mut e, KeyInput::Redo);
    assert_eq!(text(&e), "ab");
    key(&mut e, KeyInput::Redo);
    assert_eq!(text(&e), "abc");
    // A new edit drops the redo history.
    key(&mut e, KeyInput::Undo);
    key(&mut e, KeyInput::Insert(chars("z")));
    assert_eq!(key(&mut e, KeyInput::Redo), (false, false));
    assert_eq!(text(&e), "abz");
}

#[test]
fn editor_undo_history_is_capped() {
    let mut e = editor("");
    for _ in 0..(UNDO_LIMIT + 10) {
        key(&mut e, KeyInput::Insert(chars("x")));
    }
    assert_eq!(e.undo.len(), UNDO_LIMIT);
}

#[test]
fn editor_copy_cut_paste() {
    let mut e = editor("hello world");
    e.anchor = 0;
    e.focus = 5;
    let o = e.apply(KeyInput::Copy, None, None, None, &[], None);
    assert_eq!(o.copied, Some(chars("hello")));
    assert!(!o.changed);
    let o = e.apply(KeyInput::Cut, None, None, None, &[], None);
    assert_eq!(o.copied, Some(chars("hello")));
    assert_eq!(text(&e), " world");
    e.anchor = 0;
    e.focus = 0;
    let o = e.apply(KeyInput::Paste, None, None, None, &chars("bye\n"), None);
    assert!(o.changed);
    assert_eq!(text(&e), "bye world");
    assert_eq!(e.focus, 3);
}

#[test]
fn editor_paste_is_filtered_and_capped() {
    let mut e = editor("ab");
    let o = e.apply(KeyInput::Paste, Some(CharFilter::NoWhitespace), Some(3), None, &chars("x1yz"), None);
    assert!(o.changed);
    assert!(!o.submitted);
    assert_eq!(text(&e), "abx");
    assert_eq!((e.anchor, e.focus), (3, 3));

    let mut e = editor("");
    e.apply(KeyInput::Paste, Some(CharFilter::SignedInteger), None, None, &chars("a1-b 2"), None);
    assert_eq!(text(&e), "1-2");

    // Nothing left after the filter: no change, no undo entry.
    let mut e = editor("7");
    let o = e.apply(KeyInput::Paste, Some(CharFilter::SignedInteger), None, None, &chars("abc"), None);
    assert!(!o.changed);
    assert_eq!(text(&e), "7");
    assert!(e.undo.is_empty());

    // A full field takes no more.
    let mut e = editor("abc");
    let o = e.apply(KeyInput::Paste, None, Some(3), None, &chars("d"), None);
    assert!(!o.changed);
    assert_eq!(text(&e), "abc");
}

#[test]
fn editor_insert_respects_cap_over_selection() {
    let mut e = editor("abcd");
    e.anchor = 1;
    e.focus = 3;
    let o = e.apply(KeyInput::Insert(chars("xyz")), None, Some(4), None, &[], None);
    assert!(o.changed);
    assert_eq!(text(&e), "axyd");
    assert_eq!(e.focus, 3);
}

#[test]
fn editor_word_motions_and_escape() {
    let mut e = editor("one two  three");
    key(&mut e, KeyInput::Move { motion: Motion::WordLeft, extend: false });
    assert_eq!(e.focus, 9);
    key(&mut e, KeyInput::Move { motion: Motion::WordLeft, extend: false });
    assert_eq!(e.focus, 4);
    key(&mut e, KeyInput::DeleteWordForward);
    assert_eq!(text(&e), "one   three");
    let o = e.apply(KeyInput::Escape, None, None, None, &[], None);
    assert!(o.blur);
}

#[test]
fn editor_currency_mask_moves_caret_to_end() {
    let mut e = editor("");
    let o = e.apply(KeyInput::Insert(chars("1234")), None, None, Some(Mask::Currency), &[], None);
    assert!(o.changed);
    assert_eq!(text(&e), "$1,234");
    assert_eq!(e.focus, 6);
    assert_eq!(apply_mask(Mask::Time, &chars("1230")), chars("12:30"));
}

#[test]
fn editor_caret_placement_and_clear() {
    let mut e = editor("abcdef");
    e.place_caret(Some(2), false);
    assert_eq!((e.anchor, e.focus), (2, 2));
    e.place_caret(Some(99), true);
    assert_eq!((e.anchor, e.focus), (2, 6));
    e.place_caret(None, false);
    assert_eq!((e.anchor, e.focus), (0, 0));
    e.clear();
    assert!(e.value.is_empty());
}

#[test]
fn otp_fills_and_completes() {
    let otp = input_otp(4).group_size(2).on_changed(1).on_complete(2);
    let mut st = OtpState { code: Vec::new(), active: 0 };
    let r = otp.key(&mut st, &KeyInput::Insert(chars("1\u{7}2")), &[]);
    assert!(r.changed && !r.complete);
    assert_eq!(st.code, chars("12"));
    assert_eq!(st.active, 2);
    let r = otp.key(&mut st, &KeyInput::Paste, &chars("3456"));
    assert!(r.complete);
    assert_eq!(st.code, chars("1234"), "never past the cells");
    assert_eq!(st.active, 3);
    let r = otp.key(&mut st, &KeyInput::Backspace, &[]);
    assert!(r.changed && !r.complete);
    assert_eq!(st.code, chars("123"));
    let r = otp.key(&mut st, &KeyInput::Move { motion: Motion::Left, extend: false }, &[]);
    assert!(!r.changed);
    assert_eq!(st.active, 2);
    otp.key(&mut st, &KeyInput::Move { motion: Motion::Right, extend: false }, &[]);
    otp.key(&mut st, &KeyInput::Move { motion: Motion::Right, extend: false }, &[]);
    assert_eq!(st.active, 3, "capped at the last cell");
}

#[test]
fn otp_key_runs_stay_within_the_cells() {
    let otp = input_otp(3);
    let mut st = OtpState { code: Vec::new(), active: 0 };
    let keys = vec![
        (KeyInput::Insert(chars("12345")), Vec::new()),
        (KeyInput::Move { motion: Motion::Right, extend: false }, Vec::new()),
        (KeyInput::Paste, chars("9\n9")),
        (KeyInput::Backspace, Vec::new()),
        (KeyInput::Backspace, Vec::new()),
        (KeyInput::Move { motion: Motion::Left, extend: false }, Vec::new()),
        (KeyInput::Move { motion: Motion::Left, extend: false }, Vec::new()),
        (KeyInput::Move { motion: Motion::Left, extend: false }, Vec::new()),
        (KeyInput::Paste, chars("a\u{1b}bcd")),
    ];
    for (k, clip) in keys.iter() {
        otp.key(&mut st, k, clip);
        assert!(st.code.len() <= 3);
        assert!(st.active < 3);
    }
    assert_eq!(st.code.iter().collect::<String>(), "1ab");
    assert_eq!(st.active, 2);
}

#[test]
fn otp_cells_show_groups_and_obscured_glyphs() {
    assert_eq!(input_otp(0).len, 1, "at least one cell");
    let otp = input_otp(6).group_size(3).obscured(true);
    let st = OtpState { code: chars("12"), active: 2 };
    let cells = otp.cells(&st, true);
    assert_eq!(cells.len(), 6);
    assert_eq!(cells[0].glyph, Some('•'));
    assert_eq!(cells[2].glyph, None);
    assert!(cells[2].active && !cells[1].active);
    assert!(cells[3].separator_before && !cells[1].separator_before && !cells[0].separator_before);
    let plain = input_otp(6).cells(&st, false);
    assert_eq!(plain[1].glyph, Some('2'));
    assert!(plain.iter().all(|c| !c.active));
}

#[test]
fn field_key_fires_callbacks_in_order() {
    let all = FieldCallbacks { on_changed: true, on_editing_complete: true, on_submit: true };
    let mut e = editor("ab");
    let (o, ev) = field_key(&mut e, KeyInput::Insert(chars("c")), false, None, None, None, &[], None, all);
    assert!(o.unwrap().changed);
    assert_eq!(ev, vec![FieldEvent::Changed]);
    let (o, ev) = field_key(&mut e, KeyInput::Enter, false, None, None, None, &[], None, all);
    assert!(o.unwrap().submitted);
    assert_eq!(ev, vec![FieldEvent::EditingComplete, FieldEvent::Submit]);
    // A key the list navigation consumes never reaches the editor.
    let (o, ev) = field_key(&mut e, KeyInput::Insert(chars("d")), true, None, None, None, &[], None, all);
    assert!(o.is_none());
    assert!(ev.is_empty());
    assert_eq!(text(&e), "abc");
    // Unset callbacks do not fire.
    let only_submit = FieldCallbacks { on_changed: false, on_editing_complete: false, on_submit: true };
    let (_, ev) = field_key(&mut e, KeyInput::Backspace, false, None, None, None, &[], None, only_submit);
    assert!(ev.is_empty());
    let (_, ev) = field_key(&mut e, KeyInput::Enter, false, None, None, None, &[], None, only_submit);
    assert_eq!(ev, vec![FieldEvent::Submit]);
}

#[test]
fn editor_paste_with_callers_filter() {
    let mut e = editor("ab");
    let letters = |c: char| c.is_ascii_alphabetic();
    let o = e.apply_filtered(KeyInput::Paste, &letters, Some(3), None, &chars("x1yz"), None);
    assert!(o.changed);
    assert!(!o.submitted);
    assert_eq!(text(&e), "abx");
    assert_eq!((e.anchor, e.focus), (3, 3));

    let mut e = editor("");
    e.apply_filtered(KeyInput::Insert(chars("a1b2\nc")), &letters, None, None, &[], None);
    assert_eq!(text(&e), "abc");
    let o = e.apply_filtered(KeyInput::Insert(chars("123")), &letters, None, None, &[], None);
    assert!(!o.changed);
    assert_eq!(text(&e), "abc");
    // Other commands ignore the filter.
    e.apply_filtered(KeyInput::Backspace, &letters, None, None, &[], None);
    assert_eq!(text(&e), "ab");
}

#[test]
fn editor_reformat_with_callers_formatter() {
    let upper = |s: &str| s.to_uppercase();
    let mut e = editor("ab");
    e.anchor = 0;
    e.focus = 0;
    let o = e.apply_filtered(KeyInput::Insert(chars("c")), &|_: char| true, None, None, &[], None);
    e.reformat_with(o.changed, &upper);
    assert_eq!(text(&e), "CAB");
    assert_eq!((e.anchor, e.focus), (3, 3), "a reformatted value puts the caret at its end");
    // An unchanged value keeps its caret.
    e.anchor = 1;
    e.focus = 1;
    e.reformat_with(true, &upper);
    assert_eq!((e.anchor, e.focus), (1, 1));
    // No change, no formatting.
    let mut e = editor("xy");
    e.reformat_with(false, &upper);
    assert_eq!(text(&e), "xy");
}
