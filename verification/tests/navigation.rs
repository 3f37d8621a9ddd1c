use pebbles_widgets::calendar::{
    calendar, civil_from_days, day_of_week, days_in_month, is_leap, month_abbr, month_name,
    day_look, month_slots, next_month, prev_month, today, try_today, year_block, CaptionLayout,
    DayLook,
};
use pebbles_widgets::components::{
    ButtonSize, ButtonVariant, InkShape, TabsVariant, ToggleSize, ToggleVariant,
};
use pebbles_widgets::nav::{
    page_window, pagination, status_bar, PageCall, PageItem, PaginationVariant,
};
use pebbles_widgets::selection::{
    accordion_open, accordion_toggle, next_selection, tab_step, toggle_member,
};
use pebbles_widgets::theme::toggle_theme;

use PageItem::{Ellipsis, Page};

#[test]
fn page_window_collapses_to_ellipses() {
    assert_eq!(page_window(2, 5, 7), vec![Page(1), Page(2), Page(3), Page(4), Page(5)]);
    assert_eq!(
        page_window(5, 10, 7),
        vec![Page(1), Ellipsis, Page(4), Page(5), Page(6), Ellipsis, Page(10)]
    );
    assert_eq!(page_window(1, 10, 7), vec![Page(1), Page(2), Ellipsis, Page(10)]);
    assert_eq!(page_window(10, 10, 7), vec![Page(1), Ellipsis, Page(9), Page(10)]);
    assert_eq!(page_window(3, 10, 7), vec![Page(1), Page(2), Page(3), Page(4), Ellipsis, Page(10)]);
    assert_eq!(page_window(8, 10, 7), vec![Page(1), Ellipsis, Page(7), Page(8), Page(9), Page(10)]);
}

#[test]
fn pagination_controls_labels_and_callbacks() {
    let p = pagination::<u8>(0, 0);
    let c = p.controls();
    assert_eq!((c.page, c.total), (1, 1));
    assert!(c.at_start && c.at_end);
    let p = pagination::<u8>(4, 9).variant(PaginationVariant::Simple);
    let c = p.controls();
    assert_eq!((c.prev, c.next), (3, 5));
    assert!(!c.at_start && !c.at_end);
    assert_eq!(p.label(), "Page 4 of 9".chars().collect::<Vec<_>>());
    let p = p.variant(PaginationVariant::Arrows);
    assert_eq!(p.label(), "4 / 9".chars().collect::<Vec<_>>());
    assert_eq!(pagination::<u8>(12, 9).controls().page, 9, "the page is clamped");
    assert_eq!(pagination::<u8>(1, 9).max_buttons(2).max_buttons, 5);
    assert_eq!(pagination::<u8>(5, 20).items().len(), 7);
    assert_eq!(PaginationVariant::default(), PaginationVariant::Numbers);
    let legacy = pagination::<u8>(4, 9).on_prev(1).on_next(2);
    assert_eq!(legacy.go(3), Some(PageCall::Prev(1)));
    assert_eq!(legacy.go(8), Some(PageCall::Next(2)));
    assert_eq!(legacy.go(4), None);
    let unified = legacy.on_page(7);
    assert_eq!(unified.go(3), Some(PageCall::OnPage(7, 3)));
    assert!(pagination::<u8>(1, 2).edges);
    assert!(!pagination::<u8>(1, 2).edges(false).edges);
}

#[test]
fn status_bar_keeps_its_text() {
    assert_eq!(status_bar("Ready".to_string()).text, "Ready");
}

#[test]
fn style_defaults() {
    assert_eq!(ButtonVariant::default(), ButtonVariant::Primary);
    assert_eq!(ButtonSize::default(), ButtonSize::Md);
    assert_eq!(InkShape::default(), InkShape::Rectangle);
    assert_eq!(ToggleSize::default(), ToggleSize::Md);
    assert_eq!(ToggleVariant::default(), ToggleVariant::Default);
    assert_eq!(TabsVariant::default(), TabsVariant::Underline);
    assert!(toggle_theme(false));
    assert!(!toggle_theme(true));
}

#[test]
fn toggle_group_selection() {
    assert_eq!(next_selection(&vec![], false, false, 2), vec![2]);
    assert_eq!(next_selection(&vec![2], false, false, 2), vec![2], "a single choice stays without allow_empty");
    assert_eq!(next_selection(&vec![2], false, true, 2), Vec::<usize>::new());
    assert_eq!(next_selection(&vec![1], false, true, 3), vec![3]);
    assert_eq!(next_selection(&vec![4, 1], true, false, 2), vec![1, 2, 4], "added and sorted");
    assert_eq!(next_selection(&vec![4, 1, 2], true, false, 1), vec![4, 2], "removed, order kept");
}

#[test]
fn tabs_cycle_over_enabled_tabs() {
    let enabled = vec![true, false, true, true];
    assert_eq!(tab_step(0, &enabled, true), Some(2));
    assert_eq!(tab_step(3, &enabled, true), Some(0), "wraps around");
    assert_eq!(tab_step(0, &enabled, false), Some(3));
    assert_eq!(tab_step(2, &enabled, false), Some(0));
    assert_eq!(tab_step(9, &enabled, true), Some(2), "the selection counts modulo the tabs");
    assert_eq!(tab_step(1, &vec![false, true, false], true), Some(1), "back to itself");
    assert_eq!(tab_step(0, &vec![false, false], true), None);
    assert_eq!(tab_step(0, &vec![], true), None);
}

#[test]
fn accordion_sections() {
    let mut open = accordion_open(3, &vec![1, 7]);
    assert_eq!(open, vec![false, true, false]);
    assert!(accordion_toggle(&mut open, 0, false));
    assert_eq!(open, vec![true, false, false], "single mode closes the others");
    assert!(accordion_toggle(&mut open, 2, true));
    assert_eq!(open, vec![true, false, true]);
    assert!(!accordion_toggle(&mut open, 0, true));
    assert_eq!(open, vec![false, false, true]);
}

#[test]
fn multi_select_membership() {
    let mut v = vec![3, 1];
    toggle_member(&mut v, 1);
    assert_eq!(v, vec![3]);
    toggle_member(&mut v, 5);
    assert_eq!(v, vec![3, 5]);
}

#[test]
fn calendar_arithmetic() {
    assert!(is_leap(2024) && !is_leap(1900) && is_leap(2000) && !is_leap(2023));
    assert_eq!(days_in_month(2024, 2), 29);
    assert_eq!(days_in_month(2023, 2), 28);
    assert_eq!(days_in_month(2023, 4), 30);
    assert_eq!(days_in_month(2023, 12), 31);
    assert_eq!(day_of_week(2024, 1, 1), 1, "a Monday");
    assert_eq!(day_of_week(2000, 1, 1), 6, "a Saturday");
    assert_eq!(civil_from_days(0), (1970, 1, 1));
    assert_eq!(civil_from_days(19723), (2024, 1, 1));
    assert_eq!(civil_from_days(-1), (1969, 12, 31));
    assert_eq!(today(86_400 * 19723 + 3600), (2024, 1, 1));
    assert_eq!(month_name(3), "March");
    assert_eq!(month_abbr(12), "Dec");
    assert_eq!(prev_month(2024, 1), (2023, 12));
    assert_eq!(next_month(2024, 12), (2025, 1));
    assert_eq!(next_month(2024, 5), (2024, 6));
    assert_eq!(year_block(2024), 2016);
}

#[test]
fn month_grid_starts_on_the_right_weekday() {
    let slots = month_slots(2024, 2);
    // February 2024 starts on a Thursday (four blanks with Sunday first).
    assert_eq!(slots.len() % 7, 0);
    assert_eq!(&slots[..5], &[None, None, None, None, Some(1)]);
    assert_eq!(slots.iter().filter(|s| s.is_some()).count(), 29);
    assert_eq!(slots.iter().flatten().last(), Some(&29));
}

#[test]
fn calendar_settings_and_opening_month() {
    let c = calendar::<u8>(5);
    assert_eq!(c.on_pick, 5);
    assert_eq!(c.caption, CaptionLayout::Label);
    assert_eq!(c.initial_month((2024, 6)), (2024, 6), "today by default");
    let c = c.selected(2023, 2, 14);
    assert_eq!(c.initial_month((2024, 6)), (2023, 2), "the selected date's month");
    let c = c.month(2022, 11).caption(CaptionLayout::Dropdown).style(3);
    assert_eq!(c.initial_month((2024, 6)), (2022, 11), "an explicit month wins");
    assert_eq!(c.style, Some(3));
    assert_eq!(CaptionLayout::default(), CaptionLayout::Label);
}

#[test]
fn toggling_a_cell_twice_restores_the_selection() {
    let start = vec![1, 4, 6];
    for i in [0, 1, 4, 5, 9] {
        let once = next_selection(&start, true, false, i);
        assert_eq!(next_selection(&once, true, false, i), start);
    }
}

#[test]
fn month_steps_undo_each_other_and_chain_weekdays() {
    for (y, m) in [(2024, 1), (2024, 12), (1999, 6)] {
        let (ny, nm) = next_month(y, m);
        assert_eq!(prev_month(ny, nm), (y, m));
        let (py, pm) = prev_month(y, m);
        assert_eq!(next_month(py, pm), (y, m));
        let first = day_of_week(y, m, 1);
        assert_eq!(day_of_week(ny, nm, 1), (first + days_in_month(y, m)) % 7);
    }
}

#[test]
fn days_follow_the_calendar_across_a_leap_day() {
    assert_eq!(civil_from_days(19782), (2024, 2, 29));
    assert_eq!(civil_from_days(19783), (2024, 3, 1));
    assert_eq!(civil_from_days(20088), (2024, 12, 31));
    assert_eq!(civil_from_days(20089), (2025, 1, 1));
    assert_eq!(civil_from_days(11016), (2000, 2, 29), "2000 is a leap year");
    assert_eq!(civil_from_days(-25508), (1900, 3, 1));
    assert_eq!(civil_from_days(-25509), (1900, 2, 28), "1900 is not");
}

#[test]
fn weekdays_count_days_from_a_thursday() {
    for z in [0i64, 1, 6, 19723, 20089, -1, -25509, -719162] {
        let (y, m, d) = civil_from_days(z);
        assert_eq!(day_of_week(y, m, d) as i64, (z + 4).rem_euclid(7), "day {z}");
    }
}

#[test]
fn try_today_refuses_only_a_year_past_i32() {
    assert_eq!(try_today(86_400 * 19723 + 3600), Some((2024, 1, 1)));
    assert_eq!(try_today(0), Some((1970, 1, 1)));
    // 31 December of the year i32::MAX is still a date; the next day is not.
    assert_eq!(try_today(784_351_576_776 * 86_400), Some((i32::MAX, 12, 31)));
    assert_eq!(try_today(784_351_576_777 * 86_400), None);
}

#[test]
fn month_slots_far_from_today() {
    // 1 March 1_000_001 fell on a Thursday (the weekday cycle repeats every 400 years).
    let near = month_slots(2001, 3);
    let far = month_slots(1_000_001, 3);
    assert_eq!(near, far);
    let far = month_slots(-1_000_000, 7);
    assert_eq!(far.iter().filter(|s| s.is_some()).count(), 31);
    assert_eq!(far.len() % 7, 0);
}

#[test]
fn day_cells_mark_selection_over_today() {
    let today = (2024, 5, 10);
    assert_eq!(day_look(2024, 5, 10, today, None), DayLook::Today);
    assert_eq!(day_look(2024, 5, 10, today, Some((2024, 5, 10))), DayLook::Selected);
    assert_eq!(day_look(2024, 5, 11, today, Some((2024, 5, 11))), DayLook::Selected);
    assert_eq!(day_look(2024, 6, 10, today, Some((2024, 5, 10))), DayLook::Plain);
    assert_eq!(day_look(2023, 5, 10, today, None), DayLook::Plain);
}
