use fuzzypicker::window::{Direction, Window, SCROLL_STEP};

fn window(count: usize, height: u16) -> Window {
    let mut w = Window::new(height);
    w.set_count(count);
    w
}

#[test]
fn fresh_window_is_at_the_top() {
    let w = Window::new(24);
    assert_eq!(w.count(), 0);
    assert_eq!(w.selected(), 0);
    assert_eq!(w.start_index(), 0);
    assert_eq!(w.rows(), 23);
    assert_eq!(w.visible(), 0);
}

#[test]
fn fresh_window_on_a_terminal_without_rows() {
    assert_eq!(Window::new(0).rows(), 0);
    assert_eq!(Window::new(1).rows(), 0);
    assert_eq!(Window::new(u16::MAX).rows(), u16::MAX - 1);
}

#[test]
fn advance_wraps_at_both_ends() {
    let mut w = window(3, 10);
    w.advance_selection(Direction::Down);
    assert_eq!(w.selected(), 1);
    w.advance_selection(Direction::Down);
    assert_eq!(w.selected(), 2);
    w.advance_selection(Direction::Down);
    assert_eq!(w.selected(), 0);
    w.advance_selection(Direction::Up);
    assert_eq!(w.selected(), 2);
    w.advance_selection(Direction::Up);
    assert_eq!(w.selected(), 1);
}

#[test]
fn advance_on_an_empty_list_does_nothing() {
    let mut w = window(0, 10);
    w.advance_selection(Direction::Down);
    assert_eq!(w.selected(), 0);
    w.advance_selection(Direction::Up);
    assert_eq!(w.selected(), 0);
    assert_eq!(w.count(), 0);
}

#[test]
fn advance_on_a_single_entry_stays() {
    let mut w = window(1, 10);
    w.advance_selection(Direction::Down);
    assert_eq!(w.selected(), 0);
    w.advance_selection(Direction::Up);
    assert_eq!(w.selected(), 0);
}

#[test]
fn advance_there_and_back_returns() {
    for count in 1usize..9 {
        for from in 0..count {
            for n in 0usize..20 {
                let mut w = window(count, 10);
                for _ in 0..from {
                    w.advance_selection(Direction::Down);
                }
                assert_eq!(w.selected(), from);
                for _ in 0..n {
                    w.advance_selection(Direction::Down);
                    w.advance_selection(Direction::Up);
                }
                assert_eq!(w.selected(), from);
                for _ in 0..n {
                    w.advance_selection(Direction::Up);
                }
                for _ in 0..n {
                    w.advance_selection(Direction::Down);
                }
                assert_eq!(w.selected(), from);
            }
        }
    }
}

#[test]
fn scroll_step_is_two_rows() {
    assert_eq!(SCROLL_STEP, 2);
}

#[test]
fn scroll_up_at_the_top_does_nothing() {
    let mut w = window(20, 6);
    w.advance_selection(Direction::Down);
    w.scroll(Direction::Up);
    assert_eq!(w.start_index(), 0);
    assert_eq!(w.selected(), 1);
    assert_eq!(w.rows(), 5);
}

#[test]
fn scroll_down_moves_window_and_cursor() {
    let mut w = window(20, 6);
    w.scroll(Direction::Down);
    assert_eq!(w.start_index(), 2);
    assert_eq!(w.selected(), 2);
    assert_eq!(w.rows(), 5);
    w.scroll(Direction::Down);
    assert_eq!(w.start_index(), 4);
    assert_eq!(w.selected(), 4);
    w.scroll(Direction::Up);
    assert_eq!(w.start_index(), 2);
    assert_eq!(w.selected(), 2);
}

#[test]
fn scroll_down_stops_when_the_window_reaches_the_end() {
    let mut w = window(7, 6);
    w.scroll(Direction::Down);
    assert_eq!(w.start_index(), 2);
    w.scroll(Direction::Down);
    assert_eq!(w.start_index(), 2);
    assert_eq!(w.selected(), 2);
}

#[test]
fn scroll_down_never_passes_the_list() {
    for count in 0usize..12 {
        for height in 0u16..9 {
            let mut w = window(count, height);
            for _ in 0..20 {
                w.scroll(Direction::Down);
                assert!(w.start_index() <= count);
                assert!(w.selected() < count || w.selected() == 0);
                assert_eq!(w.selected(), w.start_index());
            }
        }
    }
}

#[test]
fn scroll_on_a_list_that_fits_does_nothing() {
    let mut w = window(3, 10);
    w.scroll(Direction::Down);
    assert_eq!(w.start_index(), 0);
    assert_eq!(w.selected(), 0);
}

#[test]
fn resize_keeps_start_and_sets_the_rows() {
    let mut w = window(30, 6);
    w.scroll(Direction::Down);
    w.scroll(Direction::Down);
    let start = w.start_index();
    assert_eq!(start, 4);
    w.on_resize(11);
    assert_eq!(w.start_index(), start);
    assert_eq!(w.start_index() + w.rows() as usize, start + 11 - 1);
    assert_eq!(w.selected(), 4);
    w.on_resize(1);
    assert_eq!(w.start_index(), start);
    assert_eq!(w.rows(), 0);
    w.on_resize(0);
    assert_eq!(w.start_index(), start);
    assert_eq!(w.rows(), 0);
}

#[test]
fn visible_rows_are_bounded_by_window_and_list() {
    assert_eq!(window(30, 6).visible(), 5);
    assert_eq!(window(3, 6).visible(), 3);
    assert_eq!(window(0, 6).visible(), 0);
    assert_eq!(window(30, 1).visible(), 0);
    let mut w = window(6, 4);
    w.scroll(Direction::Down);
    assert_eq!(w.start_index(), 2);
    assert_eq!(w.visible(), 3);
    w.on_resize(20);
    assert_eq!(w.visible(), 4);
}

#[test]
fn click_selects_the_entry_in_the_row() {
    let mut w = window(30, 6);
    w.scroll(Direction::Down);
    w.on_pointer_select(3);
    assert_eq!(w.selected(), 4);
    assert_eq!(w.start_index(), 2);
    w.on_pointer_select(1);
    assert_eq!(w.selected(), 2);
    w.on_pointer_select(5);
    assert_eq!(w.selected(), 6);
}

#[test]
fn click_outside_the_entries_is_ignored() {
    let mut w = window(3, 6);
    w.advance_selection(Direction::Down);
    w.on_pointer_select(0);
    assert_eq!(w.selected(), 1);
    w.on_pointer_select(4);
    assert_eq!(w.selected(), 1);
    w.on_pointer_select(u16::MAX);
    assert_eq!(w.selected(), 1);
    w.on_pointer_select(3);
    assert_eq!(w.selected(), 2);
    let mut tall = window(30, 6);
    tall.on_pointer_select(6);
    assert_eq!(tall.selected(), 0);
}

#[test]
fn reset_scroll_returns_to_the_top() {
    let mut w = window(30, 6);
    w.scroll(Direction::Down);
    w.advance_selection(Direction::Down);
    w.reset_scroll();
    assert_eq!(w.start_index(), 0);
    assert_eq!(w.selected(), 0);
    assert_eq!(w.rows(), 5);
    assert_eq!(w.count(), 30);
}

#[test]
fn shorter_list_returns_a_cursor_beyond_it_to_the_first_entry() {
    let mut w = window(30, 6);
    w.scroll(Direction::Down);
    w.scroll(Direction::Down);
    w.advance_selection(Direction::Down);
    assert_eq!((w.start_index(), w.selected()), (4, 5));
    w.set_count(10);
    assert_eq!((w.count(), w.start_index(), w.selected()), (10, 4, 5));
    w.set_count(5);
    assert_eq!((w.count(), w.start_index(), w.selected(), w.rows()), (5, 4, 0, 5));
    w.set_count(0);
    assert_eq!((w.count(), w.start_index(), w.selected(), w.rows()), (0, 4, 0, 5));
}

#[test]
fn new_length_moves_neither_window_nor_a_cursor_on_an_entry() {
    let mut w = window(10, 3);
    w.scroll(Direction::Down);
    w.scroll(Direction::Down);
    for _ in 0..3 {
        w.advance_selection(Direction::Up);
    }
    assert_eq!((w.start_index(), w.selected(), w.rows()), (4, 1, 2));
    w.set_count(3);
    assert_eq!((w.count(), w.start_index(), w.selected(), w.rows()), (3, 4, 1, 2));
    assert_eq!(w.visible(), 0);
    w.set_count(3);
    assert_eq!((w.count(), w.start_index(), w.selected(), w.rows()), (3, 4, 1, 2));
    w.set_count(40);
    assert_eq!((w.count(), w.start_index(), w.selected(), w.rows()), (40, 4, 1, 2));
    assert_eq!(w.visible(), 2);
}

#[test]
fn scroll_up_from_beyond_the_list_keeps_the_cursor_on_an_entry() {
    let mut w = window(30, 4);
    for _ in 0..4 {
        w.scroll(Direction::Down);
    }
    for _ in 0..7 {
        w.advance_selection(Direction::Up);
    }
    assert_eq!((w.start_index(), w.selected()), (8, 1));
    w.set_count(3);
    w.scroll(Direction::Down);
    assert_eq!((w.start_index(), w.selected()), (8, 1));
    w.scroll(Direction::Up);
    assert_eq!((w.start_index(), w.selected()), (6, 1));
    w.scroll(Direction::Up);
    assert_eq!((w.start_index(), w.selected()), (4, 1));
    w.on_pointer_select(1);
    assert_eq!((w.start_index(), w.selected()), (4, 1));
    w.scroll(Direction::Up);
    assert_eq!((w.start_index(), w.selected()), (2, 2));
    assert_eq!(w.visible(), 1);
    w.scroll(Direction::Up);
    assert_eq!((w.start_index(), w.selected()), (0, 0));
}

#[test]
fn scroll_up_over_an_empty_list_moves_only_the_window() {
    let mut w = window(30, 4);
    w.scroll(Direction::Down);
    w.scroll(Direction::Down);
    w.set_count(0);
    assert_eq!((w.start_index(), w.selected()), (4, 4));
    w.scroll(Direction::Up);
    assert_eq!((w.start_index(), w.selected()), (2, 4));
    w.advance_selection(Direction::Down);
    assert_eq!((w.start_index(), w.selected()), (2, 4));
    w.advance_selection(Direction::Up);
    assert_eq!((w.start_index(), w.selected()), (2, 4));
    w.on_pointer_select(1);
    assert_eq!((w.start_index(), w.selected()), (2, 4));
    w.scroll(Direction::Down);
    assert_eq!((w.start_index(), w.selected()), (2, 4));
}

#[test]
fn empty_list_leaves_the_cursor_where_it_is() {
    let mut w = window(10, 24);
    for _ in 0..3 {
        w.advance_selection(Direction::Down);
    }
    w.set_count(0);
    assert_eq!((w.count(), w.start_index(), w.selected(), w.rows()), (0, 0, 3, 23));
    assert_eq!(w.visible(), 0);
    w.set_count(0);
    assert_eq!((w.count(), w.start_index(), w.selected(), w.rows()), (0, 0, 3, 23));
    w.set_count(10);
    assert_eq!((w.count(), w.start_index(), w.selected(), w.rows()), (10, 0, 3, 23));
    w.set_count(0);
    w.set_count(3);
    assert_eq!((w.count(), w.start_index(), w.selected(), w.rows()), (3, 0, 0, 23));
}

#[test]
fn cursor_returns_only_from_beyond_a_list_with_entries() {
    for selected in 0usize..6 {
        for count in 0usize..8 {
            let mut w = window(6, 24);
            for _ in 0..selected {
                w.advance_selection(Direction::Down);
            }
            w.set_count(count);
            let expected = if count > 0 && count <= selected { 0 } else { selected };
            assert_eq!(w.selected(), expected);
            assert_eq!(w.count(), count);
            assert_eq!(w.start_index(), 0);
        }
    }
}

#[test]
fn reset_scroll_over_an_empty_list_returns_to_the_top() {
    let mut w = window(10, 24);
    w.advance_selection(Direction::Down);
    w.set_count(0);
    assert_eq!(w.selected(), 1);
    w.reset_scroll();
    assert_eq!((w.start_index(), w.selected()), (0, 0));
}
