use option_tracker::pager::{button_id, on_press, Button, PressOutcome};

#[test]
fn buttons_are_named_after_their_listing() {
    assert_eq!(button_id(1234, Button::Previous), "1234prev");
    assert_eq!(button_id(1234, Button::Next), "1234next");
    assert_eq!(button_id(0, Button::Select), "0select");
    assert_eq!(button_id(u64::MAX, Button::Next), "18446744073709551615next");
}

fn press(current: usize, pages: usize, pressed: &str) -> PressOutcome {
    on_press(current, pages, 77, &pressed.to_string(), true, true)
}

#[test]
fn next_and_previous_turn_the_page_round() {
    assert_eq!(press(0, 3, "77next"), PressOutcome::Show(1));
    assert_eq!(press(1, 3, "77next"), PressOutcome::Show(2));
    assert_eq!(press(2, 3, "77next"), PressOutcome::Show(0));
    assert_eq!(press(2, 3, "77prev"), PressOutcome::Show(1));
    assert_eq!(press(0, 3, "77prev"), PressOutcome::Show(2));
    assert_eq!(press(0, 1, "77prev"), PressOutcome::Show(0));
    assert_eq!(press(0, 1, "77next"), PressOutcome::Show(0));
    assert_eq!(press(usize::MAX - 1, usize::MAX, "77next"), PressOutcome::Show(0));
}

#[test]
fn select_keeps_the_page_where_the_listing_can_select() {
    assert_eq!(press(1, 3, "77select"), PressOutcome::Select(1));
    assert_eq!(
        on_press(1, 3, 77, &"77select".to_string(), true, false),
        PressOutcome::Unrelated
    );
}

#[test]
fn a_press_under_another_listing_is_unrelated() {
    assert_eq!(press(1, 3, "78next"), PressOutcome::Unrelated);
    assert_eq!(press(1, 3, "7next"), PressOutcome::Unrelated);
    assert_eq!(press(1, 3, "next"), PressOutcome::Unrelated);
    assert_eq!(press(1, 3, ""), PressOutcome::Unrelated);
    assert_eq!(press(1, 3, "77middle"), PressOutcome::Unrelated);
    assert_eq!(press(1, 3, "77"), PressOutcome::Unrelated);
    assert_eq!(press(1, 3, "777next"), PressOutcome::Unrelated);
    assert_eq!(on_press(1, 3, 77, &"78next".to_string(), false, true), PressOutcome::Unrelated);
}

#[test]
fn another_user_cannot_turn_the_page() {
    assert_eq!(on_press(1, 3, 77, &"77next".to_string(), false, true), PressOutcome::OtherUser);
    assert_eq!(on_press(1, 3, 77, &"77middle".to_string(), false, true), PressOutcome::OtherUser);
    assert_eq!(on_press(1, 3, 77, &"77".to_string(), false, true), PressOutcome::OtherUser);
}
