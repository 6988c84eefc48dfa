use option_tracker::calendar::{Date, Timestamp};
use option_tracker::lifecycle::{
    close_position, open_position, roll_position, split_position, CommandError, NO_SELECTION,
};
use option_tracker::model::{LegStatus, OptionKind, Position};
use option_tracker::months::PositionMonth;

fn day(year: i32, month: u32, day: u32) -> Date {
    Date { year, month, day }
}

fn at(year: i32, month: u32, d: u32, second_of_day: u32) -> Timestamp {
    Timestamp { date: day(year, month, d), second_of_day }
}

fn amzn_put(quantity: u16, opened: Timestamp) -> Vec<Position> {
    let mut positions: Vec<Position> = Vec::new();
    let r = open_position(
        &mut positions,
        OptionKind::Put,
        "AMZN",
        100_000,
        day(2024, 12, 30),
        5_000,
        quantity,
        opened,
    );
    assert_eq!(r, Ok(()));
    positions
}

#[test]
fn open_then_close_gives_the_expected_figures() {
    let mut positions = amzn_put(1, at(2024, 11, 1, 0));
    let outcome = close_position(&mut positions, 0, 1_000, at(2024, 11, 20, 0)).unwrap();
    assert_eq!(outcome.cursor, NO_SELECTION);
    assert_eq!(outcome.gain, 400_000);
    let p = &positions[0];
    assert_eq!(p.aggregate_premium(), 4_000);
    assert_eq!(p.gain(), 400_000);
    assert_eq!(p.investment(), 10_000_000);
    let roi = p.return_on_investment();
    assert_eq!(roi.numerator * 100, roi.denominator * 4);
    assert_eq!(p.get_status(), LegStatus::Closed);
    assert!(p.is_closed());
}

#[test]
fn roll_appends_an_open_leg_with_the_same_ticker_and_quantity() {
    let mut positions = amzn_put(2, at(2024, 11, 1, 0));
    let r = roll_position(&mut positions, 0, day(2025, 1, 17), 8_000, 8_500, None, at(2024, 12, 20, 0));
    assert_eq!(r, Ok(NO_SELECTION));
    let p = &positions[0];
    assert_eq!(p.num_rolls(), 1);
    let last = p.get_final_contract().unwrap();
    assert_eq!(last.status(), LegStatus::Open);
    assert_eq!(last.ticker(), "AMZN");
    assert_eq!(last.quantity(), 2);
    assert_eq!(last.strike(), 100_000);
    assert_eq!(last.expiry(), day(2025, 1, 17));
    assert_eq!(p.get_first_contract().unwrap().status(), LegStatus::Rolled);
    assert_eq!(p.aggregate_premium(), 5_000 - 8_000 + 8_500);
}

#[test]
fn split_three_from_ten_leaves_seven_and_both_can_be_closed() {
    let mut positions = amzn_put(10, at(2024, 11, 1, 0));
    let outcome = split_position(&mut positions, 0, 3).unwrap();
    assert_eq!(outcome.remaining, 7);
    assert_eq!(outcome.split, 3);
    assert_eq!(positions.len(), 2);
    assert_eq!(positions[0].get_final_contract().unwrap().quantity(), 7);
    assert_eq!(positions[1].get_final_contract().unwrap().quantity(), 3);
    let first = close_position(&mut positions, 0, 1_000, at(2024, 11, 20, 0)).unwrap();
    let second = close_position(&mut positions, 1, 2_000, at(2024, 11, 21, 0)).unwrap();
    assert_eq!(first.gain, 4_000 * 7 * 100);
    assert_eq!(second.gain, 3_000 * 3 * 100);
    assert_eq!(split_position(&mut positions, 0, 7), Err(CommandError::InvalidSplitQuantity));
}

fn check_months(months: &Vec<PositionMonth>) {
    assert_eq!(months.len(), 2);
    assert_eq!((months[0].year, months[0].month), (2024, 1));
    assert_eq!((months[1].year, months[1].month), (2024, 2));
}

#[test]
fn january_to_february_is_split_seventeen_to_ten() {
    let mut positions = amzn_put(1, at(2024, 1, 15, 3_600));
    close_position(&mut positions, 0, 1_000, at(2024, 2, 10, 7_200)).unwrap();
    let p = &positions[0];
    let gain = p.gain();
    let investment = p.investment();
    assert_eq!(gain, 400_000);

    let distributed = p.generate_distributed_months();
    check_months(&distributed);
    assert_eq!(distributed[0].investment, investment * 17);
    assert_eq!(distributed[1].investment, investment * 10);
    assert_eq!(distributed[0].gain, 251_852);
    assert_eq!(distributed[1].gain, 148_148);
    assert_eq!(distributed[0].investment + distributed[1].investment, investment * 27);

    let taxable = p.generate_taxable_months();
    check_months(&taxable);
    assert_eq!(taxable[0].gain, 0);
    assert_eq!(taxable[1].gain, gain);
    assert_eq!(taxable[0].investment, investment * 17);
    assert_eq!(taxable[1].investment, investment * 10);
}
