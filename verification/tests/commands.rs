use option_tracker::calendar::{Date, Timestamp};
use option_tracker::commands::{
    clear, close, date, edit, edit_with, open, open_with, option_kind, roll, roll_with, split,
    ClearCommands, ClearReply, CloseModal, DateModal, EditModal, OpenModal, RollModal, SplitModal,
};
use option_tracker::lifecycle::{CommandError, NO_SELECTION, REDATED_SECOND_OF_DAY};
use option_tracker::model::{CloseKind, LegStatus, OptionKind, Position};

fn now() -> Timestamp {
    Timestamp { date: Date { year: 2024, month: 11, day: 1 }, second_of_day: 34_200 }
}

fn open_form() -> OpenModal {
    OpenModal {
        ticker: "AMZN".to_string(),
        strike: "10.00".to_string(),
        exp: "2024-12-30".to_string(),
        premium: "0.50".to_string(),
        quantity: "1".to_string(),
    }
}

fn opened() -> Vec<Position> {
    let mut positions = Vec::new();
    assert_eq!(open(&mut positions, "put", &open_form(), now()), Ok(()));
    positions
}

fn s(text: &str) -> Option<String> {
    Some(text.to_string())
}

#[test]
fn option_kind_knows_put_and_call() {
    assert_eq!(option_kind("put"), Some(OptionKind::Put));
    assert_eq!(option_kind("call"), Some(OptionKind::Call));
    assert_eq!(option_kind("Put"), None);
    assert_eq!(option_kind("straddle"), None);
    assert_eq!(option_kind(""), None);
}

#[test]
fn open_reads_the_form() {
    let positions = opened();
    assert_eq!(positions.len(), 1);
    let o = &positions[0].contracts[0].open;
    assert_eq!(o.open_type, OptionKind::Put);
    assert_eq!(o.ticker, "AMZN");
    assert_eq!(o.strike, 100_000);
    assert_eq!(o.expiry, Date { year: 2024, month: 12, day: 30 });
    assert_eq!(o.premium, 5_000);
    assert_eq!(o.quantity, 1);
    assert_eq!(o.status, LegStatus::Open);
    assert_eq!(o.date, now());
    assert_eq!(positions[0].contracts[0].close, None);
}

#[test]
fn open_refuses_each_field_that_cannot_be_read() {
    let mut positions = opened();
    let cases = [
        ("strangle", open_form(), CommandError::InvalidOptionType),
        ("put", OpenModal { strike: "ten".to_string(), ..open_form() }, CommandError::InvalidStrike),
        ("put", OpenModal { strike: "0".to_string(), ..open_form() }, CommandError::InvalidStrike),
        ("put", OpenModal { exp: "2024-02-30".to_string(), ..open_form() }, CommandError::InvalidDate),
        ("put", OpenModal { exp: "soon".to_string(), ..open_form() }, CommandError::InvalidDate),
        ("call", OpenModal { premium: "".to_string(), ..open_form() }, CommandError::InvalidPremium),
        ("call", OpenModal { premium: "0.00".to_string(), ..open_form() }, CommandError::InvalidPremium),
        ("call", OpenModal { quantity: "1.5".to_string(), ..open_form() }, CommandError::InvalidQuantity),
        ("call", OpenModal { quantity: "0".to_string(), ..open_form() }, CommandError::InvalidQuantity),
        ("call", OpenModal { quantity: "70000".to_string(), ..open_form() }, CommandError::InvalidQuantity),
        ("call", OpenModal { ticker: "".to_string(), ..open_form() }, CommandError::InvalidTicker),
    ];
    for (kind, form, error) in cases.iter() {
        assert_eq!(open(&mut positions, kind, form, now()), Err(*error));
        assert_eq!(positions.len(), 1);
    }
}

#[test]
fn open_with_takes_the_date_as_it_was_read() {
    let mut positions = Vec::new();
    let form = OpenModal { exp: "never mind".to_string(), ..open_form() };
    let expiry = Some(Date { year: 2025, month: 3, day: 21 });
    assert_eq!(open_with(&mut positions, "call", &form, expiry, now()), Ok(()));
    assert_eq!(positions[0].contracts[0].open.expiry, Date { year: 2025, month: 3, day: 21 });
    assert_eq!(
        open_with(&mut positions, "call", &form, None, now()),
        Err(CommandError::InvalidDate)
    );
    assert_eq!(
        open_with(&mut positions, "call", &form, Some(Date { year: 2025, month: 2, day: 29 }), now()),
        Err(CommandError::InvalidDate)
    );
    assert_eq!(positions.len(), 1);
}

#[test]
fn close_reads_the_premium() {
    let mut positions = opened();
    let outcome =
        close(&mut positions, 0, &CloseModal { premium: "0.10".to_string() }, now()).unwrap();
    assert_eq!(outcome.gain, 400_000);
    assert_eq!(outcome.cursor, NO_SELECTION);
    let c = positions[0].contracts[0].close.unwrap();
    assert_eq!(c.premium, 1_000);
    assert_eq!(c.close_type, CloseKind::BoughtToClose);
    assert_eq!(c.date, now());
}

#[test]
fn close_checks_the_cursor_before_the_premium() {
    let mut positions = opened();
    let bad = CloseModal { premium: "a dime".to_string() };
    assert_eq!(close(&mut positions, -1, &bad, now()), Err(CommandError::NoSelection));
    assert_eq!(close(&mut positions, 1, &bad, now()), Err(CommandError::InvalidSelection));
    assert_eq!(close(&mut positions, 0, &bad, now()), Err(CommandError::InvalidPremium));
    assert_eq!(positions[0].contracts[0].close, None);
}

fn roll_form() -> RollModal {
    RollModal {
        exp: "2025-01-17".to_string(),
        premium_loss: "0.80".to_string(),
        premium_gain: "0.85".to_string(),
        strike: None,
    }
}

#[test]
fn roll_reads_the_form() {
    let mut positions = opened();
    assert_eq!(roll(&mut positions, 0, &roll_form(), now()), Ok(NO_SELECTION));
    let p = &positions[0];
    assert_eq!(p.num_rolls(), 1);
    assert_eq!(p.contracts[0].close.unwrap().premium, 8_000);
    assert_eq!(p.contracts[0].close.unwrap().close_type, CloseKind::Rolled);
    assert_eq!(p.contracts[1].open.premium, 8_500);
    assert_eq!(p.contracts[1].open.strike, 100_000);
    assert_eq!(p.contracts[1].open.expiry, Date { year: 2025, month: 1, day: 17 });
    let with_strike = RollModal { strike: s("12.5"), ..roll_form() };
    assert_eq!(roll(&mut positions, 0, &with_strike, now()), Ok(NO_SELECTION));
    assert_eq!(positions[0].contracts[2].open.strike, 125_000);
    assert_eq!(positions[0].aggregate_premium(), 5_000 - 8_000 + 8_500 - 8_000 + 8_500);
}

#[test]
fn roll_refuses_each_field_that_cannot_be_read() {
    let mut positions = opened();
    let cases = [
        (RollModal { exp: "2025-01-32".to_string(), ..roll_form() }, CommandError::InvalidDate),
        (RollModal { premium_loss: "x".to_string(), ..roll_form() }, CommandError::InvalidPremium),
        (RollModal { premium_gain: "-1".to_string(), ..roll_form() }, CommandError::InvalidPremium),
        (RollModal { strike: s(""), ..roll_form() }, CommandError::InvalidStrike),
        (RollModal { strike: s("0"), ..roll_form() }, CommandError::InvalidStrike),
    ];
    for (form, error) in cases.iter() {
        assert_eq!(roll(&mut positions, 0, form, now()), Err(*error));
        assert_eq!(positions[0].contracts.len(), 1);
        assert_eq!(positions[0].contracts[0].close, None);
    }
    assert_eq!(roll(&mut positions, -1, &roll_form(), now()), Err(CommandError::NoSelection));
    assert_eq!(
        roll_with(&mut positions, 0, &roll_form(), None, now()),
        Err(CommandError::InvalidDate)
    );
}

#[test]
fn split_reads_the_quantity() {
    let mut positions = Vec::new();
    let form = OpenModal { quantity: "10".to_string(), ..open_form() };
    open(&mut positions, "put", &form, now()).unwrap();
    let outcome = split(&mut positions, 0, &SplitModal { quantity: "3".to_string() }).unwrap();
    assert_eq!((outcome.remaining, outcome.split), (7, 3));
    assert_eq!(
        split(&mut positions, 0, &SplitModal { quantity: "three".to_string() }),
        Err(CommandError::InvalidQuantity)
    );
    assert_eq!(
        split(&mut positions, 0, &SplitModal { quantity: "7".to_string() }),
        Err(CommandError::InvalidSplitQuantity)
    );
    assert_eq!(
        split(&mut positions, 0, &SplitModal { quantity: "0".to_string() }),
        Err(CommandError::InvalidSplitQuantity)
    );
    assert_eq!(
        split(&mut positions, 2, &SplitModal { quantity: "1".to_string() }),
        Err(CommandError::InvalidSelection)
    );
    assert_eq!(positions.len(), 2);
}

fn empty_edit() -> EditModal {
    EditModal { ticker: None, strike: None, exp: None, premium: None, quantity: None }
}

#[test]
fn edit_reads_the_fields_given() {
    let mut positions = opened();
    let form = EditModal {
        ticker: s("NVDA"),
        strike: s("120.5"),
        exp: s("2025-06-20"),
        premium: s("3.1"),
        quantity: s("4"),
    };
    assert_eq!(edit(&mut positions, 0, &form), Ok(NO_SELECTION));
    let o = &positions[0].contracts[0].open;
    assert_eq!(o.ticker, "NVDA");
    assert_eq!(o.strike, 1_205_000);
    assert_eq!(o.expiry, Date { year: 2025, month: 6, day: 20 });
    assert_eq!(o.premium, 31_000);
    assert_eq!(o.quantity, 4);
    let before = positions[0].clone();
    assert_eq!(edit(&mut positions, 0, &empty_edit()), Ok(NO_SELECTION));
    assert_eq!(positions[0], before);
}

#[test]
fn edit_refuses_each_field_that_cannot_be_read() {
    let mut positions = opened();
    let before = positions[0].clone();
    let cases = [
        (EditModal { strike: s("1o"), ticker: s("X"), ..empty_edit() }, CommandError::InvalidStrike),
        (EditModal { exp: s("2025-13-01"), ticker: s("X"), ..empty_edit() }, CommandError::InvalidDate),
        (EditModal { premium: s("."), ticker: s("X"), ..empty_edit() }, CommandError::InvalidPremium),
        (EditModal { quantity: s("-2"), ticker: s("X"), ..empty_edit() }, CommandError::InvalidQuantity),
        (EditModal { quantity: s("0"), ticker: s("X"), ..empty_edit() }, CommandError::InvalidQuantity),
        (EditModal { ticker: s(""), ..empty_edit() }, CommandError::InvalidTicker),
    ];
    for (form, error) in cases.iter() {
        assert_eq!(edit(&mut positions, 0, form), Err(*error));
        assert_eq!(positions[0], before);
    }
    assert_eq!(
        edit_with(&mut positions, 0, &empty_edit(), Some(None)),
        Err(CommandError::InvalidDate)
    );
    assert_eq!(
        edit_with(
            &mut positions,
            0,
            &empty_edit(),
            Some(Some(Date { year: 2030, month: 1, day: 1 }))
        ),
        Ok(NO_SELECTION)
    );
    assert_eq!(positions[0].contracts[0].open.expiry, Date { year: 2030, month: 1, day: 1 });
}

#[test]
fn date_reads_the_parts_given() {
    let mut positions = opened();
    let form = DateModal { year: s("2023"), month: None, day: s("15") };
    assert_eq!(date(&mut positions, 0, &form), Ok(NO_SELECTION));
    assert_eq!(
        positions[0].contracts[0].open.date,
        Timestamp {
            date: Date { year: 2023, month: 11, day: 15 },
            second_of_day: REDATED_SECOND_OF_DAY
        }
    );
    let before = positions[0].clone();
    let none = DateModal { year: None, month: None, day: None };
    assert_eq!(date(&mut positions, 0, &none), Ok(NO_SELECTION));
    assert_eq!(positions[0], before);
}

#[test]
fn date_refuses_parts_that_cannot_be_read_or_make_no_date() {
    let mut positions = opened();
    let before = positions[0].clone();
    let cases = [
        DateModal { year: s("MMXXIV"), month: None, day: None },
        DateModal { year: None, month: s("Dec"), day: None },
        DateModal { year: None, month: None, day: s("1st") },
        DateModal { year: None, month: s("2"), day: s("30") },
        DateModal { year: None, month: s("0"), day: None },
        DateModal { year: s("99999"), month: None, day: None },
    ];
    for form in cases.iter() {
        assert_eq!(date(&mut positions, 0, form), Err(CommandError::InvalidDate));
        assert_eq!(positions[0], before);
    }
    let ok = DateModal { year: s("-44"), month: s("3"), day: s("15") };
    assert_eq!(date(&mut positions, -1, &ok), Err(CommandError::NoSelection));
    assert_eq!(date(&mut positions, 0, &ok), Ok(NO_SELECTION));
    assert_eq!(positions[0].contracts[0].open.date.date, Date { year: -44, month: 3, day: 15 });
}

#[test]
fn clear_asks_for_the_right_password() {
    let right = ClearCommands { password: "hunter2".to_string() };
    let wrong = ClearCommands { password: "hunter3".to_string() };
    assert_eq!(clear(Some(&right), "hunter2"), ClearReply::Cleared);
    assert_eq!(clear(Some(&wrong), "hunter2"), ClearReply::IncorrectPassword);
    assert_eq!(clear(None, "hunter2"), ClearReply::Dismissed);
}
