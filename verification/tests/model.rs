use option_tracker::calendar::{Date, Timestamp};
use option_tracker::lifecycle::{close_position, open_position, roll_position};
use option_tracker::model::{
    CloseKind, Contract, LegStatus, OptionClose, OptionKind, OptionOpen, Position,
    ROLLED_COUNTS_AS_CLOSED,
};
use option_tracker::money::{divide_rounded, round_ticks_to_cent};

fn d(year: i32, month: u32, day: u32) -> Date {
    Date { year, month, day }
}

fn at(year: i32, month: u32, day: u32, second_of_day: u32) -> Timestamp {
    Timestamp { date: d(year, month, day), second_of_day }
}

fn leg(premium: i64, quantity: u16, status: LegStatus) -> OptionOpen {
    OptionOpen {
        date: at(2024, 1, 1, 0),
        open_type: OptionKind::Put,
        ticker: "SPY".to_string(),
        strike: 4_000_000,
        expiry: d(2024, 3, 15),
        premium,
        quantity,
        status,
    }
}

#[test]
fn rounding_to_the_cent_goes_away_from_zero_on_a_half() {
    assert_eq!(round_ticks_to_cent(0), 0);
    assert_eq!(round_ticks_to_cent(49), 0);
    assert_eq!(round_ticks_to_cent(50), 100);
    assert_eq!(round_ticks_to_cent(149), 100);
    assert_eq!(round_ticks_to_cent(150), 200);
    assert_eq!(round_ticks_to_cent(-49), 0);
    assert_eq!(round_ticks_to_cent(-50), -100);
    assert_eq!(round_ticks_to_cent(-150), -200);
    assert_eq!(round_ticks_to_cent(12_300), 12_300);
}

#[test]
fn rounded_division_goes_away_from_zero_on_a_half() {
    assert_eq!(divide_rounded(7, 2), 4);
    assert_eq!(divide_rounded(-7, 2), -4);
    assert_eq!(divide_rounded(5, 3), 2);
    assert_eq!(divide_rounded(4, 3), 1);
    assert_eq!(divide_rounded(-4, 3), -1);
    assert_eq!(divide_rounded(0, 9), 0);
    assert_eq!(divide_rounded(6_800_000, 27), 251_852);
}

#[test]
fn the_aggregate_premium_is_rounded_once_at_the_end() {
    let rolled = Some(OptionClose { date: at(2024, 1, 9, 0), close_type: CloseKind::Rolled, premium: 0 });
    let p = Position {
        contracts: vec![
            Contract { open: leg(1_033, 1, LegStatus::Rolled), close: rolled },
            Contract { open: leg(1_033, 1, LegStatus::Rolled), close: rolled },
            Contract { open: leg(1_033, 1, LegStatus::Open), close: None },
        ],
    };
    assert!(p.is_well_formed());
    // each leg alone would round to 1000 ticks; the sum of 3099 rounds to 3100
    assert_eq!(p.aggregate_premium(), 3_100);
    assert_eq!(p.contracts[0].aggregate_premium(), 1_033);
    assert_eq!(p.gain(), 3_100 * 100);
}

#[test]
fn the_gain_counts_the_first_leg_and_the_investment_the_last() {
    let mut positions = Vec::new();
    open_position(&mut positions, OptionKind::Put, "SPY", 4_000_000, d(2024, 3, 15), 20_000, 2, at(2024, 1, 1, 0))
        .unwrap();
    roll_position(&mut positions, 0, d(2024, 4, 19), 30_000, 45_000, Some(4_100_000), at(2024, 3, 14, 0))
        .unwrap();
    positions[0].contracts[1].open.quantity = 5;
    let p = &positions[0];
    assert_eq!(p.aggregate_premium(), 35_000);
    assert_eq!(p.gain(), 35_000 * 2 * 100);
    assert_eq!(p.investment(), 4_100_000 * 5 * 100);
    let roi = p.return_on_investment();
    assert_eq!(roi.numerator, 7_000_000);
    assert_eq!(roi.denominator, 2_050_000_000);
    assert_eq!(p.option_type(), OptionKind::Put);
    assert_eq!(p.get_ticker(), "SPY");
    assert_eq!(p.final_contract().strike(), 4_100_000);
    assert_eq!(p.get_final_contract().unwrap().option_type(), OptionKind::Put);
}

#[test]
fn a_loss_is_a_negative_gain() {
    let mut positions = Vec::new();
    open_position(&mut positions, OptionKind::Call, "SPY", 4_000_000, d(2024, 3, 15), 20_000, 3, at(2024, 1, 1, 0))
        .unwrap();
    let outcome = close_position(&mut positions, 0, 50_050, at(2024, 1, 2, 0)).unwrap();
    assert_eq!(positions[0].aggregate_premium(), -30_100);
    assert_eq!(outcome.gain, -30_100 * 300);
}

#[test]
fn time_is_counted_in_whole_days_and_never_below_one() {
    let mut positions = Vec::new();
    open_position(&mut positions, OptionKind::Put, "SPY", 4_000_000, d(2024, 3, 15), 20_000, 2, at(2024, 1, 1, 3_600))
        .unwrap();
    let p = &positions[0];
    assert_eq!(p.time(&at(2024, 1, 1, 3_600)), 1);
    assert_eq!(p.time(&at(2024, 1, 1, 0)), 1);
    assert_eq!(p.time(&at(2023, 6, 1, 0)), 1);
    assert_eq!(p.time(&at(2024, 1, 2, 3_599)), 1);
    assert_eq!(p.time(&at(2024, 1, 3, 3_599)), 1);
    assert_eq!(p.time(&at(2024, 1, 3, 3_600)), 2);
    assert_eq!(p.time(&at(2025, 1, 1, 3_600)), 366);
}

#[test]
fn time_adds_up_the_legs_and_stops_at_a_close() {
    let mut positions = Vec::new();
    open_position(&mut positions, OptionKind::Put, "SPY", 4_000_000, d(2024, 3, 15), 20_000, 2, at(2024, 1, 1, 0))
        .unwrap();
    roll_position(&mut positions, 0, d(2024, 4, 19), 1, 2, None, at(2024, 1, 11, 43_200)).unwrap();
    // first leg 10.5 days, second leg still open
    assert_eq!(positions[0].time(&at(2024, 1, 12, 0)), 11);
    assert_eq!(positions[0].time(&at(2024, 1, 21, 0)), 20);
    close_position(&mut positions, 0, 0, at(2024, 1, 20, 43_200)).unwrap();
    // 10.5 days and 9 days
    assert_eq!(positions[0].time(&at(2030, 1, 1, 0)), 19);
    assert_eq!(positions[0].contracts[0].held_seconds(&at(2030, 1, 1, 0)), 907_200);
}

#[test]
fn closed_means_a_close_record_or_a_final_status() {
    let open = Position { contracts: vec![Contract { open: leg(1, 1, LegStatus::Open), close: None }] };
    assert!(!open.is_closed());
    for status in [LegStatus::Assigned, LegStatus::Expired] {
        let p = Position { contracts: vec![Contract { open: leg(1, 1, status), close: None }] };
        assert!(p.is_closed());
        assert!(p.is_closed_under(false));
    }
    let with_close = Position {
        contracts: vec![Contract {
            open: leg(1, 1, LegStatus::Open),
            close: Some(OptionClose {
                date: at(2024, 1, 9, 0),
                close_type: CloseKind::BoughtToClose,
                premium: 0,
            }),
        }],
    };
    assert!(with_close.is_closed());
    assert!(with_close.is_closed_under(false));
    let closed_status_only =
        Position { contracts: vec![Contract { open: leg(1, 1, LegStatus::Closed), close: None }] };
    assert!(!closed_status_only.is_closed());
}

#[test]
fn a_rolled_final_leg_counts_as_closed_by_policy() {
    let p = Position { contracts: vec![Contract { open: leg(1, 1, LegStatus::Rolled), close: None }] };
    assert!(ROLLED_COUNTS_AS_CLOSED);
    assert!(p.is_closed());
    assert!(p.is_closed_under(true));
    assert!(!p.is_closed_under(false));
}

#[test]
fn copies_are_equal_to_what_they_copy() {
    let c = Contract {
        open: leg(7, 3, LegStatus::Closed),
        close: Some(OptionClose {
            date: at(2024, 1, 9, 0),
            close_type: CloseKind::BoughtToClose,
            premium: 5,
        }),
    };
    assert_eq!(c.clone(), c);
    assert_eq!(c.open.clone(), c.open);
    let p = Position { contracts: vec![c.clone(), c.clone()] };
    assert_eq!(p.clone(), p);
    assert_eq!(c.ticker(), "SPY");
    assert_eq!(c.expiry(), d(2024, 3, 15));
    assert_eq!(c.quantity(), 3);
    assert_eq!(c.status(), LegStatus::Closed);
}

#[test]
fn well_formed_checks_every_range() {
    let good = || Contract { open: leg(1, 1, LegStatus::Open), close: None };
    assert!(good().is_well_formed());
    let mut c = good();
    c.open.strike = 0;
    assert!(!c.is_well_formed());
    let mut c = good();
    c.open.premium = -1;
    assert!(!c.is_well_formed());
    let mut c = good();
    c.open.premium = 1_000_000_001;
    assert!(!c.is_well_formed());
    let mut c = good();
    c.open.ticker = String::new();
    assert!(!c.is_well_formed());
    let mut c = good();
    c.open.ticker = "12345678901234567".to_string();
    assert!(!c.is_well_formed());
    let mut c = good();
    c.open.expiry = d(2024, 2, 30);
    assert!(!c.is_well_formed());
    let mut c = good();
    c.open.date = at(2024, 1, 1, 86_400);
    assert!(!c.is_well_formed());
    let mut c = good();
    c.close = Some(OptionClose { date: at(2024, 1, 9, 0), close_type: CloseKind::Rolled, premium: -1 });
    assert!(!c.is_well_formed());
    let mut c = good();
    c.close = Some(OptionClose { date: at(2024, 13, 9, 0), close_type: CloseKind::Rolled, premium: 1 });
    assert!(!c.is_well_formed());
    let mut c = good();
    c.open.quantity = 0;
    assert!(c.is_well_formed());
    assert!(!Position { contracts: vec![c] }.is_well_formed());
    assert!(Position { contracts: vec![good()] }.is_well_formed());
    assert!(!Position { contracts: vec![] }.is_well_formed());
}
