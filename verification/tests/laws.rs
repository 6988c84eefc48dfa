use option_tracker::calendar::{Date, Timestamp};
use option_tracker::lifecycle::{
    close_position, open_position, roll_position, split_position,
};
use option_tracker::model::{CloseKind, OptionKind, Position};
use option_tracker::money::round_ticks_to_cent;

fn d(year: i32, month: u32, day: u32) -> Date {
    Date { year, month, day }
}

fn t(year: i32, month: u32, day: u32) -> Timestamp {
    Timestamp { date: d(year, month, day), second_of_day: 1_000 }
}

fn rolled(times: usize) -> Vec<Position> {
    let mut positions = Vec::new();
    open_position(
        &mut positions,
        OptionKind::Put,
        "QQQ",
        4_500_000,
        d(2024, 1, 19),
        31_337,
        10,
        t(2024, 1, 2),
    )
    .unwrap();
    for i in 0..times {
        let day = 3 + i as u32;
        roll_position(&mut positions, 0, d(2024, 2, day), 12_345, 23_456, None, t(2024, 1, day))
            .unwrap();
    }
    positions
}

#[test]
fn every_contract_but_the_last_was_rolled() {
    for n in [0usize, 1, 2, 7] {
        let positions = rolled(n);
        let p = &positions[0];
        assert_eq!(p.num_rolls(), n);
        assert_eq!(p.contracts.len(), n + 1);
        for c in &p.contracts[..n] {
            assert_eq!(c.close.unwrap().close_type, CloseKind::Rolled);
        }
        assert!(p.contracts[n].close.is_none());
        assert!(p.is_well_formed());
    }
}

#[test]
fn the_aggregate_premium_is_the_rounded_sum() {
    let positions = rolled(7);
    let p = &positions[0];
    let sum: i64 = p.contracts.iter().map(|c| c.aggregate_premium()).sum();
    assert_eq!(sum, 31_337 + 7 * (23_456 - 12_345));
    assert_eq!(p.aggregate_premium(), round_ticks_to_cent(sum));
    assert_eq!(round_ticks_to_cent(p.aggregate_premium()), p.aggregate_premium());
    assert!((p.aggregate_premium() - sum).abs() <= 50);
    assert_eq!(p.aggregate_premium() % 100, 0);
}

#[test]
fn whole_cents_are_summed_exactly() {
    let mut positions = Vec::new();
    open_position(&mut positions, OptionKind::Put, "QQQ", 4_500_000, d(2024, 1, 19), 5_000, 1, t(2024, 1, 2))
        .unwrap();
    roll_position(&mut positions, 0, d(2024, 2, 16), 8_000, 8_500, None, t(2024, 1, 18)).unwrap();
    close_position(&mut positions, 0, 1_200, t(2024, 2, 1)).unwrap();
    assert_eq!(positions[0].aggregate_premium(), 5_000 - 8_000 + 8_500 - 1_200);
}

#[test]
fn a_split_parts_quantity_and_gain() {
    let mut positions = rolled(2);
    let whole = positions[0].clone();
    split_position(&mut positions, 0, 3).unwrap();
    let (rest, part) = (&positions[0], &positions[1]);
    assert_eq!(rest.final_contract().quantity() + part.final_contract().quantity(), 10);
    assert_eq!(rest.gain() + part.gain(), whole.gain());
    assert_eq!(rest.aggregate_premium(), whole.aggregate_premium());
    assert_eq!(part.aggregate_premium(), whole.aggregate_premium());
    for i in 0..3 {
        for p in [rest, part] {
            let (a, b) = (&p.contracts[i], &whole.contracts[i]);
            assert_eq!(a.ticker(), b.ticker());
            assert_eq!(a.strike(), b.strike());
            assert_eq!(a.expiry(), b.expiry());
            assert_eq!(a.option_type(), b.option_type());
            assert_eq!(a.open.premium, b.open.premium);
            assert_eq!(a.close, b.close);
        }
    }
}

#[test]
fn fragments_account_for_every_day_of_the_investment() {
    let mut positions = rolled(3);
    close_position(&mut positions, 0, 500, t(2025, 3, 9)).unwrap();
    let p = &positions[0];
    let total_days = d(2025, 3, 9).days_since(&d(2024, 1, 2)) + 1;
    assert_eq!(total_days, 433);
    for months in [p.generate_distributed_months(), p.generate_taxable_months()] {
        assert_eq!(months.len(), 15);
        let sum: i64 = months.iter().map(|m| m.investment).sum();
        assert_eq!(sum, p.investment() * total_days);
    }
}

#[test]
fn the_taxable_gain_lands_in_one_month() {
    let mut positions = rolled(3);
    close_position(&mut positions, 0, 500, t(2025, 3, 9)).unwrap();
    let p = &positions[0];
    let months = p.generate_taxable_months();
    let sum: i64 = months.iter().map(|m| m.gain).sum();
    assert_eq!(sum, p.gain());
    let holding: Vec<_> = months.iter().filter(|m| m.gain != 0).collect();
    assert_eq!(holding.len(), 1);
    assert_eq!((holding[0].year, holding[0].month), (2025, 3));
}

#[test]
fn a_query_asked_twice_answers_the_same() {
    let mut positions = rolled(2);
    close_position(&mut positions, 0, 500, t(2024, 3, 9)).unwrap();
    let p = &positions[0];
    let now = t(2024, 6, 1);
    assert_eq!(p.gain(), p.gain());
    assert_eq!(p.time(&now), p.time(&now));
    assert_eq!(p.is_closed(), p.is_closed());
    assert_eq!(p.aggregate_premium(), p.aggregate_premium());
    assert_eq!(p.investment(), p.investment());
    assert_eq!(p.return_on_investment(), p.return_on_investment());
    let copy = p.clone();
    assert_eq!(copy.gain(), p.gain());
    assert_eq!(copy.time(&now), p.time(&now));
    assert_eq!(copy.generate_distributed_months(), p.generate_distributed_months());
}
