use option_tracker::calendar::{Date, Timestamp};
use option_tracker::lifecycle::{
    assign, close_position, expire, open_position, roll_position, split_position,
};
use option_tracker::model::{OptionKind, Position};
use option_tracker::monthly::{month, MonthReport};
use option_tracker::ratio::{rank, Order, Ratio};
use option_tracker::report::{
    all, assets, best, check_ledger, stats, view, Holding, ReportError, Stats,
};
use option_tracker::tradingmonth::{gather_months, TradingMonth};

fn d(year: i32, month: u32, day: u32) -> Date {
    Date { year, month, day }
}

fn t(year: i32, month: u32, day: u32) -> Timestamp {
    Timestamp { date: d(year, month, day), second_of_day: 0 }
}

fn add(
    positions: &mut Vec<Position>,
    kind: OptionKind,
    ticker: &str,
    strike: i64,
    premium: i64,
    quantity: u16,
    opened: Timestamp,
    expiry: Date,
) -> i32 {
    open_position(positions, kind, ticker, strike, expiry, premium, quantity, opened).unwrap();
    (positions.len() - 1) as i32
}

fn r(numerator: i128, denominator: i128) -> Ratio {
    Ratio { numerator, denominator }
}

#[test]
fn fractions_are_compared_as_rational_numbers() {
    assert_eq!(r(1, 2).compare(&r(2, 4)), Order::Equal);
    assert_eq!(r(1, 3).compare(&r(1, 2)), Order::Less);
    assert_eq!(r(2, 3).compare(&r(1, 2)), Order::Greater);
    assert_eq!(r(-1, 2).compare(&r(1, 2)), Order::Less);
    assert_eq!(r(1, 2).compare(&r(-1, 2)), Order::Greater);
    assert_eq!(r(-1, 2).compare(&r(-1, 3)), Order::Less);
    assert_eq!(r(-1, 3).compare(&r(-1, 2)), Order::Greater);
    assert_eq!(r(-3, 6).compare(&r(-1, 2)), Order::Equal);
    assert_eq!(r(0, 5).compare(&r(0, 7)), Order::Equal);
    assert_eq!(r(0, 5).compare(&r(-1, 7)), Order::Greater);
    assert_eq!(r(7, 1).compare(&r(22, 3)), Order::Less);
    assert_eq!(Ratio::whole(9).compare(&r(27, 3)), Order::Equal);
}

#[test]
fn fractions_too_large_to_multiply_are_compared_exactly() {
    let big = i128::MAX;
    assert_eq!(r(big, big - 1).compare(&r(big - 1, big - 2)), Order::Less);
    assert_eq!(r(big - 1, big).compare(&r(big - 2, big - 1)), Order::Greater);
    assert_eq!(r(big, big).compare(&r(1, 1)), Order::Equal);
    assert_eq!(r(i128::MIN, big).compare(&r(i128::MIN + 1, big)), Order::Less);
    assert_eq!(r(i128::MIN, 1).compare(&r(i128::MIN, 1)), Order::Equal);
    assert_eq!(r(i128::MIN, 3).compare(&r(i128::MIN, 2)), Order::Greater);
    let fib_a = 218_922_995_834_555_169_026_i128;
    let fib_b = 135_301_852_344_706_746_049_i128;
    let fib_c = 83_621_143_489_848_422_977_i128;
    // fib_a * fib_c - fib_b * fib_b == 1
    assert_eq!(r(fib_a, fib_b).compare(&r(fib_b, fib_c)), Order::Greater);
    assert_eq!(r(fib_b, fib_c).compare(&r(fib_a, fib_b)), Order::Less);
}

#[test]
fn rank_orders_places_and_keeps_equal_keys_in_place() {
    let keys = vec![r(1, 2), r(3, 4), r(2, 4), r(-1, 1), r(6, 8), r(5, 1)];
    assert_eq!(rank(&keys, false), vec![3, 0, 2, 1, 4, 5]);
    assert_eq!(rank(&keys, true), vec![5, 1, 4, 0, 2, 3]);
    assert_eq!(rank(&Vec::new(), true), Vec::<usize>::new());
    assert_eq!(rank(&vec![r(1, 1)], false), vec![0]);
}

#[test]
fn a_list_with_a_corrupt_position_is_refused() {
    let mut positions = Vec::new();
    add(&mut positions, OptionKind::Put, "AMZN", 100_000, 5_000, 1, t(2024, 1, 15), d(2024, 3, 15));
    positions.push(Position { contracts: Vec::new() });
    add(&mut positions, OptionKind::Put, "AMZN", 100_000, 5_000, 1, t(2024, 1, 15), d(2024, 3, 15));
    positions[2].contracts[0].open.strike = -1;
    let e = Err(ReportError::CorruptPosition(1));
    assert_eq!(check_ledger(&positions), e);
    assert_eq!(stats(&positions), Err(ReportError::CorruptPosition(1)));
    assert_eq!(view(&positions), Err(ReportError::CorruptPosition(1)));
    assert_eq!(all(&positions), Err(ReportError::CorruptPosition(1)));
    assert_eq!(assets(&positions), Err(ReportError::CorruptPosition(1)));
    assert_eq!(best(&positions, t(2024, 6, 1)), Err(ReportError::CorruptPosition(1)));
    assert_eq!(month(&positions), Err(ReportError::CorruptPosition(1)));
    positions.remove(1);
    assert_eq!(check_ledger(&positions), Err(ReportError::CorruptPosition(1)));
    positions.remove(1);
    assert_eq!(check_ledger(&positions), Ok(()));
}

fn ledger() -> Vec<Position> {
    let mut p = Vec::new();
    // 0: closed, gain 40 dollars on 1000 dollars over 26 days
    let a = add(&mut p, OptionKind::Put, "AMZN", 100_000, 5_000, 1, t(2024, 1, 15), d(2024, 3, 15));
    close_position(&mut p, a, 1_000, t(2024, 2, 10)).unwrap();
    // 1: open, premium 2 dollars on 3 contracts
    add(&mut p, OptionKind::Call, "MSFT", 4_000_000, 20_000, 3, t(2024, 2, 1), d(2024, 6, 21));
    // 2: expired put, gain 150 dollars on 5000 dollars over 10 days
    let c = add(&mut p, OptionKind::Put, "AMD", 500_000, 15_000, 1, t(2024, 2, 5), d(2024, 2, 9));
    expire(&mut p, c).unwrap();
    // 3: assigned call
    let e = add(&mut p, OptionKind::Call, "AMD", 600_000, 10_000, 2, t(2024, 2, 20), d(2024, 3, 1));
    assign(&mut p, e).unwrap();
    // 4: closed at a loss
    let f = add(&mut p, OptionKind::Put, "TSLA", 2_000_000, 30_000, 1, t(2024, 3, 1), d(2024, 3, 8));
    close_position(&mut p, f, 80_000, t(2024, 3, 4)).unwrap();
    // 5: rolled once, then closed
    let g = add(&mut p, OptionKind::Put, "AMZN", 100_000, 5_000, 4, t(2024, 3, 1), d(2024, 3, 8));
    roll_position(&mut p, g, d(2024, 3, 22), 8_000, 8_500, None, t(2024, 3, 7)).unwrap();
    close_position(&mut p, g, 500, t(2024, 3, 20)).unwrap();
    p
}

#[test]
fn stats_adds_up_closed_and_open_gains() {
    let p = ledger();
    let expected = Stats {
        realized: 400_000 + 1_500_000 + 2_000_000 - 5_000_000 + 2_000_000,
        unrealized: 6_000_000,
    };
    assert_eq!(stats(&p), Ok(expected));
    assert_eq!(stats(&Vec::new()), Ok(Stats { realized: 0, unrealized: 0 }));
}

#[test]
fn view_lists_the_open_positions_with_their_places() {
    let mut p = ledger();
    add(&mut p, OptionKind::Put, "NVDA", 1_000_000, 9_000, 1, t(2024, 4, 1), d(2024, 4, 19));
    let listed = view(&p).unwrap();
    assert_eq!(listed.iter().map(|o| o.id).collect::<Vec<_>>(), vec![1, 6]);
    assert_eq!(listed[0].pos, p[1]);
    assert_eq!(listed[1].pos, p[6]);
    assert_eq!(view(&Vec::new()).unwrap().len(), 0);
}

#[test]
fn all_orders_by_expiry_and_keeps_ties_in_place() {
    let p = ledger();
    // expiries: 3/15, 6/21, 2/9, 3/1, 3/8, 3/22
    assert_eq!(all(&p), Ok(vec![2, 3, 4, 0, 5, 1]));
    let mut q = Vec::new();
    for _ in 0..3 {
        add(&mut q, OptionKind::Put, "A", 1, 1, 1, t(2024, 1, 1), d(2024, 5, 17));
    }
    add(&mut q, OptionKind::Put, "A", 1, 1, 1, t(2024, 1, 1), d(2024, 5, 16));
    assert_eq!(all(&q), Ok(vec![3, 0, 1, 2]));
}

#[test]
fn assets_nets_shares_by_ticker_and_drops_what_nets_to_zero() {
    let mut p = ledger();
    // not open: AMZN put 1 (+100), AMD put 1 (+100), AMD call 2 (-200), TSLA put 1 (+100), AMZN put 4 (+400)
    let expected = vec![
        Holding { ticker: "AMZN".to_string(), shares: 500 },
        Holding { ticker: "AMD".to_string(), shares: -100 },
        Holding { ticker: "TSLA".to_string(), shares: 100 },
    ];
    assert_eq!(assets(&p), Ok(expected));
    let k = add(&mut p, OptionKind::Put, "AMD", 1, 1, 1, t(2024, 4, 1), d(2024, 4, 19));
    expire(&mut p, k).unwrap();
    let expected = vec![
        Holding { ticker: "AMZN".to_string(), shares: 500 },
        Holding { ticker: "TSLA".to_string(), shares: 100 },
    ];
    assert_eq!(assets(&p), Ok(expected));
    assert_eq!(assets(&Vec::new()), Ok(Vec::new()));
}

#[test]
fn best_shows_the_three_highest_returns_per_day() {
    let p = ledger();
    let now = t(2024, 6, 1);
    // closed: 0: 40/1000/26, 2: 150/5000/117 (expired, held up to now), 3: 200/120000/102,
    // 4: -500/20000/3, 5: 200/4000/19
    let entries = best(&p, now).unwrap();
    assert_eq!(entries.iter().map(|e| e.index).collect::<Vec<_>>(), vec![5, 0, 2]);
    let first = &entries[0];
    assert_eq!(first.ticker, "AMZN");
    assert_eq!(first.date, d(2024, 3, 20));
    assert_eq!(first.gain, 2_000_000);
    assert_eq!(first.investment, 40_000_000);
    assert_eq!(first.days, 19);
    assert_eq!(first.daily_return, r(2_000_000, 40_000_000 * 19));
    assert_eq!(entries[1].days, 26);
    assert_eq!(entries[1].date, d(2024, 2, 10));
    assert_eq!(entries[2].days, 117);
    assert_eq!(entries[2].date, d(2024, 2, 5));
}

#[test]
fn best_shows_fewer_where_fewer_are_closed_and_keeps_ties_in_place() {
    let mut p = Vec::new();
    assert_eq!(best(&p, t(2024, 6, 1)).unwrap().len(), 0);
    add(&mut p, OptionKind::Put, "A", 100_000, 5_000, 10, t(2024, 1, 1), d(2024, 1, 5));
    assert_eq!(best(&p, t(2024, 6, 1)).unwrap().len(), 0);
    split_position(&mut p, 0, 2).unwrap();
    split_position(&mut p, 0, 2).unwrap();
    split_position(&mut p, 0, 2).unwrap();
    for i in [3, 1, 0, 2] {
        close_position(&mut p, i, 1_000, t(2024, 1, 3)).unwrap();
    }
    let entries = best(&p, t(2024, 6, 1)).unwrap();
    assert_eq!(entries.iter().map(|e| e.index).collect::<Vec<_>>(), vec![0, 1, 2]);
}

fn fragment_sums(months: &Vec<TradingMonth>) -> Vec<(i32, u32, i128, i128)> {
    months.iter().map(|m| (m.year, m.month, m.gain, m.investment)).collect()
}

#[test]
fn the_report_by_month_gathers_the_closed_positions() {
    let p = ledger();
    let report: MonthReport = month(&p).unwrap();
    // distributed gains: position 0: 17/27 and 10/27 of 400000; 2: all February (5 days);
    // 3: 10 days February, 1 day March of 2000000; 4: March; 5: March
    let i0 = 10_000_000_i128;
    let i2 = 50_000_000_i128;
    let i3 = 120_000_000_i128;
    let i4 = 200_000_000_i128;
    let i5 = 40_000_000_i128;
    let expected = vec![
        (2024, 1, 251_852, 17 * i0),
        (2024, 2, 148_148 + 1_500_000 + 1_818_182, 10 * i0 + 5 * i2 + 10 * i3),
        (2024, 3, 181_818 - 5_000_000 + 2_000_000, i3 + 4 * i4 + 20 * i5),
    ];
    assert_eq!(fragment_sums(&report.distributed), expected);
    let expected = vec![
        (2024, 1, 0, 17 * i0),
        (2024, 2, 400_000 + 1_500_000, 10 * i0 + 5 * i2 + 10 * i3),
        (2024, 3, 2_000_000 - 5_000_000 + 2_000_000, i3 + 4 * i4 + 20 * i5),
    ];
    assert_eq!(fragment_sums(&report.taxable), expected);
    assert_eq!(report.chronological, vec![2, 1, 0]);
    assert_eq!(report.taxable_chronological, vec![2, 1, 0]);
    assert_eq!(report.by_gain, vec![1, 0, 2]);
    assert_eq!(report.taxable_by_gain, vec![1, 0, 2]);
    // daily returns: January 251852/170e6, February 3466330/1550e6, March -2818182/1720e6
    assert_eq!(report.by_daily_return, vec![1, 0, 2]);
}

#[test]
fn the_report_by_month_of_nothing_is_empty() {
    let report = month(&Vec::new()).unwrap();
    assert_eq!(report.distributed.len(), 0);
    assert_eq!(report.taxable.len(), 0);
    assert_eq!(report.by_gain.len(), 0);
    let mut p = Vec::new();
    add(&mut p, OptionKind::Put, "A", 100_000, 5_000, 10, t(2024, 1, 1), d(2024, 1, 5));
    assert_eq!(month(&p).unwrap().distributed.len(), 0);
}

#[test]
fn gather_months_sums_fragments_of_the_same_month_in_order_of_time() {
    let mut p = Vec::new();
    let a = add(&mut p, OptionKind::Put, "A", 100_000, 5_000, 1, t(2024, 3, 1), d(2024, 4, 5));
    expire(&mut p, a).unwrap();
    let b = add(&mut p, OptionKind::Put, "B", 100_000, 5_000, 1, t(2023, 12, 30), d(2024, 3, 2));
    expire(&mut p, b).unwrap();
    let mut fragments = p[0].generate_taxable_months();
    fragments.append(&mut p[1].generate_taxable_months());
    let months = gather_months(&fragments);
    let inv = 10_000_000_i128;
    let expected = vec![
        (2023, 12, 0, 2 * inv),
        (2024, 1, 0, 31 * inv),
        (2024, 2, 0, 29 * inv),
        (2024, 3, 500_000, 31 * inv + 2 * inv),
        (2024, 4, 500_000, 5 * inv),
    ];
    assert_eq!(fragment_sums(&months), expected);
    assert_eq!(gather_months(&Vec::new()).len(), 0);
}

#[test]
fn a_trading_month_combines_with_a_fragment() {
    let mut p = Vec::new();
    let a = add(&mut p, OptionKind::Put, "A", 100_000, 5_000, 1, t(2024, 3, 1), d(2024, 3, 5));
    expire(&mut p, a).unwrap();
    let fragment = p[0].generate_taxable_months().remove(0);
    let mut m = TradingMonth { year: 2024, month: 3, gain: 7, investment: 11 };
    m.combine(fragment);
    assert_eq!(m, TradingMonth { year: 2024, month: 3, gain: 500_007, investment: 50_000_011 });
    let rate = m.daily_return_rate();
    assert_eq!(rate, r(50_000_700, 50_000_011));
    assert!(m.is_well_formed());
    assert!(!TradingMonth { year: 2024, month: 3, gain: 0, investment: 0 }.is_well_formed());
}
