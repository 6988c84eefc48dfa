use option_tracker::calendar::{Date, Timestamp};
use option_tracker::display::{
    contract_page, details, display_assets, display_best, display_stats, label_display,
    month_pages, status_page,
};
use option_tracker::lifecycle::{
    close_position, expire, open_position, roll_position, CommandError,
};
use option_tracker::model::{LegStatus, OptionKind, Position};
use option_tracker::monthly::month;
use option_tracker::ratio::Ratio;
use option_tracker::report::{best, Holding, Stats};
use option_tracker::text::{
    month_name, push_amount, push_cents, push_date, push_hundredths, push_integer, push_month_id,
    push_natural, push_percent, push_two_places, unix_seconds,
};
use option_tracker::tradingmonth::TradingMonth;

fn d(year: i32, month: u32, day: u32) -> Date {
    Date { year, month, day }
}

fn t(year: i32, month: u32, day: u32) -> Timestamp {
    Timestamp { date: d(year, month, day), second_of_day: 0 }
}

fn amzn() -> Vec<Position> {
    let mut positions = Vec::new();
    open_position(
        &mut positions,
        OptionKind::Put,
        "AMZN",
        100_000,
        d(2024, 12, 30),
        5_000,
        1,
        t(2024, 11, 1),
    )
    .unwrap();
    positions
}

fn written(write: impl Fn(&mut String)) -> String {
    let mut out = String::from(">");
    write(&mut out);
    out
}

#[test]
fn numbers_are_written_in_base_ten() {
    assert_eq!(written(|o| push_natural(o, 0)), ">0");
    assert_eq!(written(|o| push_natural(o, 9)), ">9");
    assert_eq!(written(|o| push_natural(o, 10)), ">10");
    assert_eq!(written(|o| push_natural(o, 1_234_567_890)), ">1234567890");
    assert_eq!(
        written(|o| push_natural(o, u128::MAX)),
        ">340282366920938463463374607431768211455"
    );
    assert_eq!(written(|o| push_integer(o, -45)), ">-45");
    assert_eq!(written(|o| push_integer(o, 45)), ">45");
    assert_eq!(written(|o| push_integer(o, 0)), ">0");
    assert_eq!(written(|o| push_two_places(o, 0)), ">00");
    assert_eq!(written(|o| push_two_places(o, 7)), ">07");
    assert_eq!(written(|o| push_two_places(o, 12)), ">12");
    assert_eq!(written(|o| push_two_places(o, 123)), ">123");
}

#[test]
fn amounts_are_written_with_the_places_they_need() {
    assert_eq!(written(|o| push_amount(o, 100_000)), ">10");
    assert_eq!(written(|o| push_amount(o, 5_000)), ">0.5");
    assert_eq!(written(|o| push_amount(o, 8_500)), ">0.85");
    assert_eq!(written(|o| push_amount(o, 1_230)), ">0.123");
    assert_eq!(written(|o| push_amount(o, 12_345_678)), ">1234.5678");
    assert_eq!(written(|o| push_amount(o, 1)), ">0.0001");
    assert_eq!(written(|o| push_amount(o, 10_001)), ">1.0001");
    assert_eq!(written(|o| push_amount(o, 0)), ">0");
    assert_eq!(written(|o| push_amount(o, -2_500)), ">-0.25");
    assert_eq!(written(|o| push_amount(o, -400_000)), ">-40");
}

#[test]
fn cents_are_written_on_two_places() {
    assert_eq!(written(|o| push_cents(o, 400_000)), ">40.00");
    assert_eq!(written(|o| push_cents(o, 5_000)), ">0.50");
    assert_eq!(written(|o| push_cents(o, 12_345_678)), ">1234.57");
    assert_eq!(written(|o| push_cents(o, 12_345_649)), ">1234.56");
    assert_eq!(written(|o| push_cents(o, 49)), ">0.00");
    assert_eq!(written(|o| push_cents(o, 50)), ">0.01");
    assert_eq!(written(|o| push_cents(o, -50)), ">-0.01");
    assert_eq!(written(|o| push_cents(o, -49)), ">0.00");
    assert_eq!(written(|o| push_cents(o, -1_050_000)), ">-105.00");
    assert_eq!(written(|o| push_hundredths(o, 7)), ">0.07");
    assert_eq!(written(|o| push_hundredths(o, -1_234)), ">-12.34");
}

#[test]
fn percentages_are_rounded_on_two_places() {
    let p = |n: i128, d: i128| written(|o| push_percent(o, &Ratio { numerator: n, denominator: d }));
    assert_eq!(p(4, 100), ">4.00");
    assert_eq!(p(1, 3), ">33.33");
    assert_eq!(p(2, 3), ">66.67");
    assert_eq!(p(-1, 8), ">-12.50");
    assert_eq!(p(1, 1), ">100.00");
    assert_eq!(p(0, 5), ">0.00");
    assert_eq!(p(1, 20_000), ">0.01");
    assert_eq!(p(1, 20_001), ">0.00");
    assert_eq!(p(400_000, 10_000_000 * 26), ">0.15");
}

#[test]
fn dates_are_written_with_a_short_year() {
    assert_eq!(written(|o| push_date(o, &d(2024, 12, 30))), ">12/30/24");
    assert_eq!(written(|o| push_date(o, &d(2005, 1, 2))), ">1/2/5");
    assert_eq!(written(|o| push_date(o, &d(2000, 10, 10))), ">10/10/0");
    assert_eq!(written(|o| push_date(o, &d(-44, 3, 15))), ">3/15/-44");
    assert_eq!(written(|o| push_date(o, &d(-2024, 3, 15))), ">3/15/-24");
    assert_eq!(written(|o| push_month_id(o, 2024, 1)), ">2024-01");
    assert_eq!(written(|o| push_month_id(o, 2024, 12)), ">2024-12");
    assert_eq!(written(|o| push_month_id(o, -5, 3)), ">-5-03");
    assert_eq!(month_name(1), "January");
    assert_eq!(month_name(9), "September");
    assert_eq!(month_name(12), "December");
}

#[test]
fn instants_are_counted_in_seconds_from_1970() {
    assert_eq!(unix_seconds(&t(1970, 1, 1)), 0);
    assert_eq!(unix_seconds(&t(2024, 11, 1)), 1_730_419_200);
    assert_eq!(
        unix_seconds(&Timestamp { date: d(2024, 1, 15), second_of_day: 3_600 }),
        1_705_280_400
    );
    assert_eq!(unix_seconds(&Timestamp { date: d(1969, 12, 31), second_of_day: 86_399 }), -1);
}

#[test]
fn a_contract_is_shown_with_its_close() {
    let mut positions = amzn();
    assert_eq!(
        positions[0].contracts[0].display(),
        "AMZN 12/30/24 $10 put\nPremium: $0.5\nQuantity: 1\nOpened <t:1730419200:R> (11/1/24)\n\
         Expires <t:1735516800:R> (12/30/24)\nStatus: Still open"
    );
    close_position(
        &mut positions,
        0,
        1_000,
        Timestamp { date: d(2024, 11, 20), second_of_day: 3_600 },
    )
    .unwrap();
    assert_eq!(
        positions[0].contracts[0].display(),
        "AMZN 12/30/24 $10 put\nPremium: $0.5\nQuantity: 1\nOpened <t:1730419200:R> (11/1/24)\n\
         Expires <t:1735516800:R> (12/30/24)\nStatus: Closed <t:1732064400:R> (11/20/24) at \
         premium $0.1"
    );
    assert_eq!(
        contract_page(0, 1, &positions[0].contracts[0]),
        format!("Contract 1/1\n{}", positions[0].contracts[0].display())
    );
}

#[test]
fn a_position_is_shown_with_its_rolls() {
    let mut positions = amzn();
    let before = t(2024, 12, 1);
    let after = t(2024, 12, 30);
    assert_eq!(
        positions[0].display(&before),
        "# AMZN 12/30/24 $10 P\nOpened <t:1730419200:R> (11/1/24)\nExpires <t:1735516800:R>\n\
         Premium: $0.5\nQuantity: 1\n"
    );
    assert_eq!(
        positions[0].display(&after),
        "# AMZN 12/30/24 $10 P\nOpened <t:1730419200:R> (11/1/24)\nExpired <t:1735516800:R>\n\
         Premium: $0.5\nQuantity: 1\n"
    );
    roll_position(&mut positions, 0, d(2025, 1, 17), 8_000, 8_500, Some(125_000), t(2024, 12, 20))
        .unwrap();
    assert_eq!(
        positions[0].display(&before),
        "# AMZN 1/17/25 $12.5 P\n-# *Rolled 1 time*\nOpened <t:1734652800:R> (12/20/24)\n\
         Expires <t:1737072000:R>\nPremium: $0.55\nQuantity: 1\n"
    );
    roll_position(&mut positions, 0, d(2025, 2, 21), 0, 0, None, t(2025, 1, 16)).unwrap();
    assert!(positions[0].display(&before).contains("\n-# *Rolled 2 times*\n"));
    assert_eq!(
        status_page(&positions[0], &before),
        format!("{}Status: `open`", positions[0].display(&before))
    );
    expire(&mut positions, 0).unwrap();
    assert!(status_page(&positions[0], &before).ends_with("Status: `expired`"));
    assert_eq!(LegStatus::Assigned.label(), "assigned");
    assert_eq!(LegStatus::Closed.label(), "closed");
    assert_eq!(LegStatus::Rolled.label(), "rolled");
    assert_eq!(OptionKind::Call.label(), "call");
    assert_eq!(OptionKind::Call.initial(), "C");
}

#[test]
fn details_shows_a_page_for_every_contract() {
    let mut positions = amzn();
    roll_position(&mut positions, 0, d(2025, 1, 17), 8_000, 8_500, None, t(2024, 12, 20)).unwrap();
    let pages = details(&positions, 0).unwrap();
    assert_eq!(pages.len(), 2);
    assert_eq!(pages[0], format!("Contract 1/2\n{}", positions[0].contracts[0].display()));
    assert_eq!(pages[1], format!("Contract 2/2\n{}", positions[0].contracts[1].display()));
    assert_eq!(details(&positions, -1), Err(CommandError::NoSelection));
    assert_eq!(details(&positions, 1), Err(CommandError::InvalidSelection));
}

#[test]
fn a_page_is_labelled_with_its_number() {
    assert_eq!(label_display(0, 3, &"text".to_string()), "-# 1/3\ntext");
    assert_eq!(label_display(2, 3, &String::new()), "-# 3/3\n");
    assert_eq!(label_display(u32::MAX, 0, &"x".to_string()), "-# 4294967296/0\nx");
}

#[test]
fn a_fragment_is_shown_with_its_month() {
    let mut positions = amzn();
    close_position(&mut positions, 0, 1_000, t(2024, 12, 10)).unwrap();
    let months = positions[0].generate_taxable_months();
    assert_eq!(months[0].id(), "2024-11");
    assert_eq!(months[1].id(), "2024-12");
    assert_eq!(months[0].month_name(), "November");
    let now = t(2025, 1, 1);
    assert_eq!(
        months[1].display(&now),
        format!(
            "December 2024\nPosition: [\n{}]\nGain: 40\nInvestment: 10000",
            positions[0].display(&now)
        )
    );
    assert_eq!(
        months[0].display(&now),
        format!(
            "November 2024\nPosition: [\n{}]\nGain: 0\nInvestment: 30000",
            positions[0].display(&now)
        )
    );
}

#[test]
fn a_trading_month_is_shown_by_rate_and_by_gain() {
    let m = TradingMonth { year: 2024, month: 2, gain: 3_466_330, investment: 1_550_000_000 };
    assert_eq!(m.id(), "2024-02");
    assert_eq!(m.month_name(), "February");
    assert_eq!(m.display_daily_return_rate(), "February 2024: `0.22%`");
    assert_eq!(m.display_distributed_gain(), "February 2024: `$346.63`");
    let odd = TradingMonth { year: 2024, month: 13, gain: -5_049, investment: 7 };
    assert_eq!(odd.display_distributed_gain(), "Unknown 2024: `$-0.50`");
    assert_eq!(odd.id(), "2024-13");
}

#[test]
fn stats_and_assets_are_shown() {
    assert_eq!(
        display_stats(&Stats { realized: 900_000, unrealized: -6_005_000 }),
        "Total gain: `$90`\nCurrent unrealized gain: `$-600.5`"
    );
    let holdings = vec![
        Holding { ticker: "AMZN".to_string(), shares: 500 },
        Holding { ticker: "AMD".to_string(), shares: -100 },
    ];
    assert_eq!(display_assets(&holdings), "Your current assets: \n`500 AMZN`\n`-100 AMD`\n");
    assert_eq!(display_assets(&Vec::new()), "Your current assets: \n");
}

#[test]
fn the_best_positions_are_shown() {
    let mut positions = amzn();
    close_position(&mut positions, 0, 1_000, t(2024, 11, 27)).unwrap();
    open_position(
        &mut positions,
        OptionKind::Call,
        "MSFT",
        4_000_000,
        d(2024, 12, 30),
        20_000,
        2,
        t(2024, 11, 1),
    )
    .unwrap();
    close_position(&mut positions, 1, 100_000, Timestamp { date: d(2024, 11, 2), second_of_day: 5 })
        .unwrap();
    let entries = best(&positions, t(2025, 1, 1)).unwrap();
    assert_eq!(
        display_best(&entries),
        "Top 3 positions:\n```\n11/27/24 - AMZN\nGained $40.00 from investment of $1000 over 26 \
         days\nDaily Return: 0.15%```\
         ```\n11/2/24 - MSFT\nGained $-1600.00 from investment of $80000 over 1 day\n\
         Daily Return: -2.00%```"
    );
    assert_eq!(display_best(&Vec::new()), "Top 3 positions:\n");
}

#[test]
fn the_report_by_month_has_six_pages() {
    let mut positions = amzn();
    close_position(&mut positions, 0, 1_000, t(2024, 12, 10)).unwrap();
    let report = month(&positions).unwrap();
    let pages = month_pages(&report);
    assert_eq!(pages.len(), 6);
    // 30 days in November, 10 in December: 300000 and 100000 ticks of gain
    assert_eq!(
        pages[0],
        "**Daily Return Rate**\n-# Chronological Order\n\n\
         December 2024: `0.10%`\nNovember 2024: `0.10%`\n"
    );
    assert_eq!(
        pages[1],
        "**Daily Return Rate**\n-# by Daily Return Rate\n\n\
         November 2024: `0.10%`\nDecember 2024: `0.10%`\n"
    );
    assert_eq!(
        pages[2],
        "**Distributed Gain**\n-# Chronological Order\n\n\
         December 2024: `$10.00`\nNovember 2024: `$30.00`\n"
    );
    assert_eq!(
        pages[3],
        "**Distributed Gain**\n-# by Distributed Gain\n\n\
         November 2024: `$30.00`\nDecember 2024: `$10.00`\n"
    );
    assert_eq!(
        pages[4],
        "**Taxable Gain**\n-# Chronological Order\n\n\
         December 2024: `$40.00`\nNovember 2024: `$0.00`\n"
    );
    assert_eq!(
        pages[5],
        "**Taxable Gain**\n-# by Taxable Gain\n\n\
         December 2024: `$40.00`\nNovember 2024: `$0.00`\n"
    );
}
