//! The texts that show contracts, positions, months and reports.
//!
//! The text of a thing is given by a function that writes it behind a text already
//! there; the text on its own is what that function writes behind nothing.

use crate::calendar::{chrono_accepts_ymd, is_calendar_date, Date, Timestamp};
use crate::model::{
    chain_aggregate_premium, chain_wf, lemma_amount_bounds, Contract, ContractView, LegStatus,
    OptionClose, OptionKind, Position,
};
use crate::monthly::MonthReport;
use crate::months::PositionMonth;
use crate::ratio::Ratio;
use crate::report::{BestEntry, Holding, Stats};
use crate::text::{
    amount_text, cents_text, date_text, integer_text, month_id_text, month_name, month_name_text,
    natural_text, percent_text, push_amount, push_cents, push_date, push_integer, push_month_id,
    push_natural, push_percent, unix_seconds,
};
use crate::tradingmonth::TradingMonth;
use vstd::prelude::*;

verus! {

/// The word for a kind of option.
pub open spec fn kind_text(kind: OptionKind) -> Seq<char> {
    match kind {
        OptionKind::Put => "put"@,
        OptionKind::Call => "call"@,
    }
}

/// The capital letter that stands for a kind of option.
pub open spec fn initial_text(kind: OptionKind) -> Seq<char> {
    match kind {
        OptionKind::Put => "P"@,
        OptionKind::Call => "C"@,
    }
}

/// The word for the status of a leg.
pub open spec fn status_text(status: LegStatus) -> Seq<char> {
    match status {
        LegStatus::Open => "open"@,
        LegStatus::Closed => "closed"@,
        LegStatus::Rolled => "rolled"@,
        LegStatus::Assigned => "assigned"@,
        LegStatus::Expired => "expired"@,
    }
}

impl OptionKind {
    /// The word for the kind.
    pub fn label(&self) -> (r: &'static str)
        ensures
            r@ == kind_text(*self),
    {
        match self {
            OptionKind::Put => "put",
            OptionKind::Call => "call",
        }
    }

    /// The capital letter that stands for the kind.
    pub fn initial(&self) -> (r: &'static str)
        ensures
            r@ == initial_text(*self),
    {
        match self {
            OptionKind::Put => "P",
            OptionKind::Call => "C",
        }
    }
}

impl LegStatus {
    /// The word for the status.
    pub fn label(&self) -> (r: &'static str)
        ensures
            r@ == status_text(*self),
    {
        match self {
            LegStatus::Open => "open",
            LegStatus::Closed => "closed",
            LegStatus::Rolled => "rolled",
            LegStatus::Assigned => "assigned",
            LegStatus::Expired => "expired",
        }
    }
}

/// Seconds from the start of 1970 to the midnight with which `date` begins.
pub open spec fn midnight_second(date: Date) -> int {
    date.day_number() * 86_400
}

/// Seconds from the start of 1970 to the midnight with which a date begins.
fn midnight(date: &Date) -> (r: i64)
    requires
        date.wf(),
    ensures
        r == midnight_second(*date),
{
    unix_seconds(&Timestamp { date: *date, second_of_day: 0 })
}

/// A mark that shows an instant relative to the reader's present.
pub open spec fn relative_mark_onto(prefix: Seq<char>, second: int) -> Seq<char> {
    prefix + "<t:"@ + integer_text(second) + ":R>"@
}

fn push_relative_mark(out: &mut String, second: i64)
    ensures
        final(out)@ == relative_mark_onto(old(out)@, second as int),
{
    out.append("<t:");
    push_integer(out, second as i128);
    out.append(":R>");
}

/// How a contract was closed, or that it is still open.
pub open spec fn close_text_onto(prefix: Seq<char>, close: Option<OptionClose>) -> Seq<char> {
    match close {
        Some(c) => relative_mark_onto(prefix + "Closed "@, c.date.epoch_second()) + " ("@
            + date_text(c.date.date) + ") at premium $"@ + amount_text(c.premium as int),
        None => prefix + "Still open"@,
    }
}

/// The text that shows a contract, written behind `prefix`.
pub open spec fn contract_text_onto(prefix: Seq<char>, contract: ContractView) -> Seq<char> {
    let open = contract.open;
    let head = prefix + open.ticker + " "@ + date_text(open.expiry) + " $"@ + amount_text(
        open.strike as int,
    ) + " "@ + kind_text(open.open_type) + "\nPremium: $"@ + amount_text(open.premium as int)
        + "\nQuantity: "@ + natural_text(open.quantity as nat) + "\nOpened "@;
    let opened = relative_mark_onto(head, open.date.epoch_second()) + " ("@ + date_text(
        open.date.date,
    ) + ")\nExpires "@;
    let expires = relative_mark_onto(opened, midnight_second(open.expiry)) + " ("@ + date_text(
        open.expiry,
    ) + ")\nStatus: "@;
    close_text_onto(expires, contract.close)
}

/// The text that shows a contract.
pub open spec fn contract_text(contract: ContractView) -> Seq<char> {
    contract_text_onto(Seq::empty(), contract)
}

impl Contract {
    /// Writes the text that shows the contract behind `out`.
    pub fn display_onto(&self, out: &mut String)
        requires
            self.wf(),
        ensures
            final(out)@ == contract_text_onto(old(out)@, self@),
    {
        out.append(self.open.ticker.as_str());
        out.append(" ");
        push_date(out, &self.open.expiry);
        out.append(" $");
        push_amount(out, self.open.strike as i128);
        out.append(" ");
        out.append(self.open.open_type.label());
        out.append("\nPremium: $");
        push_amount(out, self.open.premium as i128);
        out.append("\nQuantity: ");
        push_natural(out, self.open.quantity as u128);
        out.append("\nOpened ");
        push_relative_mark(out, unix_seconds(&self.open.date));
        out.append(" (");
        push_date(out, &self.open.date.date);
        out.append(")\nExpires ");
        push_relative_mark(out, midnight(&self.open.expiry));
        out.append(" (");
        push_date(out, &self.open.expiry);
        out.append(")\nStatus: ");
        match self.close {
            Some(c) => {
                out.append("Closed ");
                push_relative_mark(out, unix_seconds(&c.date));
                out.append(" (");
                push_date(out, &c.date.date);
                out.append(") at premium $");
                push_amount(out, c.premium as i128);
            },
            None => {
                out.append("Still open");
            },
        }
    }

    /// The text that shows the contract.
    pub fn display(&self) -> (r: String)
        requires
            self.wf(),
        ensures
            r@ == contract_text(self@),
    {
        let mut out = String::new();
        self.display_onto(&mut out);
        out
    }
}

/// The line that tells how often a position was rolled; nothing where it never was.
pub open spec fn rolls_text_onto(prefix: Seq<char>, rolls: nat) -> Seq<char> {
    if rolls == 0 {
        prefix
    } else {
        prefix + "-# *Rolled "@ + natural_text(rolls) + " "@ + (if rolls == 1 {
            "time"@
        } else {
            "times"@
        }) + "*\n"@
    }
}

/// The word that tells whether the expiry still lies ahead of `now`.
pub open spec fn expiry_word(expiry: Date, now: Timestamp) -> Seq<char> {
    if midnight_second(expiry) > now.epoch_second() {
        "Expires"@
    } else {
        "Expired"@
    }
}

/// The text that shows a position at the instant `now`, written behind `prefix`.
pub open spec fn position_text_onto(prefix: Seq<char>, chain: Seq<ContractView>, now: Timestamp) -> Seq<
    char,
> {
    let open = chain.last().open;
    let title = prefix + "# "@ + open.ticker + " "@ + date_text(open.expiry) + " $"@
        + amount_text(open.strike as int) + " "@ + initial_text(open.open_type) + "\n"@;
    let rolled = rolls_text_onto(title, (chain.len() - 1) as nat) + "Opened "@;
    let opened = relative_mark_onto(rolled, open.date.epoch_second()) + " ("@ + date_text(
        open.date.date,
    ) + ")\n"@ + expiry_word(open.expiry, now) + " "@;
    relative_mark_onto(opened, midnight_second(open.expiry)) + "\nPremium: $"@ + amount_text(
        chain_aggregate_premium(chain),
    ) + "\nQuantity: "@ + natural_text(open.quantity as nat) + "\n"@
}

/// The text that shows a position at the instant `now`.
pub open spec fn position_text(chain: Seq<ContractView>, now: Timestamp) -> Seq<char> {
    position_text_onto(Seq::empty(), chain, now)
}

impl Position {
    /// Writes the text that shows the position behind `out`.
    pub fn display_onto(&self, out: &mut String, now: &Timestamp)
        requires
            self.wf(),
            now.wf(),
        ensures
            final(out)@ == position_text_onto(old(out)@, self@, *now),
    {
        let last = self.final_contract();
        assert(self@.last() == self@[self@.len() - 1]);
        assert(self@[self@.len() - 1].wf());
        out.append("# ");
        out.append(last.open.ticker.as_str());
        out.append(" ");
        push_date(out, &last.open.expiry);
        out.append(" $");
        push_amount(out, last.open.strike as i128);
        out.append(" ");
        out.append(last.open.open_type.initial());
        out.append("\n");
        let rolls: usize = self.num_rolls();
        if rolls > 0 {
            out.append("-# *Rolled ");
            push_natural(out, rolls as u128);
            out.append(" ");
            out.append(
                if rolls == 1 {
                    "time"
                } else {
                    "times"
                },
            );
            out.append("*\n");
        }
        out.append("Opened ");
        push_relative_mark(out, unix_seconds(&last.open.date));
        out.append(" (");
        push_date(out, &last.open.date.date);
        out.append(")\n");
        let expiry_second: i64 = midnight(&last.open.expiry);
        out.append(
            if expiry_second > unix_seconds(now) {
                "Expires"
            } else {
                "Expired"
            },
        );
        out.append(" ");
        push_relative_mark(out, expiry_second);
        out.append("\nPremium: $");
        push_amount(out, self.aggregate_premium() as i128);
        out.append("\nQuantity: ");
        push_natural(out, last.open.quantity as u128);
        out.append("\n");
    }

    /// The text that shows the position at the instant `now`.
    pub fn display(&self, now: &Timestamp) -> (r: String)
        requires
            self.wf(),
            now.wf(),
        ensures
            r@ == position_text(self@, *now),
    {
        let mut out = String::new();
        self.display_onto(&mut out, now);
        out
    }
}

/// The text that shows a position together with the status of its leg in force.
pub open spec fn status_page_text(chain: Seq<ContractView>, now: Timestamp) -> Seq<char> {
    position_text(chain, now) + "Status: `"@ + status_text(chain.last().open.status) + "`"@
}

/// The text that shows a position together with the status of its leg in force.
pub fn status_page(position: &Position, now: &Timestamp) -> (r: String)
    requires
        position.wf(),
        now.wf(),
    ensures
        r@ == status_page_text(position@, *now),
{
    let mut out = position.display(now);
    out.append("Status: `");
    out.append(position.get_status().label());
    out.append("`");
    out
}

/// The text that shows the contract at place `index` of `length` contracts.
pub open spec fn contract_page_text(index: usize, length: usize, contract: ContractView) -> Seq<char> {
    contract_text_onto(
        "Contract "@ + natural_text((index + 1) as nat) + "/"@ + natural_text(length as nat)
            + "\n"@,
        contract,
    )
}

/// The text that shows the contract at place `index` of `length` contracts.
pub fn contract_page(index: usize, length: usize, contract: &Contract) -> (r: String)
    requires
        contract.wf(),
    ensures
        r@ == contract_page_text(index, length, contract@),
{
    let mut out = String::new();
    out.append("Contract ");
    push_natural(&mut out, index as u128 + 1);
    out.append("/");
    push_natural(&mut out, length as u128);
    out.append("\n");
    assert(out@ =~= "Contract "@ + natural_text((index + 1) as nat) + "/"@ + natural_text(
        length as nat,
    ) + "\n"@);
    contract.display_onto(&mut out);
    out
}

/// A page with its number and the number of pages above it.
pub open spec fn label_text(index: u32, length: u32, page: Seq<char>) -> Seq<char> {
    "-# "@ + natural_text((index + 1) as nat) + "/"@ + natural_text(length as nat) + "\n"@ + page
}

/// Puts the number of a page and the number of pages above the page.
pub fn label_display(index: u32, length: u32, string: &String) -> (r: String)
    ensures
        r@ == label_text(index, length, string@),
{
    let mut out = String::new();
    out.append("-# ");
    push_natural(&mut out, index as u128 + 1);
    out.append("/");
    push_natural(&mut out, length as u128);
    out.append("\n");
    out.append(string.as_str());
    assert(out@ =~= label_text(index, length, string@));
    out
}

/// The name of a month of the calendar, or `Unknown` where there is no such month.
pub open spec fn month_or_unknown_text(year: i32, month: u32) -> Seq<char> {
    if crate::calendar::CHRONO_MIN_YEAR <= year <= crate::calendar::CHRONO_MAX_YEAR && 1 <= month
        <= 12 {
        month_name_text(month)
    } else {
        "Unknown"@
    }
}

/// The name of a month of the calendar, or `Unknown` where there is no such month.
fn month_or_unknown(year: i32, month: u32) -> (r: &'static str)
    ensures
        r@ == month_or_unknown_text(year, month),
{
    if chrono_accepts_ymd(year, month, 1) {
        month_name(month)
    } else {
        "Unknown"
    }
}

impl PositionMonth {
    /// The name under which the month of the fragment is gathered.
    pub fn id(&self) -> (r: String)
        ensures
            r@ == month_id_text(self.year, self.month),
    {
        let mut out = String::new();
        push_month_id(&mut out, self.year, self.month);
        assert(out@ =~= month_id_text(self.year, self.month));
        out
    }

    /// The English name of the month of the fragment.
    pub fn month_name(&self) -> (r: String)
        requires
            1 <= self.month <= 12,
        ensures
            r@ == month_name_text(self.month),
    {
        month_name(self.month).to_owned()
    }

    /// The text that shows the fragment at the instant `now`.
    pub fn display(&self, now: &Timestamp) -> (r: String)
        requires
            1 <= self.month <= 12,
            self.position.wf(),
            now.wf(),
        ensures
            r@ == fragment_text(*self, *now),
    {
        let mut out = String::new();
        out.append(month_name(self.month));
        out.append(" ");
        push_integer(&mut out, self.year as i128);
        out.append("\nPosition: [\n");
        assert(out@ =~= month_name_text(self.month) + " "@ + integer_text(self.year as int)
            + "\nPosition: [\n"@);
        self.position.display_onto(&mut out, now);
        out.append("]\nGain: ");
        push_amount(&mut out, self.gain as i128);
        out.append("\nInvestment: ");
        push_amount(&mut out, self.investment as i128);
        out
    }
}

/// The text that shows a fragment at the instant `now`.
pub open spec fn fragment_text(fragment: PositionMonth, now: Timestamp) -> Seq<char> {
    position_text_onto(
        month_name_text(fragment.month) + " "@ + integer_text(fragment.year as int)
            + "\nPosition: [\n"@,
        fragment.position@,
        now,
    ) + "]\nGain: "@ + amount_text(fragment.gain as int) + "\nInvestment: "@ + amount_text(
        fragment.investment as int,
    )
}

/// The line that shows the daily return of a month, written behind `prefix`.
pub open spec fn return_line_onto(prefix: Seq<char>, month: TradingMonth) -> Seq<char> {
    prefix + month_or_unknown_text(month.year, month.month) + " "@ + integer_text(
        month.year as int,
    ) + ": `"@ + percent_text(Ratio { numerator: month.gain, denominator: month.investment })
        + "%`"@
}

/// The line that shows the gain of a month, written behind `prefix`.
pub open spec fn gain_line_onto(prefix: Seq<char>, month: TradingMonth) -> Seq<char> {
    prefix + month_or_unknown_text(month.year, month.month) + " "@ + integer_text(
        month.year as int,
    ) + ": `$"@ + cents_text(month.gain as int) + "`"@
}

impl TradingMonth {
    /// The name under which the month is gathered.
    pub fn id(&self) -> (r: String)
        ensures
            r@ == month_id_text(self.year, self.month),
    {
        let mut out = String::new();
        push_month_id(&mut out, self.year, self.month);
        assert(out@ =~= month_id_text(self.year, self.month));
        out
    }

    /// The English name of the month.
    pub fn month_name(&self) -> (r: String)
        requires
            1 <= self.month <= 12,
        ensures
            r@ == month_name_text(self.month),
    {
        month_name(self.month).to_owned()
    }

    /// Writes the line that shows the daily return of the month behind `out`.
    pub fn push_daily_return_rate(&self, out: &mut String)
        requires
            self.wf(),
        ensures
            final(out)@ == return_line_onto(old(out)@, *self),
    {
        out.append(month_or_unknown(self.year, self.month));
        out.append(" ");
        push_integer(out, self.year as i128);
        out.append(": `");
        push_percent(out, &Ratio { numerator: self.gain, denominator: self.investment });
        out.append("%`");
    }

    /// Writes the line that shows the gain of the month behind `out`.
    pub fn push_distributed_gain(&self, out: &mut String)
        requires
            self.wf(),
        ensures
            final(out)@ == gain_line_onto(old(out)@, *self),
    {
        out.append(month_or_unknown(self.year, self.month));
        out.append(" ");
        push_integer(out, self.year as i128);
        out.append(": `$");
        push_cents(out, self.gain);
        out.append("`");
    }

    /// The line that shows the daily return of the month, in percent.
    pub fn display_daily_return_rate(&self) -> (r: String)
        requires
            self.wf(),
        ensures
            r@ == return_line_onto(Seq::empty(), *self),
    {
        let mut out = String::new();
        self.push_daily_return_rate(&mut out);
        out
    }

    /// The line that shows the gain of the month.
    pub fn display_distributed_gain(&self) -> (r: String)
        requires
            self.wf(),
        ensures
            r@ == gain_line_onto(Seq::empty(), *self),
    {
        let mut out = String::new();
        self.push_distributed_gain(&mut out);
        out
    }
}

/// The text that shows the gains over all positions.
pub open spec fn stats_text(stats: Stats) -> Seq<char> {
    "Total gain: `$"@ + amount_text(stats.realized as int) + "`\nCurrent unrealized gain: `$"@
        + amount_text(stats.unrealized as int) + "`"@
}

/// The text that shows the gains over all positions.
pub fn display_stats(stats: &Stats) -> (r: String)
    requires
        stats.realized > i128::MIN,
        stats.unrealized > i128::MIN,
    ensures
        r@ == stats_text(*stats),
{
    let mut out = String::new();
    out.append("Total gain: `$");
    push_amount(&mut out, stats.realized);
    out.append("`\nCurrent unrealized gain: `$");
    push_amount(&mut out, stats.unrealized);
    out.append("`");
    assert(out@ =~= stats_text(*stats));
    out
}

/// The lines that show the first `n` holdings, written behind `prefix`.
pub open spec fn holdings_onto(prefix: Seq<char>, holdings: Seq<Holding>, n: int) -> Seq<char>
    decreases n,
{
    if n <= 0 {
        prefix
    } else {
        holdings_onto(prefix, holdings, n - 1) + "`"@ + integer_text(
            holdings[n - 1].shares as int,
        ) + " "@ + holdings[n - 1].ticker@ + "`\n"@
    }
}

/// The text that shows the net shares held.
pub open spec fn assets_text(holdings: Seq<Holding>) -> Seq<char> {
    holdings_onto("Your current assets: \n"@, holdings, holdings.len() as int)
}

/// The text that shows the net shares held.
pub fn display_assets(holdings: &Vec<Holding>) -> (r: String)
    ensures
        r@ == assets_text(holdings@),
{
    let mut out = String::new();
    out.append("Your current assets: \n");
    assert(out@ =~= "Your current assets: \n"@);
    let n: usize = holdings.len();
    let mut k: usize = 0;
    while k < n
        invariant
            n == holdings.len(),
            k <= n,
            out@ == holdings_onto("Your current assets: \n"@, holdings@, k as int),
        decreases n - k,
    {
        out.append("`");
        push_integer(&mut out, holdings[k].shares as i128);
        out.append(" ");
        out.append(holdings[k].ticker.as_str());
        out.append("`\n");
        k += 1;
    }
    out
}

/// The block that shows one of the best positions, written behind `prefix`.
pub open spec fn best_block_onto(prefix: Seq<char>, entry: BestEntry) -> Seq<char> {
    prefix + "```\n"@ + date_text(entry.date) + " - "@ + entry.ticker@ + "\nGained $"@
        + cents_text(entry.gain as int) + " from investment of $"@ + amount_text(
        entry.investment as int,
    ) + " over "@ + integer_text(entry.days as int) + (if entry.days > 1 {
        " days"@
    } else {
        " day"@
    }) + "\nDaily Return: "@ + percent_text(entry.daily_return) + "%```"@
}

/// The blocks that show the first `n` of the best positions, written behind `prefix`.
pub open spec fn best_blocks_onto(prefix: Seq<char>, entries: Seq<BestEntry>, n: int) -> Seq<char>
    decreases n,
{
    if n <= 0 {
        prefix
    } else {
        best_block_onto(best_blocks_onto(prefix, entries, n - 1), entries[n - 1])
    }
}

/// The text that shows the best positions.
pub open spec fn best_text(entries: Seq<BestEntry>) -> Seq<char> {
    best_blocks_onto("Top 3 positions:\n"@, entries, entries.len() as int)
}

/// The text that shows the best positions.
pub fn display_best(entries: &Vec<BestEntry>) -> (r: String)
    requires
        forall|k: int| 0 <= k < entries.len() ==> (#[trigger] entries@[k]).wf(),
    ensures
        r@ == best_text(entries@),
{
    let mut out = String::new();
    out.append("Top 3 positions:\n");
    assert(out@ =~= "Top 3 positions:\n"@);
    let n: usize = entries.len();
    let mut k: usize = 0;
    while k < n
        invariant
            n == entries.len(),
            k <= n,
            forall|k: int| 0 <= k < entries.len() ==> (#[trigger] entries@[k]).wf(),
            out@ == best_blocks_onto("Top 3 positions:\n"@, entries@, k as int),
        decreases n - k,
    {
        let entry = &entries[k];
        assert(entry.wf());
        out.append("```\n");
        push_date(&mut out, &entry.date);
        out.append(" - ");
        out.append(entry.ticker.as_str());
        out.append("\nGained $");
        push_cents(&mut out, entry.gain as i128);
        out.append(" from investment of $");
        push_amount(&mut out, entry.investment as i128);
        out.append(" over ");
        push_integer(&mut out, entry.days as i128);
        out.append(
            if entry.days > 1 {
                " days"
            } else {
                " day"
            },
        );
        out.append("\nDaily Return: ");
        push_percent(&mut out, &entry.daily_return);
        out.append("%```");
        k += 1;
    }
    out
}

/// The lines that show the first `n` months of a ranking, written behind `prefix`:
/// their daily returns where `as_rates` holds, else their gains.
pub open spec fn month_lines_onto(
    prefix: Seq<char>,
    months: Seq<TradingMonth>,
    ranking: Seq<usize>,
    as_rates: bool,
    n: int,
) -> Seq<char>
    decreases n,
{
    if n <= 0 {
        prefix
    } else {
        let before = month_lines_onto(prefix, months, ranking, as_rates, n - 1);
        let month = months[ranking[n - 1] as int];
        (if as_rates {
            return_line_onto(before, month)
        } else {
            gain_line_onto(before, month)
        }) + "\n"@
    }
}

/// The page that lists the months of a ranking under a heading.
pub open spec fn month_page_text(
    heading: Seq<char>,
    months: Seq<TradingMonth>,
    ranking: Seq<usize>,
    as_rates: bool,
) -> Seq<char> {
    month_lines_onto(heading, months, ranking, as_rates, ranking.len() as int)
}

/// The page that lists the months of a ranking under a heading.
fn month_page(heading: &str, months: &Vec<TradingMonth>, ranking: &Vec<usize>, as_rates: bool) -> (r:
    String)
    requires
        forall|b: int| 0 <= b < months.len() ==> (#[trigger] months@[b]).wf(),
        crate::monthly::names_places(ranking@, months@.len()),
    ensures
        r@ == month_page_text(heading@, months@, ranking@, as_rates),
{
    let mut out = heading.to_owned();
    let n: usize = ranking.len();
    let mut k: usize = 0;
    while k < n
        invariant
            n == ranking.len(),
            k <= n,
            forall|b: int| 0 <= b < months.len() ==> (#[trigger] months@[b]).wf(),
            crate::monthly::names_places(ranking@, months@.len()),
            out@ == month_lines_onto(heading@, months@, ranking@, as_rates, k as int),
        decreases n - k,
    {
        let place: usize = ranking[k];
        let month = &months[place];
        if as_rates {
            month.push_daily_return_rate(&mut out);
        } else {
            month.push_distributed_gain(&mut out);
        }
        out.append("\n");
        k += 1;
    }
    out
}

/// The six pages of the report by month: daily returns by time and by rate, spread
/// gains by time and by gain, gains by the month of close by time and by gain.
pub open spec fn month_pages_text(report: MonthReport) -> Seq<Seq<char>> {
    seq![
        month_page_text(
            "**Daily Return Rate**\n-# Chronological Order\n\n"@,
            report.distributed@,
            report.chronological@,
            true,
        ),
        month_page_text(
            "**Daily Return Rate**\n-# by Daily Return Rate\n\n"@,
            report.distributed@,
            report.by_daily_return@,
            true,
        ),
        month_page_text(
            "**Distributed Gain**\n-# Chronological Order\n\n"@,
            report.distributed@,
            report.chronological@,
            false,
        ),
        month_page_text(
            "**Distributed Gain**\n-# by Distributed Gain\n\n"@,
            report.distributed@,
            report.by_gain@,
            false,
        ),
        month_page_text(
            "**Taxable Gain**\n-# Chronological Order\n\n"@,
            report.taxable@,
            report.taxable_chronological@,
            false,
        ),
        month_page_text(
            "**Taxable Gain**\n-# by Taxable Gain\n\n"@,
            report.taxable@,
            report.taxable_by_gain@,
            false,
        ),
    ]
}

/// The six pages of the report by month.
pub fn month_pages(report: &MonthReport) -> (pages: Vec<String>)
    requires
        report.wf(),
    ensures
        crate::translations::texts(pages@) == month_pages_text(*report),
{
    let mut pages: Vec<String> = Vec::new();
    pages.push(
        month_page(
            "**Daily Return Rate**\n-# Chronological Order\n\n",
            &report.distributed,
            &report.chronological,
            true,
        ),
    );
    pages.push(
        month_page(
            "**Daily Return Rate**\n-# by Daily Return Rate\n\n",
            &report.distributed,
            &report.by_daily_return,
            true,
        ),
    );
    pages.push(
        month_page(
            "**Distributed Gain**\n-# Chronological Order\n\n",
            &report.distributed,
            &report.chronological,
            false,
        ),
    );
    pages.push(
        month_page(
            "**Distributed Gain**\n-# by Distributed Gain\n\n",
            &report.distributed,
            &report.by_gain,
            false,
        ),
    );
    pages.push(
        month_page(
            "**Taxable Gain**\n-# Chronological Order\n\n",
            &report.taxable,
            &report.taxable_chronological,
            false,
        ),
    );
    pages.push(
        month_page(
            "**Taxable Gain**\n-# by Taxable Gain\n\n",
            &report.taxable,
            &report.taxable_by_gain,
            false,
        ),
    );
    assert(crate::translations::texts(pages@) =~= month_pages_text(*report));
    pages
}

/// The pages that show the contracts of a position, one page for each contract.
pub open spec fn contract_pages_text(chain: Seq<ContractView>) -> Seq<Seq<char>> {
    Seq::new(
        chain.len(),
        |i: int| contract_page_text(i as usize, chain.len() as usize, chain[i]),
    )
}

/// The pages that show the contracts of the position the cursor selects.
pub fn details(positions: &Vec<Position>, cursor: i32) -> (r: Result<
    Vec<String>,
    crate::lifecycle::CommandError,
>)
    ensures
        match crate::lifecycle::selection_error(crate::lifecycle::portfolio(positions@), cursor) {
            Some(e) => r == Err::<Vec<String>, crate::lifecycle::CommandError>(e),
            None => r matches Ok(pages) && crate::translations::texts(pages@)
                == contract_pages_text(crate::lifecycle::portfolio(positions@)[cursor as int]),
        },
{
    let index: usize = match crate::lifecycle::selected_index(positions, cursor) {
        Ok(index) => index,
        Err(e) => {
            return Err(e);
        },
    };
    let position = &positions[index];
    let ghost chain = position@;
    assert(chain == crate::lifecycle::portfolio(positions@)[cursor as int]);
    let n: usize = position.contracts.len();
    let mut pages: Vec<String> = Vec::new();
    let mut i: usize = 0;
    while i < n
        invariant
            n == position.contracts.len(),
            chain == position@,
            chain_wf(chain),
            i <= n,
            pages.len() == i,
            forall|k: int|
                0 <= k < i ==> (#[trigger] pages@[k])@ == contract_page_text(
                    k as usize,
                    n,
                    chain[k],
                ),
        decreases n - i,
    {
        assert(chain[i as int].wf());
        pages.push(contract_page(i, n, &position.contracts[i]));
        i += 1;
    }
    assert(crate::translations::texts(pages@) =~= contract_pages_text(chain));
    Ok(pages)
}

} // verus!
