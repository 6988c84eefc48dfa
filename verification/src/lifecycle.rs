//! The operations that open a position and move it through its life: close, roll,
//! assign, expire, split, edit and re-date.
//!
//! Every operation works on the whole list of a user's positions and names the
//! position it means by a cursor. It either fails and leaves the list as it was, or
//! succeeds and hands back the cleared cursor.

use crate::calendar::{Date, Timestamp};
use crate::model::{
    chain_gain, chain_wf, CloseKind, Contract, ContractView, LegStatus, OptionClose, OptionKind,
    OptionOpen, OptionOpenView, Position, MAX_CONTRACTS, MAX_TICKER_CHARS,
};
use crate::money::MAX_PRICE;
use vstd::prelude::*;

verus! {

/// The cursor value that selects no position.
pub const NO_SELECTION: i32 = -1;

/// Policy: an assignment is reported in shares, a hundred for each contract, not in
/// contracts.
pub const ASSIGN_REPORTS_SHARES: bool = true;

/// The number an assignment reports for a leg of `quantity` contracts.
pub open spec fn assigned_amount(quantity: u16) -> int {
    if ASSIGN_REPORTS_SHARES {
        quantity * 100
    } else {
        quantity as int
    }
}

/// Second of the day given to an opening instant whose date was corrected by hand.
pub const REDATED_SECOND_OF_DAY: u32 = 61_200;

/// Why an operation was refused.
#[derive(Clone, Copy, Debug, PartialEq, Eq, Structural)]
pub enum CommandError {
    /// The cursor selects nothing.
    NoSelection,
    /// The cursor points outside the list.
    InvalidSelection,
    /// The selected position breaks the rules of a chain of contracts.
    CorruptPosition,
    InvalidOptionType,
    InvalidTicker,
    InvalidStrike,
    InvalidPremium,
    InvalidQuantity,
    InvalidDate,
    /// The quantity to split off is not between zero and the position's quantity.
    InvalidSplitQuantity,
    /// The position already chains as many contracts as the ledger allows.
    RollLimitReached,
}

/// What closing a position reports back.
#[derive(Clone, Copy, Debug, PartialEq, Eq, Structural)]
pub struct CloseOutcome {
    /// Gain of the closed position, in ticks.
    pub gain: i64,
    pub cursor: i32,
}

/// What assigning a position reports back.
#[derive(Debug, PartialEq, Eq)]
pub struct AssignOutcome {
    /// What was delivered on the leg in force, in shares or in contracts as the policy
    /// of the ledger has it.
    pub shares: u32,
    pub ticker: String,
    pub cursor: i32,
}

/// What splitting a position reports back.
#[derive(Clone, Copy, Debug, PartialEq, Eq, Structural)]
pub struct SplitOutcome {
    /// Quantity left in the position that was split.
    pub remaining: u16,
    /// Quantity of the position split off.
    pub split: u16,
    pub cursor: i32,
}

/// The chains of a list of positions, in order.
pub open spec fn portfolio(positions: Seq<Position>) -> Seq<Seq<ContractView>> {
    Seq::new(positions.len(), |i: int| positions[i]@)
}

/// Why the cursor does not select a usable position, if it does not.
pub open spec fn selection_error(chains: Seq<Seq<ContractView>>, cursor: i32) -> Option<
    CommandError,
> {
    if cursor == NO_SELECTION {
        Some(CommandError::NoSelection)
    } else if cursor < 0 || cursor >= chains.len() {
        Some(CommandError::InvalidSelection)
    } else if !chain_wf(chains[cursor as int]) {
        Some(CommandError::CorruptPosition)
    } else {
        None
    }
}

pub open spec fn price_in_range(price: i64) -> bool {
    0 <= price <= MAX_PRICE
}

pub open spec fn strike_in_range(strike: i64) -> bool {
    0 < strike <= MAX_PRICE
}

pub open spec fn ticker_in_range(ticker: Seq<char>) -> bool {
    1 <= ticker.len() <= MAX_TICKER_CHARS
}

/// The chain with its last contract replaced.
pub open spec fn with_last(chain: Seq<ContractView>, contract: ContractView) -> Seq<ContractView> {
    chain.update(chain.len() - 1, contract)
}

pub open spec fn with_status(contract: ContractView, status: LegStatus) -> ContractView {
    ContractView { open: OptionOpenView { status, ..contract.open }, close: contract.close }
}

pub open spec fn with_quantity(contract: ContractView, quantity: u16) -> ContractView {
    ContractView { open: OptionOpenView { quantity, ..contract.open }, close: contract.close }
}

/// The single contract of a newly opened position.
pub open spec fn opened_contract(
    kind: OptionKind,
    ticker: Seq<char>,
    strike: i64,
    expiry: Date,
    premium: i64,
    quantity: u16,
    now: Timestamp,
) -> ContractView {
    ContractView {
        open: OptionOpenView {
            date: now,
            open_type: kind,
            ticker,
            strike,
            expiry,
            premium,
            quantity,
            status: LegStatus::Open,
        },
        close: None,
    }
}

/// Why a position cannot be opened with these values, if it cannot.
pub open spec fn open_error(
    ticker: Seq<char>,
    strike: i64,
    expiry: Date,
    premium: i64,
    quantity: u16,
    now: Timestamp,
) -> Option<CommandError> {
    if !ticker_in_range(ticker) {
        Some(CommandError::InvalidTicker)
    } else if !strike_in_range(strike) {
        Some(CommandError::InvalidStrike)
    } else if !expiry.wf() || !now.wf() {
        Some(CommandError::InvalidDate)
    } else if !(0 < premium <= MAX_PRICE) {
        Some(CommandError::InvalidPremium)
    } else if quantity == 0 {
        Some(CommandError::InvalidQuantity)
    } else {
        None
    }
}

/// The contract bought back at `premium` at the instant `now`.
pub open spec fn closed_contract(contract: ContractView, premium: i64, now: Timestamp) -> ContractView {
    ContractView {
        open: OptionOpenView { status: LegStatus::Closed, ..contract.open },
        close: Some(OptionClose { date: now, close_type: CloseKind::BoughtToClose, premium }),
    }
}

pub open spec fn chain_after_close(chain: Seq<ContractView>, premium: i64, now: Timestamp) -> Seq<
    ContractView,
> {
    with_last(chain, closed_contract(chain.last(), premium, now))
}

pub open spec fn close_error(
    chains: Seq<Seq<ContractView>>,
    cursor: i32,
    premium: i64,
    now: Timestamp,
) -> Option<CommandError> {
    if selection_error(chains, cursor) is Some {
        selection_error(chains, cursor)
    } else if !price_in_range(premium) {
        Some(CommandError::InvalidPremium)
    } else if !now.wf() {
        Some(CommandError::InvalidDate)
    } else {
        None
    }
}

/// The contract given up in a roll, closed at the premium the roll cost.
pub open spec fn rolled_contract(contract: ContractView, premium_loss: i64, now: Timestamp) -> ContractView {
    ContractView {
        open: OptionOpenView { status: LegStatus::Rolled, ..contract.open },
        close: Some(OptionClose { date: now, close_type: CloseKind::Rolled, premium: premium_loss }),
    }
}

/// The contract a roll puts in force: kind, ticker and quantity carried over, the
/// strike kept unless a new one is given.
pub open spec fn successor_contract(
    contract: ContractView,
    expiry: Date,
    premium_gain: i64,
    strike: Option<i64>,
    now: Timestamp,
) -> ContractView {
    ContractView {
        open: OptionOpenView {
            date: now,
            open_type: contract.open.open_type,
            ticker: contract.open.ticker,
            strike: match strike {
                Some(s) => s,
                None => contract.open.strike,
            },
            expiry,
            premium: premium_gain,
            quantity: contract.open.quantity,
            status: LegStatus::Open,
        },
        close: None,
    }
}

pub open spec fn chain_after_roll(
    chain: Seq<ContractView>,
    expiry: Date,
    premium_loss: i64,
    premium_gain: i64,
    strike: Option<i64>,
    now: Timestamp,
) -> Seq<ContractView> {
    with_last(chain, rolled_contract(chain.last(), premium_loss, now)).push(
        successor_contract(chain.last(), expiry, premium_gain, strike, now),
    )
}

pub open spec fn roll_error(
    chains: Seq<Seq<ContractView>>,
    cursor: i32,
    expiry: Date,
    premium_loss: i64,
    premium_gain: i64,
    strike: Option<i64>,
    now: Timestamp,
) -> Option<CommandError> {
    if selection_error(chains, cursor) is Some {
        selection_error(chains, cursor)
    } else if chains[cursor as int].len() >= MAX_CONTRACTS {
        Some(CommandError::RollLimitReached)
    } else if !expiry.wf() || !now.wf() {
        Some(CommandError::InvalidDate)
    } else if !price_in_range(premium_loss) || !price_in_range(premium_gain) {
        Some(CommandError::InvalidPremium)
    } else if strike matches Some(s) && !strike_in_range(s) {
        Some(CommandError::InvalidStrike)
    } else {
        None
    }
}

pub open spec fn chain_with_status(chain: Seq<ContractView>, status: LegStatus) -> Seq<ContractView> {
    with_last(chain, with_status(chain.last(), status))
}

/// What is left of a quantity after `taken` contracts leave it, never below zero.
pub open spec fn quantity_less(quantity: u16, taken: u16) -> u16 {
    if quantity >= taken {
        (quantity - taken) as u16
    } else {
        0
    }
}

/// The chain that stays behind when `taken` contracts are split off: every contract's
/// quantity is lowered by `taken`.
pub open spec fn chain_remainder(chain: Seq<ContractView>, taken: u16) -> Seq<ContractView> {
    Seq::new(
        chain.len(),
        |i: int| with_quantity(chain[i], quantity_less(chain[i].open.quantity, taken)),
    )
}

/// The chain split off: a copy in which every contract has the quantity `taken`.
pub open spec fn chain_split_off(chain: Seq<ContractView>, taken: u16) -> Seq<ContractView> {
    Seq::new(chain.len(), |i: int| with_quantity(chain[i], taken))
}

pub open spec fn split_error(chains: Seq<Seq<ContractView>>, cursor: i32, taken: u16) -> Option<
    CommandError,
> {
    if selection_error(chains, cursor) is Some {
        selection_error(chains, cursor)
    } else if !(0 < taken < chains[cursor as int].last().open.quantity) {
        Some(CommandError::InvalidSplitQuantity)
    } else {
        None
    }
}

/// The corrections an edit may carry; a field left `None` is not touched.
pub struct EditFields<'a> {
    pub ticker: Option<&'a str>,
    pub strike: Option<i64>,
    pub expiry: Option<Date>,
    pub premium: Option<i64>,
    pub quantity: Option<u16>,
}

pub struct EditFieldsView {
    pub ticker: Option<Seq<char>>,
    pub strike: Option<i64>,
    pub expiry: Option<Date>,
    pub premium: Option<i64>,
    pub quantity: Option<u16>,
}

impl<'a> View for EditFields<'a> {
    type V = EditFieldsView;

    open spec fn view(&self) -> EditFieldsView {
        EditFieldsView {
            ticker: match self.ticker {
                Some(t) => Some(t@),
                None => None,
            },
            strike: self.strike,
            expiry: self.expiry,
            premium: self.premium,
            quantity: self.quantity,
        }
    }
}

pub open spec fn edited_contract(contract: ContractView, fields: EditFieldsView) -> ContractView {
    ContractView {
        open: OptionOpenView {
            date: contract.open.date,
            open_type: contract.open.open_type,
            ticker: match fields.ticker {
                Some(t) => t,
                None => contract.open.ticker,
            },
            strike: match fields.strike {
                Some(s) => s,
                None => contract.open.strike,
            },
            expiry: match fields.expiry {
                Some(e) => e,
                None => contract.open.expiry,
            },
            premium: match fields.premium {
                Some(p) => p,
                None => contract.open.premium,
            },
            quantity: match fields.quantity {
                Some(q) => q,
                None => contract.open.quantity,
            },
            status: contract.open.status,
        },
        close: contract.close,
    }
}

pub open spec fn chain_after_edit(chain: Seq<ContractView>, fields: EditFieldsView) -> Seq<
    ContractView,
> {
    with_last(chain, edited_contract(chain.last(), fields))
}

pub open spec fn edit_error(
    chains: Seq<Seq<ContractView>>,
    cursor: i32,
    fields: EditFieldsView,
) -> Option<CommandError> {
    if selection_error(chains, cursor) is Some {
        selection_error(chains, cursor)
    } else if fields.ticker matches Some(t) && !ticker_in_range(t) {
        Some(CommandError::InvalidTicker)
    } else if fields.strike matches Some(s) && !strike_in_range(s) {
        Some(CommandError::InvalidStrike)
    } else if fields.expiry matches Some(e) && !e.wf() {
        Some(CommandError::InvalidDate)
    } else if fields.premium matches Some(p) && !price_in_range(p) {
        Some(CommandError::InvalidPremium)
    } else if fields.quantity == Some(0u16) {
        Some(CommandError::InvalidQuantity)
    } else {
        None
    }
}

/// The year, month and day that result when the given parts overwrite those of `current`.
pub open spec fn composed_fields(
    current: Date,
    year: Option<i32>,
    month: Option<u32>,
    day: Option<u32>,
) -> (i32, u32, u32) {
    (
        match year {
            Some(y) => y,
            None => current.year,
        },
        match month {
            Some(m) => m,
            None => current.month,
        },
        match day {
            Some(d) => d,
            None => current.day,
        },
    )
}

pub open spec fn redated_contract(contract: ContractView, date: Date) -> ContractView {
    ContractView {
        open: OptionOpenView {
            date: Timestamp { date, second_of_day: REDATED_SECOND_OF_DAY },
            ..contract.open
        },
        close: contract.close,
    }
}

/// The chain after its final leg's opening date was corrected; unchanged where no part
/// of the date is given.
pub open spec fn chain_after_date(
    chain: Seq<ContractView>,
    year: Option<i32>,
    month: Option<u32>,
    day: Option<u32>,
) -> Seq<ContractView> {
    if year is None && month is None && day is None {
        chain
    } else {
        let f = composed_fields(chain.last().open.date.date, year, month, day);
        with_last(
            chain,
            redated_contract(chain.last(), Date { year: f.0, month: f.1, day: f.2 }),
        )
    }
}

pub open spec fn date_error(
    chains: Seq<Seq<ContractView>>,
    cursor: i32,
    year: Option<i32>,
    month: Option<u32>,
    day: Option<u32>,
) -> Option<CommandError> {
    if selection_error(chains, cursor) is Some {
        selection_error(chains, cursor)
    } else if year is None && month is None && day is None {
        None
    } else {
        let f = composed_fields(chains[cursor as int].last().open.date.date, year, month, day);
        if (Date { year: f.0, month: f.1, day: f.2 }).wf() {
            None
        } else {
            Some(CommandError::InvalidDate)
        }
    }
}

/// Replacing the last contract of a well-formed chain by one in range that keeps a
/// positive quantity leaves the chain well formed.
pub proof fn lemma_with_last_wf(chain: Seq<ContractView>, contract: ContractView)
    requires
        chain_wf(chain),
        contract.wf(),
        contract.open.quantity > 0,
    ensures
        chain_wf(with_last(chain, contract)),
{
    let next = with_last(chain, contract);
    assert forall|i: int| 0 <= i < next.len() implies (#[trigger] next[i]).wf() by {
        if i < chain.len() - 1 {
            assert(next[i] == chain[i]);
        }
    }
    assert forall|i: int| 0 <= i < next.len() - 1 implies (#[trigger] next[i]).is_rolled_forward() by {
        assert(next[i] == chain[i]);
    }
}

/// Finds the position the cursor selects.
pub fn selected_index(positions: &Vec<Position>, cursor: i32) -> (r: Result<usize, CommandError>)
    ensures
        match selection_error(portfolio(positions@), cursor) {
            Some(e) => r == Err::<usize, CommandError>(e),
            None => r == Ok::<usize, CommandError>(cursor as usize),
        },
{
    if cursor == NO_SELECTION {
        return Err(CommandError::NoSelection);
    }
    if cursor < 0 || cursor as usize >= positions.len() {
        return Err(CommandError::InvalidSelection);
    }
    let index: usize = cursor as usize;
    assert(portfolio(positions@)[index as int] == positions@[index as int]@);
    if !positions[index].is_well_formed() {
        return Err(CommandError::CorruptPosition);
    }
    Ok(index)
}

/// Sets the cursor on the position at `index`.
pub fn select_button(positions: &Vec<Position>, index: usize) -> (r: Result<i32, CommandError>)
    ensures
        index < positions.len() && index <= i32::MAX ==> r == Ok::<i32, CommandError>(index as i32),
        !(index < positions.len() && index <= i32::MAX) ==> r == Err::<i32, CommandError>(
            CommandError::InvalidSelection,
        ),
{
    if index < positions.len() && index <= i32::MAX as usize {
        Ok(index as i32)
    } else {
        Err(CommandError::InvalidSelection)
    }
}

/// Puts `position` in the place of the one at `index`.
pub fn position_list_replace(positions: &mut Vec<Position>, index: usize, position: Position)
    requires
        index < old(positions).len(),
    ensures
        final(positions)@ == old(positions)@.update(index as int, position),
{
    positions[index] = position;
}

/// Opens a position of one contract and appends it to the list.
pub fn open_position(
    positions: &mut Vec<Position>,
    kind: OptionKind,
    ticker: &str,
    strike: i64,
    expiry: Date,
    premium: i64,
    quantity: u16,
    now: Timestamp,
) -> (r: Result<(), CommandError>)
    ensures
        match open_error(ticker@, strike, expiry, premium, quantity, now) {
            Some(e) => r == Err::<(), CommandError>(e) && final(positions)@ == old(positions)@,
            None => {
                &&& r is Ok
                &&& portfolio(final(positions)@) == portfolio(old(positions)@).push(
                    seq![opened_contract(kind, ticker@, strike, expiry, premium, quantity, now)],
                )
                &&& chain_wf(portfolio(final(positions)@).last())
                &&& final(positions)@.len() == old(positions)@.len() + 1
                &&& final(positions)@.last()@ == seq![
                    opened_contract(kind, ticker@, strike, expiry, premium, quantity, now),
                ]
            },
        },
{
    let chars: usize = ticker.unicode_len();
    if chars < 1 || chars > MAX_TICKER_CHARS {
        return Err(CommandError::InvalidTicker);
    }
    if strike <= 0 || strike > MAX_PRICE {
        return Err(CommandError::InvalidStrike);
    }
    if !expiry.is_valid() || !now.is_valid() {
        return Err(CommandError::InvalidDate);
    }
    if premium <= 0 || premium > MAX_PRICE {
        return Err(CommandError::InvalidPremium);
    }
    if quantity == 0 {
        return Err(CommandError::InvalidQuantity);
    }
    let contract = Contract {
        open: OptionOpen {
            date: now,
            open_type: kind,
            ticker: ticker.to_owned(),
            strike,
            expiry,
            premium,
            quantity,
            status: LegStatus::Open,
        },
        close: None,
    };
    let mut contracts: Vec<Contract> = Vec::new();
    contracts.push(contract);
    let position = Position { contracts };
    proof {
        let c = opened_contract(kind, ticker@, strike, expiry, premium, quantity, now);
        assert(position@ =~= seq![c]);
        assert(position@[0].wf());
    }
    positions.push(position);
    proof {
        assert(portfolio(positions@) =~= portfolio(old(positions)@).push(position@));
    }
    Ok(())
}

/// Buys the selected position back at `premium` per share.
pub fn close_position(positions: &mut Vec<Position>, cursor: i32, premium: i64, now: Timestamp) -> (r:
    Result<CloseOutcome, CommandError>)
    ensures
        match close_error(portfolio(old(positions)@), cursor, premium, now) {
            Some(e) => r == Err::<CloseOutcome, CommandError>(e) && final(positions)@ == old(
                positions,
            )@,
            None => {
                let chain = chain_after_close(portfolio(old(positions)@)[cursor as int], premium, now);
                &&& r matches Ok(outcome) && outcome.cursor == NO_SELECTION && outcome.gain
                    == chain_gain(chain)
                &&& portfolio(final(positions)@) == portfolio(old(positions)@).update(
                    cursor as int,
                    chain,
                )
                &&& chain_wf(chain)
                &&& final(positions)@.len() == old(positions)@.len()
                &&& final(positions)@[cursor as int]@ == chain
            },
        },
{
    let index: usize = match selected_index(positions, cursor) {
        Ok(index) => index,
        Err(e) => {
            return Err(e);
        },
    };
    if premium < 0 || premium > MAX_PRICE {
        return Err(CommandError::InvalidPremium);
    }
    if !now.is_valid() {
        return Err(CommandError::InvalidDate);
    }
    let ghost before = positions@[index as int]@;
    let last: usize = positions[index].contracts.len() - 1;
    positions[index].contracts[last].close = Some(
        OptionClose { date: now, close_type: CloseKind::BoughtToClose, premium },
    );
    positions[index].contracts[last].open.status = LegStatus::Closed;
    proof {
        let chain = chain_after_close(before, premium, now);
        assert(positions@[index as int]@ =~= chain);
        assert(portfolio(positions@) =~= portfolio(old(positions)@).update(cursor as int, chain));
        assert(before.last() == before[last as int]);
        lemma_with_last_wf(before, closed_contract(before.last(), premium, now));
    }
    let gain: i64 = positions[index].gain();
    Ok(CloseOutcome { gain, cursor: NO_SELECTION })
}

/// Rolls the selected position: closes the leg in force at `premium_loss` and puts a
/// successor in force that expires at `expiry` and brought in `premium_gain`.
pub fn roll_position(
    positions: &mut Vec<Position>,
    cursor: i32,
    expiry: Date,
    premium_loss: i64,
    premium_gain: i64,
    strike: Option<i64>,
    now: Timestamp,
) -> (r: Result<i32, CommandError>)
    ensures
        match roll_error(
            portfolio(old(positions)@),
            cursor,
            expiry,
            premium_loss,
            premium_gain,
            strike,
            now,
        ) {
            Some(e) => r == Err::<i32, CommandError>(e) && final(positions)@ == old(positions)@,
            None => {
                let chain = chain_after_roll(
                    portfolio(old(positions)@)[cursor as int],
                    expiry,
                    premium_loss,
                    premium_gain,
                    strike,
                    now,
                );
                &&& r == Ok::<i32, CommandError>(NO_SELECTION)
                &&& portfolio(final(positions)@) == portfolio(old(positions)@).update(
                    cursor as int,
                    chain,
                )
                &&& chain_wf(chain)
                &&& final(positions)@.len() == old(positions)@.len()
                &&& final(positions)@[cursor as int]@ == chain
            },
        },
{
    let index: usize = match selected_index(positions, cursor) {
        Ok(index) => index,
        Err(e) => {
            return Err(e);
        },
    };
    if positions[index].contracts.len() >= MAX_CONTRACTS {
        return Err(CommandError::RollLimitReached);
    }
    if !expiry.is_valid() || !now.is_valid() {
        return Err(CommandError::InvalidDate);
    }
    if premium_loss < 0 || premium_loss > MAX_PRICE || premium_gain < 0 || premium_gain
        > MAX_PRICE {
        return Err(CommandError::InvalidPremium);
    }
    let new_strike: i64 = match strike {
        Some(s) => {
            if s <= 0 || s > MAX_PRICE {
                return Err(CommandError::InvalidStrike);
            }
            s
        },
        None => positions[index].contracts[positions[index].contracts.len() - 1].open.strike,
    };
    let ghost before = positions@[index as int]@;
    let last: usize = positions[index].contracts.len() - 1;
    assert(before.last() == before[last as int]);
    assert(before[last as int].wf());
    let successor = Contract {
        open: OptionOpen {
            date: now,
            open_type: positions[index].contracts[last].open.open_type,
            ticker: positions[index].contracts[last].open.ticker.clone(),
            strike: new_strike,
            expiry,
            premium: premium_gain,
            quantity: positions[index].contracts[last].open.quantity,
            status: LegStatus::Open,
        },
        close: None,
    };
    positions[index].contracts[last].open.status = LegStatus::Rolled;
    positions[index].contracts[last].close = Some(
        OptionClose { date: now, close_type: CloseKind::Rolled, premium: premium_loss },
    );
    positions[index].contracts.push(successor);
    proof {
        let chain = chain_after_roll(before, expiry, premium_loss, premium_gain, strike, now);
        assert(positions@[index as int]@ =~= chain);
        assert(portfolio(positions@) =~= portfolio(old(positions)@).update(cursor as int, chain));
        assert forall|i: int| 0 <= i < chain.len() implies (#[trigger] chain[i]).wf() by {
            if i < last {
                assert(chain[i] == before[i]);
            }
        }
        assert forall|i: int| 0 <= i < chain.len() - 1 implies (#[trigger] chain[i]).is_rolled_forward() by {
            if i < last {
                assert(chain[i] == before[i]);
            }
        }
    }
    Ok(NO_SELECTION)
}

/// Gives the final leg of the selected position the status `status`.
fn mark(positions: &mut Vec<Position>, cursor: i32, status: LegStatus) -> (r: Result<
    usize,
    CommandError,
>)
    ensures
        match selection_error(portfolio(old(positions)@), cursor) {
            Some(e) => r == Err::<usize, CommandError>(e) && final(positions)@ == old(positions)@,
            None => {
                let chain = chain_with_status(portfolio(old(positions)@)[cursor as int], status);
                &&& r == Ok::<usize, CommandError>(cursor as usize)
                &&& final(positions)@.len() == old(positions)@.len()
                &&& final(positions)@[cursor as int]@ == chain
                &&& portfolio(final(positions)@) == portfolio(old(positions)@).update(
                    cursor as int,
                    chain,
                )
                &&& chain_wf(chain)
                &&& final(positions)@.len() == old(positions)@.len()
                &&& final(positions)@[cursor as int]@ == chain
            },
        },
{
    let index: usize = match selected_index(positions, cursor) {
        Ok(index) => index,
        Err(e) => {
            return Err(e);
        },
    };
    let ghost before = positions@[index as int]@;
    let last: usize = positions[index].contracts.len() - 1;
    positions[index].contracts[last].open.status = status;
    proof {
        let chain = chain_with_status(before, status);
        assert(positions@[index as int]@ =~= chain);
        assert(portfolio(positions@) =~= portfolio(old(positions)@).update(cursor as int, chain));
        assert(before.last() == before[last as int]);
        lemma_with_last_wf(before, with_status(before.last(), status));
    }
    Ok(index)
}

/// Records that the selected position was assigned, and reports the shares delivered.
pub fn assign(positions: &mut Vec<Position>, cursor: i32) -> (r: Result<
    AssignOutcome,
    CommandError,
>)
    ensures
        match selection_error(portfolio(old(positions)@), cursor) {
            Some(e) => r == Err::<AssignOutcome, CommandError>(e) && final(positions)@ == old(
                positions,
            )@,
            None => {
                let before = portfolio(old(positions)@)[cursor as int];
                let chain = chain_with_status(before, LegStatus::Assigned);
                &&& r matches Ok(outcome) && outcome.cursor == NO_SELECTION && outcome.shares
                    == assigned_amount(before.last().open.quantity) && outcome.ticker@
                    == before.last().open.ticker
                &&& portfolio(final(positions)@) == portfolio(old(positions)@).update(
                    cursor as int,
                    chain,
                )
                &&& chain_wf(chain)
                &&& final(positions)@.len() == old(positions)@.len()
                &&& final(positions)@[cursor as int]@ == chain
            },
        },
{
    let index: usize = match mark(positions, cursor, LegStatus::Assigned) {
        Ok(index) => index,
        Err(e) => {
            return Err(e);
        },
    };
    let last = positions[index].final_contract();
    let shares: u32 = if ASSIGN_REPORTS_SHARES {
        last.open.quantity as u32 * 100
    } else {
        last.open.quantity as u32
    };
    let ticker = last.open.ticker.clone();
    Ok(AssignOutcome { shares, ticker, cursor: NO_SELECTION })
}

/// Records that the selected position expired.
pub fn expire(positions: &mut Vec<Position>, cursor: i32) -> (r: Result<i32, CommandError>)
    ensures
        match selection_error(portfolio(old(positions)@), cursor) {
            Some(e) => r == Err::<i32, CommandError>(e) && final(positions)@ == old(positions)@,
            None => {
                let chain = chain_with_status(
                    portfolio(old(positions)@)[cursor as int],
                    LegStatus::Expired,
                );
                &&& r == Ok::<i32, CommandError>(NO_SELECTION)
                &&& portfolio(final(positions)@) == portfolio(old(positions)@).update(
                    cursor as int,
                    chain,
                )
                &&& chain_wf(chain)
                &&& final(positions)@.len() == old(positions)@.len()
                &&& final(positions)@[cursor as int]@ == chain
            },
        },
{
    match mark(positions, cursor, LegStatus::Expired) {
        Ok(_) => Ok(NO_SELECTION),
        Err(e) => Err(e),
    }
}

/// Splits `taken` contracts off the selected position into a position of their own,
/// appended to the list.
pub fn split_position(positions: &mut Vec<Position>, cursor: i32, taken: u16) -> (r: Result<
    SplitOutcome,
    CommandError,
>)
    ensures
        match split_error(portfolio(old(positions)@), cursor, taken) {
            Some(e) => r == Err::<SplitOutcome, CommandError>(e) && final(positions)@ == old(
                positions,
            )@,
            None => {
                let before = portfolio(old(positions)@)[cursor as int];
                &&& r matches Ok(outcome) && outcome.cursor == NO_SELECTION && outcome.split
                    == taken && outcome.remaining == before.last().open.quantity - taken
                &&& portfolio(final(positions)@) == portfolio(old(positions)@).update(
                    cursor as int,
                    chain_remainder(before, taken),
                ).push(chain_split_off(before, taken))
                &&& chain_wf(chain_remainder(before, taken))
                &&& chain_wf(chain_split_off(before, taken))
                &&& final(positions)@.len() == old(positions)@.len() + 1
                &&& final(positions)@[cursor as int]@ == chain_remainder(before, taken)
                &&& final(positions)@.last()@ == chain_split_off(before, taken)
            },
        },
{
    let index: usize = match selected_index(positions, cursor) {
        Ok(index) => index,
        Err(e) => {
            return Err(e);
        },
    };
    let n: usize = positions[index].contracts.len();
    let whole: u16 = positions[index].contracts[n - 1].open.quantity;
    if taken == 0 || taken >= whole {
        return Err(CommandError::InvalidSplitQuantity);
    }
    let ghost before = positions@[index as int]@;
    let mut kept: Vec<Contract> = Vec::new();
    let mut taken_off: Vec<Contract> = Vec::new();
    let mut i: usize = 0;
    while i < n
        invariant
            index < positions.len(),
            positions@ == old(positions)@,
            before == positions@[index as int]@,
            n == positions@[index as int].contracts@.len(),
            i <= n,
            kept.len() == i,
            taken_off.len() == i,
            forall|j: int| 0 <= j < i ==> (#[trigger] kept@[j])@ == chain_remainder(before, taken)[j],
            forall|j: int|
                0 <= j < i ==> (#[trigger] taken_off@[j])@ == chain_split_off(before, taken)[j],
        decreases n - i,
    {
        let contract = &positions[index].contracts[i];
        assert(contract@ == before[i as int]);
        let quantity: u16 = contract.open.quantity;
        let mut stays = contract.clone();
        stays.open.quantity = if quantity >= taken {
            quantity - taken
        } else {
            0
        };
        let mut leaves = contract.clone();
        leaves.open.quantity = taken;
        kept.push(stays);
        taken_off.push(leaves);
        i += 1;
    }
    let remainder = Position { contracts: kept };
    let duplicate = Position { contracts: taken_off };
    proof {
        let rest = chain_remainder(before, taken);
        let split_off = chain_split_off(before, taken);
        assert(remainder@ =~= rest);
        assert(duplicate@ =~= split_off);
        assert(before.last() == before[n - 1]);
        assert forall|j: int| 0 <= j < n implies (#[trigger] rest[j]).wf() by {
            assert(before[j].wf());
        }
        assert forall|j: int| 0 <= j < n implies (#[trigger] split_off[j]).wf() by {
            assert(before[j].wf());
        }
        assert forall|j: int| 0 <= j < n - 1 implies (#[trigger] rest[j]).is_rolled_forward() by {
            assert(before[j].is_rolled_forward());
        }
        assert forall|j: int| 0 <= j < n - 1 implies (#[trigger] split_off[j]).is_rolled_forward() by {
            assert(before[j].is_rolled_forward());
        }
    }
    positions[index] = remainder;
    positions.push(duplicate);
    proof {
        assert(portfolio(positions@) =~= portfolio(old(positions)@).update(
            cursor as int,
            chain_remainder(before, taken),
        ).push(chain_split_off(before, taken)));
    }
    Ok(SplitOutcome { remaining: whole - taken, split: taken, cursor: NO_SELECTION })
}

/// Corrects fields of the final leg of the selected position.
pub fn edit_position(positions: &mut Vec<Position>, cursor: i32, fields: &EditFields) -> (r: Result<
    i32,
    CommandError,
>)
    ensures
        match edit_error(portfolio(old(positions)@), cursor, fields@) {
            Some(e) => r == Err::<i32, CommandError>(e) && final(positions)@ == old(positions)@,
            None => {
                let chain = chain_after_edit(portfolio(old(positions)@)[cursor as int], fields@);
                &&& r == Ok::<i32, CommandError>(NO_SELECTION)
                &&& portfolio(final(positions)@) == portfolio(old(positions)@).update(
                    cursor as int,
                    chain,
                )
                &&& chain_wf(chain)
                &&& final(positions)@.len() == old(positions)@.len()
                &&& final(positions)@[cursor as int]@ == chain
            },
        },
{
    let index: usize = match selected_index(positions, cursor) {
        Ok(index) => index,
        Err(e) => {
            return Err(e);
        },
    };
    if let Some(t) = fields.ticker {
        let chars: usize = t.unicode_len();
        if chars < 1 || chars > MAX_TICKER_CHARS {
            return Err(CommandError::InvalidTicker);
        }
    }
    if let Some(s) = fields.strike {
        if s <= 0 || s > MAX_PRICE {
            return Err(CommandError::InvalidStrike);
        }
    }
    if let Some(e) = fields.expiry {
        if !e.is_valid() {
            return Err(CommandError::InvalidDate);
        }
    }
    if let Some(p) = fields.premium {
        if p < 0 || p > MAX_PRICE {
            return Err(CommandError::InvalidPremium);
        }
    }
    if let Some(q) = fields.quantity {
        if q == 0 {
            return Err(CommandError::InvalidQuantity);
        }
    }
    let ghost before = positions@[index as int]@;
    let last: usize = positions[index].contracts.len() - 1;
    assert(before.last() == before[last as int]);
    let current = &positions[index].contracts[last];
    let edited = Contract {
        open: OptionOpen {
            date: current.open.date,
            open_type: current.open.open_type,
            ticker: match fields.ticker {
                Some(t) => t.to_owned(),
                None => current.open.ticker.clone(),
            },
            strike: match fields.strike {
                Some(s) => s,
                None => current.open.strike,
            },
            expiry: match fields.expiry {
                Some(e) => e,
                None => current.open.expiry,
            },
            premium: match fields.premium {
                Some(p) => p,
                None => current.open.premium,
            },
            quantity: match fields.quantity {
                Some(q) => q,
                None => current.open.quantity,
            },
            status: current.open.status,
        },
        close: current.close,
    };
    assert(edited@ == edited_contract(before.last(), fields@));
    positions[index].contracts[last] = edited;
    proof {
        let chain = chain_after_edit(before, fields@);
        assert(positions@[index as int]@ =~= chain);
        assert(portfolio(positions@) =~= portfolio(old(positions)@).update(cursor as int, chain));
        lemma_with_last_wf(before, edited_contract(before.last(), fields@));
    }
    Ok(NO_SELECTION)
}

/// Corrects the date on which the final leg of the selected position was opened; parts
/// of the date left `None` keep their value.
pub fn redate_position(
    positions: &mut Vec<Position>,
    cursor: i32,
    year: Option<i32>,
    month: Option<u32>,
    day: Option<u32>,
) -> (r: Result<i32, CommandError>)
    ensures
        match date_error(portfolio(old(positions)@), cursor, year, month, day) {
            Some(e) => r == Err::<i32, CommandError>(e) && final(positions)@ == old(positions)@,
            None => {
                let chain = chain_after_date(
                    portfolio(old(positions)@)[cursor as int],
                    year,
                    month,
                    day,
                );
                &&& r == Ok::<i32, CommandError>(NO_SELECTION)
                &&& portfolio(final(positions)@) == portfolio(old(positions)@).update(
                    cursor as int,
                    chain,
                )
                &&& chain_wf(chain)
                &&& final(positions)@.len() == old(positions)@.len()
                &&& final(positions)@[cursor as int]@ == chain
            },
        },
{
    let index: usize = match selected_index(positions, cursor) {
        Ok(index) => index,
        Err(e) => {
            return Err(e);
        },
    };
    let ghost before = positions@[index as int]@;
    let last: usize = positions[index].contracts.len() - 1;
    assert(before.last() == before[last as int]);
    if year.is_none() && month.is_none() && day.is_none() {
        proof {
            assert(portfolio(positions@) =~= portfolio(old(positions)@).update(
                cursor as int,
                before,
            ));
        }
        return Ok(NO_SELECTION);
    }
    let current: Date = positions[index].contracts[last].open.date.date;
    let new_year: i32 = match year {
        Some(y) => y,
        None => current.year,
    };
    let new_month: u32 = match month {
        Some(m) => m,
        None => current.month,
    };
    let new_day: u32 = match day {
        Some(d) => d,
        None => current.day,
    };
    let new_date: Date = match Date::from_ymd(new_year, new_month, new_day) {
        Some(d) => d,
        None => {
            return Err(CommandError::InvalidDate);
        },
    };
    positions[index].contracts[last].open.date = Timestamp {
        date: new_date,
        second_of_day: REDATED_SECOND_OF_DAY,
    };
    proof {
        let chain = chain_after_date(before, year, month, day);
        assert(positions@[index as int]@ =~= chain);
        assert(portfolio(positions@) =~= portfolio(old(positions)@).update(cursor as int, chain));
        lemma_with_last_wf(before, redated_contract(before.last(), new_date));
    }
    Ok(NO_SELECTION)
}

} // verus!
