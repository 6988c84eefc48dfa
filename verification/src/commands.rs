//! The commands as a user gives them: every value arrives as the text of a form field.
//!
//! A command first finds the position the cursor selects, then reads its fields, and
//! only then touches the list. A field that cannot be read refuses the command with
//! the same reason as a value out of range.

use crate::calendar::{chrono_ymd_text, date_of_fields, Date, Timestamp};
use crate::lifecycle::{
    chain_after_close, chain_after_date, chain_after_edit, chain_after_roll, chain_remainder,
    chain_split_off, close_error, close_position, date_error, edit_error, edit_position,
    open_error, open_position, opened_contract, portfolio, redate_position, roll_error,
    roll_position, selected_index, selection_error, split_error, split_position, CloseOutcome,
    CommandError, EditFields, EditFieldsView, SplitOutcome, NO_SELECTION,
};
use crate::model::{chain_gain, chain_wf, ContractView, OptionKind, Position};
use crate::parse::{
    decimal_ticks, integer_value, natural_value, parse_decimal, parse_field, parse_quantity,
    parse_year,
};
use vstd::prelude::*;
use vstd::string::StringSliceAdditionalSpecFns;
use vstd::utf8::encode_utf8;

verus! {

/// The form that opens a position.
#[derive(Debug, PartialEq, Eq)]
pub struct OpenModal {
    pub ticker: String,
    pub strike: String,
    pub exp: String,
    pub premium: String,
    pub quantity: String,
}

/// The form that closes a position.
#[derive(Debug, PartialEq, Eq)]
pub struct CloseModal {
    pub premium: String,
}

/// The form that rolls a position.
#[derive(Debug, PartialEq, Eq)]
pub struct RollModal {
    pub exp: String,
    pub premium_loss: String,
    pub premium_gain: String,
    /// The new strike; left out where the strike stays.
    pub strike: Option<String>,
}

/// The form that splits a position.
#[derive(Debug, PartialEq, Eq)]
pub struct SplitModal {
    pub quantity: String,
}

/// The form that corrects the leg in force; a field left out is not touched.
#[derive(Debug, PartialEq, Eq)]
pub struct EditModal {
    pub ticker: Option<String>,
    pub strike: Option<String>,
    pub exp: Option<String>,
    pub premium: Option<String>,
    pub quantity: Option<String>,
}

/// The form that corrects the opening date; a part left out is not touched.
#[derive(Debug, PartialEq, Eq)]
pub struct DateModal {
    pub year: Option<String>,
    pub month: Option<String>,
    pub day: Option<String>,
}

/// The form that asks for the password before the registered commands are cleared.
#[derive(Debug, PartialEq, Eq)]
pub struct ClearCommands {
    pub password: String,
}

/// What the request to clear the registered commands comes to.
#[derive(Clone, Copy, Debug, PartialEq, Eq, Structural)]
pub enum ClearReply {
    /// The password was right: the commands are to be cleared.
    Cleared,
    /// The password was wrong: nothing is to be cleared.
    IncorrectPassword,
    /// The form was dismissed.
    Dismissed,
}

/// The price in ticks that a field writes, if it writes one.
pub open spec fn price_of(text: Seq<char>) -> Option<i64> {
    match decimal_ticks(encode_utf8(text)) {
        Some(v) => Some(v as i64),
        None => None,
    }
}

/// The quantity that a field writes, if it writes one.
pub open spec fn quantity_of(text: Seq<char>) -> Option<u16> {
    match natural_value(encode_utf8(text), 65_535) {
        Some(v) => Some(v as u16),
        None => None,
    }
}

/// The number of a month or a day that a field writes, if it writes one.
pub open spec fn field_of(text: Seq<char>) -> Option<u32> {
    match natural_value(encode_utf8(text), 4_294_967_295) {
        Some(v) => Some(v as u32),
        None => None,
    }
}

/// The year that a field writes, if it writes one.
pub open spec fn year_of(text: Seq<char>) -> Option<i32> {
    match integer_value(encode_utf8(text)) {
        Some(v) => Some(v as i32),
        None => None,
    }
}

/// The kind of option that a word names: `put` or `call`.
pub open spec fn kind_of(word: Seq<char>) -> Option<OptionKind> {
    if word == "put"@ {
        Some(OptionKind::Put)
    } else if word == "call"@ {
        Some(OptionKind::Call)
    } else {
        None
    }
}

/// Whether two texts are the same.
fn same_text(a: &str, b: &str) -> (r: bool)
    ensures
        r == (a@ == b@),
{
    let left = a.to_owned();
    let right = b.to_owned();
    left == right
}

/// Reads the kind of option that a word names.
pub fn option_kind(word: &str) -> (r: Option<OptionKind>)
    ensures
        r == kind_of(word@),
{
    if same_text(word, "put") {
        Some(OptionKind::Put)
    } else if same_text(word, "call") {
        Some(OptionKind::Call)
    } else {
        None
    }
}

/// Decides what a request to clear the registered commands comes to.
pub fn clear(data: Option<&ClearCommands>, clear_password: &str) -> (r: ClearReply)
    ensures
        r == match data {
            None => ClearReply::Dismissed,
            Some(form) => if form.password@ == clear_password@ {
                ClearReply::Cleared
            } else {
                ClearReply::IncorrectPassword
            },
        },
{
    match data {
        None => ClearReply::Dismissed,
        Some(form) => {
            if same_text(form.password.as_str(), clear_password) {
                ClearReply::Cleared
            } else {
                ClearReply::IncorrectPassword
            }
        },
    }
}

/// Why the form cannot open a position, if it cannot. `expiry` is the date read from
/// the form's `exp`.
pub open spec fn open_form_error(
    open_type: Seq<char>,
    ticker: Seq<char>,
    strike: Seq<char>,
    expiry: Option<Date>,
    premium: Seq<char>,
    quantity: Seq<char>,
    now: Timestamp,
) -> Option<CommandError> {
    if kind_of(open_type) is None {
        Some(CommandError::InvalidOptionType)
    } else if price_of(strike) is None {
        Some(CommandError::InvalidStrike)
    } else if expiry is None {
        Some(CommandError::InvalidDate)
    } else if price_of(premium) is None {
        Some(CommandError::InvalidPremium)
    } else if quantity_of(quantity) is None {
        Some(CommandError::InvalidQuantity)
    } else {
        open_error(
            ticker,
            price_of(strike).unwrap(),
            expiry.unwrap(),
            price_of(premium).unwrap(),
            quantity_of(quantity).unwrap(),
            now,
        )
    }
}

/// Whether `r` and the list `after` are what opening a position from the form makes of
/// the list `before`.
pub open spec fn opens(
    before: Seq<Position>,
    after: Seq<Position>,
    r: Result<(), CommandError>,
    open_type: Seq<char>,
    data: OpenModal,
    expiry: Option<Date>,
    now: Timestamp,
) -> bool {
    match open_form_error(
        open_type,
        data.ticker@,
        data.strike@,
        expiry,
        data.premium@,
        data.quantity@,
        now,
    ) {
        Some(e) => r == Err::<(), CommandError>(e) && after == before,
        None => {
            &&& r is Ok
            &&& portfolio(after) == portfolio(before).push(
                seq![
                    opened_contract(
                        kind_of(open_type).unwrap(),
                        data.ticker@,
                        price_of(data.strike@).unwrap(),
                        expiry.unwrap(),
                        price_of(data.premium@).unwrap(),
                        quantity_of(data.quantity@).unwrap(),
                        now,
                    ),
                ],
            )
            &&& chain_wf(portfolio(after).last())
            &&& after.len() == before.len() + 1
            &&& after.last().wf()
        },
    }
}

/// Opens a position from a form whose expiry has been read as `expiry`.
pub fn open_with(
    positions: &mut Vec<Position>,
    open_type: &str,
    data: &OpenModal,
    expiry: Option<Date>,
    now: Timestamp,
) -> (r: Result<(), CommandError>)
    ensures
        opens(old(positions)@, final(positions)@, r, open_type@, *data, expiry, now),
{
    let kind: OptionKind = match option_kind(open_type) {
        Some(k) => k,
        None => {
            return Err(CommandError::InvalidOptionType);
        },
    };
    let strike: i64 = match parse_decimal(data.strike.as_str()) {
        Some(v) => v,
        None => {
            return Err(CommandError::InvalidStrike);
        },
    };
    let expiry: Date = match expiry {
        Some(d) => d,
        None => {
            return Err(CommandError::InvalidDate);
        },
    };
    let premium: i64 = match parse_decimal(data.premium.as_str()) {
        Some(v) => v,
        None => {
            return Err(CommandError::InvalidPremium);
        },
    };
    let quantity: u16 = match parse_quantity(data.quantity.as_str()) {
        Some(v) => v,
        None => {
            return Err(CommandError::InvalidQuantity);
        },
    };
    open_position(positions, kind, data.ticker.as_str(), strike, expiry, premium, quantity, now)
}

/// Opens a position of the kind `open_type` from the form and appends it to the list.
pub fn open(positions: &mut Vec<Position>, open_type: &str, data: &OpenModal, now: Timestamp) -> (r:
    Result<(), CommandError>)
    ensures
        opens(
            old(positions)@,
            final(positions)@,
            r,
            open_type@,
            *data,
            date_of_fields(chrono_ymd_text(data.exp@)),
            now,
        ),
{
    let expiry = Date::parse(data.exp.as_str());
    open_with(positions, open_type, data, expiry, now)
}

/// Why the form cannot close the selected position, if it cannot.
pub open spec fn close_form_error(
    chains: Seq<Seq<ContractView>>,
    cursor: i32,
    premium: Seq<char>,
    now: Timestamp,
) -> Option<CommandError> {
    if selection_error(chains, cursor) is Some {
        selection_error(chains, cursor)
    } else if price_of(premium) is None {
        Some(CommandError::InvalidPremium)
    } else {
        close_error(chains, cursor, price_of(premium).unwrap(), now)
    }
}

/// Buys the selected position back at the premium the form names.
pub fn close(positions: &mut Vec<Position>, cursor: i32, data: &CloseModal, now: Timestamp) -> (r:
    Result<CloseOutcome, CommandError>)
    ensures
        match close_form_error(portfolio(old(positions)@), cursor, data.premium@, now) {
            Some(e) => r == Err::<CloseOutcome, CommandError>(e) && final(positions)@ == old(
                positions,
            )@,
            None => {
                let chain = chain_after_close(
                    portfolio(old(positions)@)[cursor as int],
                    price_of(data.premium@).unwrap(),
                    now,
                );
                &&& r matches Ok(outcome) && outcome.cursor == NO_SELECTION && outcome.gain
                    == chain_gain(chain)
                &&& portfolio(final(positions)@) == portfolio(old(positions)@).update(
                    cursor as int,
                    chain,
                )
                &&& chain_wf(chain)
                &&& final(positions)@.len() == old(positions)@.len()
                &&& final(positions)@[cursor as int]@ == chain
            },
        },
{
    match selected_index(positions, cursor) {
        Ok(_) => {},
        Err(e) => {
            return Err(e);
        },
    }
    let premium: i64 = match parse_decimal(data.premium.as_str()) {
        Some(v) => v,
        None => {
            return Err(CommandError::InvalidPremium);
        },
    };
    close_position(positions, cursor, premium, now)
}

/// Why the form cannot roll the selected position, if it cannot. `expiry` is the date
/// read from the form's `exp`.
pub open spec fn roll_form_error(
    chains: Seq<Seq<ContractView>>,
    cursor: i32,
    expiry: Option<Date>,
    premium_loss: Seq<char>,
    premium_gain: Seq<char>,
    strike: Option<Seq<char>>,
    now: Timestamp,
) -> Option<CommandError> {
    if selection_error(chains, cursor) is Some {
        selection_error(chains, cursor)
    } else if expiry is None {
        Some(CommandError::InvalidDate)
    } else if price_of(premium_gain) is None || price_of(premium_loss) is None {
        Some(CommandError::InvalidPremium)
    } else if strike matches Some(s) && price_of(s) is None {
        Some(CommandError::InvalidStrike)
    } else {
        roll_error(
            chains,
            cursor,
            expiry.unwrap(),
            price_of(premium_loss).unwrap(),
            price_of(premium_gain).unwrap(),
            strike_of(strike),
            now,
        )
    }
}

/// The strike that an optional field names: none where it is left out.
pub open spec fn strike_of(strike: Option<Seq<char>>) -> Option<i64> {
    match strike {
        Some(s) => price_of(s),
        None => None,
    }
}

/// The text of an optional field.
pub open spec fn text_of(field: Option<String>) -> Option<Seq<char>> {
    match field {
        Some(s) => Some(s@),
        None => None,
    }
}

/// Whether `r` and the list `after` are what rolling the selected position by the form
/// makes of the list `before`.
pub open spec fn rolls(
    before: Seq<Position>,
    after: Seq<Position>,
    r: Result<i32, CommandError>,
    cursor: i32,
    data: RollModal,
    expiry: Option<Date>,
    now: Timestamp,
) -> bool {
    match roll_form_error(
        portfolio(before),
        cursor,
        expiry,
        data.premium_loss@,
        data.premium_gain@,
        text_of(data.strike),
        now,
    ) {
        Some(e) => r == Err::<i32, CommandError>(e) && after == before,
        None => {
            let chain = chain_after_roll(
                portfolio(before)[cursor as int],
                expiry.unwrap(),
                price_of(data.premium_loss@).unwrap(),
                price_of(data.premium_gain@).unwrap(),
                strike_of(text_of(data.strike)),
                now,
            );
            &&& r == Ok::<i32, CommandError>(NO_SELECTION)
            &&& portfolio(after) == portfolio(before).update(cursor as int, chain)
            &&& chain_wf(chain)
            &&& after.len() == before.len()
            &&& after[cursor as int]@ == chain
        },
    }
}

/// Rolls the selected position by a form whose new expiry has been read as `expiry`.
pub fn roll_with(
    positions: &mut Vec<Position>,
    cursor: i32,
    data: &RollModal,
    expiry: Option<Date>,
    now: Timestamp,
) -> (r: Result<i32, CommandError>)
    ensures
        rolls(old(positions)@, final(positions)@, r, cursor, *data, expiry, now),
{
    match selected_index(positions, cursor) {
        Ok(_) => {},
        Err(e) => {
            return Err(e);
        },
    }
    let expiry: Date = match expiry {
        Some(d) => d,
        None => {
            return Err(CommandError::InvalidDate);
        },
    };
    let premium_gain: i64 = match parse_decimal(data.premium_gain.as_str()) {
        Some(v) => v,
        None => {
            return Err(CommandError::InvalidPremium);
        },
    };
    let premium_loss: i64 = match parse_decimal(data.premium_loss.as_str()) {
        Some(v) => v,
        None => {
            return Err(CommandError::InvalidPremium);
        },
    };
    let strike: Option<i64> = match &data.strike {
        Some(text) => match parse_decimal(text.as_str()) {
            Some(v) => Some(v),
            None => {
                return Err(CommandError::InvalidStrike);
            },
        },
        None => None,
    };
    roll_position(positions, cursor, expiry, premium_loss, premium_gain, strike, now)
}

/// Rolls the selected position by the form.
pub fn roll(positions: &mut Vec<Position>, cursor: i32, data: &RollModal, now: Timestamp) -> (r:
    Result<i32, CommandError>)
    ensures
        rolls(
            old(positions)@,
            final(positions)@,
            r,
            cursor,
            *data,
            date_of_fields(chrono_ymd_text(data.exp@)),
            now,
        ),
{
    let expiry = Date::parse(data.exp.as_str());
    roll_with(positions, cursor, data, expiry, now)
}

/// Why the form cannot split the selected position, if it cannot.
pub open spec fn split_form_error(
    chains: Seq<Seq<ContractView>>,
    cursor: i32,
    quantity: Seq<char>,
) -> Option<CommandError> {
    if selection_error(chains, cursor) is Some {
        selection_error(chains, cursor)
    } else if quantity_of(quantity) is None {
        Some(CommandError::InvalidQuantity)
    } else {
        split_error(chains, cursor, quantity_of(quantity).unwrap())
    }
}

/// Splits the quantity the form names off the selected position.
pub fn split(positions: &mut Vec<Position>, cursor: i32, data: &SplitModal) -> (r: Result<
    SplitOutcome,
    CommandError,
>)
    ensures
        match split_form_error(portfolio(old(positions)@), cursor, data.quantity@) {
            Some(e) => r == Err::<SplitOutcome, CommandError>(e) && final(positions)@ == old(
                positions,
            )@,
            None => {
                let before = portfolio(old(positions)@)[cursor as int];
                let taken = quantity_of(data.quantity@).unwrap();
                &&& r matches Ok(outcome) && outcome.cursor == NO_SELECTION && outcome.split
                    == taken && outcome.remaining == before.last().open.quantity - taken
                &&& portfolio(final(positions)@) == portfolio(old(positions)@).update(
                    cursor as int,
                    chain_remainder(before, taken),
                ).push(chain_split_off(before, taken))
                &&& chain_wf(chain_remainder(before, taken))
                &&& chain_wf(chain_split_off(before, taken))
                &&& final(positions)@.len() == old(positions)@.len() + 1
                &&& final(positions)@[cursor as int]@ == chain_remainder(before, taken)
                &&& final(positions)@.last()@ == chain_split_off(before, taken)
            },
        },
{
    match selected_index(positions, cursor) {
        Ok(_) => {},
        Err(e) => {
            return Err(e);
        },
    }
    let taken: u16 = match parse_quantity(data.quantity.as_str()) {
        Some(v) => v,
        None => {
            return Err(CommandError::InvalidQuantity);
        },
    };
    split_position(positions, cursor, taken)
}

/// Why the fields of the form cannot be read, if they cannot. `expiry` is what was
/// read from the form's `exp`: nothing where the form leaves it out, else the date it
/// writes, if it writes one.
pub open spec fn edit_reading_error(data: EditModal, expiry: Option<Option<Date>>) -> Option<
    CommandError,
> {
    if data.strike matches Some(s) && price_of(s@) is None {
        Some(CommandError::InvalidStrike)
    } else if expiry == Some(None::<Date>) {
        Some(CommandError::InvalidDate)
    } else if data.premium matches Some(p) && price_of(p@) is None {
        Some(CommandError::InvalidPremium)
    } else if data.quantity matches Some(q) && quantity_of(q@) is None {
        Some(CommandError::InvalidQuantity)
    } else {
        None
    }
}

/// The corrections that the form asks for, once its fields are read.
pub open spec fn edit_fields_of(data: EditModal, expiry: Option<Option<Date>>) -> EditFieldsView {
    EditFieldsView {
        ticker: text_of(data.ticker),
        strike: match data.strike {
            Some(s) => price_of(s@),
            None => None,
        },
        expiry: match expiry {
            Some(e) => e,
            None => None,
        },
        premium: match data.premium {
            Some(p) => price_of(p@),
            None => None,
        },
        quantity: match data.quantity {
            Some(q) => quantity_of(q@),
            None => None,
        },
    }
}

/// Whether `r` and the list `after` are what correcting the selected position by the
/// form makes of the list `before`.
pub open spec fn edits(
    before: Seq<Position>,
    after: Seq<Position>,
    r: Result<i32, CommandError>,
    cursor: i32,
    data: EditModal,
    expiry: Option<Option<Date>>,
) -> bool {
    let error = if selection_error(portfolio(before), cursor) is Some {
        selection_error(portfolio(before), cursor)
    } else if edit_reading_error(data, expiry) is Some {
        edit_reading_error(data, expiry)
    } else {
        edit_error(portfolio(before), cursor, edit_fields_of(data, expiry))
    };
    match error {
        Some(e) => r == Err::<i32, CommandError>(e) && after == before,
        None => {
            let chain = chain_after_edit(
                portfolio(before)[cursor as int],
                edit_fields_of(data, expiry),
            );
            &&& r == Ok::<i32, CommandError>(NO_SELECTION)
            &&& portfolio(after) == portfolio(before).update(cursor as int, chain)
            &&& chain_wf(chain)
            &&& after.len() == before.len()
            &&& after[cursor as int]@ == chain
        },
    }
}

/// Corrects the selected position by a form whose expiry has been read as `expiry`.
pub fn edit_with(
    positions: &mut Vec<Position>,
    cursor: i32,
    data: &EditModal,
    expiry: Option<Option<Date>>,
) -> (r: Result<i32, CommandError>)
    ensures
        edits(old(positions)@, final(positions)@, r, cursor, *data, expiry),
{
    match selected_index(positions, cursor) {
        Ok(_) => {},
        Err(e) => {
            return Err(e);
        },
    }
    let strike: Option<i64> = match &data.strike {
        Some(text) => match parse_decimal(text.as_str()) {
            Some(v) => Some(v),
            None => {
                return Err(CommandError::InvalidStrike);
            },
        },
        None => None,
    };
    let expiry: Option<Date> = match expiry {
        Some(read) => match read {
            Some(d) => Some(d),
            None => {
                return Err(CommandError::InvalidDate);
            },
        },
        None => None,
    };
    let premium: Option<i64> = match &data.premium {
        Some(text) => match parse_decimal(text.as_str()) {
            Some(v) => Some(v),
            None => {
                return Err(CommandError::InvalidPremium);
            },
        },
        None => None,
    };
    let quantity: Option<u16> = match &data.quantity {
        Some(text) => match parse_quantity(text.as_str()) {
            Some(v) => Some(v),
            None => {
                return Err(CommandError::InvalidQuantity);
            },
        },
        None => None,
    };
    let ticker: Option<&str> = match &data.ticker {
        Some(text) => Some(text.as_str()),
        None => None,
    };
    let fields = EditFields { ticker, strike, expiry, premium, quantity };
    assert(fields@ == edit_fields_of(*data, Some(expiry)) || fields@ == edit_fields_of(
        *data,
        None,
    ));
    edit_position(positions, cursor, &fields)
}

/// What reading the optional field `exp` as a date gives.
pub open spec fn optional_date(exp: Option<String>) -> Option<Option<Date>> {
    match exp {
        Some(text) => Some(date_of_fields(chrono_ymd_text(text@))),
        None => None,
    }
}

/// Corrects the selected position by the form.
pub fn edit(positions: &mut Vec<Position>, cursor: i32, data: &EditModal) -> (r: Result<
    i32,
    CommandError,
>)
    ensures
        edits(old(positions)@, final(positions)@, r, cursor, *data, optional_date(data.exp)),
{
    let expiry: Option<Option<Date>> = match &data.exp {
        Some(text) => Some(Date::parse(text.as_str())),
        None => None,
    };
    edit_with(positions, cursor, data, expiry)
}

/// Why the parts of the date cannot be read, if they cannot.
pub open spec fn date_reading_error(data: DateModal) -> Option<CommandError> {
    if data.year matches Some(y) && year_of(y@) is None {
        Some(CommandError::InvalidDate)
    } else if data.month matches Some(m) && field_of(m@) is None {
        Some(CommandError::InvalidDate)
    } else if data.day matches Some(d) && field_of(d@) is None {
        Some(CommandError::InvalidDate)
    } else {
        None
    }
}

pub open spec fn optional_year(field: Option<String>) -> Option<i32> {
    match field {
        Some(text) => year_of(text@),
        None => None,
    }
}

pub open spec fn optional_field(field: Option<String>) -> Option<u32> {
    match field {
        Some(text) => field_of(text@),
        None => None,
    }
}

/// Corrects the date on which the final leg of the selected position was opened.
pub fn date(positions: &mut Vec<Position>, cursor: i32, data: &DateModal) -> (r: Result<
    i32,
    CommandError,
>)
    ensures
        ({
            let chains = portfolio(old(positions)@);
            let year = optional_year(data.year);
            let month = optional_field(data.month);
            let day = optional_field(data.day);
            let error = if selection_error(chains, cursor) is Some {
                selection_error(chains, cursor)
            } else if date_reading_error(*data) is Some {
                date_reading_error(*data)
            } else {
                date_error(chains, cursor, year, month, day)
            };
            match error {
                Some(e) => r == Err::<i32, CommandError>(e) && final(positions)@ == old(
                    positions,
                )@,
                None => {
                    let chain = chain_after_date(chains[cursor as int], year, month, day);
                    &&& r == Ok::<i32, CommandError>(NO_SELECTION)
                    &&& portfolio(final(positions)@) == chains.update(cursor as int, chain)
                    &&& chain_wf(chain)
                    &&& final(positions)@.len() == old(positions)@.len()
                    &&& final(positions)@[cursor as int]@ == chain
                },
            }
        }),
{
    match selected_index(positions, cursor) {
        Ok(_) => {},
        Err(e) => {
            return Err(e);
        },
    }
    let year: Option<i32> = match &data.year {
        Some(text) => match parse_year(text.as_str()) {
            Some(v) => Some(v),
            None => {
                return Err(CommandError::InvalidDate);
            },
        },
        None => None,
    };
    let month: Option<u32> = match &data.month {
        Some(text) => match parse_field(text.as_str()) {
            Some(v) => Some(v),
            None => {
                return Err(CommandError::InvalidDate);
            },
        },
        None => None,
    };
    let day: Option<u32> = match &data.day {
        Some(text) => match parse_field(text.as_str()) {
            Some(v) => Some(v),
            None => {
                return Err(CommandError::InvalidDate);
            },
        },
        None => None,
    };
    redate_position(positions, cursor, year, month, day)
}

} // verus!
