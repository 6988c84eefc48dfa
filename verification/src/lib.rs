//! A ledger of written options.
//!
//! A position is a chain of option contracts, each rolled into the next. The ledger
//! opens positions and moves them through their life, reckons what each gained and
//! bound, spreads both over the calendar months a position spanned, and ranks positions
//! and months. Amounts are whole numbers of ticks, a tick being a ten-thousandth of a
//! dollar; rates are exact fractions.
//!
//! The modules, from the ground up: `calendar` and `money` hold dates and amounts,
//! `ratio` fractions and ranking, `parse` and `text` the reading and writing of
//! numbers. `model` holds contracts and positions with their figures, `lifecycle` the
//! operations on them, `commands` the same operations fed from the texts of a form.
//! `months` spreads a position over months, `tradingmonth` and `monthly` gather the
//! months of a whole ledger, `report` draws the other figures from a ledger, `display`
//! shows all of it as text, and `pager` turns the pages of a listing. `laws` states
//! what holds of every position. `translations` keeps a glossary of abbreviations,
//! and `smalltalk` picks jokes and lines of the log.

use vstd::prelude::*;

pub mod calendar;
pub mod commands;
pub mod display;
pub mod laws;
pub mod lifecycle;
pub mod model;
pub mod money;
pub mod monthly;
pub mod months;
pub mod pager;
pub mod parse;
pub mod ratio;
pub mod report;
pub mod smalltalk;
pub mod text;
pub mod tradingmonth;
pub mod translations;

verus! {

} // verus!
