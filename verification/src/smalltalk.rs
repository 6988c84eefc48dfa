//! Small talk: which joke to tell, and which lines of the log to show.

use crate::text::{natural_text, push_natural};
use vstd::prelude::*;

verus! {

/// How many lines of the log are shown where no number is asked for.
pub const DEFAULT_LOG_LINES: usize = 10;

/// The most lines of the log that are shown at once.
pub const MAX_LOG_LINES: usize = 50;

/// Why no joke can be told.
#[derive(Clone, Copy, Debug, PartialEq, Eq, Structural)]
pub enum JokeError {
    /// There are no jokes.
    NoJokes,
    /// The number asked for is not the number of a joke; there are this many jokes.
    InvalidNumber(usize),
}

/// The place of the joke to tell among `count` jokes: the one before the number asked
/// for, jokes being numbered from 1, or the one that `random` falls on where no number
/// is asked for.
pub open spec fn joke_place(count: usize, index: Option<usize>, random: usize) -> Result<
    usize,
    JokeError,
> {
    if count == 0 {
        Err(JokeError::NoJokes)
    } else {
        match index {
            Some(number) => if number == 0 || number > count {
                Err(JokeError::InvalidNumber(count))
            } else {
                Ok((number - 1) as usize)
            },
            None => Ok((random % count) as usize),
        }
    }
}

/// `rand::Rng::random_range` on the generator that `rand::rng` hands out, asked for a
/// place below `count`. Whatever it draws lies in the range it was given.
#[verifier::external_body]
fn random_below(count: usize) -> (r: usize)
    requires
        count > 0,
    ensures
        r < count,
{
    rand::Rng::random_range(&mut rand::rng(), 0..count)
}

/// Finds the place of the joke to tell, given the number drawn for the case that no
/// number is asked for.
pub fn joke_at(count: usize, index: Option<usize>, random: usize) -> (r: Result<usize, JokeError>)
    ensures
        r == joke_place(count, index, random),
{
    if count == 0 {
        return Err(JokeError::NoJokes);
    }
    match index {
        Some(number) => {
            if number == 0 || number > count {
                Err(JokeError::InvalidNumber(count))
            } else {
                Ok(number - 1)
            }
        },
        None => Ok(random % count),
    }
}

/// Finds the place of the joke to tell; draws one where no number is asked for.
pub fn choose_joke(count: usize, index: Option<usize>) -> (r: Result<usize, JokeError>)
    ensures
        index is Some || count == 0 ==> r == joke_place(count, index, 0),
        index is None && count > 0 ==> (r matches Ok(place) && place < count),
{
    if count == 0 || index.is_some() {
        joke_at(count, index, 0)
    } else {
        let random: usize = random_below(count);
        joke_at(count, index, random)
    }
}

/// A joke under its number.
pub open spec fn joke_text(place: usize, joke: Seq<char>) -> Seq<char> {
    "-# #"@ + natural_text((place + 1) as nat) + ":\n"@ + joke
}

/// A joke under its number, with a remark on it.
pub open spec fn remark_text(place: usize, joke: Seq<char>, remark: Seq<char>) -> Seq<char> {
    joke_text(place, joke) + "\n```\n"@ + remark + "```"@
}

/// Puts the joke at `place` under its number.
pub fn display_joke(place: usize, joke: &str) -> (r: String)
    ensures
        r@ == joke_text(place, joke@),
{
    let mut out = String::new();
    out.append("-# #");
    push_natural(&mut out, place as u128 + 1);
    out.append(":\n");
    out.append(joke);
    assert(out@ =~= joke_text(place, joke@));
    out
}

/// Puts the joke at `place` under its number and the remark under the joke.
pub fn display_remark(place: usize, joke: &str, remark: &str) -> (r: String)
    ensures
        r@ == remark_text(place, joke@, remark@),
{
    let mut out = display_joke(place, joke);
    out.append("\n```\n");
    out.append(remark);
    out.append("```");
    out
}

/// How many jokes with a remark a file of `lines` lines holds: a joke and its remark
/// take two lines, and a last line without a partner is left over.
pub fn remark_count(lines: usize) -> (count: usize)
    ensures
        count == lines / 2,
{
    lines / 2
}

/// The lines on which the joke at `place` and its remark stand.
pub fn remark_lines(place: usize, lines: usize) -> (r: (usize, usize))
    requires
        place < lines / 2,
    ensures
        r.0 == 2 * place,
        r.1 == 2 * place + 1,
        r.1 < lines,
{
    (2 * place, 2 * place + 1)
}

/// How many lines of the log to show: the number asked for, or the usual number, but
/// at least one and no more than may be shown at once.
pub open spec fn lines_wanted(count: Option<usize>) -> usize {
    let asked = match count {
        Some(n) => n,
        None => DEFAULT_LOG_LINES,
    };
    if asked < 1 {
        1
    } else if asked > MAX_LOG_LINES {
        MAX_LOG_LINES
    } else {
        asked
    }
}

/// Where the lines of the log to show begin, of `total` lines: the last lines, as many
/// as are wanted and as there are.
pub fn recent_from(total: usize, count: Option<usize>) -> (from: usize)
    ensures
        from == if total > lines_wanted(count) {
            total - lines_wanted(count)
        } else {
            0
        },
{
    let asked: usize = match count {
        Some(n) => n,
        None => DEFAULT_LOG_LINES,
    };
    let wanted: usize = if asked < 1 {
        1
    } else if asked > MAX_LOG_LINES {
        MAX_LOG_LINES
    } else {
        asked
    };
    if total > wanted {
        total - wanted
    } else {
        0
    }
}

} // verus!
