//! The glossary of abbreviations: its entries, the records that keep them, and lookups.

use vstd::prelude::*;

verus! {

/// An abbreviation and what it stands for.
#[derive(Debug, PartialEq, Eq)]
pub struct Translation {
    pub abbreviation: String,
    pub definition: String,
}

/// A glossary entry in the short form in which it is kept.
#[derive(Debug, PartialEq, Eq)]
pub struct DbTranslation {
    pub a: String,
    pub d: String,
}

pub struct TranslationView {
    pub abbreviation: Seq<char>,
    pub definition: Seq<char>,
}

impl View for Translation {
    type V = TranslationView;

    open spec fn view(&self) -> TranslationView {
        TranslationView { abbreviation: self.abbreviation@, definition: self.definition@ }
    }
}

impl View for DbTranslation {
    type V = TranslationView;

    open spec fn view(&self) -> TranslationView {
        TranslationView { abbreviation: self.a@, definition: self.d@ }
    }
}

/// The entries that a list of kept records stands for, in order.
pub open spec fn stored_entries(stored: Seq<DbTranslation>) -> Seq<TranslationView> {
    Seq::new(stored.len(), |i: int| stored[i]@)
}

/// The entries of a glossary, in order.
pub open spec fn glossary_entries(all: Seq<Translation>) -> Seq<TranslationView> {
    Seq::new(all.len(), |i: int| all[i]@)
}

/// Appends the record of `translation` to the kept records.
pub fn save_translation(stored: &mut Vec<DbTranslation>, translation: &Translation)
    ensures
        stored_entries(final(stored)@) == stored_entries(old(stored)@).push(translation@),
{
    let record = DbTranslation {
        a: translation.abbreviation.clone(),
        d: translation.definition.clone(),
    };
    stored.push(record);
    assert(stored_entries(stored@) =~= stored_entries(old(stored)@).push(translation@));
}

/// Reads the kept records back as glossary entries, in the order in which they were saved.
pub fn load_translations(stored: &Vec<DbTranslation>) -> (all: Vec<Translation>)
    ensures
        glossary_entries(all@) == stored_entries(stored@),
{
    let mut all: Vec<Translation> = Vec::new();
    let n: usize = stored.len();
    let mut i: usize = 0;
    while i < n
        invariant
            n == stored.len(),
            i <= n,
            all.len() == i,
            forall|j: int| 0 <= j < i ==> (#[trigger] all@[j])@ == stored@[j]@,
        decreases n - i,
    {
        let record = &stored[i];
        all.push(Translation { abbreviation: record.a.clone(), definition: record.d.clone() });
        i += 1;
    }
    assert(glossary_entries(all@) =~= stored_entries(stored@));
    all
}

/// The first entry of the glossary whose abbreviation is `abbreviation`, or `None`
/// where the glossary has no such entry.
pub fn get_translation(all: &Vec<Translation>, abbreviation: &String) -> (r: Option<Translation>)
    ensures
        r is None <==> forall|i: int|
            0 <= i < all.len() ==> #[trigger] all@[i]@.abbreviation != abbreviation@,
        r matches Some(t) ==> exists|i: int|
            0 <= i < all.len() && t@ == #[trigger] all@[i]@ && t@.abbreviation == abbreviation@
                && forall|j: int| 0 <= j < i ==> #[trigger] all@[j]@.abbreviation != abbreviation@,
{
    let n: usize = all.len();
    let mut i: usize = 0;
    while i < n
        invariant
            n == all.len(),
            i <= n,
            forall|j: int| 0 <= j < i ==> #[trigger] all@[j]@.abbreviation != abbreviation@,
        decreases n - i,
    {
        let translation = &all[i];
        if translation.abbreviation == *abbreviation {
            let found = Translation {
                abbreviation: translation.abbreviation.clone(),
                definition: translation.definition.clone(),
            };
            assert(found@ == all@[i as int]@);
            assert(all@[i as int]@.abbreviation == abbreviation@);
            return Some(found);
        }
        i += 1;
    }
    None
}

/// Whether the glossary has an entry with the abbreviation.
pub open spec fn knows(all: Seq<TranslationView>, abbreviation: Seq<char>) -> bool {
    exists|i: int| 0 <= i < all.len() && (#[trigger] all[i]).abbreviation == abbreviation
}

/// Saves an entry read from a message unless the glossary knows its abbreviation, and
/// tells whether it was saved.
pub fn harvest(all: &Vec<Translation>, stored: &mut Vec<DbTranslation>, translation: &Translation) -> (saved:
    bool)
    ensures
        saved == !knows(glossary_entries(all@), translation@.abbreviation),
        saved ==> stored_entries(final(stored)@) == stored_entries(old(stored)@).push(
            translation@,
        ),
        !saved ==> final(stored)@ == old(stored)@,
{
    match get_translation(all, &translation.abbreviation) {
        Some(_) => {
            proof {
                let i = choose|i: int|
                    0 <= i < all.len() && #[trigger] all@[i]@.abbreviation
                        == translation@.abbreviation;
                assert(glossary_entries(all@)[i].abbreviation == translation@.abbreviation);
            }
            false
        },
        None => {
            proof {
                assert forall|i: int| 0 <= i < all.len() implies (#[trigger] glossary_entries(
                    all@,
                )[i]).abbreviation != translation@.abbreviation by {
                    assert(all@[i]@.abbreviation != translation@.abbreviation);
                }
            }
            save_translation(stored, translation);
            true
        },
    }
}

/// Whether `pattern` stands somewhere in `text`.
pub open spec fn occurs_in(pattern: Seq<char>, text: Seq<char>) -> bool {
    exists|i: int|
        0 <= i <= text.len() - pattern.len() && #[trigger] text.subrange(i, i + pattern.len())
            == pattern
}

/// `str::contains` with a text as the pattern: whether the pattern matches a part of
/// the text.
#[verifier::external_body]
fn text_contains(text: &str, pattern: &str) -> (found: bool)
    ensures
        found == occurs_in(pattern@, text@),
{
    text.contains(pattern)
}

/// The line that shows an entry: its abbreviation, a colon and a blank, its definition.
pub open spec fn entry_text(entry: TranslationView) -> Seq<char> {
    entry.abbreviation + seq![':', ' '] + entry.definition
}

/// The texts of a list of lines.
pub open spec fn texts(lines: Seq<String>) -> Seq<Seq<char>> {
    Seq::new(lines.len(), |k: int| lines[k]@)
}

/// Whether `line` is among `lines`.
pub open spec fn is_listed(lines: Seq<Seq<char>>, line: Seq<char>) -> bool {
    exists|k: int| 0 <= k < lines.len() && #[trigger] lines[k] == line
}

/// Whether the line of every entry whose abbreviation stands in `text` is among `lines`.
pub open spec fn covers(lines: Seq<Seq<char>>, glossary: Seq<TranslationView>, text: Seq<char>) -> bool {
    forall|i: int|
        0 <= i < glossary.len() && occurs_in((#[trigger] glossary[i]).abbreviation, text)
            ==> is_listed(lines, entry_text(glossary[i]))
}

/// Whether the line at place `k` is accounted for by the entry at place `j` of the
/// glossary: it is that entry's line, the entry's abbreviation stands in the input or
/// in the definition behind an earlier line, and the lines cover its definition.
pub open spec fn accounts_for(
    lines: Seq<Seq<char>>,
    glossary: Seq<TranslationView>,
    input: Seq<char>,
    k: int,
    j: int,
) -> bool {
    &&& 0 <= j < glossary.len()
    &&& lines[k] == entry_text(glossary[j])
    &&& (occurs_in(glossary[j].abbreviation, input) || exists|e: int, p: int|
        0 <= e < k && 0 <= p < glossary.len() && #[trigger] lines[e] == entry_text(
            #[trigger] glossary[p],
        ) && occurs_in(glossary[j].abbreviation, glossary[p].definition))
    &&& covers(lines, glossary, glossary[j].definition)
}

/// Whether some entry of the glossary accounts for the line at place `k`.
pub open spec fn is_accounted_for(
    lines: Seq<Seq<char>>,
    glossary: Seq<TranslationView>,
    input: Seq<char>,
    k: int,
) -> bool {
    exists|j: int| #[trigger] accounts_for(lines, glossary, input, k, j)
}

/// Whether `lines` are the lines that `input` calls up from the glossary: the line of
/// every entry whose abbreviation stands in the input, and of every entry whose
/// abbreviation stands in the definition of an entry called up, each line once, and no
/// line that is not called up in this way.
pub open spec fn are_called_up(
    lines: Seq<Seq<char>>,
    glossary: Seq<TranslationView>,
    input: Seq<char>,
) -> bool {
    &&& forall|a: int, b: int| 0 <= a < b < lines.len() ==> #[trigger] lines[a] != #[trigger] lines[b]
    &&& covers(lines, glossary, input)
    &&& forall|k: int|
        0 <= k < lines.len() ==> #[trigger] is_accounted_for(lines, glossary, input, k)
}

/// The lines gathered behind `found` when the entries from place `from` on are looked
/// for in `text`, one after the other: an entry whose abbreviation stands in the text
/// and whose line is not gathered yet has its line gathered, and then its definition
/// is searched in the same way from the first entry on, before the next entry is
/// looked for. `depth` bounds how deep definitions are followed.
pub open spec fn gathered_lines(
    glossary: Seq<TranslationView>,
    text: Seq<char>,
    found: Seq<Seq<char>>,
    from: int,
    depth: nat,
) -> Seq<Seq<char>>
    decreases depth, glossary.len() - from,
{
    if from < 0 || from >= glossary.len() {
        found
    } else {
        let line = entry_text(glossary[from]);
        if depth > 0 && occurs_in(glossary[from].abbreviation, text) && !is_listed(found, line) {
            let deeper = gathered_lines(
                glossary,
                glossary[from].definition,
                found.push(line),
                0,
                (depth - 1) as nat,
            );
            gathered_lines(glossary, text, deeper, from + 1, depth)
        } else {
            gathered_lines(glossary, text, found, from + 1, depth)
        }
    }
}

/// The lines that `input` calls up from the glossary, in the order in which they are
/// found. Definitions cannot nest deeper than the glossary has entries.
pub open spec fn called_up(glossary: Seq<TranslationView>, input: Seq<char>) -> Seq<Seq<char>> {
    gathered_lines(glossary, input, Seq::empty(), 0, glossary.len())
}

/// What holds of the lines gathered while definitions are still being followed:
/// `witness` names for each line the entry it was gathered for, and every line but
/// those in `pending` is fully accounted for.
spec fn gathered(
    lines: Seq<Seq<char>>,
    witness: Seq<int>,
    glossary: Seq<TranslationView>,
    input: Seq<char>,
    pending: Set<int>,
) -> bool {
    &&& witness.len() == lines.len()
    &&& forall|a: int, b: int| 0 <= a < b < lines.len() ==> #[trigger] lines[a] != #[trigger] lines[b]
    &&& forall|k: int|
        0 <= k < lines.len() ==> {
            let j = #[trigger] witness[k];
            &&& 0 <= j < glossary.len()
            &&& lines[k] == entry_text(glossary[j])
            &&& (occurs_in(glossary[j].abbreviation, input) || exists|e: int|
                0 <= e < k && occurs_in(
                    glossary[j].abbreviation,
                    glossary[#[trigger] witness[e]].definition,
                ))
            &&& (!pending.contains(k) ==> covers(lines, glossary, glossary[j].definition))
        }
}

/// Lines that were covered stay covered when more lines are gathered behind them.
proof fn lemma_covers_grows(
    lines: Seq<Seq<char>>,
    more: Seq<Seq<char>>,
    glossary: Seq<TranslationView>,
    text: Seq<char>,
)
    requires
        covers(lines, glossary, text),
        lines.len() <= more.len(),
        forall|k: int| 0 <= k < lines.len() ==> #[trigger] more[k] == lines[k],
    ensures
        covers(more, glossary, text),
{
    assert forall|i: int|
        0 <= i < glossary.len() && occurs_in((#[trigger] glossary[i]).abbreviation, text)
        implies is_listed(more, entry_text(glossary[i])) by {
        let k = choose|k: int|
            0 <= k < lines.len() && #[trigger] lines[k] == entry_text(glossary[i]);
        assert(more[k] == entry_text(glossary[i]));
    }
}

/// Lines gathered for entries of the glossary, no two alike, are fewer than the
/// entries as long as one entry has a line that is not among them.
proof fn lemma_room_for_one_more(
    lines: Seq<Seq<char>>,
    witness: Seq<int>,
    glossary: Seq<TranslationView>,
    spare: int,
)
    requires
        witness.len() == lines.len(),
        forall|a: int, b: int| 0 <= a < b < lines.len() ==> #[trigger] lines[a] != #[trigger] lines[b],
        forall|k: int|
            0 <= k < lines.len() ==> 0 <= #[trigger] witness[k] < glossary.len() && lines[k]
                == entry_text(glossary[witness[k]]),
        0 <= spare < glossary.len(),
        !is_listed(lines, entry_text(glossary[spare])),
    ensures
        lines.len() < glossary.len(),
{
    let places = Set::new(|j: int| 0 <= j < glossary.len() && j != spare);
    let all_places = Set::new(|j: int| 0 <= j < glossary.len());
    vstd::set_lib::lemma_int_range(0, glossary.len() as int);
    assert(all_places =~= vstd::set_lib::set_int_range(0, glossary.len() as int));
    assert(places =~= all_places.remove(spare));
    assert(witness.no_duplicates()) by {
        assert forall|a: int, b: int|
            0 <= a < witness.len() && 0 <= b < witness.len() && a != b implies witness[a]
            != witness[b] by {
            if a < b {
                assert(lines[a] != lines[b]);
            } else {
                assert(lines[b] != lines[a]);
            }
        }
    }
    witness.unique_seq_to_set();
    assert(witness.to_set().subset_of(places)) by {
        assert forall|j: int| witness.to_set().contains(j) implies places.contains(j) by {
            let k = choose|k: int| 0 <= k < witness.len() && witness[k] == j;
            assert(lines[k] == entry_text(glossary[j]));
        }
    }
    vstd::set_lib::lemma_len_subset(witness.to_set(), places);
}

/// Whether `line` is among `lines`.
fn holds_line(lines: &Vec<String>, line: &String) -> (r: bool)
    ensures
        r == is_listed(texts(lines@), line@),
{
    let n: usize = lines.len();
    let mut k: usize = 0;
    while k < n
        invariant
            n == lines.len(),
            k <= n,
            forall|e: int| 0 <= e < k ==> #[trigger] texts(lines@)[e] != line@,
        decreases n - k,
    {
        if lines[k] == *line {
            assert(texts(lines@)[k as int] == line@);
            return true;
        }
        k += 1;
    }
    false
}

/// The line that shows an entry.
fn entry_line(translation: &Translation) -> (line: String)
    ensures
        line@ == entry_text(translation@),
{
    proof {
        reveal_strlit(": ");
    }
    let line = translation.abbreviation.clone().concat(": ").concat(
        translation.definition.as_str(),
    );
    assert(": "@ =~= seq![':', ' ']);
    line
}

/// Gathers behind `found` the lines that `text` calls up and that are not among them
/// yet, following the definition of each entry as soon as its line is gathered.
fn search(
    all: &Vec<Translation>,
    text: &str,
    found: &mut Vec<String>,
    Ghost(input): Ghost<Seq<char>>,
    Ghost(witness): Ghost<Seq<int>>,
    Ghost(pending): Ghost<Set<int>>,
    Ghost(parent): Ghost<int>,
    Ghost(depth): Ghost<nat>,
) -> (grown: Ghost<Seq<int>>)
    requires
        gathered(texts(old(found)@), witness, glossary_entries(all@), input, pending),
        old(found).len() + depth >= all.len(),
        parent == -1 ==> text@ == input,
        parent != -1 ==> 0 <= parent < old(found).len() && text@ == glossary_entries(
            all@,
        )[witness[parent]].definition,
    ensures
        gathered(texts(final(found)@), grown@, glossary_entries(all@), input, pending),
        old(found).len() <= final(found).len(),
        forall|k: int|
            0 <= k < old(found).len() ==> #[trigger] texts(final(found)@)[k] == texts(
                old(found)@,
            )[k] && grown@[k] == witness[k],
        covers(texts(final(found)@), glossary_entries(all@), text@),
        texts(final(found)@) == gathered_lines(
            glossary_entries(all@),
            text@,
            texts(old(found)@),
            0,
            depth,
        ),
    decreases all.len() - old(found).len(),
{
    let ghost glossary = glossary_entries(all@);
    let ghost start = texts(found@);
    let ghost mut wit = witness;
    let n: usize = all.len();
    let mut t: usize = 0;
    while t < n
        invariant
            n == all.len(),
            t <= n,
            glossary == glossary_entries(all@),
            start == texts(old(found)@),
            gathered(texts(found@), wit, glossary, input, pending),
            start.len() <= found.len(),
            forall|k: int|
                0 <= k < start.len() ==> #[trigger] texts(found@)[k] == start[k] && wit[k]
                    == witness[k],
            parent == -1 ==> text@ == input,
            parent != -1 ==> 0 <= parent < start.len() && text@
                == glossary[witness[parent]].definition,
            forall|i: int|
                0 <= i < t && occurs_in((#[trigger] glossary[i]).abbreviation, text@)
                    ==> is_listed(texts(found@), entry_text(glossary[i])),
            found.len() + depth >= all.len(),
            gathered_lines(glossary, text@, texts(found@), t as int, depth) == gathered_lines(
                glossary,
                text@,
                start,
                0,
                depth,
            ),
        decreases n - t,
    {
        let translation = &all[t];
        assert(glossary[t as int] == translation@);
        let ghost at_entry = texts(found@);
        if text_contains(text, translation.abbreviation.as_str()) {
            let entry = entry_line(translation);
            if !holds_line(found, &entry) {
                let ghost before = texts(found@);
                let ghost before_wit = wit;
                proof {
                    lemma_room_for_one_more(before, wit, glossary, t as int);
                }
                let definition = translation.definition.clone();
                found.push(entry);
                let ghost place = before.len() as int;
                proof {
                    wit = wit.push(t as int);
                    let now = texts(found@);
                    assert forall|k: int| 0 <= k < before.len() implies #[trigger] now[k]
                        == before[k] by {}
                    assert(now[place] == entry_text(glossary[t as int]));
                    assert forall|a: int, b: int| 0 <= a < b < now.len() implies #[trigger] now[a]
                        != #[trigger] now[b] by {
                        if b == place {
                            assert(now[a] == before[a]);
                        } else {
                            assert(now[a] == before[a] && now[b] == before[b]);
                        }
                    }
                    assert forall|k: int| 0 <= k < now.len() implies {
                        let j = #[trigger] wit[k];
                        &&& 0 <= j < glossary.len()
                        &&& now[k] == entry_text(glossary[j])
                        &&& (occurs_in(glossary[j].abbreviation, input) || exists|e: int|
                            0 <= e < k && occurs_in(
                                glossary[j].abbreviation,
                                glossary[#[trigger] wit[e]].definition,
                            ))
                        &&& (!pending.insert(place).contains(k) ==> covers(
                            now,
                            glossary,
                            glossary[j].definition,
                        ))
                    } by {
                        if k < place {
                            assert(wit[k] == before_wit[k]);
                            let j = before_wit[k];
                            if !occurs_in(glossary[j].abbreviation, input) {
                                let e = choose|e: int|
                                    0 <= e < k && occurs_in(
                                        glossary[j].abbreviation,
                                        glossary[#[trigger] before_wit[e]].definition,
                                    );
                                assert(wit[e] == before_wit[e]);
                            }
                            if !pending.contains(k) {
                                lemma_covers_grows(before, now, glossary, glossary[j].definition);
                            }
                        } else {
                            if parent != -1 {
                                assert(wit[parent] == witness[parent]);
                            }
                        }
                    }
                }
                assert(depth > 0);
                assert(texts(found@) =~= before.push(entry_text(glossary[t as int])));
                let grown = search(
                    all,
                    definition.as_str(),
                    found,
                    Ghost(input),
                    Ghost(wit),
                    Ghost(pending.insert(place)),
                    Ghost(place),
                    Ghost((depth - 1) as nat),
                );
                proof {
                    let after = texts(found@);
                    let mid_wit = wit;
                    wit = grown@;
                    assert forall|k: int| 0 <= k < after.len() implies {
                        let j = #[trigger] wit[k];
                        !pending.contains(k) ==> covers(after, glossary, glossary[j].definition)
                    } by {
                        if k == place {
                            assert(wit[place] == mid_wit[place]);
                        }
                    }
                    assert forall|i: int|
                        0 <= i < t + 1 && occurs_in((#[trigger] glossary[i]).abbreviation, text@)
                        implies is_listed(after, entry_text(glossary[i])) by {
                        if i < t {
                            let k = choose|k: int|
                                0 <= k < before.len() && #[trigger] before[k] == entry_text(
                                    glossary[i],
                                );
                            assert(after[k] == entry_text(glossary[i]));
                        } else {
                            assert(after[place] == entry_text(glossary[i]));
                        }
                    }
                    assert forall|k: int| 0 <= k < start.len() implies #[trigger] after[k]
                        == start[k] && wit[k] == witness[k] by {
                        assert(texts(found@)[k] == before[k]);
                    }
                }
            }
        }
        assert(gathered_lines(glossary, text@, texts(found@), t + 1, depth) == gathered_lines(
            glossary,
            text@,
            at_entry,
            t as int,
            depth,
        ));
        t += 1;
    }
    Ghost(wit)
}

/// Lists the glossary lines that a text calls up: the line of every entry whose
/// abbreviation stands in the text, and, entry by entry, of every entry whose
/// abbreviation stands in the definition of an entry already listed.
pub fn test_for_translation(all: &Vec<Translation>, input: &str) -> (lines: Vec<String>)
    ensures
        texts(lines@) == called_up(glossary_entries(all@), input@),
        are_called_up(texts(lines@), glossary_entries(all@), input@),
{
    let mut found: Vec<String> = Vec::new();
    let ghost glossary = glossary_entries(all@);
    assert(texts(found@) =~= Seq::<Seq<char>>::empty());
    let grown = search(
        all,
        input,
        &mut found,
        Ghost(input@),
        Ghost(Seq::<int>::empty()),
        Ghost(Set::<int>::empty()),
        Ghost(-1int),
        Ghost(all@.len()),
    );
    proof {
        let lines = texts(found@);
        let wit = grown@;
        assert forall|k: int| 0 <= k < lines.len() implies #[trigger] is_accounted_for(
            lines,
            glossary,
            input@,
            k,
        ) by {
            let j = wit[k];
            if !occurs_in(glossary[j].abbreviation, input@) {
                let e = choose|e: int|
                    0 <= e < k && occurs_in(
                        glossary[j].abbreviation,
                        glossary[#[trigger] wit[e]].definition,
                    );
                assert(lines[e] == entry_text(glossary[wit[e]]));
            }
            assert(accounts_for(lines, glossary, input@, k, j));
        }
    }
    found
}

} // verus!
