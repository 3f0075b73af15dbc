//! The reaction data: elements, stoichiometry, and the reaction rows themselves.
//!
//! Six CSV tables: the element table (which component is made of which
//! elements), the stoichiometry table (each reaction's coefficients), three
//! reaction tables that hold the same reaction names on different standard
//! states, and the component table, read for the ionic charge and the formation
//! properties alone.
//!
//! # The element table is what makes a component reactive
//!
//! A substance the element table does not carry has no composition, so it
//! cannot enter the balance and takes no part in a reaction.
//!
//! # Three sources, and they are not interchangeable
//!
//! The parameters of one reaction source are not valid for another's model,
//! so the source is an input rather than a default that silently differs.
//!
//! # Numbers are carried as the table writes them
//!
//! Every numeric column is returned as its text. Reading that text as a
//! floating-point value is left to the caller.

use vstd::prelude::*;

use crate::error::ReactionError;
use crate::tables::{
    csv_header, read_header, csv_records, is_first_short, load_failure, malformed, malformed_as, read_records, records_load, short_record,
};
use crate::text::{
    to_lowercase, trimmed, trimmed_chars, unicode_lowercase, same_text, chars_equal,
    lemma_plain_text_is_its_own_key, lemma_underscored_has_no_hyphen, lemma_underscored_preimage,
    selector_key, selector_key_chars, string_from_chars, underscored,
};

verus! {

/// The element table's path under the data directory.
pub const ELEMENTS_PATH: &'static str = "data/reactions/elements.csv";

/// The stoichiometry table's path.
pub const STOICHIOMETRY_PATH: &'static str = "data/reactions/stoichiometry.csv";

/// The component databank's path, read for the ionic charge and the formation
/// properties alone.
pub const COMPONENTS_PATH: &'static str = "data/components/components.csv";

/// Which table a reaction's `K` is read from.
///
/// The three members hold the same reactions on different standard states, so
/// this selects a convention and not a fallback chain.
#[derive(Debug, Clone, Copy, PartialEq, Eq, Structural)]
pub enum ReactionDataSource {
    /// `reactiondata`, the general set an electrolyte EOS system uses.
    Standard,
    /// `reactiondatapitzer`, on the molality standard state, with validated rows.
    Pitzer,
    /// `reactiondatakenteisenberg`, apparent equilibrium constants.
    KentEisenberg,
}

/// The source's own identifier.
pub open spec fn source_identifier(source: ReactionDataSource) -> Seq<char> {
    match source {
        ReactionDataSource::Standard => "standard"@,
        ReactionDataSource::Pitzer => "pitzer"@,
        ReactionDataSource::KentEisenberg => "kent-eisenberg"@,
    }
}

/// The source a selector key names, if any.
pub open spec fn source_named(key: Seq<char>) -> Option<ReactionDataSource> {
    if key == "standard"@ {
        Some(ReactionDataSource::Standard)
    } else if key == "pitzer"@ {
        Some(ReactionDataSource::Pitzer)
    } else if key == "kent-eisenberg"@ || key == "kent_eisenberg"@ {
        Some(ReactionDataSource::KentEisenberg)
    } else {
        None
    }
}

/// What a parse of a selector name answers: the thing it names, or the
/// refusal naming `field` and the key that was compared.
pub open spec fn parsed_as<T>(
    r: Result<T, ReactionError>,
    named: Option<T>,
    field: Seq<char>,
    key: Seq<char>,
) -> bool {
    match named {
        Some(v) => r == Ok::<T, ReactionError>(v),
        None => match r {
            Err(ReactionError::UnknownName { field: f, value }) => f@ == field && value@ == key,
            _ => false,
        },
    }
}

/// The texts of the six tables, as the data directory holds them.
pub struct ReactionTables {
    /// The element table.
    pub elements: String,
    /// The stoichiometry table.
    pub stoichiometry: String,
    /// The general reaction table.
    pub standard: String,
    /// The Pitzer reaction table, with its validation column.
    pub pitzer: String,
    /// The Kent-Eisenberg reaction table.
    pub kent_eisenberg: String,
    /// The component databank.
    pub components: String,
}

/// The text a source reads.
pub open spec fn source_text(tables: ReactionTables, source: ReactionDataSource) -> Seq<char> {
    match source {
        ReactionDataSource::Standard => tables.standard@,
        ReactionDataSource::Pitzer => tables.pitzer@,
        ReactionDataSource::KentEisenberg => tables.kent_eisenberg@,
    }
}

impl ReactionDataSource {
    /// The table's own identifier.
    pub fn identifier(self) -> (r: &'static str)
        ensures
            r@ == source_identifier(self),
    {
        match self {
            Self::Standard => "standard",
            Self::Pitzer => "pitzer",
            Self::KentEisenberg => "kent-eisenberg",
        }
    }

    /// The table text this source reads.
    pub fn text(self, tables: &ReactionTables) -> (r: &str)
        ensures
            r@ == source_text(*tables, self),
    {
        match self {
            Self::Standard => tables.standard.as_str(),
            Self::Pitzer => tables.pitzer.as_str(),
            Self::KentEisenberg => tables.kent_eisenberg.as_str(),
        }
    }

    /// The source a name selects, compared trimmed and without regard to ASCII case.
    ///
    /// A source this library does not carry is refused rather than falling back
    /// to the general set: the three are different standard states.
    pub fn parse(value: &str) -> (r: Result<Self, ReactionError>)
        ensures
            parsed_as(
                r,
                source_named(selector_key(value@)),
                "reaction_data_source"@,
                selector_key(value@),
            ),
    {
        let key = selector_key_chars(value);
        if chars_equal(&key, "standard") {
            Ok(Self::Standard)
        } else if chars_equal(&key, "pitzer") {
            Ok(Self::Pitzer)
        } else if chars_equal(&key, "kent-eisenberg") || chars_equal(&key, "kent_eisenberg") {
            Ok(Self::KentEisenberg)
        } else {
            Err(
                ReactionError::UnknownName {
                    field: "reaction_data_source".to_owned(),
                    value: string_from_chars(&key),
                },
            )
        }
    }
}

impl std::str::FromStr for ReactionDataSource {
    type Err = ReactionError;

    fn from_str(value: &str) -> (r: Result<Self, Self::Err>)
        ensures
            parsed_as(
                r,
                source_named(selector_key(value@)),
                "reaction_data_source"@,
                selector_key(value@),
            ),
    {
        Self::parse(value)
    }
}

/// A source's identifier selects that source again.
pub proof fn source_identifier_round_trips(source: ReactionDataSource)
    ensures
        source_named(selector_key(source_identifier(source))) == Some(source),
{
    reveal_strlit("standard");
    reveal_strlit("pitzer");
    reveal_strlit("kent-eisenberg");
    lemma_plain_text_is_its_own_key(source_identifier(source));
}

/// One element's count in one component, as the element table writes it.
#[derive(Debug)]
pub struct ElementRow {
    /// The substance.
    pub component: String,
    /// The element symbol.
    pub element: String,
    /// How many atoms of it the formula carries, as the table's text.
    pub count: String,
}

/// The characters of an [`ElementRow`].
pub struct ElementEntry {
    pub component: Seq<char>,
    pub element: Seq<char>,
    pub count: Seq<char>,
}

impl View for ElementRow {
    type V = ElementEntry;

    open spec fn view(&self) -> ElementEntry {
        ElementEntry { component: self.component@, element: self.element@, count: self.count@ }
    }
}

/// The element row a record holds: component, element and count in its second
/// to fourth fields.
pub open spec fn element_entry_of(record: Seq<Seq<char>>) -> ElementEntry {
    ElementEntry { component: record[1], element: record[2], count: record[3] }
}

/// The element rows a run of records holds.
pub open spec fn element_entries_of(records: Seq<Seq<Seq<char>>>) -> Seq<ElementEntry> {
    records.map_values(|record: Seq<Seq<char>>| element_entry_of(record))
}

/// The rows of the element table, where it loads.
pub open spec fn element_entries(tables: ReactionTables) -> Seq<ElementEntry> {
    element_entries_of(csv_records(tables.elements@).0)
}

/// The element table's text parses and every record is wide enough.
pub open spec fn element_table_loads(tables: ReactionTables) -> bool {
    records_load(csv_records(tables.elements@), 4)
}

/// The characters of a run of element rows.
pub open spec fn element_views(rows: Seq<ElementRow>) -> Seq<ElementEntry> {
    rows.map_values(|row: ElementRow| row@)
}

/// The outcome of any read of the element table: the table's rows, or the
/// refusal of its first unreadable record.
pub open spec fn element_read<T>(r: Result<T, ReactionError>, tables: ReactionTables) -> bool {
    match r {
        Ok(_) => element_table_loads(tables),
        Err(e) => !element_table_loads(tables) && load_failure(
            e,
            csv_records(tables.elements@),
            4,
            1,
        ),
    }
}

/// The `(element, count)` pairs of one component, in the table's order.
pub open spec fn composition_of(entries: Seq<ElementEntry>, component: Seq<char>) -> Seq<
    (Seq<char>, Seq<char>),
>
    decreases entries.len(),
{
    if entries.len() == 0 {
        Seq::empty()
    } else {
        let rest = composition_of(entries.drop_last(), component);
        if entries.last().component == component {
            rest.push((entries.last().element, entries.last().count))
        } else {
            rest
        }
    }
}

/// The characters of a run of `(String, String)` pairs.
pub open spec fn pair_views(pairs: Seq<(String, String)>) -> Seq<(Seq<char>, Seq<char>)> {
    pairs.map_values(|pair: (String, String)| (pair.0@, pair.1@))
}

/// Each text once, in the order it first occurs.
pub open spec fn distinct_in_order(names: Seq<Seq<char>>) -> Seq<Seq<char>>
    decreases names.len(),
{
    if names.len() == 0 {
        names
    } else {
        let rest = distinct_in_order(names.drop_last());
        if rest.contains(names.last()) {
            rest
        } else {
            rest.push(names.last())
        }
    }
}

/// The components a run of element rows names.
pub open spec fn components_of(entries: Seq<ElementEntry>) -> Seq<Seq<char>> {
    entries.map_values(|entry: ElementEntry| entry.component)
}

/// The characters of a run of strings.
pub open spec fn string_views(names: Seq<String>) -> Seq<Seq<char>> {
    names.map_values(|name: String| name@)
}

/// Every row of the element table.
///
/// Fails where the table's text does not parse, or where a record lacks a
/// column.
pub fn elements(tables: &ReactionTables) -> (r: Result<Vec<ElementRow>, ReactionError>)
    ensures
        element_read(r, *tables),
        r matches Ok(rows) ==> element_views(rows@) == element_entries(*tables),
{
    let (records, failure) = read_records(tables.elements.as_str());
    let ghost recs = records.deep_view();
    let mut out: Vec<ElementRow> = Vec::new();
    let mut i: usize = 0;
    while i < records.len()
        invariant
            i <= records@.len(),
            recs == records.deep_view(),
            csv_records(tables.elements@).0 == recs,
            forall|j: int| 0 <= j < i ==> #[trigger] recs[j].len() >= 4,
            element_views(out@) == element_entries_of(recs.take(i as int)),
        decreases records@.len() - i,
    {
        let record = &records[i];
        assert(recs[i as int] == record.deep_view());
        if record.len() < 4 {
            let e = short_record(record, 1);
            assert(is_first_short(recs, 4, i as int));
            return Err(e);
        }
        let ghost prev = out@;
        out.push(
            ElementRow {
                component: record[1].clone(),
                element: record[2].clone(),
                count: record[3].clone(),
            },
        );
        proof {
            assert(record.deep_view()[1] == record@[1]@);
            assert(record.deep_view()[2] == record@[2]@);
            assert(record.deep_view()[3] == record@[3]@);
            assert(out@.last()@ == element_entry_of(recs[i as int]));
            assert(recs.take(i + 1) =~= recs.take(i as int).push(recs[i as int]));
            assert(element_views(out@) =~= element_views(prev).push(out@.last()@));
            assert(element_entries_of(recs.take(i + 1)) =~= element_entries_of(
                recs.take(i as int),
            ).push(element_entry_of(recs[i as int])));
        }
        i = i + 1;
    }
    assert(recs.take(records@.len() as int) =~= recs);
    match failure {
        Some(message) => Err(malformed(message)),
        None => Ok(out),
    }
}

/// The `(element, count)` pairs of one component among some element rows.
fn composition_in(rows: &Vec<ElementRow>, component: &str) -> (pairs: Vec<(String, String)>)
    ensures
        pair_views(pairs@) == composition_of(element_views(rows@), component@),
{
    let ghost entries = element_views(rows@);
    let mut pairs: Vec<(String, String)> = Vec::new();
    let mut i: usize = 0;
    while i < rows.len()
        invariant
            i <= rows@.len(),
            entries == element_views(rows@),
            pair_views(pairs@) == composition_of(entries.take(i as int), component@),
        decreases rows@.len() - i,
    {
        let row = &rows[i];
        proof {
            assert(entries.take(i + 1).drop_last() =~= entries.take(i as int));
        }
        assert(entries[i as int] == row@);
        if same_text(row.component.as_str(), component) {
            pairs.push((row.element.clone(), row.count.clone()));
            assert(pair_views(pairs@) =~= composition_of(entries.take(i + 1), component@));
        } else {
            assert(pair_views(pairs@) =~= composition_of(entries.take(i + 1), component@));
        }
        i = i + 1;
    }
    assert(entries.take(rows@.len() as int) =~= entries);
    pairs
}

/// The elements one component's formula is made of, in the table's own order.
///
/// `None` where the table has no row for the name, which is the state that
/// keeps a component out of the element matrix. An empty list does not occur.
pub fn element_composition(tables: &ReactionTables, component: &str) -> (r: Result<
    Option<Vec<(String, String)>>,
    ReactionError,
>)
    ensures
        element_read(r, *tables),
        r matches Ok(found) ==> match found {
            Some(pairs) => pairs@.len() > 0 && pair_views(pairs@) == composition_of(
                element_entries(*tables),
                component@,
            ),
            None => composition_of(element_entries(*tables), component@).len() == 0,
        },
{
    let rows = match elements(tables) {
        Ok(rows) => rows,
        Err(e) => return Err(e),
    };
    let pairs = composition_in(&rows, component);
    if pairs.len() == 0 {
        Ok(None)
    } else {
        Ok(Some(pairs))
    }
}

/// Whether `name` is among `names`.
fn holds_name(names: &Vec<String>, name: &String) -> (b: bool)
    ensures
        b == string_views(names@).contains(name@),
{
    let mut i: usize = 0;
    while i < names.len()
        invariant
            i <= names@.len(),
            forall|j: int| 0 <= j < i ==> names@[j]@ != name@,
        decreases names@.len() - i,
    {
        if names[i] == *name {
            assert(string_views(names@)[i as int] == name@);
            return true;
        }
        i = i + 1;
    }
    false
}

/// The components some element rows name, each once, in first-seen order.
fn components_in(rows: &Vec<ElementRow>) -> (names: Vec<String>)
    ensures
        string_views(names@) == distinct_in_order(components_of(element_views(rows@))),
{
    let ghost all = components_of(element_views(rows@));
    let mut names: Vec<String> = Vec::new();
    let mut i: usize = 0;
    while i < rows.len()
        invariant
            i <= rows@.len(),
            all == components_of(element_views(rows@)),
            string_views(names@) == distinct_in_order(all.take(i as int)),
        decreases rows@.len() - i,
    {
        let row = &rows[i];
        proof {
            assert(all.take(i + 1).drop_last() =~= all.take(i as int));
            assert(all[i as int] == row.component@);
        }
        if !holds_name(&names, &row.component) {
            names.push(row.component.clone());
            assert(string_views(names@) =~= distinct_in_order(all.take(i + 1)));
        }
        i = i + 1;
    }
    assert(all.take(rows@.len() as int) =~= all);
    names
}

/// Every component the element table carries, which is the set that can
/// react: each once, in the order the table first names it.
pub fn reactive_components(tables: &ReactionTables) -> (r: Result<Vec<String>, ReactionError>)
    ensures
        element_read(r, *tables),
        r matches Ok(names) ==> string_views(names@) == distinct_in_order(
            components_of(element_entries(*tables)),
        ),
{
    let rows = match elements(tables) {
        Ok(rows) => rows,
        Err(e) => return Err(e),
    };
    Ok(components_in(&rows))
}

/// Every component's composition, keyed by component: each component the
/// element table names once, in first-seen order, with its `(element, count)`
/// pairs in the table's order.
pub fn composition_table(tables: &ReactionTables) -> (r: Result<
    Vec<(String, Vec<(String, String)>)>,
    ReactionError,
>)
    ensures
        element_read(r, *tables),
        r matches Ok(table) ==> {
            &&& table@.len() == distinct_in_order(components_of(element_entries(*tables))).len()
            &&& forall|k: int|
                0 <= k < table@.len() ==> {
                    &&& (#[trigger] table@[k]).0@ == distinct_in_order(
                        components_of(element_entries(*tables)),
                    )[k]
                    &&& pair_views(table@[k].1@) == composition_of(
                        element_entries(*tables),
                        table@[k].0@,
                    )
                }
        },
{
    let rows = match elements(tables) {
        Ok(rows) => rows,
        Err(e) => return Err(e),
    };
    let names = components_in(&rows);
    let ghost keys = string_views(names@);
    let mut table: Vec<(String, Vec<(String, String)>)> = Vec::new();
    let mut k: usize = 0;
    while k < names.len()
        invariant
            k <= names@.len(),
            keys == string_views(names@),
            keys == distinct_in_order(components_of(element_views(rows@))),
            element_views(rows@) == element_entries(*tables),
            table@.len() == k,
            forall|j: int|
                0 <= j < k ==> {
                    &&& (#[trigger] table@[j]).0@ == keys[j]
                    &&& pair_views(table@[j].1@) == composition_of(
                        element_entries(*tables),
                        table@[j].0@,
                    )
                },
        decreases names@.len() - k,
    {
        let name = names[k].clone();
        let pairs = composition_in(&rows, name.as_str());
        table.push((name, pairs));
        k = k + 1;
    }
    Ok(table)
}

/// The components the element table carries are each listed once, and they
/// are exactly the components its rows name.
pub proof fn distinct_in_order_lists_each_once(names: Seq<Seq<char>>)
    ensures
        distinct_in_order(names).no_duplicates(),
        forall|x: Seq<char>| #[trigger] distinct_in_order(names).contains(x) <==> names.contains(x),
    decreases names.len(),
{
    if names.len() > 0 {
        let init = names.drop_last();
        distinct_in_order_lists_each_once(init);
        let rest = distinct_in_order(init);
        assert forall|x: Seq<char>| #[trigger] distinct_in_order(names).contains(x) <==> names.contains(x) by {
            if names.contains(x) {
                let i = choose|i: int| 0 <= i < names.len() && names[i] == x;
                if i < names.len() - 1 {
                    assert(init[i] == x);
                }
            }
            if init.contains(x) {
                let i = choose|i: int| 0 <= i < init.len() && init[i] == x;
                assert(names[i] == x);
            }
            if !rest.contains(names.last()) {
                if distinct_in_order(names).contains(x) {
                    let i = choose|i: int| 0 <= i < rest.len() + 1 && rest.push(names.last())[i] == x;
                    if i < rest.len() {
                        assert(rest.contains(x));
                    }
                }
                if rest.contains(x) {
                    let i = choose|i: int| 0 <= i < rest.len() && rest[i] == x;
                    assert(rest.push(names.last())[i] == x);
                }
                assert(rest.push(names.last())[rest.len() as int] == names.last());
            }
        }
    }
}

/// `x` occurs among the first `q` names.
pub open spec fn occurs_before(names: Seq<Seq<char>>, x: Seq<char>, q: int) -> bool {
    exists|p: int| 0 <= p < q && #[trigger] names[p] == x
}

/// The names are listed in the order they first occur: wherever a name listed
/// later occurs, a name listed earlier has already occurred.
pub proof fn distinct_in_order_keeps_first_occurrence_order(names: Seq<Seq<char>>)
    ensures
        forall|i: int, j: int, q: int|
            #![trigger names[q], distinct_in_order(names)[j], distinct_in_order(names)[i]]
            0 <= i < j < distinct_in_order(names).len() && 0 <= q < names.len() && names[q]
                == distinct_in_order(names)[j] ==> occurs_before(names, distinct_in_order(names)[i], q),
    decreases names.len(),
{
    if names.len() > 0 {
        let init = names.drop_last();
        let d = distinct_in_order(names);
        let rest = distinct_in_order(init);
        distinct_in_order_keeps_first_occurrence_order(init);
        distinct_in_order_lists_each_once(init);
        assert forall|i: int, j: int, q: int|
            #![trigger names[q], d[j], d[i]]
            0 <= i < j < d.len() && 0 <= q < names.len() && names[q] == d[j]
            implies occurs_before(names, d[i], q) by {
            assert(d[i] == rest[i]);
            assert(rest.contains(rest[i]));
            let p0 = choose|p: int| 0 <= p < init.len() && init[p] == rest[i];
            assert(names[p0] == init[p0]);
            if q == names.len() - 1 {
                assert(p0 < q);
            } else {
                assert(init[q] == names[q]);
                if j < rest.len() {
                    assert(d[j] == rest[j]);
                    assert(occurs_before(init, rest[i], q));
                    let p = choose|p: int| 0 <= p < q && #[trigger] init[p] == rest[i];
                    assert(names[p] == init[p]);
                } else {
                    assert(d[j] == names.last());
                    assert(!rest.contains(names.last()));
                    assert(init.contains(init[q]));
                    assert(false);
                }
            }
        }
    }
}

/// One component's coefficient in one reaction, as the stoichiometry table writes it.
#[derive(Debug)]
pub struct StoichiometryRow {
    /// The reaction's name.
    pub reaction: String,
    /// The substance.
    pub component: String,
    /// The coefficient, negative for a reactant and positive for a product, as
    /// the table's text.
    pub coefficient: String,
}

/// The characters of a [`StoichiometryRow`].
pub struct StoichiometryEntry {
    pub reaction: Seq<char>,
    pub component: Seq<char>,
    pub coefficient: Seq<char>,
}

impl View for StoichiometryRow {
    type V = StoichiometryEntry;

    open spec fn view(&self) -> StoichiometryEntry {
        StoichiometryEntry {
            reaction: self.reaction@,
            component: self.component@,
            coefficient: self.coefficient@,
        }
    }
}

/// The stoichiometry row a record holds: reaction, component and coefficient
/// in its third to fifth fields.
pub open spec fn stoichiometry_entry_of(record: Seq<Seq<char>>) -> StoichiometryEntry {
    StoichiometryEntry { reaction: record[2], component: record[3], coefficient: record[4] }
}

/// The stoichiometry rows a run of records holds.
pub open spec fn stoichiometry_entries_of(records: Seq<Seq<Seq<char>>>) -> Seq<
    StoichiometryEntry,
> {
    records.map_values(|record: Seq<Seq<char>>| stoichiometry_entry_of(record))
}

/// The rows of the stoichiometry table, where it loads.
pub open spec fn stoichiometry_entries(tables: ReactionTables) -> Seq<StoichiometryEntry> {
    stoichiometry_entries_of(csv_records(tables.stoichiometry@).0)
}

/// The characters of a run of stoichiometry rows.
pub open spec fn stoichiometry_views(rows: Seq<StoichiometryRow>) -> Seq<StoichiometryEntry> {
    rows.map_values(|row: StoichiometryRow| row@)
}

/// The outcome of any read of the stoichiometry table.
pub open spec fn stoichiometry_read<T>(r: Result<T, ReactionError>, tables: ReactionTables) -> bool {
    match r {
        Ok(_) => records_load(csv_records(tables.stoichiometry@), 5),
        Err(e) => !records_load(csv_records(tables.stoichiometry@), 5) && load_failure(
            e,
            csv_records(tables.stoichiometry@),
            5,
            2,
        ),
    }
}

/// The `(component, coefficient)` pairs of one reaction, in the table's order.
pub open spec fn coefficients_of(entries: Seq<StoichiometryEntry>, reaction: Seq<char>) -> Seq<
    (Seq<char>, Seq<char>),
>
    decreases entries.len(),
{
    if entries.len() == 0 {
        Seq::empty()
    } else {
        let rest = coefficients_of(entries.drop_last(), reaction);
        if entries.last().reaction == reaction {
            rest.push((entries.last().component, entries.last().coefficient))
        } else {
            rest
        }
    }
}

/// Every row of the stoichiometry table.
pub fn stoichiometry_rows(tables: &ReactionTables) -> (r: Result<
    Vec<StoichiometryRow>,
    ReactionError,
>)
    ensures
        stoichiometry_read(r, *tables),
        r matches Ok(rows) ==> stoichiometry_views(rows@) == stoichiometry_entries(*tables),
{
    let (records, failure) = read_records(tables.stoichiometry.as_str());
    let ghost recs = records.deep_view();
    let mut out: Vec<StoichiometryRow> = Vec::new();
    let mut i: usize = 0;
    while i < records.len()
        invariant
            i <= records@.len(),
            recs == records.deep_view(),
            csv_records(tables.stoichiometry@).0 == recs,
            forall|j: int| 0 <= j < i ==> #[trigger] recs[j].len() >= 5,
            stoichiometry_views(out@) == stoichiometry_entries_of(recs.take(i as int)),
        decreases records@.len() - i,
    {
        let record = &records[i];
        assert(recs[i as int] == record.deep_view());
        if record.len() < 5 {
            let e = short_record(record, 2);
            assert(is_first_short(recs, 5, i as int));
            return Err(e);
        }
        let ghost prev = out@;
        out.push(
            StoichiometryRow {
                reaction: record[2].clone(),
                component: record[3].clone(),
                coefficient: record[4].clone(),
            },
        );
        proof {
            assert(record.deep_view()[2] == record@[2]@);
            assert(record.deep_view()[3] == record@[3]@);
            assert(record.deep_view()[4] == record@[4]@);
            assert(out@.last()@ == stoichiometry_entry_of(recs[i as int]));
            assert(recs.take(i + 1) =~= recs.take(i as int).push(recs[i as int]));
            assert(stoichiometry_views(out@) =~= stoichiometry_views(prev).push(out@.last()@));
            assert(stoichiometry_entries_of(recs.take(i + 1)) =~= stoichiometry_entries_of(
                recs.take(i as int),
            ).push(stoichiometry_entry_of(recs[i as int])));
        }
        i = i + 1;
    }
    assert(recs.take(records@.len() as int) =~= recs);
    match failure {
        Some(message) => Err(malformed(message)),
        None => Ok(out),
    }
}

/// The stoichiometric coefficients of one reaction, keyed by component, in the
/// table's order.
pub fn stoichiometry(tables: &ReactionTables, reaction: &str) -> (r: Result<
    Vec<(String, String)>,
    ReactionError,
>)
    ensures
        stoichiometry_read(r, *tables),
        r matches Ok(pairs) ==> pair_views(pairs@) == coefficients_of(
            stoichiometry_entries(*tables),
            reaction@,
        ),
{
    let rows = match stoichiometry_rows(tables) {
        Ok(rows) => rows,
        Err(e) => return Err(e),
    };
    let ghost entries = stoichiometry_views(rows@);
    let mut pairs: Vec<(String, String)> = Vec::new();
    let mut i: usize = 0;
    while i < rows.len()
        invariant
            i <= rows@.len(),
            entries == stoichiometry_views(rows@),
            pair_views(pairs@) == coefficients_of(entries.take(i as int), reaction@),
        decreases rows@.len() - i,
    {
        let row = &rows[i];
        proof {
            assert(entries.take(i + 1).drop_last() =~= entries.take(i as int));
        }
        assert(entries[i as int] == row@);
        if same_text(row.reaction.as_str(), reaction) {
            pairs.push((row.component.clone(), row.coefficient.clone()));
            assert(pair_views(pairs@) =~= coefficients_of(entries.take(i + 1), reaction@));
        } else {
            assert(pair_views(pairs@) =~= coefficients_of(entries.take(i + 1), reaction@));
        }
        i = i + 1;
    }
    assert(entries.take(rows@.len() as int) =~= entries);
    Ok(pairs)
}

/// One reaction's fitted constants, as the reaction table writes them.
#[derive(Debug)]
pub struct ReactionRow {
    /// The reaction's name, which is what selects it.
    pub name: String,
    /// The four coefficients of `ln K = K1 + K2/T + K3 ln T + K4 T`.
    pub coefficients: [String; 4],
    /// The reference temperature the fit is anchored at.
    pub reference_temperature: String,
    /// The pre-exponential rate factor.
    pub rate_factor: String,
    /// The activation energy, in the table's own units.
    pub activation_energy: String,
    /// The literature citation for the fit.
    pub reference: String,
    /// Whether the row is loaded at all: a nonzero number where it is.
    pub use_reaction: String,
    /// The Pitzer source's evidence column. `None` for the other two sources,
    /// which do not carry it rather than carrying an empty one.
    pub validation_status: Option<String>,
}

/// The characters of a [`ReactionRow`].
pub struct ReactionEntry {
    pub name: Seq<char>,
    pub coefficients: Seq<Seq<char>>,
    pub reference_temperature: Seq<char>,
    pub rate_factor: Seq<char>,
    pub activation_energy: Seq<char>,
    pub reference: Seq<char>,
    pub use_reaction: Seq<char>,
    pub validation_status: Option<Seq<char>>,
}

/// The characters of an optional string.
pub open spec fn optional_view(s: Option<String>) -> Option<Seq<char>> {
    match s {
        Some(text) => Some(text@),
        None => None,
    }
}

impl View for ReactionRow {
    type V = ReactionEntry;

    open spec fn view(&self) -> ReactionEntry {
        ReactionEntry {
            name: self.name@,
            coefficients: seq![
                self.coefficients[0]@,
                self.coefficients[1]@,
                self.coefficients[2]@,
                self.coefficients[3]@,
            ],
            reference_temperature: self.reference_temperature@,
            rate_factor: self.rate_factor@,
            activation_energy: self.activation_energy@,
            reference: self.reference@,
            use_reaction: self.use_reaction@,
            validation_status: optional_view(self.validation_status),
        }
    }
}

/// The reaction row a record holds: the name in its third field, the four
/// coefficients, the reference temperature, the rate factor, the activation
/// energy, the citation and the use flag after it, and - only where the
/// record runs to a thirteenth field - the validation status.
pub open spec fn reaction_entry_of(record: Seq<Seq<char>>) -> ReactionEntry {
    ReactionEntry {
        name: record[2],
        coefficients: seq![record[3], record[4], record[5], record[6]],
        reference_temperature: record[7],
        rate_factor: record[8],
        activation_energy: record[9],
        reference: record[10],
        use_reaction: record[11],
        validation_status: if record.len() > 12 {
            Some(record[12])
        } else {
            None
        },
    }
}

/// The reaction rows a run of records holds.
pub open spec fn reaction_entries_of(records: Seq<Seq<Seq<char>>>) -> Seq<ReactionEntry> {
    records.map_values(|record: Seq<Seq<char>>| reaction_entry_of(record))
}

/// The rows of a source's reaction table, where it loads.
pub open spec fn reaction_entries(tables: ReactionTables, source: ReactionDataSource) -> Seq<
    ReactionEntry,
> {
    reaction_entries_of(csv_records(source_text(tables, source)).0)
}

/// The characters of a run of reaction rows.
pub open spec fn reaction_views(rows: Seq<ReactionRow>) -> Seq<ReactionEntry> {
    rows.map_values(|row: ReactionRow| row@)
}

/// The outcome of any read of a source's reaction table. A record is read
/// from its use flag, the twelfth column, before the columns from the third,
/// so a record too short is refused at that column.
pub open spec fn reaction_read<T>(
    r: Result<T, ReactionError>,
    tables: ReactionTables,
    source: ReactionDataSource,
) -> bool {
    match r {
        Ok(_) => records_load(csv_records(source_text(tables, source)), 12),
        Err(e) => !records_load(csv_records(source_text(tables, source)), 12) && load_failure(
            e,
            csv_records(source_text(tables, source)),
            12,
            11,
        ),
    }
}

/// Row `i` is the first whose name is `name`.
pub open spec fn is_first_named(entries: Seq<ReactionEntry>, name: Seq<char>, i: int) -> bool {
    &&& 0 <= i < entries.len()
    &&& entries[i].name == name
    &&& forall|j: int| 0 <= j < i ==> (#[trigger] entries[j]).name != name
}

/// Some row of `entries` up to `k` is the first named `name`, given that row
/// `k` is.
proof fn lemma_first_named_exists(entries: Seq<ReactionEntry>, name: Seq<char>, k: int)
    requires
        0 <= k < entries.len(),
        entries[k].name == name,
    ensures
        exists|i: int| #[trigger] is_first_named(entries, name, i),
    decreases k,
{
    if exists|j: int| 0 <= j < k && (#[trigger] entries[j]).name == name {
        let j = choose|j: int| 0 <= j < k && (#[trigger] entries[j]).name == name;
        lemma_first_named_exists(entries, name, j);
    } else {
        assert(is_first_named(entries, name, k));
    }
}

/// A reaction is found by name exactly when the source's list of names holds
/// that name.
pub proof fn a_reaction_is_found_exactly_when_named(
    tables: ReactionTables,
    source: ReactionDataSource,
    name: Seq<char>,
)
    ensures
        (exists|i: int| #[trigger] is_first_named(reaction_entries(tables, source), name, i))
            <==> reaction_entries(tables, source).map_values(|entry: ReactionEntry| entry.name).contains(
            name,
        ),
{
    let entries = reaction_entries(tables, source);
    let names = entries.map_values(|entry: ReactionEntry| entry.name);
    if names.contains(name) {
        let k = choose|k: int| 0 <= k < names.len() && names[k] == name;
        lemma_first_named_exists(entries, name, k);
    }
    if exists|i: int| #[trigger] is_first_named(entries, name, i) {
        let i = choose|i: int| #[trigger] is_first_named(entries, name, i);
        assert(names[i] == name);
    }
}

/// A copy of an optional string.
fn copy_optional(s: &Option<String>) -> (r: Option<String>)
    ensures
        optional_view(r) == optional_view(*s),
{
    match s {
        Some(text) => Some(text.clone()),
        None => None,
    }
}

impl ReactionRow {
    /// A copy of the row.
    pub fn duplicate(&self) -> (r: Self)
        ensures
            r@ == self@,
    {
        ReactionRow {
            name: self.name.clone(),
            coefficients: [
                self.coefficients[0].clone(),
                self.coefficients[1].clone(),
                self.coefficients[2].clone(),
                self.coefficients[3].clone(),
            ],
            reference_temperature: self.reference_temperature.clone(),
            rate_factor: self.rate_factor.clone(),
            activation_energy: self.activation_energy.clone(),
            reference: self.reference.clone(),
            use_reaction: self.use_reaction.clone(),
            validation_status: copy_optional(&self.validation_status),
        }
    }
}

/// The reaction row a record holds, which must be at least twelve fields wide.
fn reaction_row_of(record: &Vec<String>) -> (row: ReactionRow)
    requires
        record@.len() >= 12,
    ensures
        row@ == reaction_entry_of(record.deep_view()),
{
    let validation_status = if record.len() > 12 {
        Some(record[12].clone())
    } else {
        None
    };
    let row = ReactionRow {
        name: record[2].clone(),
        coefficients: [record[3].clone(), record[4].clone(), record[5].clone(), record[6].clone()],
        reference_temperature: record[7].clone(),
        rate_factor: record[8].clone(),
        activation_energy: record[9].clone(),
        reference: record[10].clone(),
        use_reaction: record[11].clone(),
        validation_status,
    };
    proof {
        let d = record.deep_view();
        assert(forall|k: int| 0 <= k < record@.len() ==> #[trigger] d[k] == record@[k]@);
        assert(row@.coefficients =~= seq![d[3], d[4], d[5], d[6]]);
    }
    row
}

/// Every row a source's reaction table carries, loaded or not.
pub fn reactions(tables: &ReactionTables, source: ReactionDataSource) -> (r: Result<
    Vec<ReactionRow>,
    ReactionError,
>)
    ensures
        reaction_read(r, *tables, source),
        r matches Ok(rows) ==> reaction_views(rows@) == reaction_entries(*tables, source),
{
    let (records, failure) = read_records(source.text(tables));
    let ghost recs = records.deep_view();
    let mut out: Vec<ReactionRow> = Vec::new();
    let mut i: usize = 0;
    while i < records.len()
        invariant
            i <= records@.len(),
            recs == records.deep_view(),
            csv_records(source_text(*tables, source)).0 == recs,
            forall|j: int| 0 <= j < i ==> #[trigger] recs[j].len() >= 12,
            reaction_views(out@) == reaction_entries_of(recs.take(i as int)),
        decreases records@.len() - i,
    {
        let record = &records[i];
        assert(recs[i as int] == record.deep_view());
        if record.len() < 12 {
            let e = short_record(record, 11);
            assert(is_first_short(recs, 12, i as int));
            return Err(e);
        }
        let ghost prev = out@;
        out.push(reaction_row_of(record));
        proof {
            assert(recs.take(i + 1) =~= recs.take(i as int).push(recs[i as int]));
            assert(reaction_views(out@) =~= reaction_views(prev).push(out@.last()@));
            assert(reaction_entries_of(recs.take(i + 1)) =~= reaction_entries_of(
                recs.take(i as int),
            ).push(reaction_entry_of(recs[i as int])));
        }
        i = i + 1;
    }
    assert(recs.take(records@.len() as int) =~= recs);
    match failure {
        Some(message) => Err(malformed(message)),
        None => Ok(out),
    }
}

/// The entries whose flag in `loaded` is set, in order.
pub open spec fn loaded_entries(entries: Seq<ReactionEntry>, loaded: Seq<bool>) -> Seq<ReactionEntry>
    decreases entries.len(),
{
    if entries.len() == 0 {
        Seq::empty()
    } else {
        let rest = loaded_entries(entries.drop_last(), loaded.drop_last());
        if loaded.last() {
            rest.push(entries.last())
        } else {
            rest
        }
    }
}

/// The reactions a fluid can run: the rows whose use flag is set, in the
/// table's order.
///
/// `loaded[i]` says whether row `i`'s use flag reads as a nonzero number.
pub fn loaded_reactions(rows: &Vec<ReactionRow>, loaded: &Vec<bool>) -> (r: Vec<ReactionRow>)
    requires
        loaded@.len() == rows@.len(),
    ensures
        reaction_views(r@) == loaded_entries(reaction_views(rows@), loaded@),
{
    let ghost entries = reaction_views(rows@);
    let mut out: Vec<ReactionRow> = Vec::new();
    let mut i: usize = 0;
    while i < rows.len()
        invariant
            i <= rows@.len(),
            loaded@.len() == rows@.len(),
            entries == reaction_views(rows@),
            reaction_views(out@) == loaded_entries(entries.take(i as int), loaded@.take(i as int)),
        decreases rows@.len() - i,
    {
        proof {
            assert(entries.take(i + 1).drop_last() =~= entries.take(i as int));
            assert(loaded@.take(i + 1).drop_last() =~= loaded@.take(i as int));
            assert(entries[i as int] == rows@[i as int]@);
        }
        if loaded[i] {
            let ghost prev = out@;
            out.push(rows[i].duplicate());
            assert(reaction_views(out@) =~= reaction_views(prev).push(out@.last()@));
        }
        i = i + 1;
    }
    assert(entries.take(rows@.len() as int) =~= entries);
    assert(loaded@.take(rows@.len() as int) =~= loaded@);
    out
}

/// One reaction by name - the first row that carries it - or `None` where the
/// source does not carry it.
pub fn reaction(tables: &ReactionTables, source: ReactionDataSource, name: &str) -> (r: Result<
    Option<ReactionRow>,
    ReactionError,
>)
    ensures
        reaction_read(r, *tables, source),
        r matches Ok(found) ==> match found {
            Some(row) => exists|i: int|
                is_first_named(reaction_entries(*tables, source), name@, i) && row@ == (
                #[trigger] reaction_entries(*tables, source)[i]),
            None => forall|j: int|
                0 <= j < reaction_entries(*tables, source).len() ==> (#[trigger] reaction_entries(
                    *tables,
                    source,
                )[j]).name != name@,
        },
{
    let rows = match reactions(tables, source) {
        Ok(rows) => rows,
        Err(e) => return Err(e),
    };
    let ghost entries = reaction_views(rows@);
    let mut i: usize = 0;
    while i < rows.len()
        invariant
            i <= rows@.len(),
            entries == reaction_views(rows@),
            entries == reaction_entries(*tables, source),
            records_load(csv_records(source_text(*tables, source)), 12),
            forall|j: int| 0 <= j < i ==> (#[trigger] entries[j]).name != name@,
        decreases rows@.len() - i,
    {
        assert(entries[i as int] == rows@[i as int]@);
        if same_text(rows[i].name.as_str(), name) {
            let row = rows[i].duplicate();
            assert(is_first_named(entries, name@, i as int));
            return Ok(Some(row));
        }
        i = i + 1;
    }
    Ok(None)
}

/// Every reaction name a source carries, loaded or not, in the table's order.
pub fn reaction_names(tables: &ReactionTables, source: ReactionDataSource) -> (r: Result<
    Vec<String>,
    ReactionError,
>)
    ensures
        reaction_read(r, *tables, source),
        r matches Ok(names) ==> string_views(names@) == reaction_entries(*tables, source).map_values(
            |entry: ReactionEntry| entry.name,
        ),
{
    let rows = match reactions(tables, source) {
        Ok(rows) => rows,
        Err(e) => return Err(e),
    };
    let ghost entries = reaction_views(rows@);
    let mut names: Vec<String> = Vec::new();
    let mut i: usize = 0;
    while i < rows.len()
        invariant
            i <= rows@.len(),
            entries == reaction_views(rows@),
            names@.len() == i,
            forall|j: int| 0 <= j < i ==> (#[trigger] names@[j])@ == entries[j].name,
        decreases rows@.len() - i,
    {
        assert(entries[i as int] == rows@[i as int]@);
        names.push(rows[i].name.clone());
        i = i + 1;
    }
    assert(string_views(names@) =~= entries.map_values(|entry: ReactionEntry| entry.name));
    Ok(names)
}

/// The characters of a run of string slices.
pub open spec fn str_views(names: Seq<&str>) -> Seq<Seq<char>> {
    names.map_values(|name: &str| name@)
}

/// Where a header row holds each of `names`: the first column so headed.
pub open spec fn column_positions(header: Seq<Seq<char>>, names: Seq<Seq<char>>) -> Seq<int> {
    names.map_values(|name: Seq<char>| header.index_of_first(name)->0)
}

/// The header row heads a column with each of `names`.
pub open spec fn all_headed(header: Seq<Seq<char>>, names: Seq<Seq<char>>) -> bool {
    forall|k: int| 0 <= k < names.len() ==> header.contains(#[trigger] names[k])
}

/// `names[k]` is the first of `names` the header row does not head.
pub open spec fn is_first_unheaded(header: Seq<Seq<char>>, names: Seq<Seq<char>>, k: int) -> bool {
    &&& 0 <= k < names.len()
    &&& !header.contains(names[k])
    &&& forall|j: int| 0 <= j < k ==> header.contains(#[trigger] names[j])
}

/// A record has a field at every one of `positions`.
pub open spec fn reaches(record: Seq<Seq<char>>, positions: Seq<int>) -> bool {
    forall|k: int| 0 <= k < positions.len() ==> #[trigger] positions[k] < record.len()
}

/// `positions[k]` is the first of `positions` a record has no field at.
pub open spec fn is_first_unreached(record: Seq<Seq<char>>, positions: Seq<int>, k: int) -> bool {
    &&& 0 <= k < positions.len()
    &&& positions[k] >= record.len()
    &&& forall|j: int| 0 <= j < k ==> #[trigger] positions[j] < record.len()
}

/// Record `i` is the first that lacks a field at one of `positions`.
pub open spec fn is_first_unreaching(
    records: Seq<Seq<Seq<char>>>,
    positions: Seq<int>,
    i: int,
) -> bool {
    &&& 0 <= i < records.len()
    &&& !reaches(records[i], positions)
    &&& forall|j: int| 0 <= j < i ==> reaches(#[trigger] records[j], positions)
}

/// The component table's header row.
pub open spec fn component_header(tables: ReactionTables) -> Seq<Seq<char>> {
    match csv_header(tables.components@) {
        Ok(header) => header,
        Err(_) => Seq::empty(),
    }
}

/// The component table's records.
pub open spec fn component_records(tables: ReactionTables) -> Seq<Seq<Seq<char>>> {
    csv_records(tables.components@).0
}

/// The component table reads by the columns headed `names`: its header row
/// and records parse, the header heads each, and every record reaches them.
pub open spec fn component_table_loads(tables: ReactionTables, names: Seq<Seq<char>>) -> bool {
    &&& csv_header(tables.components@) is Ok
    &&& all_headed(component_header(tables), names)
    &&& csv_records(tables.components@).1 is None
    &&& forall|i: int|
        0 <= i < component_records(tables).len() ==> reaches(
            #[trigger] component_records(tables)[i],
            column_positions(component_header(tables), names),
        )
}

/// `e` is the refusal of a read of the component table by the columns headed
/// `names`, in the order the read makes its checks: the header row, each
/// column's heading, the records, and each record's fields in turn.
pub open spec fn component_failure(
    e: ReactionError,
    tables: ReactionTables,
    names: Seq<Seq<char>>,
) -> bool {
    let header = component_header(tables);
    let positions = column_positions(header, names);
    if csv_header(tables.components@) is Err {
        malformed_as(e, csv_header(tables.components@)->Err_0)
    } else if !all_headed(header, names) {
        exists|k: int|
            is_first_unheaded(header, names, k) && (match e {
                ReactionError::AbsentHeader { name } => name@ == #[trigger] names[k],
                _ => false,
            })
    } else if forall|i: int|
        0 <= i < component_records(tables).len() ==> reaches(
            #[trigger] component_records(tables)[i],
            positions,
        ) {
        csv_records(tables.components@).1 matches Some(message) && malformed_as(e, message)
    } else {
        exists|i: int, k: int|
            #![trigger is_first_unreached(component_records(tables)[i], positions, k)]
            is_first_unreaching(component_records(tables), positions, i) && is_first_unreached(
                component_records(tables)[i],
                positions,
                k,
            ) && e == (ReactionError::AbsentColumn {
                index: positions[k] as usize,
                width: component_records(tables)[i].len() as usize,
            })
    }
}

/// The outcome of any read of the component table by the columns headed `names`.
pub open spec fn component_read<T>(
    r: Result<T, ReactionError>,
    tables: ReactionTables,
    names: Seq<Seq<char>>,
) -> bool {
    match r {
        Ok(_) => component_table_loads(tables, names),
        Err(e) => !component_table_loads(tables, names) && component_failure(e, tables, names),
    }
}

/// The fields at `positions` of a record, in the order of `positions`.
pub open spec fn fields_at(record: Seq<Seq<char>>, positions: Seq<int>) -> Seq<Seq<char>> {
    positions.map_values(|p: int| record[p])
}

/// The fields the component table's records hold under the columns headed `names`.
pub open spec fn component_fields_of(tables: ReactionTables, names: Seq<Seq<char>>) -> Seq<
    Seq<Seq<char>>,
> {
    component_records(tables).map_values(
        |record: Seq<Seq<char>>|
            fields_at(record, column_positions(component_header(tables), names)),
    )
}

/// The first column of `header` headed `name`.
fn position_in(header: &Vec<String>, name: &str) -> (r: Option<usize>)
    ensures
        match r {
            Some(p) => header.deep_view().index_of_first(name@) == Some(p as int),
            None => header.deep_view().index_of_first(name@) is None,
        },
{
    let ghost h = header.deep_view();
    proof {
        h.index_of_first_ensures(name@);
    }
    let mut i: usize = 0;
    while i < header.len()
        invariant
            i <= header@.len(),
            h == header.deep_view(),
            forall|j: int| 0 <= j < i ==> #[trigger] h[j] != name@,
        decreases header@.len() - i,
    {
        assert(h[i as int] == header@[i as int]@);
        if same_text(header[i].as_str(), name) {
            proof {
                h.index_of_first_ensures(name@);
            }
            return Some(i);
        }
        i = i + 1;
    }
    proof {
        h.index_of_first_ensures(name@);
    }
    None
}

/// The component table's fields under the columns headed `names`, one list
/// per record, in the order of `names`.
#[verifier::loop_isolation(false)]
fn component_fields(tables: &ReactionTables, names: &[&str]) -> (r: Result<
    Vec<Vec<String>>,
    ReactionError,
>)
    ensures
        component_read(r, *tables, str_views(names@)),
        r matches Ok(fields) ==> fields.deep_view() == component_fields_of(
            *tables,
            str_views(names@),
        ),
{
    let ghost wanted = str_views(names@);
    let header = match read_header(tables.components.as_str()) {
        Ok(header) => header,
        Err(message) => return Err(malformed(message)),
    };
    let ghost h = header.deep_view();
    let mut positions: Vec<usize> = Vec::new();
    let mut k: usize = 0;
    while k < names.len()
        invariant
            k <= names@.len(),
            wanted == str_views(names@),
            h == header.deep_view(),
            csv_header(tables.components@) == Ok::<Seq<Seq<char>>, Seq<char>>(h),
            positions@.len() == k,
            forall|j: int| 0 <= j < k ==> h.contains(#[trigger] wanted[j]),
            forall|j: int|
                0 <= j < k ==> h.index_of_first(wanted[j]) == Some(#[trigger] positions@[j] as int),
        decreases names@.len() - k,
    {
        proof {
            h.index_of_first_ensures(wanted[k as int]);
        }
        match position_in(&header, names[k]) {
            Some(p) => positions.push(p),
            None => {
                assert(is_first_unheaded(h, wanted, k as int));
                return Err(ReactionError::AbsentHeader { name: names[k].to_owned() });
            },
        }
        k = k + 1;
    }
    let ghost pos = column_positions(h, wanted);
    assert(positions@.map_values(|p: usize| p as int) =~= pos);
    let (records, failure) = read_records(tables.components.as_str());
    let ghost recs = records.deep_view();
    let mut out: Vec<Vec<String>> = Vec::new();
    let mut i: usize = 0;
    while i < records.len()
        invariant
            i <= records@.len(),
            recs == records.deep_view(),
            csv_records(tables.components@).0 == recs,
            csv_header(tables.components@) == Ok::<Seq<Seq<char>>, Seq<char>>(h),
            all_headed(h, wanted),
            pos == column_positions(h, wanted),
            positions@.len() == pos.len(),
            forall|j: int| 0 <= j < pos.len() ==> #[trigger] positions@[j] as int == pos[j],
            forall|j: int| 0 <= j < i ==> reaches(#[trigger] recs[j], pos),
            out@.len() == i,
            forall|j: int| 0 <= j < i ==> (#[trigger] out@[j]).deep_view() == fields_at(recs[j], pos),
        decreases records@.len() - i,
    {
        let record = &records[i];
        assert(recs[i as int] == record.deep_view());
        let mut row: Vec<String> = Vec::new();
        let mut k: usize = 0;
        while k < positions.len()
            invariant
                k <= positions@.len(),
                positions@.len() == pos.len(),
                forall|j: int| 0 <= j < pos.len() ==> #[trigger] positions@[j] as int == pos[j],
                recs[i as int] == record.deep_view(),
                forall|j: int| 0 <= j < k ==> #[trigger] pos[j] < record@.len(),
                row@.len() == k,
                forall|j: int| 0 <= j < k ==> (#[trigger] row@[j])@ == record@[pos[j]]@,
            decreases positions@.len() - k,
        {
            let p = positions[k];
            if p >= record.len() {
                assert(is_first_unreached(recs[i as int], pos, k as int));
                assert(is_first_unreaching(recs, pos, i as int));
                assert(component_records(*tables) == recs);
                assert(component_header(*tables) == h);
                assert(is_first_unreached(
                    component_records(*tables)[i as int],
                    column_positions(component_header(*tables), str_views(names@)),
                    k as int,
                ));
                assert(!reaches(
                    component_records(*tables)[i as int],
                    column_positions(component_header(*tables), str_views(names@)),
                ));
                return Err(ReactionError::AbsentColumn { index: p, width: record.len() });
            }
            row.push(record[p].clone());
            k = k + 1;
        }
        proof {
            assert forall|j: int| 0 <= j < pos.len() implies #[trigger] row.deep_view()[j]
                == fields_at(recs[i as int], pos)[j] by {
                assert(row.deep_view()[j] == row@[j]@);
                assert(record.deep_view()[pos[j]] == record@[pos[j]]@);
            }
            assert(reaches(recs[i as int], pos));
            assert(row.deep_view() =~= fields_at(recs[i as int], pos));
        }
        out.push(row);
        i = i + 1;
    }
    proof {
        assert(out.deep_view() =~= component_fields_of(*tables, wanted));
        assert(component_records(*tables) == recs);
        assert(component_header(*tables) == h);
    }
    match failure {
        Some(message) => Err(malformed(message)),
        None => Ok(out),
    }
}

/// The text a component name is looked up by: trimmed, then given its full
/// Unicode lower-case form, which is how the component table's own names are keyed.
pub open spec fn component_key(name: Seq<char>) -> Seq<char> {
    unicode_lowercase(trimmed(name))
}

/// Row `i` is the last whose first field keys as `key`.
pub open spec fn is_last_keyed(fields: Seq<Seq<Seq<char>>>, key: Seq<char>, i: int) -> bool {
    &&& 0 <= i < fields.len()
    &&& component_key(fields[i][0]) == key
    &&& forall|j: int| i < j < fields.len() ==> component_key((#[trigger] fields[j])[0]) != key
}

/// The key of a component name.
fn key_of(name: &str) -> (r: String)
    ensures
        r@ == component_key(name@),
{
    let trimmed_name = string_from_chars(&trimmed_chars(name));
    to_lowercase(trimmed_name.as_str())
}

/// The last record whose name keys as `component` does: a later row with the
/// same key replaces an earlier one, as an insertion into a map would.
fn last_keyed(fields: &Vec<Vec<String>>, component: &str) -> (r: Option<usize>)
    requires
        forall|i: int| 0 <= i < fields@.len() ==> (#[trigger] fields@[i])@.len() >= 1,
    ensures
        match r {
            Some(i) => is_last_keyed(fields.deep_view(), component_key(component@), i as int),
            None => forall|j: int|
                0 <= j < fields@.len() ==> component_key((#[trigger] fields.deep_view()[j])[0])
                    != component_key(component@),
        },
{
    let ghost f = fields.deep_view();
    let wanted = key_of(component);
    let mut found: Option<usize> = None;
    let mut i: usize = 0;
    while i < fields.len()
        invariant
            i <= fields@.len(),
            f == fields.deep_view(),
            wanted@ == component_key(component@),
            forall|j: int| 0 <= j < fields@.len() ==> (#[trigger] fields@[j])@.len() >= 1,
            match found {
                Some(g) => g < i && component_key(f[g as int][0]) == wanted@ && forall|j: int|
                    g < j < i ==> component_key((#[trigger] f[j])[0]) != wanted@,
                None => forall|j: int| 0 <= j < i ==> component_key((#[trigger] f[j])[0]) != wanted@,
            },
        decreases fields@.len() - i,
    {
        assert(f[i as int][0] == fields@[i as int]@[0]@);
        let key = key_of(fields[i][0].as_str());
        if key == wanted {
            found = Some(i);
        }
        i = i + 1;
    }
    found
}

/// The columns the ionic charge is read by.
pub open spec fn charge_columns() -> Seq<Seq<char>> {
    seq!["name"@, "ioniccharge"@]
}

/// One component's ionic charge, in elementary charges, as the component table
/// writes it.
///
/// `None` where the component databank has no row for the name. Names are
/// matched as the databank keys them - trimmed and lower-cased - and a later
/// row under the same key wins.
pub fn ionic_charge(tables: &ReactionTables, component: &str) -> (r: Result<
    Option<String>,
    ReactionError,
>)
    ensures
        component_read(r, *tables, charge_columns()),
        r matches Ok(found) ==> match found {
            Some(charge) => exists|i: int|
                is_last_keyed(
                    component_fields_of(*tables, charge_columns()),
                    component_key(component@),
                    i,
                ) && charge@ == (#[trigger] component_fields_of(*tables, charge_columns())[i])[1],
            None => forall|j: int|
                0 <= j < component_fields_of(*tables, charge_columns()).len() ==> component_key(
                    (#[trigger] component_fields_of(*tables, charge_columns())[j])[0],
                ) != component_key(component@),
        },
{
    let columns: [&str; 2] = ["name", "ioniccharge"];
    assert(str_views(columns@) =~= charge_columns());
    let fields = match component_fields(tables, &columns) {
        Ok(fields) => fields,
        Err(e) => return Err(e),
    };
    let ghost f = fields.deep_view();
    assert(f.len() == fields@.len());
    assert(f.len() == component_records(*tables).len());
    assert(column_positions(component_header(*tables), charge_columns()).len() == 2);
    assert forall|i: int| 0 <= i < fields@.len() implies (#[trigger] fields@[i])@.len() == 2 by {
        assert(f[i] == fields_at(
            component_records(*tables)[i],
            column_positions(component_header(*tables), charge_columns()),
        ));
        assert(f[i] == fields@[i].deep_view());
        assert(f[i].len() == fields@[i]@.len());
    }
    match last_keyed(&fields, component) {
        Some(i) => {
            assert(f[i as int][1] == fields@[i as int]@[1]@);
            Ok(Some(fields[i][1].clone()))
        },
        None => Ok(None),
    }
}

/// One component's standard-state formation properties, as the component
/// table writes them.
#[derive(Debug)]
pub struct FormationProperties {
    /// The Gibbs energy of formation, in J/mol.
    pub gibbs_energy_of_formation: String,
    /// The ideal-gas enthalpy of formation, in J/mol.
    pub enthalpy_of_formation: String,
    /// The ideal-gas absolute entropy, in J/(mol*K).
    pub absolute_entropy: String,
}

/// The columns the formation properties are read by.
pub open spec fn formation_columns() -> Seq<Seq<char>> {
    seq![
        "name"@,
        "gibbsenergyofformation"@,
        "enthalpyofformation"@,
        "absoluteentropy"@,
    ]
}

/// One component's formation properties, or `None` where the databank has no
/// row for it.
///
/// A zero is returned as the zero the table writes rather than read as absent.
/// Names are matched as the databank keys them - trimmed and lower-cased - and
/// a later row under the same key wins.
pub fn formation_properties(tables: &ReactionTables, component: &str) -> (r: Result<
    Option<FormationProperties>,
    ReactionError,
>)
    ensures
        component_read(r, *tables, formation_columns()),
        r matches Ok(found) ==> match found {
            Some(p) => exists|i: int|
                is_last_keyed(
                    component_fields_of(*tables, formation_columns()),
                    component_key(component@),
                    i,
                ) && p.gibbs_energy_of_formation@ == (#[trigger] component_fields_of(
                    *tables,
                    formation_columns(),
                )[i])[1] && p.enthalpy_of_formation@ == component_fields_of(
                    *tables,
                    formation_columns(),
                )[i][2] && p.absolute_entropy@ == component_fields_of(
                    *tables,
                    formation_columns(),
                )[i][3],
            None => forall|j: int|
                0 <= j < component_fields_of(*tables, formation_columns()).len() ==> component_key(
                    (#[trigger] component_fields_of(*tables, formation_columns())[j])[0],
                ) != component_key(component@),
        },
{
    let columns: [&str; 4] = [
        "name",
        "gibbsenergyofformation",
        "enthalpyofformation",
        "absoluteentropy",
    ];
    assert(str_views(columns@) =~= formation_columns());
    let fields = match component_fields(tables, &columns) {
        Ok(fields) => fields,
        Err(e) => return Err(e),
    };
    let ghost f = fields.deep_view();
    assert(f.len() == fields@.len());
    assert(f.len() == component_records(*tables).len());
    assert(column_positions(component_header(*tables), formation_columns()).len() == 4);
    assert forall|i: int| 0 <= i < fields@.len() implies (#[trigger] fields@[i])@.len() == 4 by {
        assert(f[i] == fields_at(
            component_records(*tables)[i],
            column_positions(component_header(*tables), formation_columns()),
        ));
        assert(f[i] == fields@[i].deep_view());
        assert(f[i].len() == fields@[i]@.len());
    }
    match last_keyed(&fields, component) {
        Some(i) => {
            assert(f[i as int][1] == fields@[i as int]@[1]@);
            assert(f[i as int][2] == fields@[i as int]@[2]@);
            assert(f[i as int][3] == fields@[i as int]@[3]@);
            Ok(
                Some(
                    FormationProperties {
                        gibbs_energy_of_formation: fields[i][1].clone(),
                        enthalpy_of_formation: fields[i][2].clone(),
                        absolute_entropy: fields[i][3].clone(),
                    },
                ),
            )
        },
        None => Ok(None),
    }
}

/// Each row of the element table is its record's fields: the component in the
/// second field, the element in the third and the count in the fourth.
pub proof fn element_rows_are_their_records_fields(tables: ReactionTables, i: int)
    requires
        0 <= i < csv_records(tables.elements@).0.len(),
    ensures
        element_entries(tables).len() == csv_records(tables.elements@).0.len(),
        element_entries(tables)[i].component == csv_records(tables.elements@).0[i][1],
        element_entries(tables)[i].element == csv_records(tables.elements@).0[i][2],
        element_entries(tables)[i].count == csv_records(tables.elements@).0[i][3],
{
}

/// Each row of the stoichiometry table is its record's fields: the reaction in
/// the third field, the component in the fourth and the coefficient in the fifth.
pub proof fn stoichiometry_rows_are_their_records_fields(tables: ReactionTables, i: int)
    requires
        0 <= i < csv_records(tables.stoichiometry@).0.len(),
    ensures
        stoichiometry_entries(tables).len() == csv_records(tables.stoichiometry@).0.len(),
        stoichiometry_entries(tables)[i].reaction == csv_records(tables.stoichiometry@).0[i][2],
        stoichiometry_entries(tables)[i].component == csv_records(tables.stoichiometry@).0[i][3],
        stoichiometry_entries(tables)[i].coefficient == csv_records(tables.stoichiometry@).0[i][4],
{
}

/// Each row of a source's reaction table is its record's fields: the name in
/// the third field, the four coefficients in the fourth to seventh, the
/// reference temperature in the eighth, the rate factor in the ninth (`rate`),
/// the activation energy in the tenth (`ea`), the citation in the eleventh, the
/// use flag in the twelfth, and the validation status in the thirteenth where
/// the record has one.
pub proof fn reaction_rows_are_their_records_fields(
    tables: ReactionTables,
    source: ReactionDataSource,
    i: int,
)
    requires
        0 <= i < csv_records(source_text(tables, source)).0.len(),
    ensures
        reaction_entries(tables, source).len() == csv_records(source_text(tables, source)).0.len(),
        ({
            let record = csv_records(source_text(tables, source)).0[i];
            let row = reaction_entries(tables, source)[i];
            &&& row.name == record[2]
            &&& row.coefficients == seq![record[3], record[4], record[5], record[6]]
            &&& row.reference_temperature == record[7]
            &&& row.rate_factor == record[8]
            &&& row.activation_energy == record[9]
            &&& row.reference == record[10]
            &&& row.use_reaction == record[11]
            &&& row.validation_status == if record.len() > 12 {
                Some(record[12])
            } else {
                None
            }
        }),
{
}

/// A component's composition is the `(element, count)` of exactly the rows
/// whose component is that name, every one of them, in the table's order.
pub proof fn a_composition_is_the_rows_naming_the_component(
    entries: Seq<ElementEntry>,
    component: Seq<char>,
)
    ensures
        composition_of(entries, component) == entries.filter(
            |entry: ElementEntry| entry.component == component,
        ).map_values(|entry: ElementEntry| (entry.element, entry.count)),
    decreases entries.len(),
{
    reveal(Seq::filter);
    if entries.len() > 0 {
        a_composition_is_the_rows_naming_the_component(entries.drop_last(), component);
        let f = entries.filter(|entry: ElementEntry| entry.component == component);
        let g = entries.drop_last().filter(|entry: ElementEntry| entry.component == component);
        if entries.last().component == component {
            assert(f == g.push(entries.last()));
            assert(f.map_values(|entry: ElementEntry| (entry.element, entry.count)) =~= g.map_values(
                |entry: ElementEntry| (entry.element, entry.count),
            ).push((entries.last().element, entries.last().count)));
        } else {
            assert(f == g);
        }
    }
}

/// A reaction's coefficients are the `(component, coefficient)` of exactly the
/// stoichiometry rows whose reaction is that name, every one of them, in the
/// table's order.
pub proof fn coefficients_are_the_rows_naming_the_reaction(
    entries: Seq<StoichiometryEntry>,
    reaction: Seq<char>,
)
    ensures
        coefficients_of(entries, reaction) == entries.filter(
            |entry: StoichiometryEntry| entry.reaction == reaction,
        ).map_values(|entry: StoichiometryEntry| (entry.component, entry.coefficient)),
    decreases entries.len(),
{
    reveal(Seq::filter);
    if entries.len() > 0 {
        coefficients_are_the_rows_naming_the_reaction(entries.drop_last(), reaction);
        let f = entries.filter(|entry: StoichiometryEntry| entry.reaction == reaction);
        let g = entries.drop_last().filter(|entry: StoichiometryEntry| entry.reaction == reaction);
        if entries.last().reaction == reaction {
            assert(f == g.push(entries.last()));
            assert(f.map_values(
                |entry: StoichiometryEntry| (entry.component, entry.coefficient),
            ) =~= g.map_values(|entry: StoichiometryEntry| (entry.component, entry.coefficient)).push(
                (entries.last().component, entries.last().coefficient),
            ));
        } else {
            assert(f == g);
        }
    }
}

/// The row a reaction is found at has exactly the asked name, no earlier row
/// has it, and there is one such row.
pub proof fn a_reaction_is_found_at_its_first_exact_name(
    entries: Seq<ReactionEntry>,
    name: Seq<char>,
    i: int,
    j: int,
)
    ensures
        is_first_named(entries, name, i) <==> (0 <= i < entries.len() && entries[i].name == name
            && forall|k: int| 0 <= k < i ==> (#[trigger] entries[k]).name != name),
        is_first_named(entries, name, i) && is_first_named(entries, name, j) ==> i == j,
{
    if is_first_named(entries, name, i) && is_first_named(entries, name, j) {
        if i < j {
            assert(entries[i].name != name);
        }
        if j < i {
            assert(entries[j].name != name);
        }
    }
}

/// Some row from `k` on is the last whose key is `key`, given that row `k` has it.
proof fn lemma_last_keyed_exists(fields: Seq<Seq<Seq<char>>>, key: Seq<char>, k: int)
    requires
        0 <= k < fields.len(),
        component_key(fields[k][0]) == key,
    ensures
        exists|i: int| #[trigger] is_last_keyed(fields, key, i),
    decreases fields.len() - k,
{
    if exists|j: int| k < j < fields.len() && component_key((#[trigger] fields[j])[0]) == key {
        let j = choose|j: int| k < j < fields.len() && component_key((#[trigger] fields[j])[0]) == key;
        lemma_last_keyed_exists(fields, key, j);
    } else {
        assert(is_last_keyed(fields, key, k));
    }
}

/// A lookup by component name finds a row exactly when some row's key equals
/// the name's key - trimmed and lower-cased, equal and not merely extended -
/// and the row it finds is the last with that exact key.
pub proof fn a_lookup_finds_the_last_row_with_the_exact_key(
    fields: Seq<Seq<Seq<char>>>,
    name: Seq<char>,
    i: int,
)
    ensures
        is_last_keyed(fields, component_key(name), i) <==> (0 <= i < fields.len() && component_key(
            fields[i][0],
        ) == component_key(name) && forall|j: int|
            i < j < fields.len() ==> component_key((#[trigger] fields[j])[0]) != component_key(name)),
        (exists|j: int| 0 <= j < fields.len() && component_key((#[trigger] fields[j])[0]) == component_key(name))
            <==> exists|k: int| #[trigger] is_last_keyed(fields, component_key(name), k),
{
    let key = component_key(name);
    if exists|j: int| 0 <= j < fields.len() && component_key((#[trigger] fields[j])[0]) == key {
        let j = choose|j: int| 0 <= j < fields.len() && component_key((#[trigger] fields[j])[0]) == key;
        lemma_last_keyed_exists(fields, key, j);
    }
    if exists|k: int| #[trigger] is_last_keyed(fields, key, k) {
        let k = choose|k: int| #[trigger] is_last_keyed(fields, key, k);
        assert(component_key(fields[k][0]) == key);
    }
}

/// The fields a component-table read returns are the record's fields under
/// the first column the header row heads with each asked name.
pub proof fn component_fields_are_read_by_heading(
    tables: ReactionTables,
    names: Seq<Seq<char>>,
    i: int,
    k: int,
    p: int,
)
    requires
        0 <= i < component_records(tables).len(),
        0 <= k < names.len(),
        0 <= p < component_header(tables).len(),
        component_header(tables)[p] == names[k],
        forall|q: int| 0 <= q < p ==> (#[trigger] component_header(tables)[q]) != names[k],
    ensures
        component_fields_of(tables, names)[i][k] == component_records(tables)[i][p],
{
    let header = component_header(tables);
    header.index_of_first_ensures(names[k]);
    match header.index_of_first(names[k]) {
        Some(f) => {
            if f < p {
                assert(header[f] != names[k]);
            }
            if p < f {
                assert(header[p] != names[k]);
            }
        },
        None => {
            assert(header.contains(names[k]));
        },
    }
    assert(column_positions(header, names)[k] == p);
}

/// A source's name selects the same source whether its words are joined by a
/// hyphen or by an underscore: every key selects what the key with each hyphen
/// written as an underscore selects.
pub proof fn hyphens_and_underscores_select_the_same_source(key: Seq<char>)
    ensures
        source_named(key) == source_named(underscored(key)),
{
    reveal_strlit("standard");
    reveal_strlit("pitzer");
    reveal_strlit("kent_eisenberg");
    reveal_strlit("kent-eisenberg");
    let u = underscored(key);
    lemma_underscored_has_no_hyphen(key);
    if key == "standard"@ {
        assert(u =~= "standard"@);
    } else if key == "pitzer"@ {
        assert(u =~= "pitzer"@);
    } else if key == "kent-eisenberg"@ || key == "kent_eisenberg"@ {
        assert(u =~= "kent_eisenberg"@);
    } else {
        if u == "standard"@ {
            lemma_underscored_preimage(key, u);
            assert(key =~= "standard"@);
        }
        if u == "pitzer"@ {
            lemma_underscored_preimage(key, u);
            assert(key =~= "pitzer"@);
        }
        if u == "kent_eisenberg"@ {
            lemma_underscored_preimage(key, u);
            if key[4] == '_' {
                assert(key =~= "kent_eisenberg"@);
            } else {
                assert(key =~= "kent-eisenberg"@);
            }
        }
        if u == "kent-eisenberg"@ {
            assert(u[4] == '-');
        }
    }
}

} // verus!
