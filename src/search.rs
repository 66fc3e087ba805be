use vstd::prelude::*;
use vstd::string::StringExecFns;

verus! {

/// An activity as offered to the search index.
pub struct InventoryItem {
    pub id: String,
    pub database: String,
    pub name: String,
    pub alt_name: Option<String>,
    pub location: Option<String>,
    pub unit: String,
}

/// A field of the search index.
#[derive(Debug, Clone, Copy, PartialEq, Eq, Structural)]
pub enum Field {
    /// The activity id, matched exactly.
    Id,
    /// The activity name, matched exactly.
    ExactName,
    /// The activity name, tokenized.
    Name,
    /// The reference product name, tokenized.
    AltName,
    /// The database name, matched exactly.
    Database,
    /// The location, matched exactly.
    Location,
    /// The unit, matched exactly.
    Unit,
}

/// How a clause takes part in a boolean query.
#[derive(Debug, Clone, Copy, PartialEq, Eq, Structural)]
pub enum Occur {
    Must,
    Should,
}

/// One clause of a boolean query.
pub enum Clause {
    /// Free text matched against the tokenized names (`Name` and `AltName`).
    Text(String),
    /// A term matched exactly in a field.
    Term(Field, String),
}

/// The search options of the command line: a free-text query and optional
/// facets.
pub struct SearchCommand {
    pub unit: Option<String>,
    pub location: Option<String>,
    pub database: Option<String>,
    pub json: bool,
    pub query: String,
}

/// The clauses of a query, as (occurrence, field or `None` for free text, text).
pub open spec fn clause_view(c: (Occur, Clause)) -> (Occur, Option<Field>, Seq<char>) {
    match c.1 {
        Clause::Text(t) => (c.0, None, t@),
        Clause::Term(f, t) => (c.0, Some(f), t@),
    }
}

/// A facet clause, when the facet is given.
pub open spec fn facet(f: Field, v: Option<String>) -> Seq<(Occur, Option<Field>, Seq<char>)> {
    match v {
        Some(t) => seq![(Occur::Must, Some(f), t@)],
        None => Seq::empty(),
    }
}

/// The boolean query for `query` with the given facets: the free text SHOULD
/// match the names; the exact name, when asked for, MUST match; each given
/// facet MUST match.
pub open spec fn query_plan(
    query: Seq<char>,
    database: Option<String>,
    location: Option<String>,
    unit: Option<String>,
    exact_name: bool,
) -> Seq<(Occur, Option<Field>, Seq<char>)> {
    seq![(Occur::Should, None::<Field>, query)] + (if exact_name {
        seq![(Occur::Must, Some(Field::ExactName), query)]
    } else {
        Seq::empty()
    }) + facet(Field::Database, database) + facet(Field::Location, location) + facet(
        Field::Unit,
        unit,
    )
}

fn push_facet(clauses: &mut Vec<(Occur, Clause)>, f: Field, v: Option<String>)
    ensures
        final(clauses)@.map_values(|c: (Occur, Clause)| clause_view(c)) == old(clauses)@.map_values(
            |c: (Occur, Clause)| clause_view(c),
        ) + facet(f, v),
{
    let ghost before = clauses@.map_values(|c: (Occur, Clause)| clause_view(c));
    match v {
        Some(t) => {
            clauses.push((Occur::Must, Clause::Term(f, t)));
        },
        None => {},
    }
    assert(clauses@.map_values(|c: (Occur, Clause)| clause_view(c)) =~= before + facet(f, v));
}

/// The clauses of the boolean query that looks `query` up, in order.
pub fn query_clauses(
    query: &str,
    database: Option<String>,
    location: Option<String>,
    unit: Option<String>,
    exact_name: bool,
) -> (r: Vec<(Occur, Clause)>)
    ensures
        r@.map_values(|c: (Occur, Clause)| clause_view(c)) == query_plan(
            query@,
            database,
            location,
            unit,
            exact_name,
        ),
{
    let mut clauses: Vec<(Occur, Clause)> = Vec::new();
    clauses.push((Occur::Should, Clause::Text(String::from_str(query))));
    if exact_name {
        clauses.push((Occur::Must, Clause::Term(Field::ExactName, String::from_str(query))));
    }
    let ghost head = clauses@.map_values(|c: (Occur, Clause)| clause_view(c));
    assert(head =~= seq![(Occur::Should, None::<Field>, query@)] + (if exact_name {
        seq![(Occur::Must, Some(Field::ExactName), query@)]
    } else {
        Seq::empty()
    }));
    push_facet(&mut clauses, Field::Database, database);
    push_facet(&mut clauses, Field::Location, location);
    push_facet(&mut clauses, Field::Unit, unit);
    clauses
}

impl SearchCommand {
    /// The clauses of the free-text search that the command asks for.
    pub fn clauses(&self) -> (r: Vec<(Occur, Clause)>)
        ensures
            r@.map_values(|c: (Occur, Clause)| clause_view(c)) == query_plan(
                self.query@,
                self.database,
                self.location,
                self.unit,
                false,
            ),
    {
        query_clauses(
            self.query.as_str(),
            self.database.clone(),
            self.location.clone(),
            self.unit.clone(),
            false,
        )
    }
}

/// The stored fields of an item's document, in order: id, name (tokenized
/// and exact), reference product name if any, database, location if any, unit.
pub open spec fn document_plan(item: InventoryItem) -> Seq<(Field, Seq<char>)> {
    seq![(Field::Id, item.id@), (Field::Name, item.name@), (Field::ExactName, item.name@)]
        + match item.alt_name {
        Some(a) => seq![(Field::AltName, a@)],
        None => Seq::empty(),
    } + seq![(Field::Database, item.database@)] + match item.location {
        Some(l) => seq![(Field::Location, l@)],
        None => Seq::empty(),
    } + seq![(Field::Unit, item.unit@)]
}

impl InventoryItem {
    /// The fields of the document that indexes this item.
    pub fn document_fields(&self) -> (r: Vec<(Field, String)>)
        ensures
            r@.map_values(|f: (Field, String)| (f.0, f.1@)) == document_plan(*self),
    {
        let mut fields: Vec<(Field, String)> = Vec::new();
        fields.push((Field::Id, self.id.clone()));
        fields.push((Field::Name, self.name.clone()));
        fields.push((Field::ExactName, self.name.clone()));
        match &self.alt_name {
            Some(a) => fields.push((Field::AltName, a.clone())),
            None => {},
        }
        fields.push((Field::Database, self.database.clone()));
        match &self.location {
            Some(l) => fields.push((Field::Location, l.clone())),
            None => {},
        }
        fields.push((Field::Unit, self.unit.clone()));
        assert(fields@.map_values(|f: (Field, String)| (f.0, f.1@)) =~= document_plan(*self));
        fields
    }
}

/// One line of a search result: `[database] name (alt name) location unit`,
/// where the parts in parentheses and the location appear when given.
pub fn result_line(
    database: &str,
    name: &str,
    alt_name: Option<&str>,
    location: Option<&str>,
    unit: &str,
) -> (r: String)
    ensures
        r@ == "["@ + database@ + "] "@ + name@ + match alt_name {
            Some(a) => " ("@ + a@ + ")"@,
            None => Seq::empty(),
        } + match location {
            Some(l) => " "@ + l@,
            None => Seq::empty(),
        } + " "@ + unit@,
{
    let mut line = String::from_str("[");
    line.append(database);
    line.append("] ");
    line.append(name);
    match alt_name {
        Some(a) => {
            line.append(" (");
            line.append(a);
            line.append(")");
        },
        None => {},
    }
    match location {
        Some(l) => {
            line.append(" ");
            line.append(l);
        },
        None => {},
    }
    line.append(" ");
    line.append(unit);
    line
}

/// Why an exchange could not be resolved to one activity.
#[derive(Debug, Clone, Copy, PartialEq, Eq, Structural)]
pub enum MatchError {
    /// No activity matches.
    NoMatch,
    /// More than one activity matches.
    MultipleMatches,
}

/// The one id among `ids`: none or several is an error, never a guess.
pub fn single_match(ids: Vec<String>) -> (r: Result<String, MatchError>)
    ensures
        ids@.len() == 0 ==> r == Err::<String, MatchError>(MatchError::NoMatch),
        ids@.len() > 1 ==> r == Err::<String, MatchError>(MatchError::MultipleMatches),
        ids@.len() == 1 ==> (r matches Ok(id) && id == ids@[0]),
{
    if ids.len() == 0 {
        Err(MatchError::NoMatch)
    } else if ids.len() > 1 {
        Err(MatchError::MultipleMatches)
    } else {
        let mut ids = ids;
        Ok(ids.pop().unwrap())
    }
}

} // verus!
