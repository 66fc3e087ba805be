use vstd::prelude::*;
use vstd::string::StringExecFns;

verus! {

/// The kinds of inventory database that can be imported.
#[derive(Debug, Clone, Copy, PartialEq, Eq, Structural)]
pub enum DatabaseKind {
    Ecoinvent,
}

impl DatabaseKind {
    /// The kind's name.
    pub open spec fn spec_name(self) -> Seq<char> {
        match self {
            DatabaseKind::Ecoinvent => "Ecoinvent"@,
        }
    }

    /// The kind's name.
    pub fn name(&self) -> (r: String)
        ensures
            r@ == self.spec_name(),
    {
        match self {
            DatabaseKind::Ecoinvent => String::from_str("Ecoinvent"),
        }
    }
}

/// The lower-case form of `s`.
pub uninterp spec fn lower_of(s: Seq<char>) -> Seq<char>;

/// Relies on `str::to_lowercase`: the result depends on the characters alone.
#[verifier::external_body]
fn lowercase(s: &str) -> (r: String)
    ensures
        r@ == lower_of(s@),
{
    s.to_lowercase()
}

/// The kind of database named `lower`, written in lower case.
pub fn kind_from_lowercase(lower: &String) -> (r: Option<DatabaseKind>)
    ensures
        r == (if lower@ == "ecoinvent"@ {
            Some(DatabaseKind::Ecoinvent)
        } else {
            None::<DatabaseKind>
        }),
{
    if *lower == String::from_str("ecoinvent") {
        Some(DatabaseKind::Ecoinvent)
    } else {
        None
    }
}

/// The kind of database named `name`, in any case; `None` for an unknown kind.
pub fn kind_of(name: &str) -> (r: Option<DatabaseKind>)
    ensures
        r == (if lower_of(name@) == "ecoinvent"@ {
            Some(DatabaseKind::Ecoinvent)
        } else {
            None::<DatabaseKind>
        }),
{
    kind_from_lowercase(&lowercase(name))
}

/// An imported database as the manifest records it.
pub struct ImportDatabaseArgs {
    pub mersion: String,
    pub path: String,
    pub kind: DatabaseKind,
}

/// The database that a removal names.
pub struct RemoveDatabaseArgs {
    pub version: String,
    pub kind: DatabaseKind,
}

/// The database that an exchange of a reference-flow file names.
pub struct DatabaseInfos {
    pub name: String,
    pub version: String,
}

/// `e` records the database of kind `kind` and version `version`.
pub open spec fn same_database(e: ImportDatabaseArgs, kind: DatabaseKind, version: Seq<char>) -> bool {
    e.kind == kind && e.mersion@ == version
}

/// Position of the first entry of `entries` for `(kind, version)`.
pub fn position(entries: &Vec<ImportDatabaseArgs>, kind: DatabaseKind, version: &String) -> (r: Option<usize>)
    ensures
        r matches Some(i) ==> i < entries@.len() && same_database(entries@[i as int], kind, version@)
            && forall|j: int| 0 <= j < i ==> !same_database(#[trigger] entries@[j], kind, version@),
        r is None ==> forall|j: int|
            0 <= j < entries@.len() ==> !same_database(#[trigger] entries@[j], kind, version@),
{
    let mut i: usize = 0;
    while i < entries.len()
        invariant
            i <= entries@.len(),
            forall|j: int| 0 <= j < i ==> !same_database(#[trigger] entries@[j], kind, version@),
        decreases entries@.len() - i,
    {
        if entries[i].kind == kind && entries[i].mersion == *version {
            return Some(i);
        }
        i = i + 1;
    }
    None
}

/// Whether `entries` records the database of kind `kind` and version `version`.
pub open spec fn is_registered(entries: Seq<ImportDatabaseArgs>, kind: DatabaseKind, version: Seq<char>) -> bool {
    exists|j: int| 0 <= j < entries.len() && same_database(#[trigger] entries[j], kind, version)
}

/// The manifest after registering `infos`: unchanged when its database is
/// already recorded.
pub open spec fn registered(entries: Seq<ImportDatabaseArgs>, infos: ImportDatabaseArgs) -> Seq<ImportDatabaseArgs> {
    if is_registered(entries, infos.kind, infos.mersion@) {
        entries
    } else {
        entries.push(infos)
    }
}

/// Position of the first entry for the database `(kind, version)`.
pub open spec fn first_entry(entries: Seq<ImportDatabaseArgs>, kind: DatabaseKind, version: Seq<char>) -> int {
    choose|i: int|
        0 <= i < entries.len() && same_database(entries[i], kind, version) && forall|j: int|
            0 <= j < i ==> !same_database(#[trigger] entries[j], kind, version)
}

/// The manifest after removing the database `(kind, version)`: its first
/// entry is dropped, if there is one.
pub open spec fn removed(entries: Seq<ImportDatabaseArgs>, kind: DatabaseKind, version: Seq<char>) -> Seq<ImportDatabaseArgs> {
    if is_registered(entries, kind, version) {
        entries.remove(first_entry(entries, kind, version))
    } else {
        entries
    }
}

/// Records `infos` in the manifest unless its `(kind, version)` is already
/// there; returns whether it was added.
pub fn register_database(entries: &mut Vec<ImportDatabaseArgs>, infos: ImportDatabaseArgs) -> (r: bool)
    ensures
        r == !is_registered(old(entries)@, infos.kind, infos.mersion@),
        final(entries)@ == registered(old(entries)@, infos),
{
    match position(entries, infos.kind, &infos.mersion) {
        Some(_) => false,
        None => {
            entries.push(infos);
            true
        },
    }
}

/// Drops the first manifest entry for the database that `infos` names;
/// returns whether there was one.
pub fn remove_database(entries: &mut Vec<ImportDatabaseArgs>, infos: &RemoveDatabaseArgs) -> (r: bool)
    ensures
        r == is_registered(old(entries)@, infos.kind, infos.version@),
        final(entries)@ == removed(old(entries)@, infos.kind, infos.version@),
{
    match position(entries, infos.kind, &infos.version) {
        Some(i) => {
            proof {
                let f = first_entry(entries@, infos.kind, infos.version@);
                if f < i {
                    assert(!same_database(entries@[f], infos.kind, infos.version@));
                } else if i < f {
                    assert(!same_database(entries@[i as int], infos.kind, infos.version@));
                }
            }
            entries.remove(i);
            true
        },
        None => false,
    }
}

/// Importing a database twice leaves one entry for it.
pub proof fn lemma_import_idempotent(entries: Seq<ImportDatabaseArgs>, first: ImportDatabaseArgs, second: ImportDatabaseArgs)
    requires
        first.kind == second.kind,
        first.mersion@ == second.mersion@,
    ensures
        registered(registered(entries, first), second) == registered(entries, first),
{
    let once = registered(entries, first);
    if !is_registered(entries, first.kind, first.mersion@) {
        assert(same_database(once[entries.len() as int], second.kind, second.mersion@));
    }
}

/// Removing a database just imported, and recorded nowhere before, gives the
/// manifest back as it was.
pub proof fn lemma_remove_after_import(entries: Seq<ImportDatabaseArgs>, infos: ImportDatabaseArgs)
    requires
        !is_registered(entries, infos.kind, infos.mersion@),
    ensures
        removed(registered(entries, infos), infos.kind, infos.mersion@) == entries,
        !is_registered(removed(registered(entries, infos), infos.kind, infos.mersion@), infos.kind, infos.mersion@),
{
    let once = entries.push(infos);
    let n = entries.len() as int;
    assert(same_database(once[n], infos.kind, infos.mersion@));
    let f = first_entry(once, infos.kind, infos.mersion@);
    if f < n {
        assert(once[f] == entries[f]);
    }
    assert(f == n);
    assert(once.remove(n) =~= entries);
}

/// File name of the cache of a database: `<Kind>_<version>`.
pub fn cache_name(kind: DatabaseKind, version: &str) -> (r: String)
    ensures
        r@ == kind.spec_name() + "_"@ + version@,
{
    kind.name().concat("_").concat(version)
}

impl DatabaseInfos {
    /// Key under which the database is loaded: `<name>_<version>`.
    pub fn key(&self) -> (r: String)
        ensures
            r@ == self.name@ + "_"@ + self.version@,
    {
        self.name.clone().concat("_").concat(self.version.as_str())
    }
}

/// Where an exchange of a reference-flow file takes its amount from.
#[derive(Debug, Clone, Copy, PartialEq, Eq, Structural)]
pub enum Source {
    Database,
    File,
}

/// Why an exchange is refused.
#[derive(Debug, Clone, Copy, PartialEq, Eq, Structural)]
pub enum ExchangeError {
    /// Both a database and a file are given.
    BothSources,
    /// Neither a database nor a file is given.
    NoSource,
}

/// An exchange names exactly one of a database and a file.
pub fn exchange_source(has_database: bool, has_file: bool) -> (r: Result<Source, ExchangeError>)
    ensures
        r == (if has_database && has_file {
            Err::<Source, ExchangeError>(ExchangeError::BothSources)
        } else if has_database {
            Ok(Source::Database)
        } else if has_file {
            Ok(Source::File)
        } else {
            Err(ExchangeError::NoSource)
        }),
{
    match (has_database, has_file) {
        (true, true) => Err(ExchangeError::BothSources),
        (true, false) => Ok(Source::Database),
        (false, true) => Ok(Source::File),
        (false, false) => Err(ExchangeError::NoSource),
    }
}

/// Deepest nesting of reference-flow files, against cyclic includes.
pub const MAX_INCLUDE_DEPTH: usize = 32;

/// A file at nesting `depth` may be read.
pub fn include_allowed(depth: usize) -> (r: bool)
    ensures
        r == (depth <= MAX_INCLUDE_DEPTH),
{
    depth <= MAX_INCLUDE_DEPTH
}

} // verus!
