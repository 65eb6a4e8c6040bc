//! What the schema manager keeps for each table, and how it names and
//! recognises the files that hold table schemas.
use vstd::prelude::*;
use crate::schema::{ColumnType, Table, TableView, filenames_consistent, names_and_types_differ};

verus! {

/// A table as the schema manager holds it: its schema, the directory of its
/// column files, and whether it was deleted.
#[derive(Debug)]
pub struct LockedTable {
    pub table: Table,
    pub data_dir: String,
    deleted: bool,
}

/// Why the files written by a COPY could not be added to their table.
#[derive(Debug)]
pub enum FinishWriteError {
    TableDeleted,
    InvalidFilenames,
    IoError(String, std::io::Error),
}

/// What a `LockedTable` is: the table, the directory of its column files,
/// and whether it was deleted.
pub struct LockedTableView {
    pub table: TableView,
    pub data_dir: Seq<char>,
    pub deleted: bool,
}

impl View for LockedTable {
    type V = LockedTableView;

    closed spec fn view(&self) -> LockedTableView {
        LockedTableView { table: self.table@, data_dir: self.data_dir@, deleted: self.deleted }
    }
}

impl LockedTable {

    /// The table `table`, whose column files are in `data_dir`, not deleted.
    pub fn new(table: Table, data_dir: String) -> (r: LockedTable)
        ensures
            r@.table == table@,
            r@.data_dir == data_dir@,
            !r@.deleted,
    {
        LockedTable { table, data_dir, deleted: false }
    }

    /// Whether the table was deleted.
    pub fn is_deleted(&self) -> (r: bool)
        ensures
            r == self@.deleted,
    {
        self.deleted
    }

    /// The table and the directory of its column files, unless it was
    /// deleted.
    pub fn table(&self) -> (r: Option<(&Table, &String)>)
        ensures
            self@.deleted ==> r is None,
            !self@.deleted ==> (r matches Some((t, d)) && t@ == self@.table && d@ == self@.data_dir),
    {
        if self.deleted {
            None
        } else {
            Some((&self.table, &self.data_dir))
        }
    }

    /// Marks the table as deleted.
    pub fn mark_deleted(&mut self)
        ensures
            final(self)@.deleted,
            final(self)@.table == old(self)@.table,
            final(self)@.data_dir == old(self)@.data_dir,
    {
        self.deleted = true;
    }

    /// Adds the files written by a COPY, one per column, to the table:
    /// refused when the table was deleted, and when the files do not fit its
    /// columns; nothing changes then.
    pub fn add_copied_files(&mut self, targets: Vec<(String, ColumnType, String)>) -> (r: Result<
        (),
        FinishWriteError,
    >)
        requires
            !old(self)@.deleted ==> filenames_consistent(old(self)@.table, targets@),
        ensures
            final(self)@.deleted == old(self)@.deleted,
            final(self)@.data_dir == old(self)@.data_dir,
            old(self)@.deleted ==> r matches Err(FinishWriteError::TableDeleted),
            !old(self)@.deleted && (targets@.len() != old(self)@.table.columns.len() || exists|
                i: int,
            |
                0 <= i < targets@.len() && names_and_types_differ(
                    #[trigger] targets@[i],
                    old(self)@.table.columns[i],
                )) ==> r matches Err(FinishWriteError::InvalidFilenames),
            !old(self)@.deleted && targets@.len() == old(self)@.table.columns.len() && (forall|i: int|
                0 <= i < targets@.len() ==> !names_and_types_differ(
                    #[trigger] targets@[i],
                    old(self)@.table.columns[i],
                )) ==> r is Ok,
            r is Err ==> final(self)@.table == old(self)@.table,
            r is Ok ==> final(self)@.table == old(self)@.table.with_added_files(targets@),
    {
        if self.deleted {
            return Err(FinishWriteError::TableDeleted);
        }
        match self.table.add_filenames(targets) {
            Ok(()) => Ok(()),
            Err(()) => Err(FinishWriteError::InvalidFilenames),
        }
    }
}

/// The name of the file that holds the schema of table `name`.
pub open spec fn schema_file_name_of(name: Seq<char>) -> Seq<char> {
    name + ".json"@
}

/// Whether `filename` names a schema file: it ends in `.json`.
pub open spec fn is_schema_file(filename: Seq<char>) -> bool {
    filename.len() >= 5 && filename.subrange(filename.len() - 5, filename.len() as int) == ".json"@
}

/// The name of the file that holds the schema of table `name`.
pub fn schema_file_name(name: &str) -> (r: String)
    ensures
        r@ == schema_file_name_of(name@),
{
    let mut file_name = String::from_str(name);
    file_name.append(".json");
    file_name
}

/// Whether the file `filename` of the schema directory holds a schema.
pub fn is_schema_file_name(filename: &str) -> (r: bool)
    ensures
        r == is_schema_file(filename@),
{
    broadcast use vstd::string::axiom_spec_iter;

    let mut chars: Vec<char> = Vec::new();
    for ch in it: filename.chars()
        invariant
            it.seq() == filename@,
            chars@ == filename@.take(it.index() as int),
    {
        proof {
            assert(filename@.take(it.index() + 1) =~= filename@.take(it.index() as int).push(ch));
        }
        chars.push(ch);
    }
    assert(chars@ =~= filename@);
    proof {
        reveal_strlit(".json");
    }
    let n = chars.len();
    if n < 5 {
        return false;
    }
    let r = chars[n - 5] == '.' && chars[n - 4] == 'j' && chars[n - 3] == 's' && chars[n - 2] == 'o'
        && chars[n - 1] == 'n';
    proof {
        let tail = filename@.subrange(n - 5, n as int);
        if r {
            assert(tail =~= ".json"@);
        } else {
            assert(tail != ".json"@) by {
                if tail == ".json"@ {
                    assert(tail[0] == '.' && tail[1] == 'j' && tail[2] == 's' && tail[3] == 'o'
                        && tail[4] == 'n');
                }
            }
        }
    }
    r
}

} // verus!
