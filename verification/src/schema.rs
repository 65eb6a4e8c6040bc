//! Table schemas: names, columns and the files that hold each column.
use vstd::prelude::*;

verus! {

/// Whether `c` is an ASCII digit.
pub open spec fn is_ascii_digit(c: char) -> bool {
    48 <= c as u32 <= 57
}

/// Whether `c` may stand in a table or column name: an ASCII letter, an
/// ASCII digit or `_`.
pub open spec fn is_name_char(c: char) -> bool {
    ||| is_ascii_digit(c)
    ||| 97 <= c as u32 <= 122
    ||| 65 <= c as u32 <= 90
    ||| c as u32 == 95
}

/// Whether `name` is a valid table or column name: made of ASCII letters,
/// digits and `_`, and not starting with a digit. The empty name is valid.
pub open spec fn valid_name(name: Seq<char>) -> bool {
    &&& forall|i: int| 0 <= i < name.len() ==> is_name_char(#[trigger] name[i])
    &&& name.len() > 0 ==> !is_ascii_digit(name[0])
}

/// The characters of names, by their glyphs: a digit is one of `0` to `9`,
/// and a name character is a digit, a lowercase or uppercase ASCII letter,
/// or `_`.
pub proof fn lemma_name_chars(c: char)
    ensures
        is_ascii_digit(c) <==> ('0' <= c && c <= '9'),
        is_name_char(c) <==> (('0' <= c && c <= '9') || ('a' <= c && c <= 'z') || ('A' <= c
            && c <= 'Z') || c == '_'),
{
    assert('0' as u32 == 48 && '9' as u32 == 57);
    assert('a' as u32 == 97 && 'z' as u32 == 122);
    assert('A' as u32 == 65 && 'Z' as u32 == 90);
    assert('_' as u32 == 95);
}

/// A name is valid exactly when it is made of digits, ASCII letters and
/// `_` and does not start with a digit; so `col9`, `_x` and `A_1` are valid,
/// and `9col`, `a-b` and `a b` are not.
pub proof fn lemma_valid_names(name: Seq<char>)
    ensures
        valid_name(name) <==> (forall|i: int|
            0 <= i < name.len() ==> {
                let c = #[trigger] name[i];
                ('0' <= c && c <= '9') || ('a' <= c && c <= 'z') || ('A' <= c && c <= 'Z') || c
                    == '_'
            }) && (name.len() > 0 ==> !('0' <= name[0] && name[0] <= '9')),
        valid_name(seq!['c', 'o', 'l', '9']),
        valid_name(seq!['_', 'x']),
        valid_name(seq!['A', '_', '1']),
        !valid_name(seq!['9', 'c', 'o', 'l']),
        !valid_name(seq!['a', '-', 'b']),
        !valid_name(seq!['a', ' ', 'b']),
{
    assert forall|c: char| #![trigger is_name_char(c)] is_name_char(c) <==> (('0' <= c && c <= '9')
        || ('a' <= c && c <= 'z') || ('A' <= c && c <= 'Z') || c == '_') by {
        lemma_name_chars(c);
    }
    assert forall|c: char| #![trigger is_ascii_digit(c)] is_ascii_digit(c) <==> ('0' <= c && c
        <= '9') by {
        lemma_name_chars(c);
    }
    let a = seq!['c', 'o', 'l', '9'];
    assert(is_name_char(a[0]) && is_name_char(a[1]) && is_name_char(a[2]) && is_name_char(a[3]));
    let b = seq!['_', 'x'];
    assert(is_name_char(b[0]) && is_name_char(b[1]));
    let d = seq!['A', '_', '1'];
    assert(is_name_char(d[0]) && is_name_char(d[1]) && is_name_char(d[2]));
    let e = seq!['9', 'c', 'o', 'l'];
    assert(is_ascii_digit(e[0]));
    let f = seq!['a', '-', 'b'];
    assert(!is_name_char(f[1]));
    let g = seq!['a', ' ', 'b'];
    assert(!is_name_char(g[1]));
}

/// Checks that `name` is a valid table or column name.
pub fn validate_name(name: &str) -> (r: bool)
    ensures
        r == valid_name(name@),
{
    broadcast use vstd::string::axiom_spec_iter;

    let mut started = false;
    for ch in it: name.chars()
        invariant
            it.seq() == name@,
            started == (it.index() > 0),
            forall|i: int| 0 <= i < it.index() ==> is_name_char(#[trigger] name@[i]),
            it.index() > 0 ==> !is_ascii_digit(name@[0]),
    {
        let ghost i = it.index();
        assert(ch == name@[i as int]);
        let code = ch as u32;
        let digit = 48 <= code && code <= 57;
        if !started && digit {
            return false;
        }
        started = true;
        if !(digit || (97 <= code && code <= 122) || (65 <= code && code <= 90) || code == 95) {
            return false;
        }
    }
    true
}

/// The decimal digit `d` as a character.
pub open spec fn digit_char(d: nat) -> char {
    ((d + 48) as u32) as char
}

/// The decimal representation of `n`, without leading zeros.
pub open spec fn decimal_chars(n: nat) -> Seq<char>
    decreases n,
{
    if n < 10 {
        seq![digit_char(n)]
    } else {
        decimal_chars(n / 10) + seq![digit_char(n % 10)]
    }
}

fn digit_str(d: u64) -> (s: &'static str)
    requires
        d < 10,
    ensures
        s@ == seq![digit_char(d as nat)],
{
    match d {
        0 => {
            proof { reveal_strlit("0"); }
            "0"
        },
        1 => {
            proof { reveal_strlit("1"); }
            "1"
        },
        2 => {
            proof { reveal_strlit("2"); }
            "2"
        },
        3 => {
            proof { reveal_strlit("3"); }
            "3"
        },
        4 => {
            proof { reveal_strlit("4"); }
            "4"
        },
        5 => {
            proof { reveal_strlit("5"); }
            "5"
        },
        6 => {
            proof { reveal_strlit("6"); }
            "6"
        },
        7 => {
            proof { reveal_strlit("7"); }
            "7"
        },
        8 => {
            proof { reveal_strlit("8"); }
            "8"
        },
        _ => {
            proof { reveal_strlit("9"); }
            "9"
        },
    }
}

/// The decimal representation of `n`.
pub fn decimal_string(n: u64) -> (s: String)
    ensures
        s@ == decimal_chars(n as nat),
    decreases n,
{
    if n < 10 {
        String::from_str(digit_str(n))
    } else {
        let mut s = decimal_string(n / 10);
        s.append(digit_str(n % 10));
        s
    }
}


/// The name of the file that holds file number `num` of column `column_name`
/// of table `table_name`: `table:column:num`.
pub open spec fn column_filename(table_name: Seq<char>, column_name: Seq<char>, num: nat) -> Seq<char> {
    table_name + seq![':'] + column_name + seq![':'] + decimal_chars(num)
}

/// Builds the name of file number `num` of a column: `table:column:num`.
pub fn generate_column_filename(table_name: &str, column_name: &str, num: u64) -> (r: String)
    ensures
        r@ == column_filename(table_name@, column_name@, num as nat),
{
    proof {
        reveal_strlit(":");
    }
    let mut r = String::from_str(table_name);
    r.append(":");
    r.append(column_name);
    r.append(":");
    let digits = decimal_string(num);
    r.append(digits.as_str());
    r
}

/// Whether `s` ends with `suffix`.
pub open spec fn ends_with(s: Seq<char>, suffix: Seq<char>) -> bool {
    s.len() >= suffix.len() && s.subrange(s.len() - suffix.len(), s.len() as int) == suffix
}

/// Whether `name` is one plain path component: no separator (`/` or `\\`),
/// and neither `.` nor `..`.
pub open spec fn plain_component(name: Seq<char>) -> bool {
    &&& !name.contains('/')
    &&& !name.contains('\\')
    &&& name != seq!['.']
    &&& name != seq!['.', '.']
}

/// Whether `path` starts with the verbatim prefix `\\?\`.
pub open spec fn is_verbatim(path: Seq<char>) -> bool {
    path.len() >= 4 && path.take(4) == seq!['\\', '\\', '?', '\\']
}

/// Whether `r` is the path that joining `name` onto the directory `dir`
/// gives on any platform: `name` itself when `dir` is empty; a path that ends
/// with `name` when `name` is one plain component; and, when that component
/// has no `:` (so that it has no drive prefix) and `dir` is not verbatim,
/// `dir` followed by `name`: directly when `dir` ends with `/`, and with a
/// separator (`/` or `\\`) between them when `dir` ends with neither
/// separator and is not a bare drive.
pub open spec fn joined_path(dir: Seq<char>, name: Seq<char>, r: Seq<char>) -> bool {
    &&& dir.len() == 0 ==> r == name
    &&& plain_component(name) ==> ends_with(r, name)
    &&& plain_component(name) && !name.contains(':') && !is_verbatim(dir) ==> {
        ||| r == dir + name
        ||| r == dir + seq!['/'] + name
        ||| r == dir + seq!['\\'] + name
    }
    &&& plain_component(name) && !name.contains(':') && !is_verbatim(dir) && dir.len() > 0
        && dir.last() == '/' ==> r == dir + name
    &&& plain_component(name) && !name.contains(':') && !is_verbatim(dir) && dir.len() > 0
        && dir.last() != '/' && dir.last() != '\\' && !is_bare_drive(dir) ==> {
        ||| r == dir + seq!['/'] + name
        ||| r == dir + seq!['\\'] + name
    }
}

/// Whether `path` is a bare drive such as `C:`, which on Windows takes a
/// relative path without a separator.
pub open spec fn is_bare_drive(path: Seq<char>) -> bool {
    path.len() == 2 && path[1] == ':'
}

/// Joins `column_filename` onto the directory `data_path` with
/// `std::path::Path::join` (`PathBuf::push`), as documented for every
/// platform. An empty path takes the pushed path as it is. A pushed path
/// that is absolute or has a prefix (on Windows, a drive such as `t:`)
/// replaces the path. One with a root but no prefix replaces what follows the
/// path's prefix. Onto a verbatim path (`\\?\`), the pushed path is added
/// with `.` and `..` resolved. Otherwise it is appended, after the
/// platform's separator (`/`, or `\\` on Windows) unless the path is empty or
/// ends with a separator (`/` on every platform, `\\` on Windows too), or is a
/// bare Windows drive. So a plain component always ends the result, and one
/// without `:` follows `data_path` (when that is not verbatim), after a
/// separator exactly where the rules above add one; both strings are UTF-8,
/// so the lossy conversion back loses nothing. Which of the two separators
/// the platform uses is not stated, nor whether one is added after a
/// trailing `\\`.
#[verifier::external_body]
fn path_join(data_path: &str, column_filename: &str) -> (r: String)
    ensures
        joined_path(data_path@, column_filename@, r@),
{
    std::path::Path::new(data_path).join(column_filename).to_string_lossy().into_owned()
}

/// The path of the column file `column_filename` in the directory
/// `data_path`: the directory, a separator where needed, and the file name.
pub fn get_column_path(data_path: &str, column_filename: &str) -> (r: String)
    ensures
        joined_path(data_path@, column_filename@, r@),
{
    path_join(data_path, column_filename)
}

/// Type of the values of a table column.
#[derive(Debug, Clone, Copy, PartialEq, Eq, Structural)]
pub enum ColumnType {
    INT64,
    VARCHAR,
}

/// A table column: its name, its type and the files that hold its values.
#[derive(Debug)]
pub struct Column {
    pub name: String,
    pub column_type: ColumnType,
    pub files: Vec<String>,
}

/// What a column is: its name, its type and the names of its files.
pub struct ColumnView {
    pub name: Seq<char>,
    pub column_type: ColumnType,
    pub files: Seq<Seq<char>>,
}

impl View for Column {
    type V = ColumnView;

    open spec fn view(&self) -> ColumnView {
        ColumnView {
            name: self.name@,
            column_type: self.column_type,
            files: self.files@.map_values(|f: String| f@),
        }
    }
}

impl Column {
    /// The paths of the column's files in the directory `data_path`, one per
    /// file, in order.
    pub fn get_file_paths(&self, data_path: &str) -> (r: Vec<String>)
        ensures
            r@.len() == self@.files.len(),
            forall|i: int|
                0 <= i < r@.len() ==> joined_path(data_path@, self@.files[i], #[trigger] r@[i]@),
    {
        let mut r: Vec<String> = Vec::new();
        let mut i: usize = 0;
        while i < self.files.len()
            invariant
                i <= self.files@.len(),
                r@.len() == i,
                forall|k: int|
                    0 <= k < i ==> joined_path(data_path@, self@.files[k], #[trigger] r@[k]@),
            decreases self.files@.len() - i,
        {
            assert(self@.files[i as int] == self.files@[i as int]@);
            r.push(get_column_path(data_path, self.files[i].as_str()));
            i += 1;
        }
        r
    }
}

/// A table: its name and its columns.
#[derive(Debug)]
pub struct Table {
    name: String,
    columns: Vec<Column>,
}

/// What a table is: its name and its columns.
pub struct TableView {
    pub name: Seq<char>,
    pub columns: Seq<ColumnView>,
}

impl View for Table {
    type V = TableView;

    closed spec fn view(&self) -> TableView {
        TableView { name: self.name@, columns: self.columns@.map_values(|c: Column| c@) }
    }
}

/// Why a table could not be made.
#[derive(Debug)]
pub enum TableError {
    InvalidTableName(String),
    InvalidColumnName(String, Vec<String>),
    DuplicatedColumns(String, Vec<String>),
    NoColumns(String),
}

/// The names among `names` that are not valid, in order.
pub open spec fn invalid_names(names: Seq<Seq<char>>) -> Seq<Seq<char>>
    decreases names.len(),
{
    if names.len() == 0 {
        seq![]
    } else if valid_name(names.last()) {
        invalid_names(names.drop_last())
    } else {
        invalid_names(names.drop_last()).push(names.last())
    }
}

/// The names of column definitions.
pub open spec fn definition_names(columns: Seq<(String, ColumnType)>) -> Seq<Seq<char>> {
    columns.map_values(|c: (String, ColumnType)| c.0@)
}

/// The columns, without files, that column definitions make.
pub open spec fn new_columns(columns: Seq<(String, ColumnType)>) -> Seq<ColumnView> {
    columns.map_values(
        |c: (String, ColumnType)| ColumnView { name: c.0@, column_type: c.1, files: seq![] },
    )
}

impl Table {
    /// A table with the given columns.
    pub fn from_parts(name: String, columns: Vec<Column>) -> (r: Table)
        ensures
            r@ == (TableView { name: name@, columns: columns@.map_values(|c: Column| c@) }),
    {
        Table { name, columns }
    }

    /// Makes a table of columns without files: refuses no columns, invalid
    /// column names (all of them are reported, in order) and an invalid table
    /// name, in that order.
    pub fn new(name: String, columns: &[(String, ColumnType)]) -> (r: Result<Table, TableError>)
        ensures
            columns@.len() == 0 ==> (r matches Err(TableError::NoColumns(n)) && n@ == name@),
            columns@.len() > 0 && invalid_names(definition_names(columns@)).len() > 0 ==> (
            r matches Err(TableError::InvalidColumnName(n, v)) && n@ == name@ && v@.map_values(
                |s: String| s@,
            ) == invalid_names(definition_names(columns@))),
            columns@.len() > 0 && invalid_names(definition_names(columns@)).len() == 0
                && !valid_name(name@) ==> (r matches Err(TableError::InvalidTableName(n)) && n@
                == name@),
            columns@.len() > 0 && invalid_names(definition_names(columns@)).len() == 0
                && valid_name(name@) ==> (r matches Ok(t) && t@ == TableView {
                name: name@,
                columns: new_columns(columns@),
            }),
    {
        if columns.len() == 0 {
            return Err(TableError::NoColumns(name));
        }
        let ghost names = definition_names(columns@);
        let mut invalid_columns: Vec<String> = Vec::new();
        let mut i: usize = 0;
        while i < columns.len()
            invariant
                i <= columns@.len(),
                names == definition_names(columns@),
                invalid_columns@.map_values(|s: String| s@) == invalid_names(names.take(i as int)),
            decreases columns@.len() - i,
        {
            assert(names.take(i + 1).drop_last() =~= names.take(i as int));
            assert(names[i as int] == columns@[i as int].0@);
            if !validate_name(columns[i].0.as_str()) {
                let n = columns[i].0.clone();
                proof {
                    assert(invalid_columns@.push(n).map_values(|s: String| s@) =~= invalid_columns@.map_values(
                        |s: String| s@,
                    ).push(n@));
                }
                invalid_columns.push(n);
            }
            i += 1;
        }
        assert(names.take(columns@.len() as int) =~= names);
        if invalid_columns.len() > 0 {
            return Err(TableError::InvalidColumnName(name, invalid_columns));
        }
        if !validate_name(name.as_str()) {
            return Err(TableError::InvalidTableName(name));
        }
        let mut cols: Vec<Column> = Vec::new();
        let mut j: usize = 0;
        while j < columns.len()
            invariant
                j <= columns@.len(),
                cols@.map_values(|c: Column| c@) == new_columns(columns@.take(j as int)),
            decreases columns@.len() - j,
        {
            let c = Column {
                name: columns[j].0.clone(),
                column_type: columns[j].1,
                files: Vec::new(),
            };
            proof {
                assert(c@.files =~= Seq::<Seq<char>>::empty());
                assert(columns@.take(j + 1) =~= columns@.take(j as int).push(columns@[j as int]));
                assert(cols@.push(c).map_values(|c: Column| c@) =~= cols@.map_values(|c: Column| c@).push(c@));
                assert(new_columns(columns@.take(j + 1)) =~= new_columns(columns@.take(j as int)).push(c@));
            }
            cols.push(c);
            j += 1;
        }
        assert(columns@.take(columns@.len() as int) =~= columns@);
        Ok(Table { name, columns: cols })
    }

    /// The table's columns.
    pub fn columns(&self) -> (r: &Vec<Column>)
        ensures
            r@.map_values(|c: Column| c@) == self@.columns,
    {
        &self.columns
    }

    /// For each column, in order: its name, its type and the name of the next
    /// file to add to it (numbered by how many files the column has).
    pub fn new_filenames(&self) -> (r: Vec<(String, ColumnType, String)>)
        ensures
            is_new_filenames(self@, r@),
    {
        let mut r: Vec<(String, ColumnType, String)> = Vec::new();
        let mut i: usize = 0;
        while i < self.columns.len()
            invariant
                i <= self.columns@.len(),
                r@.len() == i,
                forall|k: int|
                    0 <= k < i ==> {
                        let c = #[trigger] self@.columns[k];
                        &&& r@[k].0@ == c.name
                        &&& r@[k].1 == c.column_type
                        &&& r@[k].2@ == column_filename(self@.name, c.name, c.files.len())
                    },
            decreases self.columns@.len() - i,
        {
            let col = &self.columns[i];
            assert(self@.columns[i as int] == col@);
            let n = col.files.len() as u64;
            assert(col@.files.len() == col.files@.len());
            let f = generate_column_filename(self.name.as_str(), col.name.as_str(), n);
            r.push((col.name.clone(), col.column_type, f));
            i += 1;
        }
        assert(is_new_filenames(self@, r@));
        r
    }

    /// Adds one file to each column: `filenames` gives, per column in order,
    /// the column's name, its type and the file name. Refuses (and changes
    /// nothing) when the number of entries differs from the number of columns
    /// or when some entry differs from its column in both name and type.
    pub fn add_filenames(&mut self, filenames: Vec<(String, ColumnType, String)>) -> (r: Result<
        (),
        (),
    >)
        requires
            filenames_consistent(old(self)@, filenames@),
        ensures
            r is Err <==> filenames@.len() != old(self)@.columns.len() || exists|i: int|
                0 <= i < filenames@.len() && names_and_types_differ(
                    #[trigger] filenames@[i],
                    old(self)@.columns[i],
                ),
            r is Err ==> final(self)@ == old(self)@,
            r is Ok ==> final(self)@ == old(self)@.with_added_files(filenames@),
    {
        if filenames.len() != self.columns.len() {
            return Err(());
        }
        let mut i: usize = 0;
        while i < self.columns.len()
            invariant
                i <= self.columns@.len(),
                filenames@.len() == self.columns@.len(),
                forall|k: int|
                    0 <= k < i ==> !names_and_types_differ(
                        #[trigger] filenames@[k],
                        self@.columns[k],
                    ),
            decreases self.columns@.len() - i,
        {
            let col = &self.columns[i];
            assert(self@.columns[i as int] == col@);
            let (name, typ, _) = &filenames[i];
            if col.name != *name && col.column_type != *typ {
                return Err(());
            }
            i += 1;
        }
        let ghost old_view = self@;
        let mut old_cols: Vec<Column> = Vec::new();
        std::mem::swap(&mut old_cols, &mut self.columns);
        let mut new_cols: Vec<Column> = Vec::new();
        let mut k: usize = 0;
        broadcast use vstd::std_specs::vec::axiom_spec_into_iter;
        let ghost oc = old_cols@;
        for col in it: old_cols.into_iter()
            invariant
                it.seq() == oc,
                k == it.index(),
                oc.len() == filenames@.len(),
                old_view.columns == oc.map_values(|c: Column| c@),
                new_cols@.map_values(|c: Column| c@) == old_view.with_added_files(filenames@).columns.take(
                    k as int,
                ),
        {
            let mut col = col;
            assert(it.index() < oc.len());
            let f = filenames[k].2.clone();
            proof {
                assert(oc[k as int]@ == old_view.columns[k as int]);
            }
            let ghost before = col@;
            col.files.push(f);
            proof {
                assert(col@.files =~= before.files.push(f@));
                assert(new_cols@.push(col).map_values(|c: Column| c@) =~= new_cols@.map_values(
                    |c: Column| c@,
                ).push(col@));
                assert(old_view.with_added_files(filenames@).columns.take(k + 1)
                    =~= old_view.with_added_files(filenames@).columns.take(k as int).push(col@));
            }
            new_cols.push(col);
            assert(k < filenames.len());
            k += 1;
        }
        self.columns = new_cols;
        assert(self@ =~= old_view.with_added_files(filenames@)) by {
            assert(old_view.with_added_files(filenames@).columns.take(oc.len() as int)
                =~= old_view.with_added_files(filenames@).columns);
        }
        Ok(())
    }

    /// Checks that `filenames` can be handed to `add_filenames`: each entry
    /// that has its column's name or type has both.
    pub fn filenames_consistent(&self, filenames: &Vec<(String, ColumnType, String)>) -> (r: bool)
        ensures
            r == filenames_consistent(self@, filenames@),
    {
        if filenames.len() != self.columns.len() {
            return true;
        }
        let mut all_match = true;
        let mut i: usize = 0;
        while i < self.columns.len()
            invariant
                i <= self.columns@.len(),
                filenames@.len() == self.columns@.len(),
                forall|k: int|
                    0 <= k < i ==> !names_and_types_differ(#[trigger] filenames@[k], self@.columns[k]),
                all_match == forall|k: int|
                    0 <= k < i ==> names_and_types_match(#[trigger] filenames@[k], self@.columns[k]),
            decreases self.columns@.len() - i,
        {
            let col = &self.columns[i];
            assert(self@.columns[i as int] == col@);
            let (name, typ, _) = &filenames[i];
            let same_name = col.name == *name;
            let same_type = col.column_type == *typ;
            if !same_name && !same_type {
                return true;
            }
            if !(same_name && same_type) {
                all_match = false;
            }
            i += 1;
        }
        all_match
    }

    /// The table's name.
    pub fn name(&self) -> (r: &String)
        ensures
            r@ == self@.name,
    {
        &self.name
    }
}


/// Whether a file entry differs from a column in both name and type.
pub open spec fn names_and_types_differ(f: (String, ColumnType, String), c: ColumnView) -> bool {
    f.0@ != c.name && f.1 != c.column_type
}

/// Whether file entries that no column refuses all match their columns:
/// when there is one entry per column and none differs from its column in
/// both name and type, each has its column's name and type.
pub open spec fn filenames_consistent(t: TableView, f: Seq<(String, ColumnType, String)>) -> bool {
    f.len() == t.columns.len() && (forall|i: int|
        0 <= i < f.len() ==> !names_and_types_differ(#[trigger] f[i], t.columns[i])) ==> forall|
        i: int,
    |
        0 <= i < f.len() ==> names_and_types_match(#[trigger] f[i], t.columns[i])
}

/// Whether a file entry has the name and type of a column.
pub open spec fn names_and_types_match(f: (String, ColumnType, String), c: ColumnView) -> bool {
    f.0@ == c.name && f.1 == c.column_type
}

impl TableView {
    /// The table with file `filenames[i].2` added to column `i`.
    pub open spec fn with_added_files(self, filenames: Seq<(String, ColumnType, String)>) -> TableView {
        TableView {
            name: self.name,
            columns: Seq::new(
                self.columns.len(),
                |i: int|
                    ColumnView {
                        name: self.columns[i].name,
                        column_type: self.columns[i].column_type,
                        files: self.columns[i].files.push(filenames[i].2@),
                    },
            ),
        }
    }
}


/// Whether `f` is what `new_filenames` gives for the table `t`: per column,
/// its name, its type and the name of its next file.
pub open spec fn is_new_filenames(t: TableView, f: Seq<(String, ColumnType, String)>) -> bool {
    &&& f.len() == t.columns.len()
    &&& forall|i: int|
        0 <= i < f.len() ==> {
            let c = #[trigger] t.columns[i];
            &&& f[i].0@ == c.name
            &&& f[i].1 == c.column_type
            &&& f[i].2@ == column_filename(t.name, c.name, c.files.len())
        }
}

/// The file names that `new_filenames` makes are accepted by `add_filenames`:
/// every column then has one more file, named after the table, the column
/// and the number of files it had.
pub proof fn lemma_new_filenames_accepted(t: TableView, f: Seq<(String, ColumnType, String)>)
    requires
        is_new_filenames(t, f),
    ensures
        forall|i: int| 0 <= i < f.len() ==> names_and_types_match(#[trigger] f[i], t.columns[i]),
        !exists|i: int| 0 <= i < f.len() && names_and_types_differ(#[trigger] f[i], t.columns[i]),
        t.with_added_files(f).name == t.name,
        t.with_added_files(f).columns.len() == t.columns.len(),
        forall|i: int|
            0 <= i < t.columns.len() ==> (#[trigger] t.with_added_files(f).columns[i]).files
                == t.columns[i].files.push(
                column_filename(t.name, t.columns[i].name, t.columns[i].files.len()),
            ),
{
    assert forall|i: int| 0 <= i < f.len() implies names_and_types_match(
        #[trigger] f[i],
        t.columns[i],
    ) by {
        let c = t.columns[i];
    }
    assert forall|i: int| 0 <= i < t.columns.len() implies (#[trigger] t.with_added_files(
        f,
    ).columns[i]).files == t.columns[i].files.push(
        column_filename(t.name, t.columns[i].name, t.columns[i].files.len()),
    ) by {
        let c = t.columns[i];
    }
}

proof fn lemma_digit_char(a: nat, b: nat)
    requires
        a < 10,
        b < 10,
        digit_char(a) == digit_char(b),
    ensures
        a == b,
{
    assert(digit_char(a) as u32 == (a + 48) as u32);
    assert(digit_char(b) as u32 == (b + 48) as u32);
}

proof fn lemma_decimal_len(n: nat)
    ensures
        decimal_chars(n).len() >= 1,
        n >= 10 ==> decimal_chars(n).len() >= 2,
    decreases n,
{
    if n >= 10 {
        lemma_decimal_len(n / 10);
    }
}

/// Different numbers have different decimal representations.
pub proof fn lemma_decimal_injective(n: nat, m: nat)
    requires
        decimal_chars(n) == decimal_chars(m),
    ensures
        n == m,
    decreases n,
{
    lemma_decimal_len(n);
    lemma_decimal_len(m);
    if n < 10 && m < 10 {
        assert(decimal_chars(n)[0] == digit_char(n));
        assert(decimal_chars(m)[0] == digit_char(m));
        lemma_digit_char(n, m);
    } else if n >= 10 && m >= 10 {
        let dn = decimal_chars(n);
        let dm = decimal_chars(m);
        assert(dn.last() == digit_char(n % 10));
        assert(dm.last() == digit_char(m % 10));
        lemma_digit_char(n % 10, m % 10);
        assert(dn.drop_last() =~= decimal_chars(n / 10));
        assert(dm.drop_last() =~= decimal_chars(m / 10));
        lemma_decimal_injective(n / 10, m / 10);
    }
}

/// Files of one column made with different numbers get different names, so
/// adding a file never reuses the name of an earlier one.
pub proof fn lemma_column_filenames_distinct(table_name: Seq<char>, column_name: Seq<char>, n: nat, m: nat)
    requires
        n != m,
    ensures
        column_filename(table_name, column_name, n) != column_filename(table_name, column_name, m),
{
    let p = table_name + seq![':'] + column_name + seq![':'];
    if column_filename(table_name, column_name, n) == column_filename(table_name, column_name, m) {
        assert(column_filename(table_name, column_name, n) =~= p + decimal_chars(n));
        assert(column_filename(table_name, column_name, m) =~= p + decimal_chars(m));
        assert((p + decimal_chars(n)).skip(p.len() as int) =~= decimal_chars(n));
        assert((p + decimal_chars(m)).skip(p.len() as int) =~= decimal_chars(m));
        lemma_decimal_injective(n, m);
    }
}

} // verus!
