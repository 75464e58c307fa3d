//! Sheets read from CSV and Excel files.

pub mod csv_source;
pub mod excel_source;
pub mod grid;

use vstd::prelude::*;

pub use csv_source::CsvSource;
pub use excel_source::ExcelSource;

use grid::{
    blank_row, cell_at, cell_writable, cell_written, filled_row, row_inserted, row_removed,
    row_restored,
};
use crate::text::{lowercase, to_lowercase, text_eq};

verus! {

/// What a sheet offers to the code that shows and edits it.
pub trait DataSource {
    spec fn table_headers(&self) -> Seq<Seq<char>>;

    spec fn table_rows(&self) -> Seq<Seq<Seq<char>>>;

    spec fn table_sheet_names(&self) -> Seq<Seq<char>>;

    spec fn table_current_sheet(&self) -> nat;

    spec fn table_file_name(&self) -> Seq<char>;

    fn headers(&self) -> (h: &[String])
        ensures
            h.deep_view() == self.table_headers(),
    ;

    fn row_count(&self) -> (n: usize)
        ensures
            n == self.table_rows().len(),
    ;

    fn column_count(&self) -> (n: usize)
        ensures
            n == self.table_headers().len(),
    ;

    fn get_row(&self, index: usize) -> (row: Option<Vec<String>>)
        ensures
            match row {
                Some(v) => index < self.table_rows().len() && v.deep_view()
                    == self.table_rows()[index as int],
                None => index >= self.table_rows().len(),
            },
    ;

    fn get_cell(&self, row: usize, col: usize) -> (cell: Option<String>)
        ensures
            match cell {
                Some(s) => cell_at(self.table_rows(), row as int, col as int) == Some(s@),
                None => cell_at(self.table_rows(), row as int, col as int) is None,
            },
    ;

    fn set_cell(&mut self, row: usize, col: usize, value: &str)
        ensures
            final(self).table_rows() == cell_written(old(self).table_rows(), row as int, col as int, value@),
            final(self).table_headers() == old(self).table_headers(),
    ;

    fn insert_row(&mut self, at: usize)
        ensures
            final(self).table_rows() == row_inserted(old(self).table_rows(), at as int, old(self).table_headers().len()),
            final(self).table_headers() == old(self).table_headers(),
    ;

    fn delete_row(&mut self, at: usize)
        ensures
            final(self).table_rows() == row_removed(old(self).table_rows(), at as int),
            final(self).table_headers() == old(self).table_headers(),
    ;

    fn file_name(&self) -> (n: String)
        ensures
            n@ == self.table_file_name(),
    ;

    fn sheet_names(&self) -> (n: Vec<String>)
        ensures
            n.deep_view() == self.table_sheet_names(),
    ;

    fn sheet_count(&self) -> (n: usize)
        ensures
            n == self.table_sheet_names().len(),
    ;

    fn current_sheet(&self) -> (i: usize)
        ensures
            i == self.table_current_sheet(),
    ;
}

/// The only sheet name of a delimited text file.
pub open spec fn csv_sheet_names() -> Seq<Seq<char>> {
    seq!["Sheet1"@]
}

fn csv_sheet_name_list() -> (n: Vec<String>)
    ensures
        n.deep_view() == csv_sheet_names(),
{
    let mut n: Vec<String> = Vec::new();
    n.push("Sheet1".to_owned());
    assert(n.deep_view() =~= csv_sheet_names());
    n
}

/// A sheet of either kind of file.
pub enum DataSourceType {
    Csv(CsvSource),
    Excel(ExcelSource),
}

/// What saving a sheet takes.
#[derive(PartialEq, Eq, Structural, Clone, Copy, Debug)]
pub enum SavePlan {
    /// Nothing changed since the file was read or last written.
    Unchanged,
    /// The file is to be written with the headers and rows.
    Write,
    /// This kind of file is not written back.
    Unsupported,
}

impl DataSourceType {
    pub open spec fn spec_headers(&self) -> Seq<Seq<char>> {
        match self {
            DataSourceType::Csv(ds) => ds.spec_headers(),
            DataSourceType::Excel(ds) => ds.spec_headers(),
        }
    }

    pub open spec fn spec_rows(&self) -> Seq<Seq<Seq<char>>> {
        match self {
            DataSourceType::Csv(ds) => ds.spec_rows(),
            DataSourceType::Excel(ds) => ds.spec_rows(),
        }
    }

    pub open spec fn spec_modified(&self) -> bool {
        match self {
            DataSourceType::Csv(ds) => ds.spec_modified(),
            DataSourceType::Excel(ds) => ds.spec_modified(),
        }
    }

    pub open spec fn spec_file_name(&self) -> Seq<char> {
        match self {
            DataSourceType::Csv(ds) => ds.spec_file_name(),
            DataSourceType::Excel(ds) => ds.spec_file_name(),
        }
    }

    pub open spec fn spec_file_path(&self) -> Seq<char> {
        match self {
            DataSourceType::Csv(ds) => ds.spec_file_path(),
            DataSourceType::Excel(ds) => ds.spec_file_path(),
        }
    }

    pub open spec fn spec_sheet_names(&self) -> Seq<Seq<char>> {
        match self {
            DataSourceType::Csv(_) => csv_sheet_names(),
            DataSourceType::Excel(ds) => ds.spec_sheet_names(),
        }
    }

    pub open spec fn spec_current_sheet(&self) -> nat {
        match self {
            DataSourceType::Csv(_) => 0,
            DataSourceType::Excel(ds) => ds.spec_current_sheet(),
        }
    }

    /// The same sheet, file and sheet list, with other cells.
    pub open spec fn same_sheet(&self, other: &DataSourceType) -> bool {
        &&& self.spec_headers() == other.spec_headers()
        &&& self.spec_file_name() == other.spec_file_name()
        &&& self.spec_file_path() == other.spec_file_path()
        &&& self.spec_sheet_names() == other.spec_sheet_names()
        &&& self.spec_current_sheet() == other.spec_current_sheet()
        &&& (self is Csv <==> other is Csv)
    }

    pub fn headers(&self) -> (h: &[String])
        ensures
            h.deep_view() == self.spec_headers(),
    {
        match self {
            DataSourceType::Csv(ds) => ds.headers(),
            DataSourceType::Excel(ds) => ds.headers(),
        }
    }

    pub fn row_count(&self) -> (n: usize)
        ensures
            n == self.spec_rows().len(),
    {
        match self {
            DataSourceType::Csv(ds) => ds.row_count(),
            DataSourceType::Excel(ds) => ds.row_count(),
        }
    }

    pub fn column_count(&self) -> (n: usize)
        ensures
            n == self.spec_headers().len(),
    {
        match self {
            DataSourceType::Csv(ds) => ds.column_count(),
            DataSourceType::Excel(ds) => ds.column_count(),
        }
    }

    pub fn get_row(&self, index: usize) -> (row: Option<Vec<String>>)
        ensures
            match row {
                Some(v) => index < self.spec_rows().len() && v.deep_view()
                    == self.spec_rows()[index as int],
                None => index >= self.spec_rows().len(),
            },
    {
        match self {
            DataSourceType::Csv(ds) => ds.get_row(index),
            DataSourceType::Excel(ds) => ds.get_row(index),
        }
    }

    pub fn get_cell(&self, row: usize, col: usize) -> (cell: Option<String>)
        ensures
            match cell {
                Some(s) => cell_at(self.spec_rows(), row as int, col as int) == Some(s@),
                None => cell_at(self.spec_rows(), row as int, col as int) is None,
            },
    {
        match self {
            DataSourceType::Csv(ds) => ds.get_cell(row, col),
            DataSourceType::Excel(ds) => ds.get_cell(row, col),
        }
    }

    pub fn set_cell(&mut self, row: usize, col: usize, value: &str)
        ensures
            final(self).spec_rows() == cell_written(old(self).spec_rows(), row as int, col as int, value@),
            final(self).same_sheet(old(self)),
            final(self).spec_modified() == (old(self).spec_modified() || cell_writable(old(self).spec_rows(), row as int, col as int)),
    {
        match self {
            DataSourceType::Csv(ds) => ds.set_cell(row, col, value),
            DataSourceType::Excel(ds) => ds.set_cell(row, col, value),
        }
    }

    pub fn insert_row(&mut self, at: usize)
        ensures
            final(self).spec_rows() == row_inserted(old(self).spec_rows(), at as int, old(self).spec_headers().len()),
            final(self).same_sheet(old(self)),
            final(self).spec_modified(),
    {
        match self {
            DataSourceType::Csv(ds) => ds.insert_row(at),
            DataSourceType::Excel(ds) => ds.insert_row(at),
        }
    }

    pub fn delete_row(&mut self, at: usize)
        ensures
            final(self).spec_rows() == row_removed(old(self).spec_rows(), at as int),
            final(self).same_sheet(old(self)),
            final(self).spec_modified() == (old(self).spec_modified() || at < old(self).spec_rows().len()),
    {
        match self {
            DataSourceType::Csv(ds) => ds.delete_row(at),
            DataSourceType::Excel(ds) => ds.delete_row(at),
        }
    }

    pub fn file_name(&self) -> (n: String)
        ensures
            n@ == self.spec_file_name(),
    {
        match self {
            DataSourceType::Csv(ds) => ds.file_name(),
            DataSourceType::Excel(ds) => ds.file_name(),
        }
    }

    pub fn file_path(&self) -> (p: &str)
        ensures
            p@ == self.spec_file_path(),
    {
        match self {
            DataSourceType::Csv(ds) => ds.file_path(),
            DataSourceType::Excel(ds) => ds.file_path(),
        }
    }

    pub fn sheet_names(&self) -> (n: Vec<String>)
        ensures
            n.deep_view() == self.spec_sheet_names(),
    {
        match self {
            DataSourceType::Csv(_) => csv_sheet_name_list(),
            DataSourceType::Excel(ds) => ds.sheet_name_list(),
        }
    }

    pub fn sheet_count(&self) -> (n: usize)
        ensures
            n == self.spec_sheet_names().len(),
    {
        match self {
            DataSourceType::Csv(_) => 1,
            DataSourceType::Excel(ds) => ds.sheet_count(),
        }
    }

    /// The shown sheet, one of the sheets.
    pub fn current_sheet(&self) -> (i: usize)
        ensures
            i == self.spec_current_sheet(),
            i < self.spec_sheet_names().len(),
    {
        match self {
            DataSourceType::Csv(_) => 0,
            DataSourceType::Excel(ds) => ds.current_sheet(),
        }
    }

    /// What saving takes: a text file is written when it changed since it
    /// was read or last written, and a workbook is not written back.
    pub fn save_plan(&self) -> (p: SavePlan)
        ensures
            p == (match self {
                DataSourceType::Csv(ds) => if ds.spec_modified() {
                    SavePlan::Write
                } else {
                    SavePlan::Unchanged
                },
                DataSourceType::Excel(_) => SavePlan::Unsupported,
            }),
    {
        match self {
            DataSourceType::Csv(ds) => if ds.is_modified() {
                SavePlan::Write
            } else {
                SavePlan::Unchanged
            },
            DataSourceType::Excel(_) => SavePlan::Unsupported,
        }
    }

    /// Records that the file now holds the sheet as it is.
    pub fn mark_saved(&mut self)
        ensures
            final(self).spec_rows() == old(self).spec_rows(),
            final(self).same_sheet(old(self)),
            *old(self) is Csv ==> !final(self).spec_modified(),
            *old(self) is Excel ==> final(self).spec_modified() == old(self).spec_modified(),
    {
        match self {
            DataSourceType::Csv(ds) => ds.mark_saved(),
            DataSourceType::Excel(_) => {},
        }
    }

    /// Shows sheet `index`, whose cells `loaded` holds as read from the file
    /// (see `ExcelSource::switch_sheet`); a text file has the one sheet 0.
    pub fn switch_sheet(&mut self, index: usize, loaded: Result<Vec<Vec<String>>, String>) -> (r:
        Result<(), String>)
        ensures
            *old(self) is Csv ==> *final(self) == *old(self) && (if index == 0 {
                r is Ok
            } else {
                r matches Err(m) && m@ == "CSV has only one sheet"@
            }),
            *old(self) is Excel ==> *final(self) is Excel && (index >= old(
                self,
            ).spec_sheet_names().len() ==> (r matches Err(m) && m@ == "Sheet index out of bounds"@
                && *final(self) == *old(self))) && (index < old(self).spec_sheet_names().len() ==> {
                &&& final(self).spec_current_sheet() == index
                &&& final(self).spec_sheet_names() == old(self).spec_sheet_names()
                &&& final(self).spec_file_path() == old(self).spec_file_path()
                &&& final(self).spec_file_name() == old(self).spec_file_name()
                &&& match loaded {
                    Ok(cells) => r is Ok && final(self).spec_headers() == grid::header_of(
                        cells.deep_view(),
                    ) && final(self).spec_rows() == grid::body_of(cells.deep_view())
                        && !final(self).spec_modified(),
                    Err(e) => r == Err::<(), String>(e) && final(self).spec_headers() == old(
                        self,
                    ).spec_headers() && final(self).spec_rows() == old(self).spec_rows()
                        && final(self).spec_modified() == old(self).spec_modified(),
                }
            }),
    {
        match self {
            DataSourceType::Csv(_) => {
                if index == 0 {
                    Ok(())
                } else {
                    Err("CSV has only one sheet".to_owned())
                }
            },
            DataSourceType::Excel(ds) => ds.switch_sheet(index, loaded),
        }
    }
}

} // verus!

verus! {

/// How a file is read.
#[derive(PartialEq, Eq, Structural, Clone, Copy, Debug)]
pub enum FileKind {
    /// Delimited text.
    Csv,
    /// An Excel workbook.
    Excel,
}

/// The kind of file a path's extension names: `xlsx`, `xls` and `xlsm`
/// (in any case) are workbooks, everything else, a missing extension
/// included, is delimited text.
pub open spec fn kind_of(extension: Option<Seq<char>>) -> FileKind {
    match extension {
        Some(e) => {
            let l = lowercase(e);
            if l == "xlsx"@ || l == "xls"@ || l == "xlsm"@ {
                FileKind::Excel
            } else {
                FileKind::Csv
            }
        },
        None => FileKind::Csv,
    }
}

/// The kind of file a path with this extension (if it has one that is
/// valid Unicode) holds.
pub fn file_kind(extension: Option<&str>) -> (k: FileKind)
    ensures
        k == kind_of(
            match extension {
                Some(e) => Some(e@),
                None => None,
            },
        ),
{
    match extension {
        Some(e) => {
            let l = to_lowercase(e);
            if text_eq(l.as_str(), "xlsx") || text_eq(l.as_str(), "xls") || text_eq(
                l.as_str(),
                "xlsm",
            ) {
                FileKind::Excel
            } else {
                FileKind::Csv
            }
        },
        None => FileKind::Csv,
    }
}

/// What was read from a file: the bytes of a text file, or the sheet names
/// of a workbook with the cells of its first sheet.
pub enum FileContents {
    Text(Vec<u8>),
    Workbook { sheet_names: Vec<String>, first_sheet: Vec<Vec<String>> },
}

/// The sheet that a file with the given contents holds.
pub fn open_file(
    file_path: String,
    file_name: Option<String>,
    delimiter: Option<char>,
    contents: FileContents,
) -> (r: Result<DataSourceType, String>)
    ensures
        match contents {
            FileContents::Text(bytes) => match csv_source::csv_table(
                bytes@,
                csv_source::delimiter_byte(delimiter, bytes@),
            ) {
                Ok((h, rows)) => r matches Ok(DataSourceType::Csv(s)) && s.spec_headers() == h
                    && s.spec_rows() == rows && !s.spec_modified() && s.spec_file_path()
                    == file_path@ && s.spec_file_name() == csv_source::name_or_unknown(file_name),
                Err(e) => r matches Err(m) && m@ == e,
            },
            FileContents::Workbook { sheet_names, first_sheet } => {
                &&& sheet_names@.len() == 0 ==> (r matches Err(m) && m@ == "No sheets found"@)
                &&& sheet_names@.len() > 0 ==> (r matches Ok(DataSourceType::Excel(s))
                    && s.spec_headers() == grid::header_of(first_sheet.deep_view())
                    && s.spec_rows() == grid::body_of(first_sheet.deep_view())
                    && !s.spec_modified() && s.spec_current_sheet() == 0 && s.spec_sheet_names()
                    == sheet_names.deep_view() && s.spec_file_path() == file_path@
                    && s.spec_file_name() == csv_source::name_or_unknown(file_name))
            },
        },
{
    match contents {
        FileContents::Text(bytes) => match CsvSource::open(
            file_path,
            file_name,
            delimiter,
            bytes.as_slice(),
        ) {
            Ok(s) => Ok(DataSourceType::Csv(s)),
            Err(e) => Err(e),
        },
        FileContents::Workbook { sheet_names, first_sheet } => match ExcelSource::open(
            file_path,
            file_name,
            sheet_names,
            first_sheet,
        ) {
            Ok(s) => Ok(DataSourceType::Excel(s)),
            Err(e) => Err(e),
        },
    }
}

impl DataSource for DataSourceType {
    open spec fn table_headers(&self) -> Seq<Seq<char>> {
        self.spec_headers()
    }

    open spec fn table_rows(&self) -> Seq<Seq<Seq<char>>> {
        self.spec_rows()
    }

    open spec fn table_sheet_names(&self) -> Seq<Seq<char>> {
        self.spec_sheet_names()
    }

    open spec fn table_current_sheet(&self) -> nat {
        self.spec_current_sheet()
    }

    open spec fn table_file_name(&self) -> Seq<char> {
        self.spec_file_name()
    }

    fn headers(&self) -> (h: &[String]) {
        DataSourceType::headers(self)
    }

    fn row_count(&self) -> (n: usize) {
        DataSourceType::row_count(self)
    }

    fn column_count(&self) -> (n: usize) {
        DataSourceType::column_count(self)
    }

    fn get_row(&self, index: usize) -> (row: Option<Vec<String>>) {
        DataSourceType::get_row(self, index)
    }

    fn get_cell(&self, row: usize, col: usize) -> (cell: Option<String>) {
        DataSourceType::get_cell(self, row, col)
    }

    fn set_cell(&mut self, row: usize, col: usize, value: &str) {
        DataSourceType::set_cell(self, row, col, value)
    }

    fn insert_row(&mut self, at: usize) {
        DataSourceType::insert_row(self, at)
    }

    fn delete_row(&mut self, at: usize) {
        DataSourceType::delete_row(self, at)
    }

    fn file_name(&self) -> (n: String) {
        DataSourceType::file_name(self)
    }

    fn sheet_names(&self) -> (n: Vec<String>) {
        DataSourceType::sheet_names(self)
    }

    fn sheet_count(&self) -> (n: usize) {
        DataSourceType::sheet_count(self)
    }

    fn current_sheet(&self) -> (i: usize) {
        DataSourceType::current_sheet(self)
    }
}

impl DataSource for CsvSource {
    open spec fn table_headers(&self) -> Seq<Seq<char>> {
        self.spec_headers()
    }

    open spec fn table_rows(&self) -> Seq<Seq<Seq<char>>> {
        self.spec_rows()
    }

    open spec fn table_sheet_names(&self) -> Seq<Seq<char>> {
        csv_sheet_names()
    }

    open spec fn table_current_sheet(&self) -> nat {
        0
    }

    open spec fn table_file_name(&self) -> Seq<char> {
        self.spec_file_name()
    }

    fn headers(&self) -> (h: &[String]) {
        CsvSource::headers(self)
    }

    fn row_count(&self) -> (n: usize) {
        CsvSource::row_count(self)
    }

    fn column_count(&self) -> (n: usize) {
        CsvSource::column_count(self)
    }

    fn get_row(&self, index: usize) -> (row: Option<Vec<String>>) {
        CsvSource::get_row(self, index)
    }

    fn get_cell(&self, row: usize, col: usize) -> (cell: Option<String>) {
        CsvSource::get_cell(self, row, col)
    }

    fn set_cell(&mut self, row: usize, col: usize, value: &str) {
        CsvSource::set_cell(self, row, col, value)
    }

    fn insert_row(&mut self, at: usize) {
        CsvSource::insert_row(self, at)
    }

    fn delete_row(&mut self, at: usize) {
        CsvSource::delete_row(self, at)
    }

    fn file_name(&self) -> (n: String) {
        CsvSource::file_name(self)
    }

    fn sheet_names(&self) -> (n: Vec<String>) {
        csv_sheet_name_list()
    }

    fn sheet_count(&self) -> (n: usize) {
        1
    }

    fn current_sheet(&self) -> (i: usize) {
        0
    }
}

impl DataSource for ExcelSource {
    open spec fn table_headers(&self) -> Seq<Seq<char>> {
        self.spec_headers()
    }

    open spec fn table_rows(&self) -> Seq<Seq<Seq<char>>> {
        self.spec_rows()
    }

    open spec fn table_sheet_names(&self) -> Seq<Seq<char>> {
        self.spec_sheet_names()
    }

    open spec fn table_current_sheet(&self) -> nat {
        self.spec_current_sheet()
    }

    open spec fn table_file_name(&self) -> Seq<char> {
        self.spec_file_name()
    }

    fn headers(&self) -> (h: &[String]) {
        ExcelSource::headers(self)
    }

    fn row_count(&self) -> (n: usize) {
        ExcelSource::row_count(self)
    }

    fn column_count(&self) -> (n: usize) {
        ExcelSource::column_count(self)
    }

    fn get_row(&self, index: usize) -> (row: Option<Vec<String>>) {
        ExcelSource::get_row(self, index)
    }

    fn get_cell(&self, row: usize, col: usize) -> (cell: Option<String>) {
        ExcelSource::get_cell(self, row, col)
    }

    fn set_cell(&mut self, row: usize, col: usize, value: &str) {
        ExcelSource::set_cell(self, row, col, value)
    }

    fn insert_row(&mut self, at: usize) {
        ExcelSource::insert_row(self, at)
    }

    fn delete_row(&mut self, at: usize) {
        ExcelSource::delete_row(self, at)
    }

    fn file_name(&self) -> (n: String) {
        ExcelSource::file_name(self)
    }

    fn sheet_names(&self) -> (n: Vec<String>) {
        self.sheet_name_list()
    }

    fn sheet_count(&self) -> (n: usize) {
        ExcelSource::sheet_count(self)
    }

    fn current_sheet(&self) -> (i: usize) {
        ExcelSource::current_sheet(self)
    }
}

} // verus!

verus! {

/// `post` is `pre` after writing `v` at row `r`, column `c`.
#[verifier::opaque]
pub open spec fn written(pre: DataSourceType, post: DataSourceType, r: int, c: int, v: Seq<char>) -> bool {
    &&& post.spec_rows() == cell_written(pre.spec_rows(), r, c, v)
    &&& post.same_sheet(&pre)
    &&& post.spec_modified() == (pre.spec_modified() || cell_writable(pre.spec_rows(), r, c))
}

/// `post` is `pre` after inserting a blank row at `at`.
#[verifier::opaque]
pub open spec fn blank_inserted(pre: DataSourceType, post: DataSourceType, at: int) -> bool {
    &&& post.spec_rows() == row_inserted(pre.spec_rows(), at, pre.spec_headers().len())
    &&& post.same_sheet(&pre)
    &&& post.spec_modified()
}

/// `post` is `pre` after removing row `at`.
#[verifier::opaque]
pub open spec fn removed(pre: DataSourceType, post: DataSourceType, at: int) -> bool {
    &&& post.spec_rows() == row_removed(pre.spec_rows(), at)
    &&& post.same_sheet(&pre)
    &&& post.spec_modified() == (pre.spec_modified() || (0 <= at < pre.spec_rows().len()))
}

/// `post` is `pre` after inserting a blank row at `at` and writing
/// `values` into its cells, as far as the headers reach.
#[verifier::opaque]
pub open spec fn restored(pre: DataSourceType, post: DataSourceType, at: int, values: Seq<Seq<char>>) -> bool {
    &&& post.spec_rows() == row_restored(pre.spec_rows(), at, values, pre.spec_headers().len())
    &&& post.same_sheet(&pre)
    &&& post.spec_modified()
}

/// A row of `width` cells holding the first `j` of `values` (as far as
/// they reach), the other cells empty.
pub open spec fn partly_filled(values: Seq<Seq<char>>, width: nat, j: int) -> Seq<Seq<char>> {
    Seq::new(
        width,
        |k: int|
            if k < j && k < values.len() {
                values[k]
            } else {
                Seq::<char>::empty()
            },
    )
}

impl DataSourceType {
    /// Inserts a blank row at `at` and writes `values` into its cells, those
    /// past the last column left out.
    pub fn insert_filled_row(&mut self, at: usize, values: &Vec<String>)
        ensures
            restored(*old(self), *final(self), at as int, values.deep_view()),
    {
        reveal(restored);
        let ghost pre = *self;
        self.insert_row(at);
        let width = self.column_count();
        let ghost rows0 = pre.spec_rows();
        let ghost n = rows0.len();
        let ghost vals = values.deep_view();
        proof {
            assert(partly_filled(vals, width as nat, 0) =~= blank_row(width as nat));
        }
        let mut j: usize = 0;
        while j < values.len()
            invariant
                j <= values@.len(),
                vals == values.deep_view(),
                rows0 == pre.spec_rows(),
                n == rows0.len(),
                width == pre.spec_headers().len(),
                self.same_sheet(&pre),
                self.spec_modified(),
                at > n ==> self.spec_rows() == row_inserted(rows0, at as int, width as nat),
                at <= n ==> self.spec_rows() == rows0.insert(at as int, partly_filled(vals, width as nat, j as int)),
            decreases values@.len() - j,
        {
            let ghost before = self.spec_rows();
            if j < width {
                self.set_cell(at, j, values[j].as_str());
                proof {
                    if at <= n {
                        assert(before[at as int] == partly_filled(vals, width as nat, j as int));
                        assert(partly_filled(vals, width as nat, j as int).update(j as int, vals[j as int])
                            =~= partly_filled(vals, width as nat, j + 1));
                        assert(before.update(at as int, partly_filled(vals, width as nat, j + 1))
                            =~= rows0.insert(at as int, partly_filled(vals, width as nat, j + 1)));
                    }
                }
            } else {
                proof {
                    if at <= n {
                        assert(partly_filled(vals, width as nat, j as int) =~= partly_filled(vals, width as nat, j + 1));
                    }
                }
            }
            j = j + 1;
        }
        proof {
            if at <= n {
                assert(partly_filled(vals, width as nat, j as int) =~= filled_row(vals, width as nat));
            }
        }
    }
}

} // verus!
