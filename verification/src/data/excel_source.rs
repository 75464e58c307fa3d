//! A sheet of an Excel workbook.

use vstd::prelude::*;

use super::grid::{
    body_of, cell_at, cell_copy, cell_writable, cell_written, copy_texts, header_of,
    insert_blank_row, remove_row, row_copy, row_inserted, row_removed, split_header, write_cell,
};
use super::csv_source::name_or_unknown;

verus! {

/// The names of a workbook's sheets and which of them is shown.
struct Sheets {
    names: Vec<String>,
    current: usize,
}

impl Sheets {
    /// The shown sheet is one of the workbook's sheets.
    #[verifier::type_invariant]
    spec fn current_in_range(self) -> bool {
        self.current < self.names@.len()
    }
}

/// A sheet of an Excel workbook, with the names of all its sheets.
pub struct ExcelSource {
    file_path: String,
    file_name: String,
    sheets: Sheets,
    headers: Vec<String>,
    rows: Vec<Vec<String>>,
    modified: bool,
}

impl ExcelSource {
    pub closed spec fn spec_headers(&self) -> Seq<Seq<char>> {
        self.headers.deep_view()
    }

    pub closed spec fn spec_rows(&self) -> Seq<Seq<Seq<char>>> {
        self.rows.deep_view()
    }

    pub closed spec fn spec_modified(&self) -> bool {
        self.modified
    }

    pub closed spec fn spec_file_path(&self) -> Seq<char> {
        self.file_path@
    }

    pub closed spec fn spec_file_name(&self) -> Seq<char> {
        self.file_name@
    }

    pub closed spec fn spec_sheet_names(&self) -> Seq<Seq<char>> {
        self.sheets.names.deep_view()
    }

    pub closed spec fn spec_current_sheet(&self) -> nat {
        self.sheets.current as nat
    }

    /// The workbook at `file_path` with the given sheet names, showing its
    /// first sheet, whose cells (one row of texts per spreadsheet row) are
    /// `first_sheet`: its first row gives the headers. A workbook without
    /// sheets is refused.
    pub fn open(
        file_path: String,
        file_name: Option<String>,
        sheet_names: Vec<String>,
        first_sheet: Vec<Vec<String>>,
    ) -> (r: Result<ExcelSource, String>)
        ensures
            sheet_names@.len() == 0 ==> (r matches Err(m) && m@ == "No sheets found"@),
            sheet_names@.len() > 0 ==> (r matches Ok(s) && s.spec_headers() == header_of(
                first_sheet.deep_view(),
            ) && s.spec_rows() == body_of(first_sheet.deep_view()) && !s.spec_modified()
                && s.spec_current_sheet() == 0 && s.spec_sheet_names() == sheet_names.deep_view()
                && s.spec_file_path() == file_path@ && s.spec_file_name() == name_or_unknown(
                file_name,
            )),
    {
        let name = match file_name {
            Some(n) => n,
            None => "unknown".to_owned(),
        };
        if sheet_names.len() == 0 {
            return Err("No sheets found".to_owned());
        }
        let (headers, rows) = split_header(first_sheet);
        Ok(
            ExcelSource {
                file_path,
                file_name: name,
                sheets: Sheets { names: sheet_names, current: 0 },
                headers,
                rows,
                modified: false,
            },
        )
    }

    pub fn sheet_names(&self) -> (n: &[String])
        ensures
            n.deep_view() == self.spec_sheet_names(),
    {
        self.sheets.names.as_slice()
    }

    pub fn current_sheet(&self) -> (i: usize)
        ensures
            i == self.spec_current_sheet(),
            i < self.spec_sheet_names().len(),
    {
        proof {
            use_type_invariant(&self.sheets);
        }
        self.sheets.current
    }

    /// Shows sheet `index`, whose cells are `loaded` as read from the file
    /// (or the error that reading it gave). An index past the last sheet is
    /// refused and `loaded` left unread; otherwise the sheet becomes the
    /// current one even where reading it failed, and its cells replace the
    /// shown ones where it did not.
    pub fn switch_sheet(&mut self, index: usize, loaded: Result<Vec<Vec<String>>, String>) -> (r:
        Result<(), String>)
        ensures
            index >= old(self).spec_sheet_names().len() ==> (r matches Err(m) && m@
                == "Sheet index out of bounds"@ && *final(self) == *old(self)),
            index < old(self).spec_sheet_names().len() ==> {
                &&& final(self).spec_current_sheet() == index
                &&& final(self).spec_sheet_names() == old(self).spec_sheet_names()
                &&& final(self).spec_file_path() == old(self).spec_file_path()
                &&& final(self).spec_file_name() == old(self).spec_file_name()
                &&& match loaded {
                    Ok(cells) => r is Ok && final(self).spec_headers() == header_of(
                        cells.deep_view(),
                    ) && final(self).spec_rows() == body_of(cells.deep_view())
                        && !final(self).spec_modified(),
                    Err(e) => r == Err::<(), String>(e) && final(self).spec_headers() == old(
                        self,
                    ).spec_headers() && final(self).spec_rows() == old(self).spec_rows()
                        && final(self).spec_modified() == old(self).spec_modified(),
                }
            },
    {
        if index >= self.sheets.names.len() {
            return Err("Sheet index out of bounds".to_owned());
        }
        self.sheets.current = index;
        match loaded {
            Ok(cells) => {
                let (headers, rows) = split_header(cells);
                self.headers = headers;
                self.rows = rows;
                self.modified = false;
                Ok(())
            },
            Err(e) => Err(e),
        }
    }

    pub fn headers(&self) -> (h: &[String])
        ensures
            h.deep_view() == self.spec_headers(),
    {
        self.headers.as_slice()
    }

    pub fn row_count(&self) -> (n: usize)
        ensures
            n == self.spec_rows().len(),
    {
        self.rows.len()
    }

    pub fn column_count(&self) -> (n: usize)
        ensures
            n == self.spec_headers().len(),
    {
        self.headers.len()
    }

    pub fn get_row(&self, index: usize) -> (row: Option<Vec<String>>)
        ensures
            match row {
                Some(v) => index < self.spec_rows().len() && v.deep_view()
                    == self.spec_rows()[index as int],
                None => index >= self.spec_rows().len(),
            },
    {
        row_copy(&self.rows, index)
    }

    pub fn get_cell(&self, row: usize, col: usize) -> (cell: Option<String>)
        ensures
            match cell {
                Some(s) => cell_at(self.spec_rows(), row as int, col as int) == Some(s@),
                None => cell_at(self.spec_rows(), row as int, col as int) is None,
            },
    {
        cell_copy(&self.rows, row, col)
    }

    pub fn file_name(&self) -> (n: String)
        ensures
            n@ == self.spec_file_name(),
    {
        self.file_name.clone()
    }

    pub fn file_path(&self) -> (p: &str)
        ensures
            p@ == self.spec_file_path(),
    {
        self.file_path.as_str()
    }

    pub fn set_cell(&mut self, row: usize, col: usize, value: &str)
        ensures
            final(self).spec_rows() == cell_written(old(self).spec_rows(), row as int, col as int, value@),
            final(self).spec_headers() == old(self).spec_headers(),
            final(self).spec_modified() == (old(self).spec_modified() || cell_writable(old(self).spec_rows(), row as int, col as int)),
            final(self).spec_sheet_names() == old(self).spec_sheet_names(),
            final(self).spec_current_sheet() == old(self).spec_current_sheet(),
            final(self).spec_file_path() == old(self).spec_file_path(),
            final(self).spec_file_name() == old(self).spec_file_name(),
    {
        if write_cell(&mut self.rows, row, col, value) {
            self.modified = true;
        }
    }

    pub fn insert_row(&mut self, at: usize)
        ensures
            final(self).spec_rows() == row_inserted(old(self).spec_rows(), at as int, old(self).spec_headers().len()),
            final(self).spec_headers() == old(self).spec_headers(),
            final(self).spec_modified(),
            final(self).spec_sheet_names() == old(self).spec_sheet_names(),
            final(self).spec_current_sheet() == old(self).spec_current_sheet(),
            final(self).spec_file_path() == old(self).spec_file_path(),
            final(self).spec_file_name() == old(self).spec_file_name(),
    {
        let width = self.headers.len();
        insert_blank_row(&mut self.rows, at, width);
        self.modified = true;
    }

    pub fn delete_row(&mut self, at: usize)
        ensures
            final(self).spec_rows() == row_removed(old(self).spec_rows(), at as int),
            final(self).spec_headers() == old(self).spec_headers(),
            final(self).spec_modified() == (old(self).spec_modified() || at < old(self).spec_rows().len()),
            final(self).spec_sheet_names() == old(self).spec_sheet_names(),
            final(self).spec_current_sheet() == old(self).spec_current_sheet(),
            final(self).spec_file_path() == old(self).spec_file_path(),
            final(self).spec_file_name() == old(self).spec_file_name(),
    {
        if remove_row(&mut self.rows, at) {
            self.modified = true;
        }
    }

    /// The names of the workbook's sheets (a copy).
    pub fn sheet_name_list(&self) -> (n: Vec<String>)
        ensures
            n.deep_view() == self.spec_sheet_names(),
    {
        copy_texts(&self.sheets.names)
    }

    pub fn sheet_count(&self) -> (n: usize)
        ensures
            n == self.spec_sheet_names().len(),
    {
        self.sheets.names.len()
    }
}

} // verus!
