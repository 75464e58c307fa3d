//! A sheet read from a delimited text file.

use vstd::prelude::*;

use super::grid::{
    cell_at, cell_writable, cell_written, copy_texts, insert_blank_row, remove_row, row_copy,
    row_inserted, row_removed, cell_copy, write_cell,
};

verus! {

/// What the `csv` crate reads from `bytes` with the given field delimiter,
/// the first record taken as the header row and records allowed to differ in
/// length: the header cells and the remaining rows, or the text of the error
/// that stopped it.
pub uninterp spec fn csv_table(bytes: Seq<u8>, delimiter: u8) -> Result<
    (Seq<Seq<char>>, Seq<Seq<Seq<char>>>),
    Seq<char>,
>;

/// Parses `bytes` with `csv::ReaderBuilder` (the given delimiter, headers
/// on, flexible record lengths): `headers()`, then every record of
/// `records()`. The contract names the outcome `csv_table(bytes@, delimiter)`
/// and states nothing more of it.
#[verifier::external_body]
fn read_csv(bytes: &[u8], delimiter: u8) -> (r: Result<(Vec<String>, Vec<Vec<String>>), String>)
    ensures
        match r {
            Ok((h, rows)) => csv_table(bytes@, delimiter) == Ok::<
                (Seq<Seq<char>>, Seq<Seq<Seq<char>>>),
                Seq<char>,
            >((h.deep_view(), rows.deep_view())),
            Err(e) => csv_table(bytes@, delimiter) == Err::<
                (Seq<Seq<char>>, Seq<Seq<Seq<char>>>),
                Seq<char>,
            >(e@),
        },
{
    let mut rdr = csv::ReaderBuilder::new().delimiter(delimiter).has_headers(true).flexible(
        true,
    ).from_reader(bytes);
    let headers: Vec<String> = rdr.headers().map_err(|e| e.to_string())?.iter().map(
        |s| s.to_string(),
    ).collect();
    let mut rows: Vec<Vec<String>> = Vec::new();
    for record in rdr.records() {
        let record = record.map_err(|e| e.to_string())?;
        rows.push(record.iter().map(|s| s.to_string()).collect());
    }
    Ok((headers, rows))
}

/// Where the first line of `b` ends, looking from byte `i`: the first
/// newline at or after `i`, or the end.
pub open spec fn line_end_from(b: Seq<u8>, i: int) -> int
    decreases b.len() - i,
{
    if i < 0 || i >= b.len() {
        b.len() as int
    } else if b[i] == 10u8 {
        i
    } else {
        line_end_from(b, i + 1)
    }
}

/// How many of the first `n` bytes of `b` are `x`.
pub open spec fn count_byte(b: Seq<u8>, x: u8, n: int) -> nat
    decreases n,
{
    if n <= 0 {
        0
    } else {
        count_byte(b, x, n - 1) + if b[n - 1] == x {
            1nat
        } else {
            0nat
        }
    }
}

/// The delimiter found in a text file: of comma, tab, semicolon and bar,
/// the one that occurs most often in the first line (the earlier in that
/// list where two occur equally often), and comma where none occurs.
pub open spec fn detected_delimiter(b: Seq<u8>) -> u8 {
    let n = line_end_from(b, 0);
    let comma = count_byte(b, 44u8, n);
    let tab = count_byte(b, 9u8, n);
    let semi = count_byte(b, 59u8, n);
    let bar = count_byte(b, 124u8, n);
    let (d1, c1) = if tab > comma {
        (9u8, tab)
    } else {
        (44u8, comma)
    };
    let (d2, c2) = if semi > c1 {
        (59u8, semi)
    } else {
        (d1, c1)
    };
    if bar > c2 {
        124u8
    } else {
        d2
    }
}

/// The byte that a delimiter character gives the CSV reader: where none is
/// given, the one detected in the file's first line; otherwise the low 8
/// bits of the character's code (what `c as u8` keeps).
pub open spec fn delimiter_byte(delimiter: Option<char>, bytes: Seq<u8>) -> u8 {
    match delimiter {
        Some(c) => ((c as u32) % 256) as u8,
        None => detected_delimiter(bytes),
    }
}

/// Detects the delimiter of a text file (see `detected_delimiter`).
pub fn detect_delimiter(bytes: &[u8]) -> (d: u8)
    ensures
        d == detected_delimiter(bytes@),
{
    let mut i: usize = 0;
    let mut comma: usize = 0;
    let mut tab: usize = 0;
    let mut semi: usize = 0;
    let mut bar: usize = 0;
    while i < bytes.len() && bytes[i] != 10u8
        invariant
            i <= bytes@.len(),
            line_end_from(bytes@, 0) == line_end_from(bytes@, i as int),
            comma == count_byte(bytes@, 44u8, i as int),
            tab == count_byte(bytes@, 9u8, i as int),
            semi == count_byte(bytes@, 59u8, i as int),
            bar == count_byte(bytes@, 124u8, i as int),
            comma <= i && tab <= i && semi <= i && bar <= i,
        decreases bytes@.len() - i,
    {
        let b = bytes[i];
        if b == 44u8 {
            comma = comma + 1;
        } else if b == 9u8 {
            tab = tab + 1;
        } else if b == 59u8 {
            semi = semi + 1;
        } else if b == 124u8 {
            bar = bar + 1;
        }
        i = i + 1;
    }
    let (d1, c1) = if tab > comma {
        (9u8, tab)
    } else {
        (44u8, comma)
    };
    let (d2, c2) = if semi > c1 {
        (59u8, semi)
    } else {
        (d1, c1)
    };
    if bar > c2 {
        124u8
    } else {
        d2
    }
}

/// The name a sheet is shown under where its path has none.
pub open spec fn name_or_unknown(file_name: Option<String>) -> Seq<char> {
    match file_name {
        Some(n) => n@,
        None => "unknown"@,
    }
}

fn truncate_to_byte(c: char) -> (b: u8)
    ensures
        b == ((c as u32) % 256) as u8,
{
    let u = c as u32;
    (u % 256) as u8
}

/// A sheet read from a delimited text file.
pub struct CsvSource {
    file_path: String,
    file_name: String,
    headers: Vec<String>,
    rows: Vec<Vec<String>>,
    modified: bool,
}

impl CsvSource {
    pub closed spec fn spec_headers(&self) -> Seq<Seq<char>> {
        self.headers.deep_view()
    }

    pub closed spec fn spec_rows(&self) -> Seq<Seq<Seq<char>>> {
        self.rows.deep_view()
    }

    pub closed spec fn spec_modified(&self) -> bool {
        self.modified
    }

    pub closed spec fn spec_file_path(&self) -> Seq<char> {
        self.file_path@
    }

    pub closed spec fn spec_file_name(&self) -> Seq<char> {
        self.file_name@
    }

    /// The sheet in `bytes`, the contents of the file at `file_path`: the
    /// first record gives the headers, the others the rows.
    pub fn open(
        file_path: String,
        file_name: Option<String>,
        delimiter: Option<char>,
        bytes: &[u8],
    ) -> (r: Result<CsvSource, String>)
        ensures
            match csv_table(bytes@, delimiter_byte(delimiter, bytes@)) {
                Ok((h, rows)) => r matches Ok(s) && s.spec_headers() == h && s.spec_rows() == rows
                    && !s.spec_modified() && s.spec_file_path() == file_path@
                    && s.spec_file_name() == name_or_unknown(file_name),
                Err(e) => r matches Err(m) && m@ == e,
            },
    {
        let name = match file_name {
            Some(n) => n,
            None => "unknown".to_owned(),
        };
        let d = match delimiter {
            Some(c) => truncate_to_byte(c),
            None => detect_delimiter(bytes),
        };
        match read_csv(bytes, d) {
            Ok((headers, rows)) => Ok(
                CsvSource { file_path, file_name: name, headers, rows, modified: false },
            ),
            Err(e) => Err(e),
        }
    }

    pub fn headers(&self) -> (h: &[String])
        ensures
            h.deep_view() == self.spec_headers(),
    {
        self.headers.as_slice()
    }

    pub fn row_count(&self) -> (n: usize)
        ensures
            n == self.spec_rows().len(),
    {
        self.rows.len()
    }

    pub fn column_count(&self) -> (n: usize)
        ensures
            n == self.spec_headers().len(),
    {
        self.headers.len()
    }

    pub fn get_row(&self, index: usize) -> (row: Option<Vec<String>>)
        ensures
            match row {
                Some(v) => index < self.spec_rows().len() && v.deep_view()
                    == self.spec_rows()[index as int],
                None => index >= self.spec_rows().len(),
            },
    {
        row_copy(&self.rows, index)
    }

    pub fn get_cell(&self, row: usize, col: usize) -> (cell: Option<String>)
        ensures
            match cell {
                Some(s) => cell_at(self.spec_rows(), row as int, col as int) == Some(s@),
                None => cell_at(self.spec_rows(), row as int, col as int) is None,
            },
    {
        cell_copy(&self.rows, row, col)
    }

    pub fn file_name(&self) -> (n: String)
        ensures
            n@ == self.spec_file_name(),
    {
        self.file_name.clone()
    }

    pub fn file_path(&self) -> (p: &str)
        ensures
            p@ == self.spec_file_path(),
    {
        self.file_path.as_str()
    }

    pub fn set_cell(&mut self, row: usize, col: usize, value: &str)
        ensures
            final(self).spec_rows() == cell_written(old(self).spec_rows(), row as int, col as int, value@),
            final(self).spec_headers() == old(self).spec_headers(),
            final(self).spec_modified() == (old(self).spec_modified() || cell_writable(old(self).spec_rows(), row as int, col as int)),
            final(self).spec_file_path() == old(self).spec_file_path(),
            final(self).spec_file_name() == old(self).spec_file_name(),
    {
        if write_cell(&mut self.rows, row, col, value) {
            self.modified = true;
        }
    }

    pub fn insert_row(&mut self, at: usize)
        ensures
            final(self).spec_rows() == row_inserted(old(self).spec_rows(), at as int, old(self).spec_headers().len()),
            final(self).spec_headers() == old(self).spec_headers(),
            final(self).spec_modified(),
            final(self).spec_file_path() == old(self).spec_file_path(),
            final(self).spec_file_name() == old(self).spec_file_name(),
    {
        let width = self.headers.len();
        insert_blank_row(&mut self.rows, at, width);
        self.modified = true;
    }

    pub fn delete_row(&mut self, at: usize)
        ensures
            final(self).spec_rows() == row_removed(old(self).spec_rows(), at as int),
            final(self).spec_headers() == old(self).spec_headers(),
            final(self).spec_modified() == (old(self).spec_modified() || at < old(self).spec_rows().len()),
            final(self).spec_file_path() == old(self).spec_file_path(),
            final(self).spec_file_name() == old(self).spec_file_name(),
    {
        if remove_row(&mut self.rows, at) {
            self.modified = true;
        }
    }

    /// Records that the sheet now stands on disk as it is.
    pub fn mark_saved(&mut self)
        ensures
            final(self).spec_rows() == old(self).spec_rows(),
            final(self).spec_headers() == old(self).spec_headers(),
            !final(self).spec_modified(),
            final(self).spec_file_path() == old(self).spec_file_path(),
            final(self).spec_file_name() == old(self).spec_file_name(),
    {
        self.modified = false;
    }

    pub fn is_modified(&self) -> (b: bool)
        ensures
            b == self.spec_modified(),
    {
        self.modified
    }
}

} // verus!
