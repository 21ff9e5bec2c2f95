//! External data binding: CSV files and file-format selection. A CSV file
//! with a header row and data rows binds a chart series per numeric column;
//! the prompt supplies layout, theme and aspect, the file supplies values.

use crate::numtext::{is_float, is_float_text};
use crate::strutil::{all_ascii, ascii_lower, ascii_lower_seq, lowercase, push_str, str_chars, string_of_chars, to_lowercase, views};
use crate::textscan::{lines, lines_of, split_chars, split_on, trim, trim_chars};
use vstd::prelude::*;

verus! {

/// Every piece trimmed.
pub open spec fn trim_all(ps: Seq<Seq<char>>) -> Seq<Seq<char>> {
    ps.map_values(|p: Seq<char>| trim(p))
}

/// The trimmed comma-separated cells of a line.
pub open spec fn csv_cells(line: Seq<char>) -> Seq<Seq<char>> {
    trim_all(split_on(line, ','))
}

/// A line holding only whitespace.
pub open spec fn is_blank(l: Seq<char>) -> bool {
    trim(l).len() == 0
}

/// The lines that are not blank.
pub open spec fn nonblank(ls: Seq<Seq<char>>) -> Seq<Seq<char>>
    decreases ls.len(),
{
    if ls.len() == 0 {
        seq![]
    } else if is_blank(ls.last()) {
        nonblank(ls.drop_last())
    } else {
        nonblank(ls.drop_last()).push(ls.last())
    }
}

/// Every cell after the first is number text.
pub open spec fn row_numeric(c: Seq<Seq<char>>) -> bool {
    forall|k: int| 1 <= k < c.len() ==> is_float_text(#[trigger] c[k])
}

/// The error for a data row holding a non-numeric value.
pub open spec fn row_error(line: Seq<char>) -> Seq<char> {
    "non-numeric value in row: "@ + line
}

/// The cells of the data rows (rows with at least two cells), or the error
/// of the first data row with a non-numeric value.
pub open spec fn csv_rows(rows: Seq<Seq<char>>) -> Result<Seq<Seq<Seq<char>>>, Seq<char>>
    decreases rows.len(),
{
    if rows.len() == 0 {
        Ok(seq![])
    } else {
        match csv_rows(rows.drop_last()) {
            Err(e) => Err(e),
            Ok(acc) => {
                let c = csv_cells(rows.last());
                if c.len() < 2 {
                    Ok(acc)
                } else if row_numeric(c) {
                    Ok(acc.push(c))
                } else {
                    Err(row_error(rows.last()))
                }
            },
        }
    }
}

/// Cell `j` of every row that has one.
pub open spec fn column(rs: Seq<Seq<Seq<char>>>, j: int) -> Seq<Seq<char>>
    decreases rs.len(),
{
    if rs.len() == 0 {
        seq![]
    } else {
        column(rs.drop_last(), j) + (if rs.last().len() > j { seq![rs.last()[j]] } else { seq![] })
    }
}

/// A bar chart bound from a CSV file; values are kept as their number text.
pub struct CsvChartView {
    pub labels: Seq<Seq<char>>,
    pub values: Seq<Seq<char>>,
    pub series: Seq<Seq<Seq<char>>>,
    pub series_names: Seq<Seq<char>>,
}

/// The chart of header cells `cols` and data rows `rs`: labels from the
/// first cell, the primary series from the second, one further series per
/// further column, named by the header.
pub open spec fn csv_chart(cols: Seq<Seq<char>>, rs: Seq<Seq<Seq<char>>>) -> CsvChartView {
    CsvChartView {
        labels: first_cells_spec(rs),
        values: column(rs, 1),
        series: Seq::new((cols.len() - 2) as nat, |k: int| column(rs, k + 2)),
        series_names: cols.skip(2),
    }
}

/// What parsing a CSV text gives: an error for an empty file, for a header
/// with fewer than two columns or for a non-numeric data value; otherwise a
/// chart when there are at least two data rows.
pub open spec fn csv_result(content: Seq<char>) -> Result<Option<CsvChartView>, Seq<char>> {
    let ls = nonblank(lines(content));
    if ls.len() == 0 {
        Err("empty CSV"@)
    } else {
        let cols = csv_cells(ls[0]);
        if cols.len() < 2 {
            Err("CSV needs at least 2 columns"@)
        } else {
            match csv_rows(ls.skip(1)) {
                Err(e) => Err(e),
                Ok(rs) => Ok(if rs.len() >= 2 { Some(csv_chart(cols, rs)) } else { None }),
            }
        }
    }
}

/// The chart series bound from a CSV file, values as their number text.
pub struct CsvChart {
    pub labels: Vec<String>,
    pub values: Vec<String>,
    pub series: Vec<Vec<String>>,
    pub series_names: Vec<String>,
}

/// The characters of each string.
pub open spec fn string_views(v: Seq<String>) -> Seq<Seq<char>> {
    v.map_values(|s: String| s@)
}

/// The characters of each string of each series.
pub open spec fn series_views(v: Seq<Vec<String>>) -> Seq<Seq<Seq<char>>> {
    v.map_values(|s: Vec<String>| string_views(s@))
}

/// First cells of rows.
pub open spec fn first_cells_spec(rs: Seq<Seq<Seq<char>>>) -> Seq<Seq<char>> {
    rs.map_values(|c: Seq<Seq<char>>| c[0])
}

impl View for CsvChart {
    type V = CsvChartView;

    open spec fn view(&self) -> CsvChartView {
        CsvChartView {
            labels: string_views(self.labels@),
            values: string_views(self.values@),
            series: series_views(self.series@),
            series_names: string_views(self.series_names@),
        }
    }
}

/// The trimmed comma-separated cells of `line`.
fn cells_of(line: &Vec<char>) -> (r: Vec<Vec<char>>)
    ensures
        views(r@) == csv_cells(line@),
{
    let parts = split_chars(line, ',');
    let mut r: Vec<Vec<char>> = Vec::new();
    let mut i: usize = 0;
    while i < parts.len()
        invariant
            i <= parts.len(),
            views(r@) == trim_all(views(parts@).take(i as int)),
        decreases parts.len() - i,
    {
        let ghost r0 = views(r@);
        let t = trim_chars(&parts[i]);
        let ghost tv = t@;
        r.push(t);
        assert(views(r@) =~= r0.push(tv));
        i = i + 1;
        assert(trim_all(views(parts@).take(i as int)) =~= trim_all(views(parts@).take(i - 1)).push(trim(views(parts@)[i - 1])));
    }
    assert(views(parts@).take(parts.len() as int) == views(parts@));
    r
}

/// The non-blank lines of `content`.
fn content_lines(content: &Vec<char>) -> (r: Vec<Vec<char>>)
    ensures
        views(r@) == nonblank(lines(content@)),
{
    let ls = lines_of(content);
    let ghost lv = views(ls@);
    let mut r: Vec<Vec<char>> = Vec::new();
    let mut i: usize = 0;
    while i < ls.len()
        invariant
            i <= ls.len(),
            lv == views(ls@),
            views(r@) == nonblank(lv.take(i as int)),
        decreases ls.len() - i,
    {
        let l = &ls[i];
        let t = trim_chars(l);
        let ghost r0 = views(r@);
        assert(lv.take(i + 1).drop_last() == lv.take(i as int));
        assert(lv.take(i + 1).last() == l@);
        if t.len() > 0 {
            r.push(l.clone());
            assert(views(r@) =~= r0.push(l@));
        }
        i = i + 1;
    }
    assert(lv.take(ls.len() as int) == lv);
    r
}

/// Whether every cell after the first is number text.
fn row_is_numeric(c: &Vec<Vec<char>>) -> (b: bool)
    ensures
        b == row_numeric(views(c@)),
{
    let mut k: usize = 1;
    while k < c.len()
        invariant
            1 <= k,
            forall|j: int| 1 <= j < k && j < c.len() ==> is_float_text(#[trigger] views(c@)[j]),
        decreases c.len() - k,
    {
        if !is_float(&c[k]) {
            assert(!is_float_text(views(c@)[k as int]));
            return false;
        }
        k = k + 1;
    }
    true
}

/// The character content of rows of cells.
pub open spec fn cell_views(rs: Seq<Vec<Vec<char>>>) -> Seq<Seq<Seq<char>>> {
    rs.map_values(|c: Vec<Vec<char>>| views(c@))
}

/// Cell `j` of every row that has one, as strings.
fn column_of(rs: &Vec<Vec<Vec<char>>>, j: usize) -> (r: Vec<String>)
    ensures
        string_views(r@) == column(cell_views(rs@), j as int),
{
    let ghost rv = cell_views(rs@);
    let mut r: Vec<String> = Vec::new();
    let mut i: usize = 0;
    while i < rs.len()
        invariant
            i <= rs.len(),
            rv == cell_views(rs@),
            string_views(r@) == column(rv.take(i as int), j as int),
        decreases rs.len() - i,
    {
        let ghost r0 = string_views(r@);
        assert(rv.take(i + 1).drop_last() == rv.take(i as int));
        assert(rv.take(i + 1).last() == views(rs@[i as int]@));
        if rs[i].len() > j {
            let s = string_of_chars(&rs[i][j]);
            r.push(s);
            assert(string_views(r@) =~= r0.push(views(rs@[i as int]@)[j as int]));
        } else {
            assert(string_views(r@) =~= r0);
        }
        i = i + 1;
    }
    assert(rv.take(rs.len() as int) == rv);
    r
}


/// The chart content of an optional chart.
pub open spec fn opt_chart_view(o: Option<CsvChart>) -> Option<CsvChartView> {
    match o {
        Some(c) => Some(c@),
        None => None,
    }
}

proof fn lemma_csv_rows_err(rows: Seq<Seq<char>>, k: int)
    requires
        0 <= k <= rows.len(),
        csv_rows(rows.take(k)) is Err,
    ensures
        csv_rows(rows) == csv_rows(rows.take(k)),
    decreases rows.len() - k,
{
    if k < rows.len() {
        assert(rows.take(k + 1).drop_last() == rows.take(k));
        lemma_csv_rows_err(rows, k + 1);
    } else {
        assert(rows.take(k) == rows);
    }
}

fn strings_of(cells: &Vec<Vec<char>>, from: usize) -> (r: Vec<String>)
    requires
        from <= cells.len(),
    ensures
        string_views(r@) == views(cells@).skip(from as int),
{
    let mut r: Vec<String> = Vec::new();
    let mut i = from;
    while i < cells.len()
        invariant
            from <= i <= cells.len(),
            string_views(r@) == views(cells@).subrange(from as int, i as int),
        decreases cells.len() - i,
    {
        let ghost r0 = string_views(r@);
        let t = string_of_chars(&cells[i]);
        assert(t@ == views(cells@)[i as int]);
        r.push(t);
        assert(string_views(r@) =~= r0.push(views(cells@)[i as int]));
        i = i + 1;
        assert(string_views(r@) =~= views(cells@).subrange(from as int, i as int));
    }
    assert(views(cells@).subrange(from as int, cells.len() as int) =~= views(cells@).skip(from as int));
    r
}

fn first_cells(rs: &Vec<Vec<Vec<char>>>) -> (r: Vec<String>)
    requires
        forall|i: int| 0 <= i < rs.len() ==> #[trigger] rs@[i].len() >= 1,
    ensures
        string_views(r@) == first_cells_spec(cell_views(rs@)),
{
    let mut r: Vec<String> = Vec::new();
    let mut i: usize = 0;
    while i < rs.len()
        invariant
            i <= rs.len(),
            forall|i: int| 0 <= i < rs.len() ==> #[trigger] rs@[i].len() >= 1,
            string_views(r@) == first_cells_spec(cell_views(rs@).take(i as int)),
        decreases rs.len() - i,
    {
        let ghost r0 = string_views(r@);
        assert(rs@[i as int].len() >= 1);
        let t = string_of_chars(&rs[i][0]);
        assert(t@ == cell_views(rs@)[i as int][0]);
        r.push(t);
        assert(string_views(r@) =~= r0.push(cell_views(rs@)[i as int][0]));
        i = i + 1;
        assert(string_views(r@) =~= first_cells_spec(cell_views(rs@).take(i as int)));
    }
    assert(cell_views(rs@).take(rs.len() as int) == cell_views(rs@));
    r
}

/// Parses CSV text: a header row, then data rows `label,value[,value...]`.
/// Blank lines are skipped and cells trimmed; rows with fewer than two cells
/// are skipped. With at least two data rows the result holds a bar chart:
/// labels from the first column, the primary series from the second, a
/// further series per further column (named by the header). Values are
/// returned as their number text, each accepted by `f64::from_str`.
pub fn parse_csv(content: &str) -> (r: Result<Option<CsvChart>, String>)
    ensures
        match r {
            Ok(c) => csv_result(content@) == Ok::<Option<CsvChartView>, Seq<char>>(opt_chart_view(c)),
            Err(e) => csv_result(content@) == Err::<Option<CsvChartView>, Seq<char>>(e@),
        },
{
    let v = str_chars(content);
    let ls = content_lines(&v);
    let ghost lsv = views(ls@);
    if ls.len() == 0 {
        return Err(String::from_str("empty CSV"));
    }
    let cols = cells_of(&ls[0]);
    if cols.len() < 2 {
        return Err(String::from_str("CSV needs at least 2 columns"));
    }
    let ghost rows = lsv.skip(1);
    let mut rs: Vec<Vec<Vec<char>>> = Vec::new();
    assert(rows.take(0) =~= Seq::<Seq<char>>::empty());
    assert(cell_views(rs@) =~= Seq::<Seq<Seq<char>>>::empty());
    let mut i: usize = 1;
    while i < ls.len()
        invariant
            1 <= i <= ls.len(),
            lsv == views(ls@),
            lsv == nonblank(lines(content@)),
            lsv.len() > 0,
            csv_cells(lsv[0]).len() >= 2,
            rows == lsv.skip(1),
            csv_rows(rows.take(i - 1)) == Ok::<Seq<Seq<Seq<char>>>, Seq<char>>(cell_views(rs@)),
            forall|k: int| 0 <= k < rs.len() ==> #[trigger] rs@[k].len() >= 2,
        decreases ls.len() - i,
    {
        let c = cells_of(&ls[i]);
        let ghost prev = rows.take(i - 1);
        assert(rows.take(i as int).drop_last() == prev);
        assert(rows.take(i as int).last() == ls@[i as int]@);
        if c.len() >= 2 {
            if !row_is_numeric(&c) {
                let mut msg = String::new();
                push_str(&mut msg, "non-numeric value in row: ");
                let line = string_of_chars(&ls[i]);
                push_str(&mut msg, line.as_str());
                proof {
                    assert(views(c@) == csv_cells(rows.take(i as int).last()));
                    assert(csv_rows(rows.take(i as int)) == Err::<Seq<Seq<Seq<char>>>, Seq<char>>(row_error(ls@[i as int]@)));
                    lemma_csv_rows_err(rows, i as int);
                    assert(msg@ == row_error(ls@[i as int]@));
                }
                return Err(msg);
            }
            let ghost r0 = cell_views(rs@);
            let ghost cv = views(c@);
            rs.push(c);
            assert(cell_views(rs@) =~= r0.push(cv));
        }
        i = i + 1;
    }
    assert(rows.take(ls.len() - 1) == rows);
    if rs.len() < 2 {
        return Ok(None);
    }
    let labels = first_cells(&rs);
    let values = column_of(&rs, 1);
    let mut series: Vec<Vec<String>> = Vec::new();
    let mut k: usize = 0;
    while k + 2 < cols.len()
        invariant
            k + 2 <= cols.len(),
            series_views(series@)
                == Seq::new(k as nat, |j: int| column(cell_views(rs@), j + 2)),
        decreases cols.len() - k,
    {
        let col = column_of(&rs, k + 2);
        let ghost s0 = series_views(series@);
        let ghost cv = string_views(col@);
        series.push(col);
        assert(series_views(series@) =~= s0.push(cv));
        k = k + 1;
        assert(series_views(series@)
            =~= Seq::new(k as nat, |j: int| column(cell_views(rs@), j + 2)));
    }
    let series_names = strings_of(&cols, 2);
    let chart = CsvChart { labels, values, series, series_names };
    assert(chart@.series =~= csv_chart(views(cols@), cell_views(rs@)).series);
    assert(chart@ == csv_chart(views(cols@), cell_views(rs@)));
    Ok(Some(chart))
}


/// A data file format.
#[derive(Debug, Clone, Copy, PartialEq, Eq, Structural)]
pub enum DataFormat {
    Csv,
    Json,
}

/// Lower case of a text: ASCII letters lowered when the text is ASCII,
/// std's Unicode mapping (`lowercase`) otherwise.
pub open spec fn lower_text(s: Seq<char>) -> Seq<char> {
    if all_ascii(s) { ascii_lower_seq(s) } else { lowercase(s) }
}

/// The extension of a path: the lower-case text after its last `.` (the
/// whole text when it has none).
pub open spec fn extension(path: Seq<char>) -> Seq<char> {
    lower_text(split_on(path, '.').last())
}

/// The format a path's extension selects, or the error that names it.
pub open spec fn format_of(path: Seq<char>) -> Result<DataFormat, Seq<char>> {
    let ext = extension(path);
    if ext == "csv"@ {
        Ok(DataFormat::Csv)
    } else if ext == "json"@ {
        Ok(DataFormat::Json)
    } else {
        Err("unsupported data format: "@ + ext + " (use .csv or .json)"@)
    }
}

/// Selects the data format by the extension of `path_or_ext` (`csv` or
/// `json`, any case); any other extension is an error that names it.
pub fn data_format(path_or_ext: &str) -> (r: Result<DataFormat, String>)
    ensures
        match (r, format_of(path_or_ext@)) {
            (Ok(f), Ok(g)) => f == g,
            (Err(e), Err(m)) => e@ == m,
            _ => false,
        },
{
    let cs = str_chars(path_or_ext);
    let parts = split_chars(&cs, '.');
    let last = string_of_chars(&parts[parts.len() - 1]);
    let ext = to_lowercase(last.as_str());
    proof {
        reveal_strlit("csv");
        reveal_strlit("json");
    }
    if crate::http::text_eq(ext.as_str(), "csv") {
        Ok(DataFormat::Csv)
    } else if crate::http::text_eq(ext.as_str(), "json") {
        Ok(DataFormat::Json)
    } else {
        let mut m = String::new();
        push_str(&mut m, "unsupported data format: ");
        push_str(&mut m, ext.as_str());
        push_str(&mut m, " (use .csv or .json)");
        Err(m)
    }
}

/// The last piece of a text split at `.`, when the text ends with `.` and
/// a piece holding no `.`, is that piece.
proof fn lemma_split_last(pre: Seq<char>, e: Seq<char>)
    requires
        forall|i: int| 0 <= i < e.len() ==> e[i] != '.',
    ensures
        split_on(pre.push('.') + e, '.').last() == e,
    decreases e.len(),
{
    let t = pre.push('.') + e;
    if e.len() == 0 {
        assert(t =~= pre.push('.'));
        assert(t.drop_last() =~= pre);
    } else {
        lemma_split_last(pre, e.drop_last());
        crate::textscan::lemma_split_pieces_in(t.drop_last(), '.');
        assert(t.last() == e.last());
        assert((pre.push('.') + e).drop_last() =~= pre.push('.') + e.drop_last());
        assert(e.drop_last().push(e.last()) =~= e);
    }
}

/// `x.` followed by a lower-case ASCII extension without a point has that
/// extension.
proof fn lemma_extension_of_x(e: Seq<char>)
    requires
        forall|i: int| 0 <= i < e.len() ==> e[i] != '.',
        all_ascii(e),
        ascii_lower_seq(e) == e,
    ensures
        extension("x."@ + e) == e,
{
    reveal_strlit("x.");
    assert("x."@ == seq!['x'].push('.'));
    lemma_split_last(seq!['x'], e);
}

/// `csv` and `json` are lower-case ASCII words without a point.
proof fn lemma_known_extensions()
    ensures
        forall|i: int| 0 <= i < "csv"@.len() ==> "csv"@[i] != '.',
        forall|i: int| 0 <= i < "json"@.len() ==> "json"@[i] != '.',
        all_ascii("csv"@),
        all_ascii("json"@),
        ascii_lower_seq("csv"@) == "csv"@,
        ascii_lower_seq("json"@) == "json"@,
{
    reveal_strlit("csv");
    reveal_strlit("json");
    assert(ascii_lower_seq("csv"@) =~= "csv"@);
    assert(ascii_lower_seq("json"@) =~= "json"@);
}

/// The data format depends on the extension alone and not on its case: the
/// format is an error naming the extension exactly when the extension is
/// neither `csv` nor `json`; when it is one of them, or when the path is
/// ASCII, the format is the one of `x.` followed by the lower-cased
/// extension.
pub proof fn lemma_format_case_insensitive(path: Seq<char>)
    ensures
        format_of(path) is Err <==> (extension(path) != "csv"@ && extension(path) != "json"@),
        (all_ascii(path) || extension(path) == "csv"@ || extension(path) == "json"@) ==> format_of(path) == format_of(
            "x."@ + extension(path),
        ),
{
    let e = extension(path);
    if extension(path) == "csv"@ || extension(path) == "json"@ {
        lemma_known_extensions();
        lemma_extension_of_x(e);
    } else if all_ascii(path) {
        let seg = split_on(path, '.').last();
        crate::textscan::lemma_split_pieces_in(path, '.');
        assert(all_ascii(seg));
        assert(e == ascii_lower_seq(seg));
        assert forall|i: int| 0 <= i < e.len() implies e[i] != '.' by {
            assert(e[i] == ascii_lower(seg[i]));
        }
        assert(all_ascii(e)) by {
            assert forall|i: int| 0 <= i < e.len() implies (e[i] as u32) < 128 by {
                assert(e[i] == ascii_lower(seg[i]));
            }
        }
        assert(ascii_lower_seq(e) =~= e) by {
            assert forall|i: int| 0 <= i < e.len() implies ascii_lower_seq(e)[i] == e[i] by {
                assert(e[i] == ascii_lower(seg[i]));
            }
        }
        lemma_extension_of_x(e);
    }
}

/// Whether a row has a cell at column `j`.
pub open spec fn row_has(j: int) -> spec_fn(Seq<Seq<char>>) -> bool {
    |c: Seq<Seq<char>>| c.len() > j
}

/// The cell at column `j` of a row.
pub open spec fn cell_at(j: int) -> spec_fn(Seq<Seq<char>>) -> Seq<char> {
    |c: Seq<Seq<char>>| c[j]
}

/// The cells of a line.
pub open spec fn line_cells() -> spec_fn(Seq<char>) -> Seq<Seq<char>> {
    |l: Seq<char>| csv_cells(l)
}

proof fn lemma_column_cells(rs: Seq<Seq<Seq<char>>>, j: int)
    ensures
        column(rs, j) == rs.filter(row_has(j)).map_values(cell_at(j)),
    decreases rs.len(),
{
    reveal(Seq::filter);
    if rs.len() > 0 {
        lemma_column_cells(rs.drop_last(), j);
        let f = rs.drop_last().filter(row_has(j));
        if rs.last().len() > j {
            assert(rs.filter(row_has(j)) == f.push(rs.last()));
            assert(f.push(rs.last()).map_values(cell_at(j)) =~= f.map_values(cell_at(j)) + seq![rs.last()[j]]);
        } else {
            assert(rs.filter(row_has(j)) == f);
            assert(column(rs, j) =~= column(rs.drop_last(), j));
        }
    }
}

proof fn lemma_rows_cells(rows: Seq<Seq<char>>)
    ensures
        csv_rows(rows) matches Ok(rs) ==> rs == rows.map_values(line_cells()).filter(row_has(1)),
    decreases rows.len(),
{
    reveal(Seq::filter);
    if rows.len() > 0 {
        lemma_rows_cells(rows.drop_last());
        let m = rows.map_values(line_cells());
        assert(m.drop_last() =~= rows.drop_last().map_values(line_cells()));
        assert(m.last() == csv_cells(rows.last()));
    } else {
        assert(rows.map_values(line_cells()) =~= Seq::<Seq<Seq<char>>>::empty());
    }
}

/// A bound CSV chart reads every column from the data rows' own cells: with
/// the data rows taken as the cells of each non-blank line after the header
/// that has at least two cells, the labels are their first cells, the
/// primary values the cells of column 1, and further series `k` (named by
/// header cell `k + 2`) the cells of column `k + 2` of the rows that have
/// one; there is one further series per header column after the second.
pub proof fn lemma_csv_columns(content: Seq<char>)
    ensures
        csv_result(content) matches Ok(Some(ch)) ==> {
            let ls = nonblank(lines(content));
            let cols = csv_cells(ls[0]);
            let data = ls.skip(1).map_values(line_cells()).filter(row_has(1));
            &&& ch.labels == data.map_values(cell_at(0))
            &&& ch.values == data.filter(row_has(1)).map_values(cell_at(1))
            &&& ch.series.len() == cols.len() - 2
            &&& ch.series_names == cols.skip(2)
            &&& forall|k: int| 0 <= k < ch.series.len() ==> #[trigger] ch.series[k] == data.filter(row_has(k + 2)).map_values(
                cell_at(k + 2),
            )
        },
{
    let ls = nonblank(lines(content));
    if ls.len() > 0 {
        lemma_rows_cells(ls.skip(1));
        if let Ok(Some(ch)) = csv_result(content) {
            let cols = csv_cells(ls[0]);
            let data = ls.skip(1).map_values(line_cells()).filter(row_has(1));
            lemma_column_cells(data, 1);
            assert(ch.labels =~= data.map_values(cell_at(0)));
            assert forall|k: int| 0 <= k < ch.series.len() implies #[trigger] ch.series[k] == data.filter(row_has(k + 2)).map_values(
                cell_at(k + 2),
            ) by {
                lemma_column_cells(data, k + 2);
            }
        }
    }
}

} // verus!
