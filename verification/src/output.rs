//! Record output as an aligned table, tab-separated lines or JSON objects.

use vstd::prelude::*;
use crate::text;
use crate::messages::ApiError;

verus! {

/// A lower-case hexadecimal digit.
pub open spec fn hex_digit(n: nat) -> char {
    if n < 10 { ((48 + n) as u32) as char } else { ((87 + n) as u32) as char }
}

/// How `serde_json` writes one character inside a string literal: `"` and
/// `\` after a backslash, the control characters U+0008, U+0009, U+000A,
/// U+000C and U+000D as `\b`, `\t`, `\n`, `\f` and `\r`, the other
/// characters below U+0020 as `\u00` and two lower-case hex digits, and
/// every other character as itself.
pub open spec fn json_escape_char(c: char) -> Seq<char> {
    if c == '"' {
        seq!['\\', '"']
    } else if c == '\\' {
        seq!['\\', '\\']
    } else if c == '\u{8}' {
        seq!['\\', 'b']
    } else if c == '\t' {
        seq!['\\', 't']
    } else if c == '\n' {
        seq!['\\', 'n']
    } else if c == '\u{c}' {
        seq!['\\', 'f']
    } else if c == '\r' {
        seq!['\\', 'r']
    } else if (c as u32) < 0x20 {
        seq!['\\', 'u', '0', '0', hex_digit((c as u32 / 16) as nat), hex_digit((c as u32 % 16) as nat)]
    } else {
        seq![c]
    }
}

/// The characters of a string as escaped inside a JSON string literal.
pub open spec fn json_escaped(s: Seq<char>) -> Seq<char>
    decreases s.len(),
{
    if s.len() == 0 {
        Seq::empty()
    } else {
        json_escaped(s.drop_last()) + json_escape_char(s.last())
    }
}

/// What `serde_json::to_string` gives for a string: the JSON string literal,
/// the escaped characters between double quotes.
pub open spec fn json_quoted(s: Seq<char>) -> Seq<char> {
    seq!['"'] + json_escaped(s) + seq!['"']
}

/// `serde_json::to_string` on a string slice: its JSON string literal, as
/// `format_escaped_str` in `serde_json`'s `ser.rs` writes it. Serialising a
/// `str` into a `Vec` does not fail.
#[verifier::external_body]
fn json_literal(value: &str) -> (r: String)
    ensures r@ == json_quoted(value@),
{
    serde_json::to_string(value).unwrap_or_default()
}

/// The JSON string literal of a value.
pub fn json_string(value: &str) -> (r: String)
    ensures r@ == json_quoted(value@),
{
    json_literal(value)
}

/// How records are printed.
#[derive(Clone, Copy, Debug, PartialEq, Eq, Structural)]
pub enum OutputFormat {
    Table,
    Tsv,
    Json,
}

impl OutputFormat {
    /// Parses `--format`; without a value the format is `table`.
    pub fn parse(value: Option<&str>) -> (r: Result<OutputFormat, ApiError>)
        ensures
            ({
                let v = match value { Some(v) => v@, None => "table"@ };
                if v == "table"@ {
                    r == Ok::<OutputFormat, ApiError>(OutputFormat::Table)
                } else if v == "tsv"@ {
                    r == Ok::<OutputFormat, ApiError>(OutputFormat::Tsv)
                } else if v == "json"@ {
                    r == Ok::<OutputFormat, ApiError>(OutputFormat::Json)
                } else {
                    r matches Err(ApiError::InvalidInput(m))
                        && m@ == "unsupported output format: "@ + v + "; expected table, tsv, or json"@
                }
            }),
    {
        let v = match value { Some(v) => v, None => "table" };
        if text::str_eq(v, "table") {
            Ok(OutputFormat::Table)
        } else if text::str_eq(v, "tsv") {
            Ok(OutputFormat::Tsv)
        } else if text::str_eq(v, "json") {
            Ok(OutputFormat::Json)
        } else {
            Err(ApiError::InvalidInput(text::concat3("unsupported output format: ", v, "; expected table, tsv, or json")))
        }
    }
}

/// The UTF-8 byte length of a string (`str::len`).
pub open spec fn byte_len(s: Seq<char>) -> nat {
    (vstd::utf8::encode_utf8(s).len() as usize) as nat
}

/// The widest of a header and the values in its column, in bytes.
pub open spec fn column_width_of(header_len: nat, rows: Seq<Vec<String>>, i: int) -> nat
    decreases rows.len(),
{
    if rows.len() == 0 {
        header_len
    } else {
        let w = column_width_of(header_len, rows.drop_last(), i);
        let row = rows.last()@;
        if 0 <= i < row.len() && byte_len(row[i]@) > w { byte_len(row[i]@) } else { w }
    }
}

/// A value left-aligned in a field of `width` characters.
pub open spec fn padded(v: Seq<char>, width: nat) -> Seq<char> {
    if v.len() < width { v + Seq::new((width - v.len()) as nat, |k: int| ' ') } else { v }
}

/// A table line: the values padded to their column widths (a value beyond the
/// known columns to its own byte length) and separated by two spaces.
pub open spec fn table_line(row: Seq<Seq<char>>, widths: Seq<nat>) -> Seq<char>
    decreases row.len(),
{
    if row.len() == 0 {
        Seq::empty()
    } else {
        let i = row.len() - 1;
        let w = if i < widths.len() { widths[i] } else { byte_len(row[i]) };
        table_line(row.drop_last(), widths) + (if i > 0 { "  "@ } else { Seq::empty() }) + padded(row[i], w)
    }
}

pub(crate) fn pad_to(out: &mut String, value: &str, width: usize)
    ensures final(out)@ == old(out)@ + padded(value@, width as nat),
{
    text::push_str(out, value);
    let n = value.unicode_len();
    if n < width {
        let ghost base = out@;
        let mut k: usize = 0;
        while k < width - n
            invariant
                k <= width - n,
                out@ == base + Seq::new(k as nat, |j: int| ' '),
            decreases width - n - k,
        {
            text::push_char(out, ' ');
            k = k + 1;
            assert(out@ =~= base + Seq::new(k as nat, |j: int| ' '));
        }
        assert(out@ =~= old(out)@ + padded(value@, width as nat));
    }
}

/// The views of the strings in a row.
pub open spec fn row_view(row: Seq<String>) -> Seq<Seq<char>> {
    row.map_values(|s: String| s@)
}

fn render_line(row: &[String], widths: &Vec<usize>) -> (r: String)
    ensures r@ == table_line(row_view(row@), widths@.map_values(|w: usize| w as nat)),
{
    let ghost ws = widths@.map_values(|w: usize| w as nat);
    let mut out = String::new();
    let n = row.len();
    let mut i: usize = 0;
    while i < n
        invariant
            i <= n,
            n == row@.len(),
            ws == widths@.map_values(|w: usize| w as nat),
            out@ == table_line(row_view(row@.subrange(0, i as int)), ws),
        decreases n - i,
    {
        let value = row[i].as_str();
        let ghost pre = out@;
        assert(row_view(row@.subrange(0, i + 1)).drop_last() =~= row_view(row@.subrange(0, i as int)));
        assert(row_view(row@.subrange(0, i + 1))[i as int] == row@[i as int]@);
        if i > 0 {
            text::push_str(&mut out, "  ");
        }
        let width = if i < widths.len() { widths[i] } else { value.len() };
        pad_to(&mut out, value, width);
        i = i + 1;
        assert(out@ =~= table_line(row_view(row@.subrange(0, i as int)), ws));
    }
    assert(row@.subrange(0, n as int) =~= row@);
    out
}

/// The column widths of a table.
pub open spec fn table_widths(headers: Seq<&str>, rows: Seq<Vec<String>>) -> Seq<nat> {
    Seq::new(headers.len(), |i: int| column_width_of(byte_len(headers[i]@), rows, i))
}

/// The lines of an aligned table.
pub open spec fn table_lines(headers: Seq<&str>, rows: Seq<Vec<String>>) -> Seq<Seq<char>> {
    seq![table_line(headers.map_values(|h: &str| h@), table_widths(headers, rows))]
        + Seq::new(rows.len(), |k: int| table_line(row_view(rows[k]@), table_widths(headers, rows)))
}

/// The tab-separated lines of rows.
pub open spec fn tsv_lines(rows: Seq<Vec<String>>) -> Seq<Seq<char>> {
    Seq::new(rows.len(), |k: int| joined(row_view(rows[k]@), "\t"@))
}

/// The JSON object lines of rows.
pub open spec fn json_lines(headers: Seq<&str>, rows: Seq<Vec<String>>) -> Seq<Seq<char>> {
    Seq::new(rows.len(), |k: int| "{"@ + joined(json_fields(headers.map_values(|h: &str| h@), row_view(rows[k]@)), ","@) + "}"@)
}

/// Every row has as many values as there are headers.
pub open spec fn rows_fit(headers: Seq<&str>, rows: Seq<Vec<String>>) -> bool {
    forall|k: int| 0 <= k < rows.len() ==> #[trigger] rows[k]@.len() == headers.len()
}

/// The lines of an aligned table: the header line, then one line per row.
/// Column widths are the widest header or value of each column, in bytes.
pub fn print_table(headers: &[&str], rows: &[Vec<String>]) -> (r: Vec<String>)
    ensures
        row_view(r@) == table_lines(headers@, rows@),
        r@.len() == rows@.len() + 1,
        ({
            let widths = Seq::new(headers@.len(), |i: int| column_width_of(byte_len(headers@[i]@), rows@, i));
            &&& r@[0]@ == table_line(headers@.map_values(|h: &str| h@), widths)
            &&& forall|k: int| 0 <= k < rows@.len() ==> #[trigger] r@[k + 1]@ == table_line(row_view(rows@[k]@), widths)
        }),
{
    let ghost spec_widths = Seq::new(headers@.len(), |i: int| column_width_of(byte_len(headers@[i]@), rows@, i));
    let h = headers.len();
    let mut widths: Vec<usize> = Vec::new();
    let mut i: usize = 0;
    while i < h
        invariant
            i <= h,
            h == headers@.len(),
            widths@.len() == i,
            forall|k: int| 0 <= k < i ==> widths@[k] as nat == byte_len(headers@[k]@),
        decreases h - i,
    {
        widths.push(headers[i].len());
        i = i + 1;
    }
    let nrows = rows.len();
    let mut r: usize = 0;
    while r < nrows
        invariant
            r <= nrows,
            nrows == rows@.len(),
            h == headers@.len(),
            widths@.len() == h,
            forall|k: int| 0 <= k < h ==> widths@[k] as nat == column_width_of(byte_len(headers@[k]@), rows@.subrange(0, r as int), k),
        decreases nrows - r,
    {
        let row = &rows[r];
        let m = row.len();
        let mut c: usize = 0;
        let ghost before = widths@;
        assert(rows@.subrange(0, r + 1).drop_last() =~= rows@.subrange(0, r as int));
        while c < m
            invariant
                c <= m,
                r < nrows,
                nrows == rows@.len(),
                m == row@.len(),
                *row == rows@[r as int],
                widths@.len() == h,
                before.len() == h,
                h == headers@.len(),
                forall|k: int| 0 <= k < h ==> before[k] as nat == column_width_of(byte_len(headers@[k]@), rows@.subrange(0, r as int), k),
                forall|k: int| c <= k < h ==> widths@[k] == before[k],
                forall|k: int| 0 <= k < c && k < h ==> widths@[k] as nat == if byte_len(row@[k]@) > before[k] { byte_len(row@[k]@) } else { before[k] as nat },
            decreases m - c,
        {
            if c < widths.len() {
                let l = row[c].as_str().len();
                if l > widths[c] {
                    widths.set(c, l);
                }
            }
            c = c + 1;
        }
        proof {
            assert forall|k: int| 0 <= k < h implies widths@[k] as nat == column_width_of(byte_len(headers@[k]@), rows@.subrange(0, r + 1), k) by {
                let sub1 = rows@.subrange(0, r + 1);
                assert(sub1.last() == rows@[r as int]);
                assert(sub1.drop_last() =~= rows@.subrange(0, r as int));
                let rw = sub1.last()@;
                assert(rw == row@);
                let w0 = column_width_of(byte_len(headers@[k]@), rows@.subrange(0, r as int), k);
                assert(w0 == before[k] as nat);
                assert(column_width_of(byte_len(headers@[k]@), sub1, k)
                    == (if 0 <= k < rw.len() && byte_len(rw[k]@) > w0 { byte_len(rw[k]@) } else { w0 }));
            }
        }
        r = r + 1;
    }
    assert(rows@.subrange(0, nrows as int) =~= rows@);
    assert(widths@.map_values(|w: usize| w as nat) =~= spec_widths);
    let mut out: Vec<String> = Vec::new();
    let mut header_row: Vec<String> = Vec::new();
    let mut k: usize = 0;
    while k < h
        invariant
            k <= h,
            h == headers@.len(),
            header_row@.len() == k,
            forall|j: int| 0 <= j < k ==> header_row@[j]@ == headers@[j]@,
        decreases h - k,
    {
        header_row.push(text::owned(headers[k]));
        k = k + 1;
    }
    assert(row_view(header_row@) =~= headers@.map_values(|s: &str| s@));
    out.push(render_line(header_row.as_slice(), &widths));
    let mut q: usize = 0;
    while q < nrows
        invariant
            q <= nrows,
            nrows == rows@.len(),
            out@.len() == q + 1,
            widths@.map_values(|w: usize| w as nat) == spec_widths,
            out@[0]@ == table_line(headers@.map_values(|h: &str| h@), spec_widths),
            forall|j: int| 0 <= j < q ==> #[trigger] out@[j + 1]@ == table_line(row_view(rows@[j]@), spec_widths),
        decreases nrows - q,
    {
        out.push(render_line(rows[q].as_slice(), &widths));
        q = q + 1;
    }
    proof {
        let tl = table_lines(headers@, rows@);
        assert(row_view(out@).len() == tl.len());
        assert forall|j: int| 0 <= j < tl.len() implies row_view(out@)[j] == tl[j] by {
            if j > 0 {
                assert(out@[(j - 1) + 1]@ == table_line(row_view(rows@[j - 1]@), spec_widths));
            }
        }
        assert(row_view(out@) =~= tl);
    }
    out
}

/// Values joined by a separator.
pub open spec fn joined(vs: Seq<Seq<char>>, sep: Seq<char>) -> Seq<char>
    decreases vs.len(),
{
    if vs.len() == 0 {
        Seq::empty()
    } else if vs.len() == 1 {
        vs[0]
    } else {
        joined(vs.drop_last(), sep) + sep + vs.last()
    }
}

/// Joins strings with a separator (`[String]::join`).
pub fn join_strings(vs: &[String], sep: &str) -> (r: String)
    ensures r@ == joined(row_view(vs@), sep@),
{
    let mut out = String::new();
    let n = vs.len();
    let mut i: usize = 0;
    while i < n
        invariant
            i <= n,
            n == vs@.len(),
            out@ == joined(row_view(vs@.subrange(0, i as int)), sep@),
        decreases n - i,
    {
        assert(row_view(vs@.subrange(0, i + 1)).drop_last() =~= row_view(vs@.subrange(0, i as int)));
        if i > 0 {
            text::push_str(&mut out, sep);
        }
        text::push_str(&mut out, vs[i].as_str());
        i = i + 1;
        assert(out@ =~= joined(row_view(vs@.subrange(0, i as int)), sep@));
    }
    assert(vs@.subrange(0, n as int) =~= vs@);
    out
}

/// The tab-separated lines of rows.
pub fn print_tsv(rows: &[Vec<String>]) -> (r: Vec<String>)
    ensures
        row_view(r@) == tsv_lines(rows@),
        r@.len() == rows@.len(),
        forall|k: int| 0 <= k < rows@.len() ==> #[trigger] r@[k]@ == joined(row_view(rows@[k]@), "\t"@),
{
    let mut out: Vec<String> = Vec::new();
    let n = rows.len();
    let mut i: usize = 0;
    while i < n
        invariant
            i <= n,
            n == rows@.len(),
            out@.len() == i,
            forall|k: int| 0 <= k < i ==> #[trigger] out@[k]@ == joined(row_view(rows@[k]@), "\t"@),
        decreases n - i,
    {
        out.push(join_strings(rows[i].as_slice(), "\t"));
        i = i + 1;
    }
    assert(row_view(out@) =~= tsv_lines(rows@));
    out
}

/// The JSON members of one record: `"header":"value"` for each column.
pub open spec fn json_fields(headers: Seq<Seq<char>>, row: Seq<Seq<char>>) -> Seq<Seq<char>> {
    Seq::new(row.len(), |i: int| json_quoted(headers[i]) + ":"@ + json_quoted(row[i]))
}

/// The JSON object lines of rows; a row whose width differs from the
/// headers' is refused.
pub fn print_json(headers: &[&str], rows: &[Vec<String>]) -> (r: Result<Vec<String>, ApiError>)
    ensures
        (forall|k: int| 0 <= k < rows@.len() ==> #[trigger] rows@[k]@.len() == headers@.len()) ==> (r matches Ok(lines)
            && lines@.len() == rows@.len()
            && forall|k: int| 0 <= k < rows@.len() ==> #[trigger] lines@[k]@ == "{"@
                + joined(json_fields(headers@.map_values(|h: &str| h@), row_view(rows@[k]@)), ","@) + "}"@),
        !(forall|k: int| 0 <= k < rows@.len() ==> #[trigger] rows@[k]@.len() == headers@.len()) ==> (r matches Err(ApiError::InvalidInput(m))
            && m@ == "output row/header width mismatch"@),
        r matches Ok(lines) ==> row_view(lines@) == json_lines(headers@, rows@),
{
    let ghost hv = headers@.map_values(|h: &str| h@);
    let mut out: Vec<String> = Vec::new();
    let n = rows.len();
    let mut i: usize = 0;
    while i < n
        invariant
            i <= n,
            n == rows@.len(),
            hv == headers@.map_values(|h: &str| h@),
            out@.len() == i,
            forall|k: int| 0 <= k < i ==> #[trigger] rows@[k]@.len() == headers@.len(),
            forall|k: int| 0 <= k < i ==> #[trigger] out@[k]@ == "{"@
                + joined(json_fields(hv, row_view(rows@[k]@)), ","@) + "}"@,
        decreases n - i,
    {
        let row = &rows[i];
        if row.len() != headers.len() {
            return Err(ApiError::InvalidInput(text::owned("output row/header width mismatch")));
        }
        let mut fields: Vec<String> = Vec::new();
        let m = row.len();
        let mut j: usize = 0;
        while j < m
            invariant
                j <= m,
                m == row@.len(),
                m == headers@.len(),
                hv == headers@.map_values(|h: &str| h@),
                fields@.len() == j,
                forall|k: int| 0 <= k < j ==> #[trigger] fields@[k]@ == json_quoted(hv[k]) + ":"@ + json_quoted(row@[k]@),
            decreases m - j,
        {
            let mut f = json_string(headers[j]);
            text::push_str(&mut f, ":");
            let v = json_string(row[j].as_str());
            text::push_str(&mut f, v.as_str());
            fields.push(f);
            j = j + 1;
        }
        assert(row_view(fields@) =~= json_fields(hv, row_view(row@)));
        let mut line = text::owned("{");
        let body = join_strings(fields.as_slice(), ",");
        text::push_str(&mut line, body.as_str());
        text::push_str(&mut line, "}");
        out.push(line);
        i = i + 1;
    }
    assert(row_view(out@) =~= json_lines(headers@, rows@));
    Ok(out)
}

/// The lines that printing records produces: `empty` when there are no rows,
/// otherwise the rows in the chosen format.
pub fn print_records(headers: &[&str], rows: &[Vec<String>], format: OutputFormat) -> (r: Result<Vec<String>, ApiError>)
    ensures
        rows@.len() == 0 ==> (r matches Ok(lines) && row_view(lines@) == seq!["empty"@]),
        rows@.len() > 0 && format == OutputFormat::Table ==> (r matches Ok(lines)
            && row_view(lines@) == table_lines(headers@, rows@)),
        rows@.len() > 0 && format == OutputFormat::Tsv ==> (r matches Ok(lines)
            && row_view(lines@) == tsv_lines(rows@)),
        rows@.len() > 0 && format == OutputFormat::Json && rows_fit(headers@, rows@) ==> (r matches Ok(lines)
            && row_view(lines@) == json_lines(headers@, rows@)),
        rows@.len() > 0 && format == OutputFormat::Json && !rows_fit(headers@, rows@) ==> (r matches Err(ApiError::InvalidInput(m))
            && m@ == "output row/header width mismatch"@),
{
    if rows.len() == 0 {
        let mut v: Vec<String> = Vec::new();
        v.push(text::owned("empty"));
        assert(row_view(v@) =~= seq!["empty"@]);
        return Ok(v);
    }
    match format {
        OutputFormat::Table => Ok(print_table(headers, rows)),
        OutputFormat::Tsv => Ok(print_tsv(rows)),
        OutputFormat::Json => print_json(headers, rows),
    }
}

} // verus!
