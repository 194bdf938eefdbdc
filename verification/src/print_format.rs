//! Output formats for query results, and their command-line names.
use vstd::prelude::*;

use crate::text::{chars_of, push_str};

verus! {

/// How query results are printed.
#[derive(Debug, Clone, Copy, PartialEq, Eq)]
pub enum PrintFormat {
    Table,
    Csv,
    Json,
    NdJson,
    Yaml,
}

/// The command-line name of a format.
pub open spec fn format_name(f: PrintFormat) -> Seq<char> {
    match f {
        PrintFormat::Table => "table"@,
        PrintFormat::Csv => "csv"@,
        PrintFormat::Json => "json"@,
        PrintFormat::NdJson => "ndjson"@,
        PrintFormat::Yaml => "yaml"@,
    }
}

/// `c` with an ASCII uppercase letter lowered; other characters unchanged.
pub open spec fn ascii_lower(c: char) -> char {
    if 'A' <= c <= 'Z' {
        ((c as u32) + 32) as char
    } else {
        c
    }
}

/// `input` equals the lowercase ASCII `name` ignoring ASCII case.
pub open spec fn matches_ignoring_ascii_case(input: Seq<char>, name: Seq<char>) -> bool {
    input.len() == name.len() && forall|i: int| 0 <= i < input.len() ==> ascii_lower(#[trigger] input[i]) == name[i]
}

/// The format whose name `input` is, ignoring ASCII case; or the error
/// message `invalid variant: <input>`.
pub open spec fn parsed_format(input: Seq<char>) -> Result<PrintFormat, Seq<char>> {
    if matches_ignoring_ascii_case(input, "table"@) {
        Ok(PrintFormat::Table)
    } else if matches_ignoring_ascii_case(input, "csv"@) {
        Ok(PrintFormat::Csv)
    } else if matches_ignoring_ascii_case(input, "json"@) {
        Ok(PrintFormat::Json)
    } else if matches_ignoring_ascii_case(input, "ndjson"@) {
        Ok(PrintFormat::NdJson)
    } else if matches_ignoring_ascii_case(input, "yaml"@) {
        Ok(PrintFormat::Yaml)
    } else {
        Err("invalid variant: "@ + input)
    }
}

/// Every format's command-line name parses back to that format.
pub proof fn law_format_name_parses(f: PrintFormat)
    ensures
        parsed_format(format_name(f)) == Ok::<PrintFormat, Seq<char>>(f),
{
    reveal_strlit("table");
    reveal_strlit("csv");
    reveal_strlit("json");
    reveal_strlit("ndjson");
    reveal_strlit("yaml");
    let n = format_name(f);
    assert(matches_ignoring_ascii_case(n, n));
    if f != PrintFormat::Table {
        assert(n[0] != 't');
    }
    if f == PrintFormat::Json {
        assert(n.len() != "csv"@.len());
    }
    if f == PrintFormat::NdJson {
        assert(n.len() != "csv"@.len() && n.len() != "json"@.len());
    }
    if f == PrintFormat::Yaml {
        assert(n[0] == 'y');
    }
}

/// Whether `cs` equals `name` ignoring ASCII case.
fn name_matches(cs: &Vec<char>, name: &str) -> (r: bool)
    ensures
        r == matches_ignoring_ascii_case(cs@, name@),
{
    let ns = chars_of(name);
    if cs.len() != ns.len() {
        return false;
    }
    let mut i: usize = 0;
    while i < cs.len()
        invariant
            i <= cs@.len(),
            cs@.len() == ns@.len(),
            ns@ == name@,
            forall|j: int| 0 <= j < i ==> ascii_lower(#[trigger] cs@[j]) == ns@[j],
        decreases cs.len() - i,
    {
        let c = cs[i];
        let lower = if 'A' <= c && c <= 'Z' {
            (((c as u32) + 32) as u8) as char
        } else {
            c
        };
        if lower != ns[i] {
            return false;
        }
        i = i + 1;
    }
    true
}

impl PrintFormat {
    /// The format named `input` (`table`, `csv`, `json`, `ndjson` or
    /// `yaml`, in any ASCII case), or `invalid variant: <input>`.
    pub fn parse_name(input: &str) -> (r: Result<PrintFormat, String>)
        ensures
            match r {
                Ok(f) => parsed_format(input@) == Ok::<PrintFormat, Seq<char>>(f),
                Err(msg) => parsed_format(input@) == Err::<PrintFormat, Seq<char>>(msg@),
            },
    {
        let cs = chars_of(input);
        if name_matches(&cs, "table") {
            Ok(PrintFormat::Table)
        } else if name_matches(&cs, "csv") {
            Ok(PrintFormat::Csv)
        } else if name_matches(&cs, "json") {
            Ok(PrintFormat::Json)
        } else if name_matches(&cs, "ndjson") {
            Ok(PrintFormat::NdJson)
        } else if name_matches(&cs, "yaml") {
            Ok(PrintFormat::Yaml)
        } else {
            let mut msg = String::new();
            push_str(&mut msg, "invalid variant: ");
            push_str(&mut msg, input);
            Err(msg)
        }
    }
}

impl std::str::FromStr for PrintFormat {
    type Err = String;

    fn from_str(s: &str) -> (r: Result<Self, Self::Err>)
        ensures
            match r {
                Ok(f) => parsed_format(s@) == Ok::<PrintFormat, Seq<char>>(f),
                Err(msg) => parsed_format(s@) == Err::<PrintFormat, Seq<char>>(msg@),
            },
    {
        PrintFormat::parse_name(s)
    }
}

/// One batch of query results with every cell already formatted as text:
/// the column names and, per row, one formatted cell per column.
pub struct FormattedBatch {
    pub fields: Vec<String>,
    pub rows: Vec<Vec<String>>,
}

/// The column names of a batch.
pub open spec fn fields_view(b: FormattedBatch) -> Seq<Seq<char>> {
    b.fields@.map_values(|f: String| f@)
}

/// The formatted cells of a batch, row by row.
pub open spec fn rows_view(b: FormattedBatch) -> Seq<Seq<Seq<char>>> {
    b.rows@.map_values(|r: Vec<String>| r@.map_values(|c: String| c@))
}

/// Every row of the batch has one cell per column.
pub open spec fn is_rectangular(b: FormattedBatch) -> bool {
    forall|i: int| 0 <= i < b.rows@.len() ==> (#[trigger] b.rows@[i])@.len() == b.fields@.len()
}

/// The `name: value` lines of the first `n` columns of a row.
pub open spec fn yaml_lines(fields: Seq<Seq<char>>, cells: Seq<Seq<char>>, n: int) -> Seq<char>
    decreases n,
{
    if n <= 0 {
        Seq::empty()
    } else {
        yaml_lines(fields, cells, n - 1) + fields[n - 1] + ": "@ + cells[n - 1] + "\n"@
    }
}

/// A row as a YAML document: a `---` line, then one `name: value` line per
/// column.
pub open spec fn yaml_record(fields: Seq<Seq<char>>, cells: Seq<Seq<char>>) -> Seq<char> {
    "---\n"@ + yaml_lines(fields, cells, fields.len() as int)
}

/// The YAML documents of the first `n` rows.
pub open spec fn yaml_rows(fields: Seq<Seq<char>>, rows: Seq<Seq<Seq<char>>>, n: int) -> Seq<char>
    decreases n,
{
    if n <= 0 {
        Seq::empty()
    } else {
        yaml_rows(fields, rows, n - 1) + yaml_record(fields, rows[n - 1])
    }
}

/// The YAML documents of every row of the first `n` batches, in order.
pub open spec fn yaml_batches(batches: Seq<FormattedBatch>, n: int) -> Seq<char>
    decreases n,
{
    if n <= 0 {
        Seq::empty()
    } else {
        let b = batches[n - 1];
        yaml_batches(batches, n - 1) + yaml_rows(fields_view(b), rows_view(b), b.rows@.len() as int)
    }
}

/// The YAML output of query results: each row becomes a `---` line
/// followed by one `name: value` line per column; batches without rows
/// print nothing.
pub fn yaml_text(batches: &Vec<FormattedBatch>) -> (r: String)
    requires
        forall|i: int| 0 <= i < batches@.len() ==> is_rectangular(#[trigger] batches@[i]),
    ensures
        r@ == yaml_batches(batches@, batches@.len() as int),
{
    let mut out = String::new();
    let mut bi: usize = 0;
    while bi < batches.len()
        invariant
            bi <= batches@.len(),
            forall|i: int| 0 <= i < batches@.len() ==> is_rectangular(#[trigger] batches@[i]),
            out@ == yaml_batches(batches@, bi as int),
        decreases batches.len() - bi,
    {
        let b = &batches[bi];
        let ghost fv = fields_view(*b);
        let ghost rv = rows_view(*b);
        let ghost before = out@;
        assert(is_rectangular(*b));
        let mut ri: usize = 0;
        while ri < b.rows.len()
            invariant
                ri <= b.rows@.len(),
                fv == fields_view(*b),
                rv == rows_view(*b),
                is_rectangular(*b),
                out@ == before + yaml_rows(fv, rv, ri as int),
            decreases b.rows.len() - ri,
        {
            let row = &b.rows[ri];
            let ghost cells = rv[ri as int];
            assert(row@.len() == b.fields@.len());
            assert(cells == row@.map_values(|c: String| c@));
            let ghost start = out@;
            push_str(&mut out, "---\n");
            let mut fi: usize = 0;
            while fi < b.fields.len()
                invariant
                    fi <= b.fields@.len(),
                    row@.len() == b.fields@.len(),
                    fv == fields_view(*b),
                    cells == row@.map_values(|c: String| c@),
                    out@ == start + "---\n"@ + yaml_lines(fv, cells, fi as int),
                decreases b.fields.len() - fi,
            {
                let ghost mid = out@;
                push_str(&mut out, b.fields[fi].as_str());
                push_str(&mut out, ": ");
                push_str(&mut out, row[fi].as_str());
                push_str(&mut out, "\n");
                assert(fv[fi as int] == b.fields@[fi as int]@);
                assert(cells[fi as int] == row@[fi as int]@);
                assert(out@ =~= start + "---\n"@ + yaml_lines(fv, cells, fi + 1));
                fi = fi + 1;
            }
            assert(out@ =~= before + yaml_rows(fv, rv, ri + 1));
            ri = ri + 1;
        }
        assert(out@ =~= yaml_batches(batches@, bi + 1));
        bi = bi + 1;
    }
    out
}

} // verus!
