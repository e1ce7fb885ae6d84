use crate::aggregate::Aggregator;
use crate::decimal::{counter_value, parse_counter};
use crate::record::Record;
use crate::tally::{lemma_tally_into_concat, lemma_tally_into_empty, rows_of, tally, tally_into, Row};
use vstd::prelude::*;

verus! {

/// Why a file's contents could not be read as rows of counters.
#[derive(Debug, Clone, Copy, PartialEq, Eq, Structural)]
pub enum ParseError {
    /// The bytes are not well-formed delimited text (as the CSV reader judges).
    Malformed,
    /// The first row is not `user;quests;raids;spawns`.
    BadHeader,
    /// The row at this index (the header is row 0) does not have four fields.
    FieldCount { row: usize },
    /// A counter of the row at this index is not an unsigned 64-bit decimal.
    BadCounter { row: usize },
}

#[verifier::external_type_specification]
#[verifier::external_body]
pub struct ExCsvError(csv::Error);

/// The records that the CSV reader finds in `input`, each as its list of
/// fields, with `delimiter` between fields, the first row read as an ordinary
/// record and rows of any length accepted; `None` where it reports an error.
pub uninterp spec fn csv_fields(input: Seq<u8>, delimiter: u8) -> Option<Seq<Seq<Seq<char>>>>;

/// Relies on csv's `ReaderBuilder` (with `has_headers(false)`, `flexible(true)`)
/// and `Reader::records`: every record's fields in order, or the first error.
/// The outcome depends on the bytes and the delimiter alone.
#[verifier::external_body]
fn read_fields(input: &[u8], delimiter: u8) -> (r: Result<Vec<Vec<String>>, csv::Error>)
    ensures
        match r {
            Ok(rows) => csv_fields(input@, delimiter) == Some(rows.deep_view()),
            Err(_) => csv_fields(input@, delimiter) is None,
        },
{
    let mut rdr = csv::ReaderBuilder::new()
        .delimiter(delimiter)
        .has_headers(false)
        .flexible(true)
        .from_reader(input);
    rdr.records().map(|rec| rec.map(|fields| fields.iter().map(String::from).collect())).collect()
}

/// The field separator of the input files: `;` (ASCII 59).
pub const DELIMITER: u8 = 59;

/// The header row: the four column names in their fixed order.
pub open spec fn header_ok(h: Seq<Seq<char>>) -> bool {
    h.len() == 4 && h[0] == "user"@ && h[1] == "quests"@ && h[2] == "raids"@ && h[3] == "spawns"@
}

/// A data row: four fields, the last three of them counters.
pub open spec fn row_value(f: Seq<Seq<char>>) -> Option<Row> {
    if f.len() == 4 && counter_value(f[1]) is Some && counter_value(f[2]) is Some
        && counter_value(f[3]) is Some {
        Some((f[0], counter_value(f[1])->Some_0, counter_value(f[2])->Some_0, counter_value(f[3])->Some_0))
    } else {
        None
    }
}

/// The error for a data row that `row_value` rejects, at index `i`.
pub open spec fn row_error(f: Seq<Seq<char>>, i: int) -> ParseError {
    if f.len() != 4 {
        ParseError::FieldCount { row: i as usize }
    } else {
        ParseError::BadCounter { row: i as usize }
    }
}

/// The data rows among the first `n` records (the header excluded), or the
/// error of the first of them that is not a valid row.
pub open spec fn decode_prefix(rows: Seq<Seq<Seq<char>>>, n: int) -> Result<Seq<Row>, ParseError>
    decreases n,
{
    if n <= 1 {
        Ok(Seq::empty())
    } else {
        match decode_prefix(rows, n - 1) {
            Err(e) => Err(e),
            Ok(s) => match row_value(rows[n - 1]) {
                Some(r) => Ok(s.push(r)),
                None => Err(row_error(rows[n - 1], n - 1)),
            },
        }
    }
}

proof fn lemma_decode_error_stays(rows: Seq<Seq<Seq<char>>>, n: int, m: int)
    requires
        n <= m,
        decode_prefix(rows, n) is Err,
    ensures
        decode_prefix(rows, m) == decode_prefix(rows, n),
    decreases m - n,
{
    if n < m {
        lemma_decode_error_stays(rows, n, m - 1);
    }
}

/// The rows that a file's records denote: nothing for no records; an error
/// for a wrong header; else every data row, or the first row's error.
pub open spec fn decode_spec(rows: Seq<Seq<Seq<char>>>) -> Result<Seq<Row>, ParseError> {
    if rows.len() == 0 {
        Ok(Seq::empty())
    } else if !header_ok(rows[0]) {
        Err(ParseError::BadHeader)
    } else {
        decode_prefix(rows, rows.len() as int)
    }
}

/// The rows that a file's bytes denote, or why they do not.
pub open spec fn parse_spec(input: Seq<u8>) -> Result<Seq<Row>, ParseError> {
    match csv_fields(input, DELIMITER) {
        None => Err(ParseError::Malformed),
        Some(rows) => decode_spec(rows),
    }
}

fn is_header(h: &Vec<String>) -> (r: bool)
    ensures
        r == header_ok(h.deep_view()),
{
    if h.len() != 4 {
        return false;
    }
    h[0] == "user".to_owned() && h[1] == "quests".to_owned() && h[2] == "raids".to_owned() && h[3]
        == "spawns".to_owned()
}

/// Turns a file's records (as the CSV reader gives them, header first) into
/// records of counters.
pub fn decode_rows(rows: &Vec<Vec<String>>) -> (r: Result<Vec<Record>, ParseError>)
    ensures
        match r {
            Ok(v) => decode_spec(rows.deep_view()) == Ok::<Seq<Row>, ParseError>(rows_of(v@)),
            Err(e) => decode_spec(rows.deep_view()) == Err::<Seq<Row>, ParseError>(e),
        },
{
    let ghost dv = rows.deep_view();
    if rows.len() == 0 {
        let out: Vec<Record> = Vec::new();
        assert(rows_of(out@) =~= Seq::<Row>::empty());
        return Ok(out);
    }
    if !is_header(&rows[0]) {
        return Err(ParseError::BadHeader);
    }
    let mut out: Vec<Record> = Vec::new();
    assert(rows_of(out@) =~= Seq::<Row>::empty());
    let mut i: usize = 1;
    while i < rows.len()
        invariant
            1 <= i <= rows.len(),
            dv == rows.deep_view(),
            header_ok(dv[0]),
            decode_prefix(dv, i as int) == Ok::<Seq<Row>, ParseError>(rows_of(out@)),
        decreases rows.len() - i,
    {
        let f = &rows[i];
        assert(dv[i as int] == f.deep_view());
        if f.len() != 4 {
            proof {
                lemma_decode_error_stays(dv, i + 1, dv.len() as int);
            }
            return Err(ParseError::FieldCount { row: i });
        }
        let q = parse_counter(f[1].as_str());
        let r = parse_counter(f[2].as_str());
        let s = parse_counter(f[3].as_str());
        match (q, r, s) {
            (Some(q), Some(r), Some(s)) => {
                let rec = Record { user: f[0].clone(), quests: q, raids: r, spawns: s };
                let ghost before = out@;
                out.push(rec);
                assert(rows_of(out@) =~= rows_of(before).push((f.deep_view()[0], q, r, s)));
            },
            _ => {
                proof {
                    lemma_decode_error_stays(dv, i + 1, dv.len() as int);
                }
                return Err(ParseError::BadCounter { row: i });
            },
        }
        i += 1;
    }
    Ok(out)
}

/// Reads one file's bytes into records of counters.
pub fn parse_records(input: &[u8]) -> (r: Result<Vec<Record>, ParseError>)
    ensures
        match r {
            Ok(v) => parse_spec(input@) == Ok::<Seq<Row>, ParseError>(rows_of(v@)),
            Err(e) => parse_spec(input@) == Err::<Seq<Row>, ParseError>(e),
        },
{
    match read_fields(input, DELIMITER) {
        Ok(rows) => decode_rows(&rows),
        Err(_) => Err(ParseError::Malformed),
    }
}

/// Reads one file's bytes and merges every row into `res`. On an error
/// `res` is left as it was.
pub fn read_csv(input: &[u8], res: &mut Aggregator) -> (r: Result<(), ParseError>)
    requires
        old(res).wf(),
    ensures
        final(res).wf(),
        match r {
            Ok(()) => parse_spec(input@) is Ok && final(res)@ == tally_into(old(res)@, parse_spec(input@)->Ok_0),
            Err(e) => parse_spec(input@) == Err::<Seq<Row>, ParseError>(e) && final(res)@ == old(res)@,
        },
{
    match parse_records(input) {
        Ok(records) => {
            res.ingest_all(&records);
            Ok(())
        },
        Err(e) => Err(e),
    }
}

/// The rows of several files, in order, or the error of the first file that
/// fails to read.
pub open spec fn files_spec(files: Seq<Seq<u8>>) -> Result<Seq<Row>, ParseError>
    decreases files.len(),
{
    if files.len() == 0 {
        Ok(Seq::empty())
    } else {
        match files_spec(files.drop_last()) {
            Err(e) => Err(e),
            Ok(s) => match parse_spec(files.last()) {
                Err(e) => Err(e),
                Ok(t) => Ok(s + t),
            },
        }
    }
}

proof fn lemma_files_error_stays(files: Seq<Seq<u8>>, n: int)
    requires
        0 <= n <= files.len(),
        files_spec(files.take(n)) is Err,
    ensures
        files_spec(files) == files_spec(files.take(n)),
    decreases files.len() - n,
{
    if n < files.len() {
        assert(files.take(n + 1).drop_last() =~= files.take(n));
        lemma_files_error_stays(files, n + 1);
    } else {
        assert(files.take(n) =~= files);
    }
}

/// Aggregates the contents of several input files, one after another; the
/// first file that fails to read ends the run with its error.
pub fn aggregate_files(files: &Vec<Vec<u8>>) -> (r: Result<Aggregator, ParseError>)
    ensures
        match r {
            Ok(a) => a.wf() && files_spec(files.deep_view()) is Ok && a@ == tally(
                files_spec(files.deep_view())->Ok_0,
            ),
            Err(e) => files_spec(files.deep_view()) == Err::<Seq<Row>, ParseError>(e),
        },
{
    let ghost fs = files.deep_view();
    let mut agg = Aggregator::new();
    let ghost mut acc: Seq<Row> = Seq::empty();
    proof {
        assert(fs.take(0) =~= Seq::<Seq<u8>>::empty());
        lemma_tally_into_empty(agg@);
    }
    let mut i: usize = 0;
    while i < files.len()
        invariant
            i <= files.len(),
            fs == files.deep_view(),
            agg.wf(),
            files_spec(fs.take(i as int)) == Ok::<Seq<Row>, ParseError>(acc),
            agg@ == tally(acc),
        decreases files.len() - i,
    {
        let ghost before = agg@;
        assert(fs[i as int] == files[i as int]@);
        assert(fs.take(i + 1).drop_last() =~= fs.take(i as int));
        match read_csv(files[i].as_slice(), &mut agg) {
            Ok(()) => {
                proof {
                    let t = parse_spec(fs[i as int])->Ok_0;
                    lemma_tally_into_concat(Map::empty(), acc, t);
                    acc = acc + t;
                }
            },
            Err(e) => {
                proof {
                    lemma_files_error_stays(fs, i + 1);
                }
                return Err(e);
            },
        }
        i += 1;
    }
    assert(fs.take(files.len() as int) =~= fs);
    Ok(agg)
}

/// A file name that the input scan takes: its extension is exactly `csv`
/// (lower case), after a non-empty stem.
pub open spec fn is_csv_name(name: Seq<char>) -> bool {
    name.len() > 4 && name.subrange(name.len() - 4, name.len() as int) == seq!['.', 'c', 's', 'v']
}

/// Whether the input scan reads the file of this name (see `is_csv_name`).
pub fn has_csv_extension(name: &str) -> (r: bool)
    ensures
        r == is_csv_name(name@),
{
    let n = name.unicode_len();
    if n <= 4 {
        return false;
    }
    let r = name.get_char(n - 4) == '.' && name.get_char(n - 3) == 'c' && name.get_char(n - 2) == 's'
        && name.get_char(n - 1) == 'v';
    assert(r == (name@.subrange(n - 4, n as int) =~= seq!['.', 'c', 's', 'v']));
    r
}

} // verus!
