//! Text format of a day log.
//!
//! The first row names the five record fields; each following row holds one
//! record. Fields are separated by `;` and rows end with a line feed. A field
//! that holds `;`, `"`, a line feed or a carriage return is written between
//! double quotes, each `"` inside it doubled.
use crate::record::{readings_ok, views, CsvCpuLogEntry};
use crate::text::{chars_of, push_char};
use vstd::prelude::*;
use vstd::string::StringExecFns;

verus! {

/// A character that forces a field to be quoted.
pub open spec fn is_special(c: char) -> bool {
    c == ';' || c == '"' || c == '\n' || c == '\r'
}

pub open spec fn needs_quotes(s: Seq<char>) -> bool {
    exists|i: int| 0 <= i < s.len() && is_special(#[trigger] s[i])
}

/// How one character is written inside quotes.
pub open spec fn escape_char(c: char) -> Seq<char> {
    if c == '"' {
        seq!['"', '"']
    } else {
        seq![c]
    }
}

/// The inside of a quoted field: every `"` doubled.
pub open spec fn escaped(s: Seq<char>) -> Seq<char>
    decreases s.len(),
{
    if s.len() == 0 {
        Seq::empty()
    } else {
        escape_char(s[0]) + escaped(s.drop_first())
    }
}

pub open spec fn encode_field(s: Seq<char>) -> Seq<char> {
    if needs_quotes(s) {
        seq!['"'] + escaped(s) + seq!['"']
    } else {
        s
    }
}

/// One row: the five fields, separated by `;`, then a line feed.
pub open spec fn encode_row(f: Seq<Seq<char>>) -> Seq<char> {
    encode_field(f[0]) + seq![';'] + encode_field(f[1]) + seq![';'] + encode_field(f[2])
        + seq![';'] + encode_field(f[3]) + seq![';'] + encode_field(f[4]) + seq!['\n']
}

/// The rows of a sequence of records, in order.
pub open spec fn encode_rows(rows: Seq<Seq<Seq<char>>>) -> Seq<char>
    decreases rows.len(),
{
    if rows.len() == 0 {
        Seq::empty()
    } else {
        encode_row(rows[0]) + encode_rows(rows.drop_first())
    }
}

/// The column names, in the order of a record's fields.
pub open spec fn header_fields() -> Seq<Seq<char>> {
    seq!["timestamp"@, "temperature_unit"@, "temperature"@, "cpu_usage"@, "power_draw"@]
}

pub open spec fn header_row() -> Seq<char> {
    encode_row(header_fields())
}

/// A whole log file holding `rows`.
pub open spec fn log_text(rows: Seq<Seq<Seq<char>>>) -> Seq<char> {
    header_row() + encode_rows(rows)
}

proof fn lemma_escaped_push(s: Seq<char>, c: char)
    ensures
        escaped(s.push(c)) == escaped(s) + escape_char(c),
    decreases s.len(),
{
    if s.len() == 0 {
        assert(s.push(c).drop_first() =~= Seq::<char>::empty());
        assert(s.push(c)[0] == c);
        assert(escaped(s.push(c).drop_first()) == Seq::<char>::empty());
        assert(escaped(s) == Seq::<char>::empty());
        assert(escaped(s.push(c)) =~= escaped(s) + escape_char(c));
    } else {
        assert(s.push(c).drop_first() =~= s.drop_first().push(c));
        lemma_escaped_push(s.drop_first(), c);
        assert(escaped(s.push(c)) =~= escaped(s) + escape_char(c));
    }
}

proof fn lemma_encode_rows_push(rows: Seq<Seq<Seq<char>>>, r: Seq<Seq<char>>)
    ensures
        encode_rows(rows.push(r)) == encode_rows(rows) + encode_row(r),
    decreases rows.len(),
{
    if rows.len() == 0 {
        assert(rows.push(r).drop_first() =~= rows);
        assert(rows.push(r)[0] == r);
        assert(encode_rows(rows) == Seq::<char>::empty());
        assert(encode_rows(rows.push(r)) =~= encode_rows(rows) + encode_row(r));
    } else {
        assert(rows.push(r).drop_first() =~= rows.drop_first().push(r));
        lemma_encode_rows_push(rows.drop_first(), r);
        assert(encode_rows(rows.push(r)) =~= encode_rows(rows) + encode_row(r));
    }
}

fn has_special(cs: &Vec<char>) -> (r: bool)
    ensures
        r == needs_quotes(cs@),
{
    let mut i: usize = 0;
    while i < cs.len()
        invariant
            i <= cs.len(),
            forall|k: int| 0 <= k < i ==> !is_special(#[trigger] cs@[k]),
        decreases cs.len() - i,
    {
        let c = cs[i];
        if c == ';' || c == '"' || c == '\n' || c == '\r' {
            assert(is_special(cs@[i as int]));
            return true;
        }
        i = i + 1;
    }
    false
}

/// Appends the encoding of one field.
fn push_field(out: &mut String, field: &str)
    ensures
        final(out)@ == old(out)@ + encode_field(field@),
{
    let cs = chars_of(field);
    if has_special(&cs) {
        let ghost start = out@;
        push_char(out, '"');
        let mut i: usize = 0;
        while i < cs.len()
            invariant
                i <= cs.len(),
                out@ == start + seq!['"'] + escaped(cs@.take(i as int)),
            decreases cs.len() - i,
        {
            let c = cs[i];
            proof {
                assert(cs@.take(i as int + 1) =~= cs@.take(i as int).push(c));
                lemma_escaped_push(cs@.take(i as int), c);
            }
            if c == '"' {
                push_char(out, '"');
                push_char(out, '"');
            } else {
                push_char(out, c);
            }
            assert(out@ =~= start + seq!['"'] + escaped(cs@.take(i as int + 1)));
            i = i + 1;
        }
        push_char(out, '"');
        assert(cs@.take(cs.len() as int) =~= cs@);
        assert(out@ =~= start + encode_field(field@));
    } else {
        out.append(field);
    }
}

/// Appends one row made of five fields.
fn push_row(out: &mut String, a: &str, b: &str, c: &str, d: &str, e: &str)
    ensures
        final(out)@ == old(out)@ + encode_row(seq![a@, b@, c@, d@, e@]),
{
    let ghost start = out@;
    push_field(out, a);
    push_char(out, ';');
    push_field(out, b);
    push_char(out, ';');
    push_field(out, c);
    push_char(out, ';');
    push_field(out, d);
    push_char(out, ';');
    push_field(out, e);
    push_char(out, '\n');
    assert(out@ =~= start + encode_row(seq![a@, b@, c@, d@, e@]));
}

/// Appends the header row.
pub fn push_header(out: &mut String)
    ensures
        final(out)@ == old(out)@ + header_row(),
{
    push_row(out, "timestamp", "temperature_unit", "temperature", "cpu_usage", "power_draw");
}

/// Appends one row per record, in order.
pub fn push_records(out: &mut String, records: &Vec<CsvCpuLogEntry>)
    ensures
        final(out)@ == old(out)@ + encode_rows(views(records@)),
{
    let ghost start = out@;
    let mut i: usize = 0;
    while i < records.len()
        invariant
            i <= records.len(),
            out@ == start + encode_rows(views(records@.take(i as int))),
        decreases records.len() - i,
    {
        let r = &records[i];
        push_row(
            out,
            r.timestamp.as_str(),
            r.temperature_unit.as_str(),
            r.temperature.as_str(),
            r.cpu_usage.as_str(),
            r.power_draw.as_str(),
        );
        proof {
            assert(views(records@.take(i as int + 1)) =~= views(records@.take(i as int)).push(
                records@[i as int]@,
            ));
            lemma_encode_rows_push(views(records@.take(i as int)), records@[i as int]@);
        }
        assert(out@ =~= start + encode_rows(views(records@.take(i as int + 1))));
        i = i + 1;
    }
    assert(records@.take(records.len() as int) =~= records@);
}


/// End of an unquoted field that starts at `i`.
pub open spec fn plain_end(t: Seq<char>, i: int) -> int
    decreases t.len() - i,
{
    if i < 0 || i >= t.len() || t[i] == ';' || t[i] == '\n' || t[i] == '\r' {
        i
    } else {
        plain_end(t, i + 1)
    }
}

/// The text of a quoted field whose opening quote stands just before `i`,
/// and the position after its closing quote; `None` if no quote closes it.
pub open spec fn quoted_from(t: Seq<char>, i: int) -> Option<(Seq<char>, int)>
    decreases t.len() - i,
{
    if i < 0 || i >= t.len() {
        None
    } else if t[i] == '"' {
        if i + 1 < t.len() && t[i + 1] == '"' {
            match quoted_from(t, i + 2) {
                Some((s, e)) => Some((seq!['"'] + s, e)),
                None => None,
            }
        } else {
            Some((Seq::empty(), i + 1))
        }
    } else {
        match quoted_from(t, i + 1) {
            Some((s, e)) => Some((seq![t[i]] + s, e)),
            None => None,
        }
    }
}

/// The field that starts at `p`, and the position just after it.
pub open spec fn field_at(t: Seq<char>, p: int) -> Option<(Seq<char>, int)> {
    if 0 <= p < t.len() && t[p] == '"' {
        quoted_from(t, p + 1)
    } else {
        Some((t.subrange(p, plain_end(t, p)), plain_end(t, p)))
    }
}

/// A field followed by `;`, and where the next field starts.
pub open spec fn field_then_sep(t: Seq<char>, p: int) -> Option<(Seq<char>, int)> {
    match field_at(t, p) {
        Some((f, e)) => if 0 <= e < t.len() && t[e] == ';' {
            Some((f, e + 1))
        } else {
            None
        },
        None => None,
    }
}

/// The last field of a row, and where the next row starts. A row ends with
/// a line feed, a carriage return, both (`\r\n`), or the end of the text.
pub open spec fn field_then_end(t: Seq<char>, p: int) -> Option<(Seq<char>, int)> {
    match field_at(t, p) {
        Some((f, e)) => if e == t.len() {
            Some((f, e))
        } else if 0 <= e < t.len() && t[e] == '\n' {
            Some((f, e + 1))
        } else if 0 <= e < t.len() && t[e] == '\r' {
            if e + 1 < t.len() && t[e + 1] == '\n' {
                Some((f, e + 2))
            } else {
                Some((f, e + 1))
            }
        } else {
            None
        },
        None => None,
    }
}

/// The five fields of the row that starts at `p`, and where the next row starts.
pub open spec fn row_at(t: Seq<char>, p: int) -> Option<(Seq<Seq<char>>, int)> {
    match field_then_sep(t, p) {
        None => None,
        Some((a, n1)) => match field_then_sep(t, n1) {
            None => None,
            Some((b, n2)) => match field_then_sep(t, n2) {
                None => None,
                Some((c, n3)) => match field_then_sep(t, n3) {
                    None => None,
                    Some((d, n4)) => match field_then_end(t, n4) {
                        None => None,
                        Some((e, q)) => Some((seq![a, b, c, d, e], q)),
                    },
                },
            },
        },
    }
}

/// The rows from position `p` to the end of the text, or the error of the
/// first row that is malformed or holds a reading that is not a number.
pub open spec fn rows_from(t: Seq<char>, p: int) -> Result<Seq<Seq<Seq<char>>>, LogFormatError>
    decreases t.len() - p,
{
    if p < 0 || p >= t.len() {
        Ok(Seq::empty())
    } else {
        match row_at(t, p) {
            Some((r, q)) => if p < q <= t.len() {
                if !readings_ok(r) {
                    Err(LogFormatError::BadReading)
                } else {
                    match rows_from(t, q) {
                        Ok(rs) => Ok(seq![r] + rs),
                        Err(e) => Err(e),
                    }
                }
            } else {
                Err(LogFormatError::MalformedRow)
            },
            None => Err(LogFormatError::MalformedRow),
        }
    }
}

/// Why a log text could not be read.
#[derive(Debug, Clone, Copy, PartialEq, Eq, Structural)]
pub enum LogFormatError {
    /// The first row is not the header row.
    MissingHeader,
    /// A row after the header does not hold five well-formed fields.
    MalformedRow,
    /// A row's temperature, usage or power is not a number.
    BadReading,
}

/// What reading a log text gives: an empty text holds no rows; otherwise the
/// first row must be the header.
pub open spec fn parse_log_spec(t: Seq<char>) -> Result<Seq<Seq<Seq<char>>>, LogFormatError> {
    if t.len() == 0 {
        Ok(Seq::empty())
    } else {
        match row_at(t, 0) {
            Some((h, q)) => if h == header_fields() && 0 < q <= t.len() {
                rows_from(t, q)
            } else {
                Err(LogFormatError::MissingHeader)
            },
            None => Err(LogFormatError::MissingHeader),
        }
    }
}

spec fn same_scan(r: Option<(String, usize)>, s: Option<(Seq<char>, int)>) -> bool {
    match (r, s) {
        (Some((a, i)), Some((b, j))) => a@ == b && i as int == j,
        (None, None) => true,
        _ => false,
    }
}

spec fn scan_rest(whole: Option<(Seq<char>, int)>, rest: Option<(Seq<char>, int)>, acc: Seq<char>) -> bool {
    match rest {
        Some((s, e)) => whole == Some((acc + s, e)),
        None => whole is None,
    }
}

fn scan_quoted(t: &Vec<char>, i: usize) -> (r: Option<(String, usize)>)
    requires
        i <= t.len(),
    ensures
        same_scan(r, quoted_from(t@, i as int)),
{
    let mut acc = String::new();
    let mut j: usize = i;
    assert(acc@ + Seq::<char>::empty() =~= acc@);
    assert(scan_rest(quoted_from(t@, i as int), quoted_from(t@, j as int), acc@)) by {
        match quoted_from(t@, j as int) {
            Some((s, e)) => {
                assert(acc@ + s =~= s);
            },
            None => {},
        }
    }
    loop
        invariant
            i <= j <= t.len(),
            scan_rest(quoted_from(t@, i as int), quoted_from(t@, j as int), acc@),
        decreases t.len() - j,
    {
        if j >= t.len() {
            return None;
        }
        let c = t[j];
        let ghost before = acc@;
        if c == '"' {
            if j + 1 < t.len() && t[j + 1] == '"' {
                push_char(&mut acc, '"');
                proof {
                    match quoted_from(t@, j + 2) {
                        Some((s, e)) => {
                            assert(before.push('"') + s =~= before + (seq!['"'] + s));
                        },
                        None => {},
                    }
                }
                j = j + 2;
            } else {
                assert(acc@ + Seq::<char>::empty() =~= acc@);
                return Some((acc, j + 1));
            }
        } else {
            push_char(&mut acc, c);
            proof {
                match quoted_from(t@, j + 1) {
                    Some((s, e)) => {
                        assert(before.push(c) + s =~= before + (seq![c] + s));
                    },
                    None => {},
                }
            }
            j = j + 1;
        }
    }
}

fn scan_plain(t: &Vec<char>, p: usize) -> (r: (String, usize))
    requires
        p <= t.len(),
    ensures
        r.1 as int == plain_end(t@, p as int),
        r.0@ == t@.subrange(p as int, plain_end(t@, p as int)),
{
    let mut acc = String::new();
    let mut j: usize = p;
    while j < t.len() && t[j] != ';' && t[j] != '\n' && t[j] != '\r'
        invariant
            p <= j <= t.len(),
            plain_end(t@, p as int) == plain_end(t@, j as int),
            acc@ == t@.subrange(p as int, j as int),
        decreases t.len() - j,
    {
        push_char(&mut acc, t[j]);
        assert(acc@ =~= t@.subrange(p as int, j + 1));
        j = j + 1;
    }
    (acc, j)
}

fn scan_field(t: &Vec<char>, p: usize) -> (r: Option<(String, usize)>)
    requires
        p <= t.len(),
    ensures
        same_scan(r, field_at(t@, p as int)),
{
    if p < t.len() && t[p] == '"' {
        scan_quoted(t, p + 1)
    } else {
        let (f, e) = scan_plain(t, p);
        Some((f, e))
    }
}

fn scan_field_then_sep(t: &Vec<char>, p: usize) -> (r: Option<(String, usize)>)
    requires
        p <= t.len(),
    ensures
        same_scan(r, field_then_sep(t@, p as int)),
{
    match scan_field(t, p) {
        Some((f, e)) => if e < t.len() && t[e] == ';' {
            Some((f, e + 1))
        } else {
            None
        },
        None => None,
    }
}

fn scan_field_then_end(t: &Vec<char>, p: usize) -> (r: Option<(String, usize)>)
    requires
        p <= t.len(),
    ensures
        same_scan(r, field_then_end(t@, p as int)),
{
    match scan_field(t, p) {
        Some((f, e)) => if e == t.len() {
            Some((f, e))
        } else if e < t.len() && t[e] == '\n' {
            Some((f, e + 1))
        } else if e < t.len() && t[e] == '\r' {
            if e + 1 < t.len() && t[e + 1] == '\n' {
                Some((f, e + 2))
            } else {
                Some((f, e + 1))
            }
        } else {
            None
        },
        None => None,
    }
}

fn scan_row(t: &Vec<char>, p: usize) -> (r: Option<(CsvCpuLogEntry, usize)>)
    requires
        p <= t.len(),
    ensures
        match row_at(t@, p as int) {
            Some((fs, q)) => r is Some && r->Some_0.0@ == fs && r->Some_0.1 as int == q,
            None => r is None,
        },
{
    let (a, n1) = match scan_field_then_sep(t, p) {
        Some(x) => x,
        None => return None,
    };
    let (b, n2) = match scan_field_then_sep(t, n1) {
        Some(x) => x,
        None => return None,
    };
    let (c, n3) = match scan_field_then_sep(t, n2) {
        Some(x) => x,
        None => return None,
    };
    let (d, n4) = match scan_field_then_sep(t, n3) {
        Some(x) => x,
        None => return None,
    };
    let (e, q) = match scan_field_then_end(t, n4) {
        Some(x) => x,
        None => return None,
    };
    Some(
        (
            CsvCpuLogEntry {
                timestamp: a,
                temperature_unit: b,
                temperature: c,
                cpu_usage: d,
                power_draw: e,
            },
            q,
        ),
    )
}

spec fn rows_rest(
    whole: Result<Seq<Seq<Seq<char>>>, LogFormatError>,
    rest: Result<Seq<Seq<Seq<char>>>, LogFormatError>,
    acc: Seq<Seq<Seq<char>>>,
) -> bool {
    match rest {
        Ok(rs) => whole == Ok::<Seq<Seq<Seq<char>>>, LogFormatError>(acc + rs),
        Err(e) => whole == Err::<Seq<Seq<Seq<char>>>, LogFormatError>(e),
    }
}

fn is_header(r: &CsvCpuLogEntry) -> (b: bool)
    ensures
        b == (r@ == header_fields()),
{
    let b = r.timestamp == "timestamp".to_owned() && r.temperature_unit == "temperature_unit".to_owned()
        && r.temperature == "temperature".to_owned() && r.cpu_usage == "cpu_usage".to_owned()
        && r.power_draw == "power_draw".to_owned();
    proof {
        if r@ == header_fields() {
            assert(r@[0] == header_fields()[0]);
            assert(r@[1] == header_fields()[1]);
            assert(r@[2] == header_fields()[2]);
            assert(r@[3] == header_fields()[3]);
            assert(r@[4] == header_fields()[4]);
        }
        if b {
            assert(r@ =~= header_fields());
        }
    }
    b
}

/// Reads the records of a log text, in order.
pub fn parse_log(text: &str) -> (r: Result<Vec<CsvCpuLogEntry>, LogFormatError>)
    ensures
        match parse_log_spec(text@) {
            Ok(rows) => r is Ok && views(r->Ok_0@) == rows,
            Err(e) => r == Err::<Vec<CsvCpuLogEntry>, LogFormatError>(e),
        },
{
    let t = chars_of(text);
    if t.len() == 0 {
        let v: Vec<CsvCpuLogEntry> = Vec::new();
        assert(views(v@) =~= Seq::<Seq<Seq<char>>>::empty());
        return Ok(v);
    }
    let (h, q0) = match scan_row(&t, 0) {
        Some(x) => x,
        None => return Err(LogFormatError::MissingHeader),
    };
    if !is_header(&h) || q0 == 0 || q0 > t.len() {
        return Err(LogFormatError::MissingHeader);
    }
    let mut acc: Vec<CsvCpuLogEntry> = Vec::new();
    let mut p: usize = q0;
    assert(rows_rest(rows_from(t@, q0 as int), rows_from(t@, p as int), views(acc@))) by {
        assert(views(acc@) =~= Seq::<Seq<Seq<char>>>::empty());
        match rows_from(t@, p as int) {
            Ok(rs) => {
                assert(views(acc@) + rs =~= rs);
            },
            Err(_) => {},
        }
    }
    loop
        invariant
            q0 <= p <= t.len(),
            t@ == text@,
            parse_log_spec(text@) == rows_from(t@, q0 as int),
            rows_rest(rows_from(t@, q0 as int), rows_from(t@, p as int), views(acc@)),
        decreases t.len() - p,
    {
        if p >= t.len() {
            assert(views(acc@) + Seq::<Seq<Seq<char>>>::empty() =~= views(acc@));
            return Ok(acc);
        }
        let (e, q) = match scan_row(&t, p) {
            Some(x) => x,
            None => return Err(LogFormatError::MalformedRow),
        };
        if q <= p || q > t.len() {
            return Err(LogFormatError::MalformedRow);
        }
        if !e.has_valid_readings() {
            return Err(LogFormatError::BadReading);
        }
        let ghost before = views(acc@);
        acc.push(e);
        proof {
            assert(views(acc@) =~= before.push(e@));
            match rows_from(t@, q as int) {
                Ok(rs) => {
                    assert(before.push(e@) + rs =~= before + (seq![e@] + rs));
                },
                Err(_) => {},
            }
        }
        p = q;
    }
}


proof fn lemma_plain_end(t: Seq<char>, p: int, k: int)
    requires
        0 <= p <= k <= t.len(),
        forall|j: int| p <= j < k ==> t[j] != ';' && t[j] != '\n' && t[j] != '\r',
        k == t.len() || t[k] == ';' || t[k] == '\n',
    ensures
        plain_end(t, p) == k,
    decreases k - p,
{
    if p < k {
        lemma_plain_end(t, p + 1, k);
    }
}

proof fn lemma_quoted(t: Seq<char>, i: int, f: Seq<char>)
    requires
        0 <= i,
        i + escaped(f).len() < t.len(),
        t.subrange(i, i + escaped(f).len()) == escaped(f),
        t[i + escaped(f).len()] == '"',
        i + escaped(f).len() + 1 == t.len() || t[i + escaped(f).len() + 1] != '"',
    ensures
        quoted_from(t, i) == Some((f, i + escaped(f).len() + 1)),
    decreases f.len(),
{
    let n = escaped(f).len();
    if f.len() == 0 {
        assert(f =~= Seq::<char>::empty());
    } else {
        let rest = f.drop_first();
        let er = escaped(rest);
        let k = escape_char(f[0]).len();
        assert(escaped(f) == escape_char(f[0]) + er);
        assert(t[i] == escaped(f)[0]);
        assert(t.subrange(i + k, i + k + er.len()) =~= er) by {
            assert forall|j: int| 0 <= j < er.len() implies t.subrange(i + k, i + k + er.len())[j]
                == er[j] by {
                assert(t[i + k + j] == t.subrange(i, i + n)[k + j]);
            }
        }
        assert(i + k + er.len() == i + n);
        lemma_quoted(t, i + k, rest);
        if f[0] == '"' {
            assert(t[i + 1] == escaped(f)[1]);
            assert(seq!['"'] + rest =~= f);
        } else {
            assert(seq![t[i]] + rest =~= f);
        }
    }
}

proof fn lemma_field(t: Seq<char>, p: int, f: Seq<char>)
    requires
        0 <= p,
        p + encode_field(f).len() <= t.len(),
        t.subrange(p, p + encode_field(f).len()) == encode_field(f),
        p + encode_field(f).len() == t.len() || t[p + encode_field(f).len()] == ';' || t[p
            + encode_field(f).len()] == '\n',
    ensures
        field_at(t, p) == Some((f, p + encode_field(f).len())),
{
    let n = encode_field(f).len();
    if needs_quotes(f) {
        let e = escaped(f);
        assert(t[p] == encode_field(f)[0]);
        assert(t.subrange(p + 1, p + 1 + e.len()) =~= e) by {
            assert forall|j: int| 0 <= j < e.len() implies t.subrange(p + 1, p + 1 + e.len())[j]
                == e[j] by {
                assert(t[p + 1 + j] == t.subrange(p, p + n)[1 + j]);
            }
        }
        assert(t[p + 1 + e.len()] == t.subrange(p, p + n)[1 + e.len() as int]);
        lemma_quoted(t, p + 1, f);
    } else {
        assert forall|j: int| p <= j < p + n implies t[j] != ';' && t[j] != '\n' && t[j] != '\r' by {
            assert(t[j] == t.subrange(p, p + n)[j - p]);
            assert(!is_special(f[j - p]));
        }
        if p < t.len() && n > 0 {
            assert(t[p] == f[0]);
            assert(!is_special(f[0]));
        }
        lemma_plain_end(t, p, p + n);
    }
}

/// `t` holds `part` at `p + off` when it holds `whole` at `p` and `whole`
/// holds `part` at `off`.
proof fn lemma_sub(t: Seq<char>, p: int, whole: Seq<char>, off: int, part: Seq<char>)
    requires
        0 <= p,
        p + whole.len() <= t.len(),
        t.subrange(p, p + whole.len()) == whole,
        0 <= off,
        off + part.len() <= whole.len(),
        whole.subrange(off, off + part.len()) == part,
    ensures
        t.subrange(p + off, p + off + part.len()) == part,
{
    assert forall|j: int| 0 <= j < part.len() implies t.subrange(p + off, p + off + part.len())[j]
        == part[j] by {
        assert(t[p + off + j] == t.subrange(p, p + whole.len())[off + j]);
        assert(part[j] == whole.subrange(off, off + part.len())[j]);
    }
    assert(t.subrange(p + off, p + off + part.len()) =~= part);
}

proof fn lemma_row(t: Seq<char>, p: int, fs: Seq<Seq<char>>)
    requires
        fs.len() == 5,
        0 <= p,
        p + encode_row(fs).len() <= t.len(),
        t.subrange(p, p + encode_row(fs).len()) == encode_row(fs),
    ensures
        row_at(t, p) == Some((fs, p + encode_row(fs).len())),
{
    let row = encode_row(fs);
    let e0 = encode_field(fs[0]);
    let e1 = encode_field(fs[1]);
    let e2 = encode_field(fs[2]);
    let e3 = encode_field(fs[3]);
    let e4 = encode_field(fs[4]);
    let o1: int = e0.len() as int + 1;
    let o2: int = o1 + e1.len() + 1;
    let o3: int = o2 + e2.len() + 1;
    let o4: int = o3 + e3.len() + 1;
    assert(row.len() == o4 + e4.len() + 1);
    assert(row.subrange(0, e0.len() as int) =~= e0);
    assert(row.subrange(o1, o1 + e1.len()) =~= e1);
    assert(row.subrange(o2, o2 + e2.len()) =~= e2);
    assert(row.subrange(o3, o3 + e3.len()) =~= e3);
    assert(row.subrange(o4, o4 + e4.len()) =~= e4);
    assert(row[o1 - 1] == ';');
    assert(row[o2 - 1] == ';');
    assert(row[o3 - 1] == ';');
    assert(row[o4 - 1] == ';');
    assert(row[row.len() - 1] == '\n');
    assert(t[p + o1 - 1] == row[o1 - 1]);
    assert(t[p + o2 - 1] == row[o2 - 1]);
    assert(t[p + o3 - 1] == row[o3 - 1]);
    assert(t[p + o4 - 1] == row[o4 - 1]);
    assert(t[p + row.len() - 1] == row[row.len() - 1]);
    lemma_sub(t, p, row, 0, e0);
    lemma_sub(t, p, row, o1, e1);
    lemma_sub(t, p, row, o2, e2);
    lemma_sub(t, p, row, o3, e3);
    lemma_sub(t, p, row, o4, e4);
    lemma_field(t, p, fs[0]);
    lemma_field(t, p + o1, fs[1]);
    lemma_field(t, p + o2, fs[2]);
    lemma_field(t, p + o3, fs[3]);
    lemma_field(t, p + o4, fs[4]);
    assert(seq![fs[0], fs[1], fs[2], fs[3], fs[4]] =~= fs);
}

proof fn lemma_rows(t: Seq<char>, p: int, rows: Seq<Seq<Seq<char>>>)
    requires
        forall|i: int| 0 <= i < rows.len() ==> (#[trigger] rows[i]).len() == 5,
        forall|i: int| 0 <= i < rows.len() ==> readings_ok(#[trigger] rows[i]),
        0 <= p <= t.len(),
        t.subrange(p, t.len() as int) == encode_rows(rows),
    ensures
        rows_from(t, p) == Ok::<Seq<Seq<Seq<char>>>, LogFormatError>(rows),
    decreases rows.len(),
{
    if rows.len() == 0 {
        assert(rows =~= Seq::<Seq<Seq<char>>>::empty());
    } else {
        let row = encode_row(rows[0]);
        let rest = encode_rows(rows.drop_first());
        let q = p + row.len();
        assert(t.subrange(p, t.len() as int) == row + rest);
        assert((row + rest).subrange(0, row.len() as int) =~= row);
        lemma_sub(t, p, row + rest, 0, row);
        lemma_row(t, p, rows[0]);
        assert(t.subrange(q, t.len() as int) =~= rest) by {
            assert forall|j: int| 0 <= j < rest.len() implies t.subrange(q, t.len() as int)[j]
                == rest[j] by {
                assert(t[q + j] == t.subrange(p, t.len() as int)[row.len() + j]);
            }
        }
        lemma_rows(t, q, rows.drop_first());
        assert(seq![rows[0]] + rows.drop_first() =~= rows);
    }
}

/// Reading back a log text written from `rows` gives `rows`, field for field
/// and in the same order.
pub proof fn lemma_log_round_trip(rows: Seq<Seq<Seq<char>>>)
    requires
        forall|i: int| 0 <= i < rows.len() ==> (#[trigger] rows[i]).len() == 5,
        forall|i: int| 0 <= i < rows.len() ==> readings_ok(#[trigger] rows[i]),
    ensures
        parse_log_spec(log_text(rows)) == Ok::<Seq<Seq<Seq<char>>>, LogFormatError>(rows),
{
    let t = log_text(rows);
    let h = header_row();
    assert(t.subrange(0, h.len() as int) =~= h);
    lemma_row(t, 0, header_fields());
    assert(t.subrange(h.len() as int, t.len() as int) =~= encode_rows(rows));
    lemma_rows(t, h.len() as int, rows);
}

} // verus!
