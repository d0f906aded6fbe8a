//! One telemetry reading, as it is recorded in the day log.
use crate::text::chars_of;
use vstd::prelude::*;

verus! {

/// One telemetry reading. The three readings are 32-bit floats, kept as the
/// text that the sampler rendered them to (a decimal number, `NaN`, `inf`
/// or `-inf`, see `is_reading`), so that the log holds them unchanged.
/// `new` and the log reader accept only such text; `wf` states it.
#[derive(Debug, Clone)]
pub struct CsvCpuLogEntry {
    pub timestamp: String,
    pub temperature_unit: String,
    pub temperature: String,
    pub cpu_usage: String,
    pub power_draw: String,
}

impl View for CsvCpuLogEntry {
    /// The five fields, in the order of the log's columns.
    type V = Seq<Seq<char>>;

    open spec fn view(&self) -> Seq<Seq<char>> {
        seq![
            self.timestamp@,
            self.temperature_unit@,
            self.temperature@,
            self.cpu_usage@,
            self.power_draw@,
        ]
    }
}

impl CsvCpuLogEntry {
    /// The three readings are numbers.
    pub open spec fn wf(&self) -> bool {
        readings_ok(self@)
    }

    /// A record of these fields; `None` when a reading is not a number.
    pub fn new(
        timestamp: String,
        temperature_unit: String,
        temperature: String,
        cpu_usage: String,
        power_draw: String,
    ) -> (r: Option<CsvCpuLogEntry>)
        ensures
            r is Some <==> readings_ok(
                seq![timestamp@, temperature_unit@, temperature@, cpu_usage@, power_draw@],
            ),
            r matches Some(e) ==> e@ == seq![
                timestamp@,
                temperature_unit@,
                temperature@,
                cpu_usage@,
                power_draw@,
            ],
    {
        let e = CsvCpuLogEntry { timestamp, temperature_unit, temperature, cpu_usage, power_draw };
        if e.has_valid_readings() {
            Some(e)
        } else {
            None
        }
    }

    /// Whether the three readings are numbers.
    pub fn has_valid_readings(&self) -> (r: bool)
        ensures
            r == self.wf(),
    {
        is_reading_text(self.temperature.as_str()) && is_reading_text(self.cpu_usage.as_str())
            && is_reading_text(self.power_draw.as_str())
    }

    /// A copy with the same five fields.
    pub fn duplicate(&self) -> (r: CsvCpuLogEntry)
        ensures
            r@ == self@,
    {
        CsvCpuLogEntry {
            timestamp: self.timestamp.clone(),
            temperature_unit: self.temperature_unit.clone(),
            temperature: self.temperature.clone(),
            cpu_usage: self.cpu_usage.clone(),
            power_draw: self.power_draw.clone(),
        }
    }
}

/// Every record of `s` has numeric readings.
pub open spec fn all_wf(s: Seq<CsvCpuLogEntry>) -> bool {
    forall|i: int| 0 <= i < s.len() ==> (#[trigger] s[i]).wf()
}

/// The views of a sequence of records.
pub open spec fn views(s: Seq<CsvCpuLogEntry>) -> Seq<Seq<Seq<char>>> {
    s.map_values(|e: CsvCpuLogEntry| e@)
}

pub open spec fn is_digit(c: char) -> bool {
    '0' <= c && c <= '9'
}

pub open spec fn digit_value(c: char) -> int {
    (c as u32) as int - ('0' as u32) as int
}

pub open spec fn all_digits(s: Seq<char>) -> bool {
    forall|i: int| 0 <= i < s.len() ==> is_digit(#[trigger] s[i])
}

/// The number that a run of decimal digits spells.
pub open spec fn digits_value(s: Seq<char>) -> int
    decreases s.len(),
{
    if s.len() == 0 {
        0
    } else {
        digits_value(s.drop_last()) * 10 + digit_value(s.last())
    }
}

/// Position of the first `.` at or after `i`, or the length when there is none.
pub open spec fn dot_from(s: Seq<char>, i: int) -> int
    decreases s.len() - i,
{
    if i < 0 || i >= s.len() || s[i] == '.' {
        i
    } else {
        dot_from(s, i + 1)
    }
}

/// An unsigned decimal (`digits`, optionally `.` and more digits) in tenths,
/// digits past the first decimal dropped.
pub open spec fn unsigned_tenths(s: Seq<char>) -> Option<int> {
    let d = dot_from(s, 0);
    let whole = s.take(d);
    let frac = if d < s.len() {
        s.skip(d + 1)
    } else {
        Seq::empty()
    };
    if whole.len() > 0 && all_digits(whole) && all_digits(frac) {
        Some(
            digits_value(whole) * 10 + if frac.len() > 0 {
                digit_value(frac[0])
            } else {
                0
            },
        )
    } else {
        None
    }
}

/// A decimal reading, with an optional leading `-`, in tenths rounded
/// toward zero; `None` if the text is not such a number.
pub open spec fn tenths_of(s: Seq<char>) -> Option<int> {
    if s.len() > 0 && s[0] == '-' {
        match unsigned_tenths(s.drop_first()) {
            Some(v) => Some(-v),
            None => None,
        }
    } else {
        unsigned_tenths(s)
    }
}

/// A reading in tenths, when the text is a decimal number that fits.
pub open spec fn reading_of(s: Seq<char>) -> Option<i32> {
    match tenths_of(s) {
        Some(v) => if i32::MIN <= v <= i32::MAX {
            Some(v as i32)
        } else {
            None
        },
        None => None,
    }
}

proof fn lemma_digits_value_grows(t: Seq<char>, k: int)
    requires
        all_digits(t),
        0 <= k <= t.len(),
    ensures
        digits_value(t) >= digits_value(t.take(k)) >= 0,
    decreases t.len(),
{
    if t.len() > 0 {
        if k == t.len() {
            assert(t.take(k) =~= t);
            lemma_digits_value_grows(t.drop_last(), k - 1);
            assert(t.drop_last().take(k - 1) =~= t.drop_last());
        } else {
            lemma_digits_value_grows(t.drop_last(), k);
            assert(t.drop_last().take(k) =~= t.take(k));
            lemma_digits_value_grows(t.drop_last(), t.len() - 1);
            assert(t.drop_last().take(t.len() - 1) =~= t.drop_last());
        }
    } else {
        assert(t.take(k) =~= t);
    }
}

fn digit_of(c: char) -> (r: Option<i64>)
    ensures
        r is Some <==> is_digit(c),
        r matches Some(d) ==> d == digit_value(c) && 0 <= d <= 9,
{
    if '0' <= c && c <= '9' {
        Some((c as u32 - '0' as u32) as i64)
    } else {
        None
    }
}

/// Reads a decimal reading as tenths, rounded toward zero.
pub fn reading_tenths(text: &str) -> (r: Option<i32>)
    ensures
        r == reading_of(text@),
{
    let cs = chars_of(text);
    let n = cs.len();
    let neg = n > 0 && cs[0] == '-';
    let start: usize = if neg {
        1
    } else {
        0
    };
    let ghost body = if neg {
        cs@.drop_first()
    } else {
        cs@
    };
    assert(body =~= cs@.subrange(start as int, n as int));
    let mut i: usize = start;
    let mut whole: i64 = 0;
    while i < n && cs[i] != '.'
        invariant
            start <= i <= n,
            n == cs@.len(),
            cs@ == text@,
            neg == (n > 0 && cs@[0] == '-'),
            start == (if neg {
                1usize
            } else {
                0usize
            }),
            body == (if neg {
                cs@.drop_first()
            } else {
                cs@
            }),
            body == cs@.subrange(start as int, n as int),
            dot_from(body, 0) == dot_from(body, i - start),
            all_digits(body.take(i - start)),
            forall|k: int| 0 <= k < i - start ==> body[k] != '.',
            whole == digits_value(body.take(i - start)),
            0 <= whole <= 0x1_0000_0000,
        decreases n - i,
    {
        let ghost j = i - start;
        assert(body[j] == cs@[i as int]);
        match digit_of(cs[i]) {
            None => {
                proof {
                    let d = dot_from(body, 0);
                    lemma_dot_after(body, j + 1);
                    assert(!is_digit(body.take(d)[j]));
                }
                return None;
            },
            Some(dv) => {
                assert(body.take(j + 1).drop_last() =~= body.take(j));
                assert(body.take(j + 1).last() == cs@[i as int]);
                whole = whole * 10 + dv;
                i = i + 1;
                if whole > 0x1_0000_0000 {
                    proof {
                        let d = dot_from(body, 0);
                        lemma_dot_after(body, j + 1);
                        if unsigned_tenths(body) is Some {
                            assert(body.take(d).take(j + 1) =~= body.take(j + 1));
                            lemma_digits_value_grows(body.take(d), j + 1);
                        }
                    }
                    return None;
                }
            },
        }
    }
    let ghost d = i - start;
    assert(dot_from(body, d) == d);
    if i == start {
        return None;
    }
    let mut tenths: i64 = whole * 10;
    if i < n {
        let mut k: usize = i + 1;
        let ghost frac = body.skip(d + 1);
        while k < n
            invariant
                dot_from(body, 0) == d,
                cs@ == text@,
                0 <= whole <= 0x1_0000_0000,
                body == (if neg {
                    cs@.drop_first()
                } else {
                    cs@
                }),
                neg == (n > 0 && cs@[0] == '-'),
                start == (if neg {
                    1usize
                } else {
                    0usize
                }),
                i + 1 <= k <= n,
                n == cs@.len(),
                body == cs@.subrange(start as int, n as int),
                frac == body.skip(d + 1),
                d == i - start,
                all_digits(frac.take(k - i - 1)),
                tenths == whole * 10 + if k > i + 1 {
                    digit_value(frac[0])
                } else {
                    0
                },
            decreases n - k,
        {
            assert(body[d + 1 + (k - i - 1)] == cs@[k as int]);
            assert(frac[k - i - 1] == cs@[k as int]);
            match digit_of(cs[k]) {
                None => {
                    assert(!is_digit(frac[k - i - 1]));
                    assert(dot_from(body, 0) == d);
                    assert(d < body.len());
                    return None;
                },
                Some(dv) => {
                    if k == i + 1 {
                        tenths = tenths + dv;
                    }
                    assert(frac.take(k - i) =~= frac.take(k - i - 1).push(cs@[k as int]));
                },
            }
            k = k + 1;
        }
        assert(frac.take(frac.len() as int) =~= frac);
    }
    assert(body.take(d).len() > 0);
    let v: i64 = if neg {
        -tenths
    } else {
        tenths
    };
    if v < i32::MIN as i64 || v > i32::MAX as i64 {
        None
    } else {
        Some(v as i32)
    }
}

proof fn lemma_dot_after(s: Seq<char>, j: int)
    requires
        0 <= j <= s.len(),
        forall|k: int| 0 <= k < j ==> s[k] != '.',
    ensures
        dot_from(s, 0) >= j,
        dot_from(s, 0) <= s.len(),
    decreases j,
{
    lemma_dot_from_bounds(s, j);
    lemma_dot_skip(s, 0, j);
}

proof fn lemma_dot_from_bounds(s: Seq<char>, i: int)
    requires
        0 <= i <= s.len(),
    ensures
        i <= dot_from(s, i) <= s.len(),
    decreases s.len() - i,
{
    if i < s.len() && s[i] != '.' {
        lemma_dot_from_bounds(s, i + 1);
    }
}

proof fn lemma_dot_skip(s: Seq<char>, i: int, j: int)
    requires
        0 <= i <= j <= s.len(),
        forall|k: int| i <= k < j ==> s[k] != '.',
    ensures
        dot_from(s, i) == dot_from(s, j),
    decreases j - i,
{
    if i < j {
        lemma_dot_skip(s, i + 1, j);
    }
}


/// How a 32-bit float reading is written: a decimal number, or `NaN`,
/// `inf` or `-inf`.
pub open spec fn is_reading(s: Seq<char>) -> bool {
    s == "NaN"@ || s == "inf"@ || s == "-inf"@ || tenths_of(s) is Some
}

/// The readings among a record's five fields (the last three) are numbers.
pub open spec fn readings_ok(f: Seq<Seq<char>>) -> bool {
    is_reading(f[2]) && is_reading(f[3]) && is_reading(f[4])
}

/// Whether `text` is written as a reading.
pub fn is_reading_text(text: &str) -> (r: bool)
    ensures
        r == is_reading(text@),
{
    let s = text.to_owned();
    if s == "NaN".to_owned() || s == "inf".to_owned() || s == "-inf".to_owned() {
        return true;
    }
    is_decimal_text(text)
}

/// Whether `text` is an optional `-`, digits, and optionally `.` and digits.
pub fn is_decimal_text(text: &str) -> (r: bool)
    ensures
        r == (tenths_of(text@) is Some),
{
    let cs = chars_of(text);
    let n = cs.len();
    let neg = n > 0 && cs[0] == '-';
    let start: usize = if neg {
        1
    } else {
        0
    };
    let ghost body = if neg {
        cs@.drop_first()
    } else {
        cs@
    };
    assert(body =~= cs@.subrange(start as int, n as int));
    let mut i: usize = start;
    while i < n && cs[i] != '.'
        invariant
            start <= i <= n,
            n == cs@.len(),
            cs@ == text@,
            neg == (n > 0 && cs@[0] == '-'),
            start == (if neg {
                1usize
            } else {
                0usize
            }),
            body == (if neg {
                cs@.drop_first()
            } else {
                cs@
            }),
            body == cs@.subrange(start as int, n as int),
            dot_from(body, 0) == dot_from(body, i - start),
            all_digits(body.take(i - start)),
            forall|k: int| 0 <= k < i - start ==> body[k] != '.',
        decreases n - i,
    {
        let ghost j = i - start;
        assert(body[j] == cs@[i as int]);
        if digit_of(cs[i]).is_none() {
            proof {
                let d = dot_from(body, 0);
                lemma_dot_after(body, j + 1);
                assert(!is_digit(body.take(d)[j]));
            }
            return false;
        }
        assert(body.take(j + 1) =~= body.take(j).push(cs@[i as int]));
        i = i + 1;
    }
    let ghost d = i - start;
    assert(dot_from(body, d) == d);
    if i == start {
        return false;
    }
    if i < n {
        let mut k: usize = i + 1;
        let ghost frac = body.skip(d + 1);
        while k < n
            invariant
                dot_from(body, 0) == d,
                cs@ == text@,
                body == (if neg {
                    cs@.drop_first()
                } else {
                    cs@
                }),
                neg == (n > 0 && cs@[0] == '-'),
                start == (if neg {
                    1usize
                } else {
                    0usize
                }),
                i + 1 <= k <= n,
                n == cs@.len(),
                body == cs@.subrange(start as int, n as int),
                frac == body.skip(d + 1),
                d == i - start,
                all_digits(body.take(d)),
                body.take(d).len() > 0,
                all_digits(frac.take(k - i - 1)),
            decreases n - k,
        {
            assert(body[d + 1 + (k - i - 1)] == cs@[k as int]);
            assert(frac[k - i - 1] == cs@[k as int]);
            if digit_of(cs[k]).is_none() {
                assert(!is_digit(frac[k - i - 1]));
                assert(d < body.len());
                return false;
            }
            assert(frac.take(k - i) =~= frac.take(k - i - 1).push(cs@[k as int]));
            k = k + 1;
        }
        assert(frac.take(frac.len() as int) =~= frac);
    }
    assert(body.take(d).len() > 0);
    true
}

} // verus!
