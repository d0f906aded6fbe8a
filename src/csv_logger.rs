//! The telemetry store: one log file per calendar day, a write-behind
//! buffer of rows not yet on disk, and a bounded window of the newest
//! records for live display.
//!
//! The store decides; the caller does the file work. `write` takes the
//! caller's notion of today, `pending_text` gives the text to append to the
//! active file, and `flush_buffer` is told whether that append succeeded.
use crate::log_format::{
    encode_rows, header_row, log_text, parse_log, parse_log_spec, push_header, push_records,
    LogFormatError,
};
use crate::record::{all_wf, readings_ok, views, CsvCpuLogEntry};
use crate::text::{digit, digit_char, push_char};
use vstd::prelude::*;
use vstd::string::StringExecFns;

verus! {

/// Number of records that the display window keeps.
pub const GRAPH_WINDOW: usize = 1000;

/// A calendar day.
#[derive(Debug, Clone, Copy, PartialEq, Eq, Structural)]
pub struct Date {
    pub day: u8,
    pub month: u8,
    pub year: u16,
}

impl Date {
    /// Day and month in range, and a year of at most four digits.
    pub open spec fn wf(self) -> bool {
        1 <= self.day <= 31 && 1 <= self.month <= 12 && self.year <= 9999
    }

    pub fn new(day: u8, month: u8, year: u16) -> (r: Option<Date>)
        ensures
            r is Some <==> (1 <= day <= 31 && 1 <= month <= 12 && year <= 9999),
            r is Some ==> r->Some_0 == (Date { day, month, year }),
    {
        if 1 <= day && day <= 31 && 1 <= month && month <= 12 && year <= 9999 {
            Some(Date { day, month, year })
        } else {
            None
        }
    }
}

/// The day as `DD-MM-YYYY`, zero-padded.
pub open spec fn date_text(d: Date) -> Seq<char> {
    seq![
        digit(d.day as int / 10),
        digit(d.day as int % 10),
        '-',
        digit(d.month as int / 10),
        digit(d.month as int % 10),
        '-',
        digit(d.year as int / 1000),
        digit((d.year as int / 100) % 10),
        digit((d.year as int / 10) % 10),
        digit(d.year as int % 10),
    ]
}

/// Path of the log file for day `d` under directory `dir`.
pub open spec fn log_path(dir: Seq<char>, d: Date) -> Seq<char> {
    dir + seq!['/'] + date_text(d) + "_cpu_logs.csv"@
}

/// Path of the log file for day `d` under directory `dir`.
pub fn log_path_for(dir: &str, d: Date) -> (r: String)
    requires
        d.wf(),
    ensures
        r@ == log_path(dir@, d),
{
    let mut s = dir.to_owned();
    push_char(&mut s, '/');
    let day = d.day as u16;
    let month = d.month as u16;
    push_char(&mut s, digit_char(day / 10));
    push_char(&mut s, digit_char(day % 10));
    push_char(&mut s, '-');
    push_char(&mut s, digit_char(month / 10));
    push_char(&mut s, digit_char(month % 10));
    push_char(&mut s, '-');
    push_char(&mut s, digit_char(d.year / 1000));
    push_char(&mut s, digit_char((d.year / 100) % 10));
    push_char(&mut s, digit_char((d.year / 10) % 10));
    push_char(&mut s, digit_char(d.year % 10));
    s.append("_cpu_logs.csv");
    assert(s@ =~= log_path(dir@, d));
    s
}

proof fn lemma_digit_injective(x: int, y: int)
    requires
        0 <= x < 10,
        0 <= y < 10,
        digit(x) == digit(y),
    ensures
        x == y,
{
}

proof fn lemma_two_digits(x: int, y: int)
    requires
        0 <= x < 100,
        0 <= y < 100,
        digit(x / 10) == digit(y / 10),
        digit(x % 10) == digit(y % 10),
    ensures
        x == y,
{
    lemma_digit_injective(x / 10, y / 10);
    lemma_digit_injective(x % 10, y % 10);
}

proof fn lemma_four_digits(x: int, y: int)
    requires
        0 <= x <= 9999,
        0 <= y <= 9999,
        digit(x / 1000) == digit(y / 1000),
        digit((x / 100) % 10) == digit((y / 100) % 10),
        digit((x / 10) % 10) == digit((y / 10) % 10),
        digit(x % 10) == digit(y % 10),
    ensures
        x == y,
{
    lemma_digit_injective(x / 1000, y / 1000);
    lemma_digit_injective((x / 100) % 10, (y / 100) % 10);
    lemma_digit_injective((x / 10) % 10, (y / 10) % 10);
    lemma_digit_injective(x % 10, y % 10);
    assert(x / 100 == 10 * (x / 1000) + (x / 100) % 10);
    assert(y / 100 == 10 * (y / 1000) + (y / 100) % 10);
    assert(x / 10 == 10 * (x / 100) + (x / 10) % 10);
    assert(y / 10 == 10 * (y / 100) + (y / 10) % 10);
}

/// Two different days have different log files.
pub proof fn lemma_distinct_days_distinct_files(dir: Seq<char>, a: Date, b: Date)
    requires
        a.wf(),
        b.wf(),
        a != b,
    ensures
        log_path(dir, a) != log_path(dir, b),
{
    if log_path(dir, a) == log_path(dir, b) {
        let n = dir.len() + 1;
        assert forall|i: int| 0 <= i < 10 implies date_text(a)[i] == date_text(b)[i] by {
            assert(log_path(dir, a)[n + i] == date_text(a)[i]);
            assert(log_path(dir, b)[n + i] == date_text(b)[i]);
        }
        assert(date_text(a)[0] == date_text(b)[0]);
        assert(date_text(a)[1] == date_text(b)[1]);
        assert(date_text(a)[3] == date_text(b)[3]);
        assert(date_text(a)[4] == date_text(b)[4]);
        assert(date_text(a)[6] == date_text(b)[6]);
        assert(date_text(a)[7] == date_text(b)[7]);
        assert(date_text(a)[8] == date_text(b)[8]);
        assert(date_text(a)[9] == date_text(b)[9]);
        lemma_two_digits(a.day as int, b.day as int);
        lemma_two_digits(a.month as int, b.month as int);
        lemma_four_digits(a.year as int, b.year as int);
    }
}

/// The newest `n` elements of `s`, oldest first.
pub open spec fn last_n<T>(s: Seq<T>, n: nat) -> Seq<T> {
    if s.len() <= n {
        s
    } else {
        s.subrange(s.len() - n, s.len() as int)
    }
}

/// Keeping the newest `n` after each append is keeping the newest `n` of
/// everything appended.
pub proof fn lemma_window_of_stream<T>(s: Seq<T>, more: Seq<T>, n: nat)
    ensures
        last_n(last_n(s, n) + more, n) == last_n(s + more, n),
        last_n(s + more, n).len() == if s.len() + more.len() <= n {
            (s.len() + more.len()) as int
        } else {
            n as int
        },
{
    assert(last_n(last_n(s, n) + more, n) =~= last_n(s + more, n));
}

/// What `write` did, and what the caller has to do next.
#[derive(Debug, Clone, Copy, PartialEq, Eq, Structural)]
pub enum WriteStep {
    /// The day changed while rows for the old day wait in the write-behind
    /// buffer. Nothing was changed: flush them to the old file, then call
    /// `write` again with the same records.
    FlushBeforeRotation,
    /// The records were taken. `rotated`: the active file is now the one for
    /// the new day. `flush_due`: the write-behind buffer reached its size, so
    /// the caller flushes now.
    Buffered { rotated: bool, flush_due: bool },
}

/// The telemetry store's state.
pub struct CsvLogger {
    /// Directory that holds the day logs.
    pub dir: String,
    /// Path of the active log file.
    pub path: String,
    /// The day the active log file was opened for.
    pub timestamp: Date,
    /// Number of buffered records at which a flush is due.
    pub write_buffer_size: usize,
    /// Records not yet written to the active file, oldest first.
    pub write_buffer: Vec<CsvCpuLogEntry>,
    /// The newest records, oldest first, for live display.
    pub graph_data_buffer: Vec<CsvCpuLogEntry>,
    /// Records of a new day that wait until the old day's rows are flushed;
    /// they go to the new day's file.
    pub next_day_buffer: Vec<CsvCpuLogEntry>,
}

impl CsvLogger {
    /// The active day is a valid date, the display window is within its
    /// bound, and every record held has numeric readings.
    pub open spec fn wf(&self) -> bool {
        &&& self.timestamp.wf()
        &&& self.graph_data_buffer@.len() <= GRAPH_WINDOW
        &&& all_wf(self.graph_data_buffer@)
        &&& all_wf(self.write_buffer@)
        &&& all_wf(self.next_day_buffer@)
    }

    /// The directory used when none is given.
    pub open spec fn default_dir() -> Seq<char> {
        "logs"@
    }

    /// A store whose active file is today's log under `custom_dir_path`
    /// (`logs` when none is given), flushing after every record.
    pub fn new(custom_dir_path: Option<&str>, today: Date) -> (r: CsvLogger)
        requires
            today.wf(),
        ensures
            r.wf(),
            r.dir@ == match custom_dir_path {
                Some(d) => d@,
                None => Self::default_dir(),
            },
            r.path@ == log_path(r.dir@, today),
            r.timestamp == today,
            r.write_buffer_size == 1,
            r.write_buffer@.len() == 0,
            r.graph_data_buffer@.len() == 0,
            r.next_day_buffer@.len() == 0,
    {
        let dir = match custom_dir_path {
            Some(d) => d.to_owned(),
            None => "logs".to_owned(),
        };
        let path = log_path_for(dir.as_str(), today);
        CsvLogger {
            dir,
            path,
            timestamp: today,
            write_buffer_size: 1,
            write_buffer: Vec::new(),
            graph_data_buffer: Vec::new(),
            next_day_buffer: Vec::new(),
        }
    }

    /// The same store, flushing once `size` records wait.
    pub fn with_write_buffer_size(self, size: usize) -> (r: CsvLogger)
        ensures
            r == (CsvLogger { write_buffer_size: size, ..self }),
    {
        CsvLogger { write_buffer_size: size, ..self }
    }

    /// Makes `new_path` the active log file.
    pub fn update_path(&mut self, new_path: String)
        ensures
            *final(self) == (CsvLogger { path: new_path, ..*old(self) }),
    {
        self.path = new_path;
    }

    /// Whether a record arriving on `today` belongs to another file.
    pub fn rotation_due(&self, today: Date) -> (r: bool)
        ensures
            r == (today != self.timestamp),
    {
        today != self.timestamp
    }

    /// Appends `entries` to the display window, which keeps the newest
    /// `GRAPH_WINDOW`.
    fn add_to_window(&mut self, entries: &Vec<CsvCpuLogEntry>)
        requires
            old(self).wf(),
            all_wf(entries@),
        ensures
            final(self).wf(),
            views(final(self).graph_data_buffer@) == last_n(
                views(old(self).graph_data_buffer@) + views(entries@),
                GRAPH_WINDOW as nat,
            ),
            final(self).dir == old(self).dir,
            final(self).path == old(self).path,
            final(self).timestamp == old(self).timestamp,
            final(self).write_buffer_size == old(self).write_buffer_size,
            final(self).write_buffer == old(self).write_buffer,
            final(self).next_day_buffer == old(self).next_day_buffer,
    {
        let mut copies: Vec<CsvCpuLogEntry> = Vec::new();
        let mut i: usize = 0;
        while i < entries.len()
            invariant
                i <= entries.len(),
                copies@.len() == i,
                views(copies@) == views(entries@.take(i as int)),
                all_wf(copies@),
                all_wf(entries@),
            decreases entries.len() - i,
        {
            let d = entries[i].duplicate();
            let ghost before = copies@;
            copies.push(d);
            assert forall|k: int| 0 <= k <= i implies views(copies@)[k] == views(
                entries@.take(i as int + 1),
            )[k] by {
                if k < i {
                    assert(views(copies@)[k] == views(before)[k]);
                    assert(views(before)[k] == views(entries@.take(i as int))[k]);
                }
            }
            assert(views(copies@) =~= views(entries@.take(i as int + 1)));
            assert(copies@[i as int].wf());
            i = i + 1;
        }
        assert(entries@.take(entries.len() as int) =~= entries@);
        let ghost shown = self.graph_data_buffer@;
        self.graph_data_buffer.append(&mut copies);
        assert(views(self.graph_data_buffer@) =~= views(shown) + views(entries@));
        let len = self.graph_data_buffer.len();
        if len > GRAPH_WINDOW {
            let ghost whole = self.graph_data_buffer@;
            let kept = self.graph_data_buffer.split_off(len - GRAPH_WINDOW);
            self.graph_data_buffer = kept;
            assert(views(self.graph_data_buffer@) =~= views(whole).subrange(
                len - GRAPH_WINDOW,
                len as int,
            ));
            assert(forall|k: int|
                0 <= k < self.graph_data_buffer@.len() ==> self.graph_data_buffer@[k] == whole[k
                    + len - GRAPH_WINDOW]);
        }
    }

    /// Takes `entries`, which arrived on `today`. Every record enters the
    /// display window at once. If the day changed while rows for the old
    /// day wait to be flushed, the records are held for the new day's file
    /// and the caller is asked to flush first; the next call (with no
    /// records, or with more) moves the active file to today's log and
    /// buffers the held records before the new ones.
    pub fn write(&mut self, entries: Vec<CsvCpuLogEntry>, today: Date) -> (r: WriteStep)
        requires
            old(self).wf(),
            today.wf(),
            all_wf(entries@),
        ensures
            final(self).wf(),
            views(final(self).graph_data_buffer@) == last_n(
                views(old(self).graph_data_buffer@) + views(entries@),
                GRAPH_WINDOW as nat,
            ),
            final(self).dir == old(self).dir,
            final(self).write_buffer_size == old(self).write_buffer_size,
            (today != old(self).timestamp && old(self).write_buffer@.len() > 0) ==> {
                &&& r == WriteStep::FlushBeforeRotation
                &&& final(self).timestamp == old(self).timestamp
                &&& final(self).path == old(self).path
                &&& final(self).write_buffer == old(self).write_buffer
                &&& final(self).next_day_buffer@ == old(self).next_day_buffer@ + entries@
            },
            (today == old(self).timestamp || old(self).write_buffer@.len() == 0) ==> {
                &&& r == (WriteStep::Buffered {
                    rotated: today != old(self).timestamp,
                    flush_due: final(self).write_buffer@.len() >= old(self).write_buffer_size,
                })
                &&& final(self).timestamp == today
                &&& final(self).path@ == if today != old(self).timestamp {
                    log_path(old(self).dir@, today)
                } else {
                    old(self).path@
                }
                &&& final(self).write_buffer@ == old(self).write_buffer@
                    + old(self).next_day_buffer@ + entries@
                &&& final(self).next_day_buffer@.len() == 0
            },
    {
        self.add_to_window(&entries);
        let rotated = today != self.timestamp;
        if rotated && self.write_buffer.len() > 0 {
            let mut entries = entries;
            self.next_day_buffer.append(&mut entries);
            return WriteStep::FlushBeforeRotation;
        }
        if rotated {
            self.timestamp = today;
            self.path = log_path_for(self.dir.as_str(), today);
        }
        let mut held: Vec<CsvCpuLogEntry> = Vec::new();
        std::mem::swap(&mut held, &mut self.next_day_buffer);
        self.write_buffer.append(&mut held);
        let mut entries = entries;
        self.write_buffer.append(&mut entries);
        let flush_due = self.write_buffer.len() >= self.write_buffer_size;
        WriteStep::Buffered { rotated, flush_due }
    }

    /// The text to append to the active file so that it holds every
    /// buffered record: the header row first when the file does not exist
    /// (never created, or deleted since), then one row per buffered record.
    pub fn pending_text(&self, file_exists: bool) -> (r: String)
        ensures
            r@ == (if file_exists {
                Seq::empty()
            } else {
                header_row()
            }) + encode_rows(views(self.write_buffer@)),
    {
        let mut out = String::new();
        if !file_exists {
            push_header(&mut out);
        }
        push_records(&mut out, &self.write_buffer);
        out
    }

    /// Completes a flush. `written` tells whether the text of `pending_text`
    /// reached the active file and was synced: then the write-behind buffer
    /// is emptied. Otherwise nothing changes, and the next flush writes
    /// every buffered record again.
    pub fn flush_buffer(&mut self, written: bool)
        requires
            old(self).wf(),
        ensures
            final(self).wf(),
            !written ==> *final(self) == *old(self),
            written ==> {
                &&& final(self).write_buffer@.len() == 0
                &&& final(self).graph_data_buffer == old(self).graph_data_buffer
                &&& final(self).dir == old(self).dir
                &&& final(self).path == old(self).path
                &&& final(self).timestamp == old(self).timestamp
                &&& final(self).write_buffer_size == old(self).write_buffer_size
                &&& final(self).next_day_buffer == old(self).next_day_buffer
            },
    {
        if written {
            self.write_buffer.clear();
        }
    }

    /// The records of a log file's contents, in file order.
    pub fn read(contents: &str) -> (r: Result<Vec<CsvCpuLogEntry>, LogFormatError>)
        ensures
            match parse_log_spec(contents@) {
                Ok(rows) => r is Ok && views(r->Ok_0@) == rows,
                Err(e) => r == Err::<Vec<CsvCpuLogEntry>, LogFormatError>(e),
            },
    {
        parse_log(contents)
    }
}

/// The rows of a backlog followed by newer records are the backlog's rows
/// followed by the newer ones: a flush that failed and left its backlog in
/// the buffer loses nothing when a later flush succeeds.
pub proof fn lemma_backlog_then_new(backlog: Seq<Seq<Seq<char>>>, newer: Seq<Seq<Seq<char>>>)
    ensures
        encode_rows(backlog + newer) == encode_rows(backlog) + encode_rows(newer),
    decreases backlog.len(),
{
    if backlog.len() == 0 {
        assert(backlog + newer =~= newer);
        assert(encode_rows(backlog) =~= Seq::<char>::empty());
        assert(encode_rows(backlog) + encode_rows(newer) =~= encode_rows(newer));
    } else {
        assert((backlog + newer).drop_first() =~= backlog.drop_first() + newer);
        assert((backlog + newer)[0] == backlog[0]);
        lemma_backlog_then_new(backlog.drop_first(), newer);
        assert(encode_rows(backlog + newer) =~= encode_rows(backlog) + encode_rows(newer));
    }
}

/// Appending rows to an existing log adds no second header: the file reads
/// back as one header row followed by the old rows, then the new ones.
pub proof fn lemma_append_to_log(on_disk: Seq<Seq<Seq<char>>>, appended: Seq<Seq<Seq<char>>>)
    requires
        forall|i: int| 0 <= i < on_disk.len() ==> (#[trigger] on_disk[i]).len() == 5,
        forall|i: int| 0 <= i < appended.len() ==> (#[trigger] appended[i]).len() == 5,
        forall|i: int| 0 <= i < on_disk.len() ==> readings_ok(#[trigger] on_disk[i]),
        forall|i: int| 0 <= i < appended.len() ==> readings_ok(#[trigger] appended[i]),
    ensures
        log_text(on_disk) + encode_rows(appended) == log_text(on_disk + appended),
        parse_log_spec(log_text(on_disk) + encode_rows(appended)) == Ok::<
            Seq<Seq<Seq<char>>>,
            LogFormatError,
        >(on_disk + appended),
{
    lemma_backlog_then_new(on_disk, appended);
    assert(log_text(on_disk) + encode_rows(appended) =~= log_text(on_disk + appended));
    let all = on_disk + appended;
    assert forall|i: int| 0 <= i < all.len() implies (#[trigger] all[i]).len() == 5 && readings_ok(
        all[i],
    ) by {
        if i < on_disk.len() {
            assert(all[i] == on_disk[i]);
        } else {
            assert(all[i] == appended[i - on_disk.len()]);
        }
    }
    crate::log_format::lemma_log_round_trip(all);
}


/// The display window after one `write` per batch, starting from window `w`.
pub open spec fn window_after<T>(w: Seq<T>, batches: Seq<Seq<T>>) -> Seq<T>
    decreases batches.len(),
{
    if batches.len() == 0 {
        w
    } else {
        window_after(last_n(w + batches[0], GRAPH_WINDOW as nat), batches.drop_first())
    }
}

/// However the records arrive, one per `write` or many, the window holds
/// exactly the newest `GRAPH_WINDOW` of all of them, oldest first: from an
/// empty window after `M` records it holds `min(M, GRAPH_WINDOW)`.
pub proof fn lemma_window_after_writes<T>(w: Seq<T>, batches: Seq<Seq<T>>)
    requires
        w.len() <= GRAPH_WINDOW,
    ensures
        window_after(w, batches) == last_n(w + batches.flatten(), GRAPH_WINDOW as nat),
        w.len() == 0 ==> window_after(w, batches).len() == if batches.flatten().len()
            <= GRAPH_WINDOW {
            batches.flatten().len() as int
        } else {
            GRAPH_WINDOW as int
        },
    decreases batches.len(),
{
    if batches.len() == 0 {
        assert(w + batches.flatten() =~= w);
        lemma_window_of_stream(w, Seq::<T>::empty(), GRAPH_WINDOW as nat);
    } else {
        let rest = batches.drop_first();
        let w1 = last_n(w + batches[0], GRAPH_WINDOW as nat);
        lemma_window_of_stream(w, batches[0], GRAPH_WINDOW as nat);
        lemma_window_after_writes(w1, rest);
        lemma_window_of_stream(w + batches[0], rest.flatten(), GRAPH_WINDOW as nat);
        assert(w + batches[0] + rest.flatten() =~= w + batches.flatten());
        lemma_window_of_stream(w, batches.flatten(), GRAPH_WINDOW as nat);
        if w.len() == 0 {
            assert(w + batches.flatten() =~= batches.flatten());
        }
    }
}

/// The write-behind buffer after one `write` per batch on the same day,
/// starting from buffer `b`.
pub open spec fn buffer_after<T>(b: Seq<T>, batches: Seq<Seq<T>>) -> Seq<T>
    decreases batches.len(),
{
    if batches.len() == 0 {
        b
    } else {
        buffer_after(b + batches[0], batches.drop_first())
    }
}

/// Writes after a failed flush only add to the backlog: the buffer holds
/// the backlog, then every new record in arrival order, so the next
/// successful flush writes them all.
pub proof fn lemma_backlog_after_writes<T>(b: Seq<T>, batches: Seq<Seq<T>>)
    ensures
        buffer_after(b, batches) == b + batches.flatten(),
    decreases batches.len(),
{
    if batches.len() == 0 {
        assert(b + batches.flatten() =~= b);
    } else {
        lemma_backlog_after_writes(b + batches[0], batches.drop_first());
        assert(b + batches[0] + batches.drop_first().flatten() =~= b + batches.flatten());
    }
}

/// The text that successive successful flushes append, one batch of rows each.
pub open spec fn appended_text(batches: Seq<Seq<Seq<Seq<char>>>>) -> Seq<char>
    decreases batches.len(),
{
    if batches.len() == 0 {
        Seq::empty()
    } else {
        encode_rows(batches[0]) + appended_text(batches.drop_first())
    }
}

/// A log created with its header and then appended to by any number of
/// flushes holds one header row and reads back as every flushed record,
/// field for field and in order.
pub proof fn lemma_flushes_read_back(batches: Seq<Seq<Seq<Seq<char>>>>)
    requires
        forall|i: int, j: int|
            0 <= i < batches.len() && 0 <= j < batches[i].len() ==> (#[trigger] batches[i][j]).len()
                == 5 && readings_ok(batches[i][j]),
    ensures
        header_row() + appended_text(batches) == log_text(batches.flatten()),
        parse_log_spec(header_row() + appended_text(batches)) == Ok::<
            Seq<Seq<Seq<char>>>,
            LogFormatError,
        >(batches.flatten()),
    decreases batches.len(),
{
    lemma_appended_is_rows(batches);
    lemma_flatten_rows_ok(batches);
    crate::log_format::lemma_log_round_trip(batches.flatten());
}

proof fn lemma_appended_is_rows(batches: Seq<Seq<Seq<Seq<char>>>>)
    ensures
        appended_text(batches) == encode_rows(batches.flatten()),
    decreases batches.len(),
{
    if batches.len() > 0 {
        lemma_appended_is_rows(batches.drop_first());
        lemma_backlog_then_new(batches[0], batches.drop_first().flatten());
    }
}

proof fn lemma_flatten_rows_ok(batches: Seq<Seq<Seq<Seq<char>>>>)
    requires
        forall|i: int, j: int|
            0 <= i < batches.len() && 0 <= j < batches[i].len() ==> (#[trigger] batches[i][j]).len()
                == 5 && readings_ok(batches[i][j]),
    ensures
        forall|k: int|
            0 <= k < batches.flatten().len() ==> (#[trigger] batches.flatten()[k]).len() == 5
                && readings_ok(batches.flatten()[k]),
    decreases batches.len(),
{
    if batches.len() > 0 {
        let rest = batches.drop_first();
        assert forall|i: int, j: int| 0 <= i < rest.len() && 0 <= j < rest[i].len() implies (
        #[trigger] rest[i][j]).len() == 5 && readings_ok(rest[i][j]) by {
            assert(rest[i] == batches[i + 1]);
        }
        lemma_flatten_rows_ok(rest);
        let f = batches.flatten();
        assert(f == batches[0] + rest.flatten());
        assert forall|k: int| 0 <= k < f.len() implies (#[trigger] f[k]).len() == 5 && readings_ok(
            f[k],
        ) by {
            if k < batches[0].len() {
                assert(f[k] == batches[0][k]);
            } else {
                assert(f[k] == rest.flatten()[k - batches[0].len()]);
            }
        }
    }
}

} // verus!
