use chrono::{Datelike, Local};
use cpu_telemetry::csv_logger::{log_path_for, CsvLogger, Date, WriteStep, GRAPH_WINDOW};
use cpu_telemetry::log_format::{parse_log, LogFormatError};
use cpu_telemetry::record::CsvCpuLogEntry;

fn date_of(d: chrono::DateTime<Local>) -> Date {
    Date::new(d.day() as u8, d.month() as u8, d.year() as u16).unwrap()
}

fn today() -> Date {
    date_of(Local::now())
}

fn yesterday() -> Date {
    date_of(Local::now() - chrono::Duration::days(1))
}

fn entry(timestamp: &str, unit: &str, temperature: f32, usage: f32, power: f32) -> CsvCpuLogEntry {
    CsvCpuLogEntry::new(
        timestamp.to_string(),
        unit.to_string(),
        temperature.to_string(),
        usage.to_string(),
        power.to_string(),
    )
    .unwrap()
}

fn same(a: &CsvCpuLogEntry, b: &CsvCpuLogEntry) -> bool {
    a.timestamp == b.timestamp
        && a.temperature_unit == b.temperature_unit
        && a.temperature == b.temperature
        && a.cpu_usage == b.cpu_usage
        && a.power_draw == b.power_draw
}

#[test]
fn test_csv_logger_write_read() {
    let day = today();
    let mut logger = CsvLogger::new(Some("temp_logs"), day);

    let entries = vec![entry(&Local::now().to_string(), "Celsius", 65.5, 45.2, 35.8)];

    let step = logger.write(entries.clone(), day);
    assert_eq!(step, WriteStep::Buffered { rotated: false, flush_due: true });
    let text = logger.pending_text(false);
    logger.flush_buffer(true);

    let read_entries = CsvLogger::read(&text).unwrap();
    assert_eq!(read_entries.len(), 1);
    assert_eq!(read_entries[0].temperature.parse::<f32>().unwrap(), 65.5);
    assert_eq!(read_entries[0].cpu_usage.parse::<f32>().unwrap(), 45.2);
    assert_eq!(read_entries[0].power_draw.parse::<f32>().unwrap(), 35.8);
    println!("{:?}", read_entries);
}

#[test]
fn test_date_rotation_creates_two_files() {
    // The store opens its file on the day before today.
    let mut logger = CsvLogger::new(Some("temp_logs"), yesterday());

    let entry1 = vec![entry("2025-11-18 10:00:00", "C", 65.0, 50.0, 30.0)];
    let step = logger.write(entry1, yesterday());
    assert_eq!(step, WriteStep::Buffered { rotated: false, flush_due: true });
    let first_text = logger.pending_text(false);
    logger.flush_buffer(true);

    let first_file = logger.path.clone();
    println!("First file: {:?}", first_file);

    // The day advances: the next record goes to a new file.
    let entry2 = vec![entry("2025-11-18 11:00:00", "C", 70.0, 60.0, 35.0)];
    let step = logger.write(entry2, today());
    assert_eq!(step, WriteStep::Buffered { rotated: true, flush_due: true });
    let second_text = logger.pending_text(false);
    logger.flush_buffer(true);

    let second_file = logger.path.clone();
    println!("Second file: {:?}", second_file);

    assert!(first_file.ends_with("_cpu_logs.csv"), "First path should name a day log");
    assert!(second_file.ends_with("_cpu_logs.csv"), "Second path should name a day log");
    assert_ne!(first_file, second_file, "Files should have different names");
    assert!(first_text.len() > 0, "First file should have data");
    assert!(second_text.len() > 0, "Second file should have data");

    let first = CsvLogger::read(&first_text).unwrap();
    let second = CsvLogger::read(&second_text).unwrap();
    assert_eq!(first.len(), 1);
    assert_eq!(second.len(), 1);
    assert_eq!(first[0].timestamp, "2025-11-18 10:00:00");
    assert_eq!(second[0].timestamp, "2025-11-18 11:00:00");
}

#[test]
fn test_write_buffer_and_graph_data_separate() {
    let day = today();
    let mut logger = CsvLogger::new(Some("temp_logs"), day);

    for i in 0..5 {
        let entry = vec![entry(
            &format!("2025-11-18 10:{:02}:00", i),
            "C",
            65.0 + i as f32,
            50.0,
            30.0,
        )];
        logger.write(entry, day);
    }

    assert_eq!(logger.graph_data_buffer.len(), 5);
    assert_eq!(logger.write_buffer.len(), 5);
}

#[test]
fn round_trip_keeps_every_field_and_the_order() {
    let day = today();
    let mut logger = CsvLogger::new(None, day).with_write_buffer_size(10);
    let records = vec![
        entry("2025-01-01 00:00:00", "Celsius", 40.0, 1.5, 12.25),
        entry("semi;colon", "quote\"d", -3.75, 100.0, 0.0),
        entry("line\nbreak", "cr\rhere", 1e-3, 99.9, 7.0),
        entry("", "", 0.1, 0.2, 0.3),
        entry("x", "C", f32::NAN, f32::INFINITY, f32::NEG_INFINITY),
    ];
    for r in &records {
        logger.write(vec![r.clone()], day);
    }
    assert_eq!(logger.write_buffer.len(), 5);
    let text = logger.pending_text(false);
    let back = parse_log(&text).unwrap();
    assert_eq!(back.len(), records.len());
    for (a, b) in back.iter().zip(records.iter()) {
        assert!(same(a, b), "{:?} != {:?}", a, b);
    }
}

#[test]
fn quoted_fields_are_written_as_csv_readers_expect() {
    let day = today();
    let mut logger = CsvLogger::new(None, day);
    logger.write(vec![entry("a;b", "say \"hi\"", 1.0, 2.0, 3.0)], day);
    let text = logger.pending_text(false);
    assert_eq!(
        text,
        "timestamp;temperature_unit;temperature;cpu_usage;power_draw\n\"a;b\";\"say \"\"hi\"\"\";1;2;3\n"
    );
    let mut reader = csv::ReaderBuilder::new().delimiter(b';').from_reader(text.as_bytes());
    let headers = reader.headers().unwrap().clone();
    assert_eq!(headers.len(), 5);
    assert_eq!(&headers[0], "timestamp");
    assert_eq!(&headers[4], "power_draw");
    let rows: Vec<csv::StringRecord> = reader.records().map(|r| r.unwrap()).collect();
    assert_eq!(rows.len(), 1);
    assert_eq!(&rows[0][0], "a;b");
    assert_eq!(&rows[0][1], "say \"hi\"");
    assert_eq!(&rows[0][2], "1");
}

#[test]
fn window_keeps_the_newest_thousand() {
    let day = today();
    let mut logger = CsvLogger::new(None, day);
    for i in 0..1005 {
        logger.write(vec![entry(&i.to_string(), "C", 1.0, 2.0, 3.0)], day);
        logger.flush_buffer(true);
    }
    assert_eq!(GRAPH_WINDOW, 1000);
    assert_eq!(logger.graph_data_buffer.len(), 1000);
    assert_eq!(logger.graph_data_buffer[0].timestamp, "5");
    assert_eq!(logger.graph_data_buffer[999].timestamp, "1004");
    for (k, e) in logger.graph_data_buffer.iter().enumerate() {
        assert_eq!(e.timestamp, (k + 5).to_string());
    }
}

#[test]
fn window_shorter_than_the_bound_holds_everything() {
    let day = today();
    let mut logger = CsvLogger::new(None, day);
    logger.write(vec![entry("a", "C", 1.0, 2.0, 3.0), entry("b", "C", 1.0, 2.0, 3.0)], day);
    assert_eq!(logger.graph_data_buffer.len(), 2);
    assert_eq!(logger.graph_data_buffer[0].timestamp, "a");
    assert_eq!(logger.graph_data_buffer[1].timestamp, "b");
}

#[test]
fn header_written_once_per_file() {
    let day = today();
    let mut logger = CsvLogger::new(None, day).with_write_buffer_size(3);
    logger.write(vec![entry("t0", "C", 1.0, 2.0, 3.0)], day);
    // The file exists already: no header.
    let appended = logger.pending_text(true);
    assert!(!appended.contains("timestamp;"));
    // The file was deleted: it is written again with exactly one header.
    let recreated = logger.pending_text(false);
    assert_eq!(recreated.matches("timestamp;temperature_unit").count(), 1);
    assert!(recreated.starts_with("timestamp;temperature_unit;temperature;cpu_usage;power_draw\n"));
    logger.flush_buffer(true);
    logger.write(vec![entry("t1", "C", 1.0, 2.0, 3.0)], day);
    let file = format!("{}{}", recreated, logger.pending_text(true));
    assert_eq!(file.matches("timestamp;temperature_unit").count(), 1);
    let back = parse_log(&file).unwrap();
    assert_eq!(back.len(), 2);
    assert_eq!(back[0].timestamp, "t0");
    assert_eq!(back[1].timestamp, "t1");
}

#[test]
fn failed_flush_keeps_the_backlog() {
    let day = today();
    let mut logger = CsvLogger::new(None, day);
    logger.write(vec![entry("t0", "C", 1.0, 2.0, 3.0)], day);
    // Appending failed: the buffer stays.
    logger.flush_buffer(false);
    assert_eq!(logger.write_buffer.len(), 1);
    let step = logger.write(vec![entry("t1", "C", 1.0, 2.0, 3.0)], day);
    assert_eq!(step, WriteStep::Buffered { rotated: false, flush_due: true });
    let back = parse_log(&logger.pending_text(false)).unwrap();
    assert_eq!(back.len(), 2);
    assert_eq!(back[0].timestamp, "t0");
    assert_eq!(back[1].timestamp, "t1");
    logger.flush_buffer(true);
    assert_eq!(logger.write_buffer.len(), 0);
    assert_eq!(logger.graph_data_buffer.len(), 2);
}

#[test]
fn rotation_waits_for_the_old_backlog() {
    let mut logger = CsvLogger::new(Some("d"), yesterday());
    logger.write(vec![entry("t0", "C", 1.0, 2.0, 3.0)], yesterday());
    let old_path = logger.path.clone();
    let step = logger.write(vec![entry("t1", "C", 1.0, 2.0, 3.0)], today());
    assert_eq!(step, WriteStep::FlushBeforeRotation);
    assert_eq!(logger.path, old_path);
    assert_eq!(logger.write_buffer.len(), 1);
    assert_eq!(logger.next_day_buffer.len(), 1);
    // The new record is shown at once, even before the old rows are on disk.
    assert_eq!(logger.graph_data_buffer.len(), 2);
    assert_eq!(logger.graph_data_buffer[1].timestamp, "t1");
    assert!(logger.rotation_due(today()));
    // The flush of the old rows failed: nothing is lost, more records wait.
    logger.flush_buffer(false);
    let step = logger.write(vec![entry("t2", "C", 1.0, 2.0, 3.0)], today());
    assert_eq!(step, WriteStep::FlushBeforeRotation);
    assert_eq!(logger.graph_data_buffer.len(), 3);
    assert_eq!(logger.next_day_buffer.len(), 2);
    // The flush succeeded: the next call rotates and buffers the held records.
    logger.flush_buffer(true);
    let step = logger.write(Vec::new(), today());
    assert_eq!(step, WriteStep::Buffered { rotated: true, flush_due: true });
    assert_eq!(logger.path, log_path_for("d", today()));
    assert_eq!(logger.graph_data_buffer.len(), 3);
    assert_eq!(logger.next_day_buffer.len(), 0);
    let back = parse_log(&logger.pending_text(false)).unwrap();
    assert_eq!(back.len(), 2);
    assert_eq!(back[0].timestamp, "t1");
    assert_eq!(back[1].timestamp, "t2");
    assert!(!logger.rotation_due(today()));
}

#[test]
fn readings_must_be_numbers() {
    assert!(CsvCpuLogEntry::new("t".into(), "C".into(), "abc".into(), "1".into(), "2".into()).is_none());
    assert!(CsvCpuLogEntry::new("t".into(), "C".into(), "".into(), "1".into(), "2".into()).is_none());
    assert!(CsvCpuLogEntry::new("t".into(), "C".into(), "-4.25".into(), "NaN".into(), "inf".into()).is_some());
    let header = "timestamp;temperature_unit;temperature;cpu_usage;power_draw\n";
    assert_eq!(
        parse_log(&format!("{}t0;C;40;1;2\nt1;C;abc;1;2\nt2;C;;1;2\n", header)).unwrap_err(),
        LogFormatError::BadReading
    );
    assert_eq!(
        CsvLogger::read(&format!("{}t0;C;40;1;2\nt1;C;4 0;1;2\n", header)).unwrap_err(),
        LogFormatError::BadReading
    );
}

#[test]
fn crlf_line_endings_are_read() {
    let text = "timestamp;temperature_unit;temperature;cpu_usage;power_draw\r\nt0;C;40.5;1;2\r\nt1;C;41;1;2.5\r\n";
    let back = parse_log(text).unwrap();
    assert_eq!(back.len(), 2);
    assert_eq!(back[0].timestamp, "t0");
    assert_eq!(back[1].power_draw, "2.5");
    let cr_only = "timestamp;temperature_unit;temperature;cpu_usage;power_draw\rt0;C;40.5;1;2\r";
    assert_eq!(parse_log(cr_only).unwrap().len(), 1);
}

#[test]
fn log_file_names_follow_the_day() {
    let d = Date::new(5, 3, 2024).unwrap();
    assert_eq!(log_path_for("logs", d), "logs/05-03-2024_cpu_logs.csv");
    let logger = CsvLogger::new(None, d);
    assert_eq!(logger.path, "logs/05-03-2024_cpu_logs.csv");
    assert_eq!(logger.dir, "logs");
    let e = Date::new(31, 12, 999).unwrap();
    assert_eq!(log_path_for("x", e), "x/31-12-0999_cpu_logs.csv");
    assert!(Date::new(0, 1, 2024).is_none());
    assert!(Date::new(1, 13, 2024).is_none());
    assert!(Date::new(1, 1, 10000).is_none());
}

#[test]
fn update_path_changes_the_active_file() {
    let mut logger = CsvLogger::new(None, today());
    logger.update_path("elsewhere.csv".to_string());
    assert_eq!(logger.path, "elsewhere.csv");
}

#[test]
fn reading_malformed_text_fails() {
    assert_eq!(parse_log("").unwrap().len(), 0);
    assert_eq!(parse_log("a;b;c;d;e\n").unwrap_err(), LogFormatError::MissingHeader);
    assert_eq!(parse_log("timestamp;temperature_unit\n").unwrap_err(), LogFormatError::MissingHeader);
    let header = "timestamp;temperature_unit;temperature;cpu_usage;power_draw\n";
    assert_eq!(parse_log(header).unwrap().len(), 0);
    assert_eq!(
        parse_log(&format!("{}only;three;fields\n", header)).unwrap_err(),
        LogFormatError::MalformedRow
    );
    assert_eq!(
        parse_log(&format!("{}\"open;b;c;d;e\n", header)).unwrap_err(),
        LogFormatError::MalformedRow
    );
    let no_final_newline = format!("{}t;C;1;2;3", header);
    let back = parse_log(&no_final_newline).unwrap();
    assert_eq!(back.len(), 1);
    assert_eq!(back[0].power_draw, "3");
}
