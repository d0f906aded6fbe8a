//! Point series handed to the chart renderer.
use crate::log_format::{parse_log, parse_log_spec, LogFormatError};
use crate::record::{reading_of, reading_tenths, views, CsvCpuLogEntry};
use vstd::prelude::*;

verus! {

/// A color as red, green, blue and alpha channels.
#[derive(Debug, Clone, Copy, PartialEq, Eq, Structural)]
pub struct Color {
    pub r: u8,
    pub g: u8,
    pub b: u8,
    pub a: u8,
}

impl Color {
    pub fn rgba(r: u8, g: u8, b: u8, a: u8) -> (c: Color)
        ensures
            c == (Color { r, g, b, a }),
    {
        Color { r, g, b, a }
    }
}

/// A point in data space. The unit of each axis is the caller's choice
/// (tenths of a degree, sample numbers, seconds).
#[derive(Debug, Clone, Copy, PartialEq, Eq, Structural)]
pub struct DataPoint {
    pub x: i32,
    pub y: i32,
}

impl DataPoint {
    pub fn new(x: i32, y: i32) -> (p: DataPoint)
        ensures
            p == (DataPoint { x, y }),
    {
        DataPoint { x, y }
    }
}

/// The coordinate of `p` along the x axis (`along_x`) or the y axis.
pub open spec fn coord(p: DataPoint, along_x: bool) -> int {
    if along_x {
        p.x as int
    } else {
        p.y as int
    }
}

/// `v` is the least coordinate of `pts` along the axis.
pub open spec fn is_least_of(pts: Seq<DataPoint>, along_x: bool, v: int) -> bool {
    &&& forall|j: int| 0 <= j < pts.len() ==> v <= coord(#[trigger] pts[j], along_x)
    &&& exists|j: int| 0 <= j < pts.len() && v == coord(#[trigger] pts[j], along_x)
}

/// `v` is the greatest coordinate of `pts` along the axis.
pub open spec fn is_greatest_of(pts: Seq<DataPoint>, along_x: bool, v: int) -> bool {
    &&& forall|j: int| 0 <= j < pts.len() ==> coord(#[trigger] pts[j], along_x) <= v
    &&& exists|j: int| 0 <= j < pts.len() && v == coord(#[trigger] pts[j], along_x)
}

/// A labelled, styled sequence of points. Widths and radii are in pixels.
#[derive(Debug, Clone)]
pub struct ChartSeries {
    pub label: String,
    pub points: Vec<DataPoint>,
    pub color: Color,
    pub show_points: bool,
    pub show_line: bool,
    pub line_width: u32,
    pub point_radius: u32,
}

impl ChartSeries {
    /// An empty series drawn with lines and markers, 2 px lines and 3 px markers.
    pub fn new(label: String, color: Color) -> (s: ChartSeries)
        ensures
            s.label == label,
            s.points@.len() == 0,
            s.color == color,
            s.show_points,
            s.show_line,
            s.line_width == 2,
            s.point_radius == 3,
    {
        ChartSeries {
            label,
            points: Vec::new(),
            color,
            show_points: true,
            show_line: true,
            line_width: 2,
            point_radius: 3,
        }
    }

    pub fn add_point(&mut self, x: i32, y: i32)
        ensures
            final(self).points@ == old(self).points@.push(DataPoint { x, y }),
            final(self).label == old(self).label,
            final(self).color == old(self).color,
            final(self).show_points == old(self).show_points,
            final(self).show_line == old(self).show_line,
            final(self).line_width == old(self).line_width,
            final(self).point_radius == old(self).point_radius,
    {
        self.points.push(DataPoint::new(x, y));
    }

    pub fn add_points(&mut self, points: Vec<DataPoint>)
        ensures
            final(self).points@ == old(self).points@ + points@,
            final(self).label == old(self).label,
            final(self).color == old(self).color,
            final(self).show_points == old(self).show_points,
            final(self).show_line == old(self).show_line,
            final(self).line_width == old(self).line_width,
            final(self).point_radius == old(self).point_radius,
    {
        let mut points = points;
        self.points.append(&mut points);
    }

    pub fn with_points(self, show: bool) -> (s: ChartSeries)
        ensures
            s == (ChartSeries { show_points: show, ..self }),
    {
        ChartSeries { show_points: show, ..self }
    }

    pub fn with_line(self, show: bool) -> (s: ChartSeries)
        ensures
            s == (ChartSeries { show_line: show, ..self }),
    {
        ChartSeries { show_line: show, ..self }
    }

    pub fn with_line_width(self, width: u32) -> (s: ChartSeries)
        ensures
            s == (ChartSeries { line_width: width, ..self }),
    {
        ChartSeries { line_width: width, ..self }
    }

    pub fn with_point_radius(self, radius: u32) -> (s: ChartSeries)
        ensures
            s == (ChartSeries { point_radius: radius, ..self }),
    {
        ChartSeries { point_radius: radius, ..self }
    }

    pub fn clear(&mut self)
        ensures
            final(self).points@.len() == 0,
            final(self).label == old(self).label,
            final(self).color == old(self).color,
            final(self).show_points == old(self).show_points,
            final(self).show_line == old(self).show_line,
            final(self).line_width == old(self).line_width,
            final(self).point_radius == old(self).point_radius,
    {
        self.points.clear();
    }

    /// The least and the greatest coordinates along each axis, taken
    /// independently; `None` for a series without points.
    pub fn get_bounds(&self) -> (r: Option<(DataPoint, DataPoint)>)
        ensures
            r is None <==> self.points@.len() == 0,
            r matches Some((lo, hi)) ==> {
                &&& is_least_of(self.points@, true, lo.x as int)
                &&& is_least_of(self.points@, false, lo.y as int)
                &&& is_greatest_of(self.points@, true, hi.x as int)
                &&& is_greatest_of(self.points@, false, hi.y as int)
            },
    {
        let pts = &self.points;
        if pts.len() == 0 {
            return None;
        }
        let mut min_x = pts[0].x;
        let mut max_x = pts[0].x;
        let mut min_y = pts[0].y;
        let mut max_y = pts[0].y;
        let mut i: usize = 1;
        assert(pts@.take(1)[0] == pts@[0]);
        assert(coord(pts@.take(1)[0], true) == min_x);
        assert(coord(pts@.take(1)[0], false) == min_y);
        while i < pts.len()
            invariant
                1 <= i <= pts.len(),
                is_least_of(pts@.take(i as int), true, min_x as int),
                is_least_of(pts@.take(i as int), false, min_y as int),
                is_greatest_of(pts@.take(i as int), true, max_x as int),
                is_greatest_of(pts@.take(i as int), false, max_y as int),
            decreases pts.len() - i,
        {
            let p = pts[i];
            let ghost prev = pts@.take(i as int);
            let ghost next = pts@.take(i as int + 1);
            assert(next =~= prev.push(p));
            if p.x < min_x {
                min_x = p.x;
            }
            if p.x > max_x {
                max_x = p.x;
            }
            if p.y < min_y {
                min_y = p.y;
            }
            if p.y > max_y {
                max_y = p.y;
            }
            assert(next[i as int] == p);
            assert forall|j: int| 0 <= j < i implies next[j] == prev[j] by {}
            i = i + 1;
        }
        assert(pts@.take(pts.len() as int) =~= pts@);
        Some((DataPoint::new(min_x, min_y), DataPoint::new(max_x, max_y)))
    }
}


/// Column of a log file that an axis of a loaded series takes its values from.
#[derive(Debug, Clone, Copy, PartialEq, Eq, Structural)]
pub enum CsvColumn {
    RowIndex,
    Timestamp,
    Temperature,
    CpuUsage,
    PowerDraw,
}

/// Why a series could not be loaded from a log file.
#[derive(Debug, Clone, Copy, PartialEq, Eq, Structural)]
pub enum SeriesLoadError {
    /// The file is not a well-formed log.
    Log(LogFormatError),
    /// A selected reading is `NaN`, infinite, or too large for tenths in an `i32`.
    BadReading,
}

/// The value that column `col` gives for row number `idx` with fields
/// `row`: the row number for `RowIndex` and `Timestamp` (capped at the
/// largest `i32`), the reading in tenths otherwise.
pub open spec fn column_value(row: Seq<Seq<char>>, col: CsvColumn, idx: int) -> Option<i32> {
    match col {
        CsvColumn::RowIndex | CsvColumn::Timestamp => Some(
            if idx <= i32::MAX {
                idx as i32
            } else {
                i32::MAX
            },
        ),
        CsvColumn::Temperature => reading_of(row[2]),
        CsvColumn::CpuUsage => reading_of(row[3]),
        CsvColumn::PowerDraw => reading_of(row[4]),
    }
}

/// One point per row, in file order; `None` if some selected value is unreadable.
pub open spec fn points_of(rows: Seq<Seq<Seq<char>>>, x: CsvColumn, y: CsvColumn) -> Option<
    Seq<DataPoint>,
>
    decreases rows.len(),
{
    if rows.len() == 0 {
        Some(Seq::empty())
    } else {
        let i = rows.len() - 1;
        match (
            points_of(rows.drop_last(), x, y),
            column_value(rows[i], x, i),
            column_value(rows[i], y, i),
        ) {
            (Some(ps), Some(a), Some(b)) => Some(ps.push(DataPoint { x: a, y: b })),
            _ => None,
        }
    }
}

proof fn lemma_points_none_extends(rows: Seq<Seq<Seq<char>>>, k: int, x: CsvColumn, y: CsvColumn)
    requires
        0 <= k <= rows.len(),
        points_of(rows.take(k), x, y) is None,
    ensures
        points_of(rows, x, y) is None,
    decreases rows.len(),
{
    if k == rows.len() {
        assert(rows.take(k) =~= rows);
    } else {
        assert(rows.drop_last().take(k) =~= rows.take(k));
        lemma_points_none_extends(rows.drop_last(), k, x, y);
    }
}

fn column_value_exec(e: &CsvCpuLogEntry, col: CsvColumn, idx: usize) -> (r: Option<i32>)
    ensures
        r == column_value(e@, col, idx as int),
{
    match col {
        CsvColumn::RowIndex | CsvColumn::Timestamp => Some(
            if idx <= i32::MAX as usize {
                idx as i32
            } else {
                i32::MAX
            },
        ),
        CsvColumn::Temperature => reading_tenths(e.temperature.as_str()),
        CsvColumn::CpuUsage => reading_tenths(e.cpu_usage.as_str()),
        CsvColumn::PowerDraw => reading_tenths(e.power_draw.as_str()),
    }
}

/// A series with one point per record of a log file's contents: x and y
/// from the chosen columns, in file order, with the default styling.
pub fn load_series_from_csv(
    contents: &str,
    x_column: CsvColumn,
    y_column: CsvColumn,
    label: String,
    color: Color,
) -> (r: Result<ChartSeries, SeriesLoadError>)
    ensures
        match parse_log_spec(contents@) {
            Err(e) => r == Err::<ChartSeries, SeriesLoadError>(SeriesLoadError::Log(e)),
            Ok(rows) => match points_of(rows, x_column, y_column) {
                None => r == Err::<ChartSeries, SeriesLoadError>(SeriesLoadError::BadReading),
                Some(ps) => r matches Ok(s) && {
                    &&& s.points@ == ps
                    &&& s.label == label
                    &&& s.color == color
                    &&& s.show_points
                    &&& s.show_line
                    &&& s.line_width == 2
                    &&& s.point_radius == 3
                },
            },
        },
{
    let records = match parse_log(contents) {
        Ok(v) => v,
        Err(e) => return Err(SeriesLoadError::Log(e)),
    };
    let ghost rows = views(records@);
    assert(parse_log_spec(contents@) == Ok::<Seq<Seq<Seq<char>>>, LogFormatError>(rows));
    let mut series = ChartSeries::new(label, color);
    let mut idx: usize = 0;
    assert(rows.take(0) =~= Seq::<Seq<Seq<char>>>::empty());
    while idx < records.len()
        invariant
            idx <= records.len(),
            rows == views(records@),
            parse_log_spec(contents@) == Ok::<Seq<Seq<Seq<char>>>, LogFormatError>(rows),
            points_of(rows.take(idx as int), x_column, y_column) == Some(series.points@),
            series.label == label,
            series.color == color,
            series.show_points,
            series.show_line,
            series.line_width == 2,
            series.point_radius == 3,
        decreases records.len() - idx,
    {
        let e = &records[idx];
        let ghost next = rows.take(idx + 1);
        assert(next.drop_last() =~= rows.take(idx as int));
        assert(next[idx as int] == e@);
        let x = column_value_exec(e, x_column, idx);
        let y = column_value_exec(e, y_column, idx);
        match (x, y) {
            (Some(a), Some(b)) => {
                series.add_point(a, b);
            },
            _ => {
                proof {
                    lemma_points_none_extends(rows, idx + 1, x_column, y_column);
                }
                return Err(SeriesLoadError::BadReading);
            },
        }
        idx = idx + 1;
    }
    assert(rows.take(records.len() as int) =~= rows);
    Ok(series)
}

} // verus!
