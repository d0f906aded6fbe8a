use cpu_telemetry::main_window::{next_bar_chart_state, BarChartState, Message};
use cpu_telemetry::plotter::{Chart, ChartConfig, DrawOp, Rect, ScreenPoint};
use cpu_telemetry::log_format::LogFormatError;
use cpu_telemetry::record::reading_tenths;
use cpu_telemetry::series::{
    load_series_from_csv, ChartSeries, Color, CsvColumn, DataPoint, SeriesLoadError,
};
use cpu_telemetry::settings::TempUnits;

fn red() -> Color {
    Color::rgba(255, 0, 0, 255)
}

fn series_of(points: &[(i32, i32)]) -> ChartSeries {
    let mut s = ChartSeries::new("temp".to_string(), red());
    for &(x, y) in points {
        s.add_point(x, y);
    }
    s
}

fn count_lines(ops: &[DrawOp]) -> usize {
    ops.iter().filter(|o| matches!(o, DrawOp::Line { .. })).count()
}

fn count_circles(ops: &[DrawOp]) -> usize {
    ops.iter().filter(|o| matches!(o, DrawOp::Circle { .. })).count()
}

fn texts(ops: &[DrawOp]) -> Vec<String> {
    ops.iter()
        .filter_map(|o| match o {
            DrawOp::Text { content, .. } => Some(content.clone()),
            _ => None,
        })
        .collect()
}

const RECT: Rect = Rect { x: 0, y: 0, width: 800, height: 600 };

#[test]
fn bounds_of_empty_series_is_none() {
    let s = series_of(&[]);
    assert!(s.get_bounds().is_none());
}

#[test]
fn bounds_take_each_axis_independently() {
    let s = series_of(&[(2, 3), (5, 1)]);
    let (lo, hi) = s.get_bounds().unwrap();
    assert_eq!(lo, DataPoint::new(2, 1));
    assert_eq!(hi, DataPoint::new(5, 3));
}

#[test]
fn bounds_with_negative_values() {
    let s = series_of(&[(-7, 0), (3, -9), (0, 12)]);
    let (lo, hi) = s.get_bounds().unwrap();
    assert_eq!(lo, DataPoint::new(-7, -9));
    assert_eq!(hi, DataPoint::new(3, 12));
}

#[test]
fn data_bounds_map_to_the_usable_corners() {
    let chart = Chart::new();
    let lo = DataPoint::new(0, 0);
    let hi = DataPoint::new(10, 100);
    // Default margins: top 5, bottom 85, left 65, right 30.
    assert_eq!(chart.data_to_screen(lo, RECT, lo, hi), ScreenPoint { x: 65, y: 515 });
    assert_eq!(chart.data_to_screen(hi, RECT, lo, hi), ScreenPoint { x: 770, y: 5 });
    let shifted = Rect { x: 100, y: 50, width: 400, height: 300 };
    assert_eq!(chart.data_to_screen(lo, shifted, lo, hi), ScreenPoint { x: 165, y: 265 });
    assert_eq!(chart.data_to_screen(hi, shifted, lo, hi), ScreenPoint { x: 470, y: 55 });
    // Halfway along both axes.
    assert_eq!(chart.data_to_screen(DataPoint::new(5, 50), RECT, lo, hi), ScreenPoint { x: 417, y: 260 });
}

#[test]
fn zero_range_maps_to_the_midline() {
    let chart = Chart::new();
    let lo = DataPoint::new(4, 7);
    let hi = DataPoint::new(4, 7);
    assert_eq!(chart.data_to_screen(lo, RECT, lo, hi), ScreenPoint { x: 65 + 352, y: 5 + 510 - 255 });
}

#[test]
fn gaps_in_the_samples_break_the_line() {
    let chart = Chart::new();
    let mut s = series_of(&[(0, 40), (1, 42), (2, 90)]);
    let mut ops = Vec::new();
    let lo = DataPoint::new(0, 0);
    let hi = DataPoint::new(10, 100);
    chart.draw_series(&mut ops, RECT, &s, lo, hi);
    assert_eq!(count_lines(&ops), 2);
    assert_eq!(count_circles(&ops), 3);

    s.add_point(10, 41);
    let mut ops = Vec::new();
    chart.draw_series(&mut ops, RECT, &s, lo, hi);
    assert_eq!(count_lines(&ops), 2);
    assert_eq!(count_circles(&ops), 4);
    // The drawn strokes join the first three points only.
    let third_point = chart.data_to_screen(DataPoint::new(2, 90), RECT, lo, hi);
    for op in &ops {
        if let DrawOp::Line { from, .. } = op {
            assert_ne!(*from, third_point);
        }
    }
}

#[test]
fn connects_follows_the_expected_spacing() {
    let pts = vec![DataPoint::new(0, 0), DataPoint::new(1, 0), DataPoint::new(2, 0), DataPoint::new(10, 0)];
    assert!(cpu_telemetry::plotter::connects(&pts, 0));
    assert!(cpu_telemetry::plotter::connects(&pts, 1));
    assert!(!cpu_telemetry::plotter::connects(&pts, 2));
    let two = vec![DataPoint::new(0, 0), DataPoint::new(3, 0)];
    assert!(cpu_telemetry::plotter::connects(&two, 0));
    let two_far = vec![DataPoint::new(0, 0), DataPoint::new(4, 0)];
    assert!(!cpu_telemetry::plotter::connects(&two_far, 0));
}

#[test]
fn hidden_lines_and_markers_draw_nothing() {
    let chart = Chart::new();
    let s = series_of(&[(0, 1), (1, 2)]).with_line(false).with_points(false);
    let mut ops = Vec::new();
    chart.draw_series(&mut ops, RECT, &s, DataPoint::new(0, 0), DataPoint::new(1, 2));
    assert!(ops.is_empty());
}

#[test]
fn auto_bounds_get_five_percent_padding() {
    let mut chart = Chart::new();
    chart.add_series(series_of(&[(0, 20), (100, 220)]));
    let (lo, hi) = chart.calculate_bounds();
    assert_eq!(lo, DataPoint::new(-5, 10));
    assert_eq!(hi, DataPoint::new(105, 230));
}

#[test]
fn bounds_span_all_series() {
    let mut chart = Chart::new();
    chart.add_series(series_of(&[(0, 50)]));
    chart.add_series(series_of(&[]));
    chart.add_series(series_of(&[(200, -150)]));
    let (lo, hi) = chart.calculate_bounds();
    assert_eq!(lo, DataPoint::new(-10, -160));
    assert_eq!(hi, DataPoint::new(210, 60));
}

#[test]
fn manual_bounds_are_used_as_given() {
    let mut chart = Chart::new();
    chart.add_series(series_of(&[(0, 20), (100, 220)]));
    chart.set_bounds(0, 10, 0, 100);
    let (lo, hi) = chart.calculate_bounds();
    assert_eq!(lo, DataPoint::new(0, 0));
    assert_eq!(hi, DataPoint::new(10, 100));
}

#[test]
fn no_points_fall_back_to_the_default_range() {
    let mut chart = Chart::new();
    chart.add_series(series_of(&[]));
    let (lo, hi) = chart.calculate_bounds();
    assert_eq!(lo, DataPoint::new(-5, -5));
    assert_eq!(hi, DataPoint::new(105, 105));
}

#[test]
fn empty_chart_shows_only_a_message() {
    let chart = Chart::new();
    let ops = chart.draw(RECT);
    assert_eq!(ops.len(), 2);
    assert!(matches!(ops[0], DrawOp::Fill { x: 0, y: 0, width: 800, height: 600, .. }));
    match &ops[1] {
        DrawOp::Text { content, at, size, .. } => {
            assert_eq!(content, "No data available");
            assert_eq!(*at, ScreenPoint { x: 400, y: 300 });
            assert_eq!(*size, 16);
        }
        _ => panic!("expected the message"),
    }
}

#[test]
fn full_drawing_order() {
    let mut chart = Chart::new();
    chart.add_series(series_of(&[(0, 40), (1, 42), (2, 90)]));
    let ops = chart.draw(RECT);
    // background, 12 grid lines, 2 axes, 24 tick marks and labels, 2 titles,
    // 2 strokes and 3 markers, then a legend stroke and label.
    assert_eq!(ops.len(), 1 + 12 + 2 + 24 + 2 + 5 + 2);
    assert!(matches!(ops[0], DrawOp::Fill { .. }));
    assert_eq!(count_lines(&ops[1..13]), 12);
    let t = texts(&ops);
    assert_eq!(t.last().unwrap(), "temp");
    assert!(t.contains(&"X Axis".to_string()));
    assert!(t.contains(&"Y Axis".to_string()));
}

#[test]
fn grid_and_legend_can_be_switched_off() {
    let mut config = ChartConfig::default();
    config.show_grid = false;
    config.show_legend = false;
    let mut chart = Chart::with_config(config);
    chart.add_series(series_of(&[(0, 40)]));
    let ops = chart.draw(RECT);
    assert_eq!(ops.len(), 1 + 2 + 24 + 2 + 1);
}

#[test]
fn tick_labels_use_the_units() {
    let mut chart = Chart::new();
    chart.add_series(series_of(&[(0, 0)]));
    chart.set_bounds(0, 10, -50, 100);
    chart.set_x_unit(" s".to_string());
    chart.set_y_unit("°C".to_string());
    chart.set_x_label("Time".to_string());
    chart.set_y_label("Temperature".to_string());
    let t = texts(&chart.draw(RECT));
    for label in ["0s", "2s", "4s", "6s", "8s", "10s", "-50°C", "-20°C", "10°C", "40°C", "70°C", "100°C", "Time", "Temperature"] {
        assert!(t.contains(&label.to_string()), "missing {}", label);
    }
    chart.set_x_unit("%".to_string());
    let t = texts(&chart.draw(RECT));
    assert!(t.contains(&"4%".to_string()));
}

#[test]
fn redraw_flag_follows_changes() {
    let mut chart = Chart::new();
    assert!(chart.needs_redraw);
    chart.mark_drawn();
    assert!(!chart.needs_redraw);
    chart.add_series(series_of(&[(1, 1)]));
    assert!(chart.needs_redraw);
    chart.mark_drawn();
    chart.clear_cache();
    assert!(chart.needs_redraw);
    chart.clear_series();
    assert!(chart.series.is_empty());
}

#[test]
fn series_builders_set_their_field() {
    let s = ChartSeries::new("a".to_string(), red()).with_line_width(5).with_point_radius(7);
    assert_eq!(s.line_width, 5);
    assert_eq!(s.point_radius, 7);
    let mut s = s;
    s.add_points(vec![DataPoint::new(1, 2), DataPoint::new(3, 4)]);
    assert_eq!(s.points.len(), 2);
    s.clear();
    assert!(s.points.is_empty());
}

#[test]
fn bar_chart_buttons_select_the_reading() {
    assert_eq!(next_bar_chart_state(BarChartState::Usage, Message::PowerButtonPressed), BarChartState::Power);
    assert_eq!(next_bar_chart_state(BarChartState::Power, Message::UsageButtonPressed), BarChartState::Usage);
    assert_eq!(next_bar_chart_state(BarChartState::Power, Message::Tick), BarChartState::Power);
}

#[test]
fn temperature_unit_names() {
    assert_eq!(TempUnits::Celsius.name(), "Celsius");
    assert_eq!(TempUnits::Fahrenheit.name(), "Fahrenheit");
}

#[test]
fn readings_parse_to_tenths() {
    assert_eq!(reading_tenths("65.5"), Some(655));
    assert_eq!(reading_tenths("45.27"), Some(452));
    assert_eq!(reading_tenths("40"), Some(400));
    assert_eq!(reading_tenths("-3.75"), Some(-37));
    assert_eq!(reading_tenths("0.001"), Some(0));
    assert_eq!(reading_tenths("7."), Some(70));
    assert_eq!(reading_tenths(".5"), None);
    assert_eq!(reading_tenths("abc"), None);
    assert_eq!(reading_tenths("1.2.3"), None);
    assert_eq!(reading_tenths("-"), None);
    assert_eq!(reading_tenths("214748364.7"), Some(2147483647));
    assert_eq!(reading_tenths("214748364.8"), None);
    assert_eq!(reading_tenths("99999999999999999999"), None);
}

#[test]
fn series_load_from_log_text() {
    let text = "timestamp;temperature_unit;temperature;cpu_usage;power_draw\n\
                t0;C;40.5;10;30\n\
                t1;C;42;0;31.25\n";
    let s = load_series_from_csv(text, CsvColumn::RowIndex, CsvColumn::Temperature, "temp".to_string(), red()).unwrap();
    assert_eq!(s.points, vec![DataPoint::new(0, 405), DataPoint::new(1, 420)]);
    assert_eq!(s.label, "temp");
    let s = load_series_from_csv(text, CsvColumn::PowerDraw, CsvColumn::CpuUsage, "p".to_string(), red()).unwrap();
    assert_eq!(s.points, vec![DataPoint::new(300, 100), DataPoint::new(312, 0)]);
    let bad = "timestamp;temperature_unit;temperature;cpu_usage;power_draw\nt0;C;hot;10;30\n";
    assert_eq!(
        load_series_from_csv(bad, CsvColumn::Timestamp, CsvColumn::Temperature, "t".to_string(), red()).unwrap_err(),
        SeriesLoadError::Log(LogFormatError::BadReading)
    );
    let not_plottable = "timestamp;temperature_unit;temperature;cpu_usage;power_draw\nt0;C;NaN;10;30\n";
    assert_eq!(
        load_series_from_csv(not_plottable, CsvColumn::Timestamp, CsvColumn::Temperature, "t".to_string(), red())
            .unwrap_err(),
        SeriesLoadError::BadReading
    );
    assert_eq!(
        load_series_from_csv("nonsense\n", CsvColumn::Timestamp, CsvColumn::Temperature, "t".to_string(), red()).unwrap_err(),
        SeriesLoadError::Log(LogFormatError::MissingHeader)
    );
}

#[test]
fn tick_labels_in_tenths_show_one_decimal() {
    let mut config = ChartConfig::default();
    config.y_in_tenths = true;
    config.x_in_tenths = true;
    config.x_unit = " s".to_string();
    config.y_unit = "°C".to_string();
    let mut chart = Chart::with_config(config);
    chart.add_series(series_of(&[(0, 655)]));
    chart.set_bounds(-15, 85, -5, 995);
    let t = texts(&chart.draw(RECT));
    for label in ["-1s", "0s", "8s", "-0.5°C", "39.5°C", "99.5°C"] {
        assert!(t.contains(&label.to_string()), "missing {} in {:?}", label, t);
    }
}
