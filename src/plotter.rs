//! The chart renderer: maps point series from data space into a target
//! rectangle and lists the drawing primitives that paint them, in a fixed
//! order. It performs no drawing itself.
use crate::series::{coord, is_greatest_of, is_least_of, ChartSeries, Color, DataPoint};
use crate::text::{decimal, push_decimal, push_tenths, tenths_text, whole_of_tenths};
use vstd::arithmetic::div_mod::lemma_fundamental_div_mod_converse;
use vstd::prelude::*;

verus! {

/// Lower end of an axis that has no data and no configured bound.
pub const DEFAULT_AXIS_MIN: i32 = 0;

/// Upper end of an axis that has no data and no configured bound.
pub const DEFAULT_AXIS_MAX: i32 = 100;

/// The target area, in pixels.
#[derive(Debug, Clone, Copy, PartialEq, Eq, Structural)]
pub struct Rect {
    pub x: i32,
    pub y: i32,
    pub width: u16,
    pub height: u16,
}

/// A position on the target, in pixels; y grows downward.
#[derive(Debug, Clone, Copy, PartialEq, Eq, Structural)]
pub struct ScreenPoint {
    pub x: i64,
    pub y: i64,
}

/// One drawing primitive, in pixels on the target.
#[derive(Debug, Clone)]
pub enum DrawOp {
    /// A filled rectangle.
    Fill { x: i64, y: i64, width: i64, height: i64, color: Color },
    /// A straight stroke.
    Line { from: ScreenPoint, to: ScreenPoint, color: Color, stroke: u32 },
    /// A filled circle.
    Circle { center: ScreenPoint, radius: u32, color: Color },
    /// Text placed at a point.
    Text { content: String, at: ScreenPoint, color: Color, size: u32 },
}

/// What a drawing primitive paints, with its text as characters.
pub enum Shape {
    Fill { x: i64, y: i64, width: i64, height: i64, color: Color },
    Line { from: ScreenPoint, to: ScreenPoint, color: Color, stroke: u32 },
    Circle { center: ScreenPoint, radius: u32, color: Color },
    Text { content: Seq<char>, at: ScreenPoint, color: Color, size: u32 },
}

impl View for DrawOp {
    type V = Shape;

    open spec fn view(&self) -> Shape {
        match self {
            DrawOp::Fill { x, y, width, height, color } => Shape::Fill {
                x: *x,
                y: *y,
                width: *width,
                height: *height,
                color: *color,
            },
            DrawOp::Line { from, to, color, stroke } => Shape::Line {
                from: *from,
                to: *to,
                color: *color,
                stroke: *stroke,
            },
            DrawOp::Circle { center, radius, color } => Shape::Circle {
                center: *center,
                radius: *radius,
                color: *color,
            },
            DrawOp::Text { content, at, color, size } => Shape::Text {
                content: content@,
                at: *at,
                color: *color,
                size: *size,
            },
        }
    }
}

/// The shapes of a list of primitives.
pub open spec fn shapes(ops: Seq<DrawOp>) -> Seq<Shape> {
    ops.map_values(|o: DrawOp| o@)
}

fn push_op(ops: &mut Vec<DrawOp>, op: DrawOp)
    ensures
        shapes(final(ops)@) == shapes(old(ops)@).push(op@),
{
    let ghost before = ops@;
    ops.push(op);
    assert(shapes(ops@) =~= shapes(before).push(op@));
}

/// Chart settings. Margins are in pixels; a bound that is `Some` is used
/// as given, one that is `None` is taken from the data.
#[derive(Debug, Clone)]
pub struct ChartConfig {
    pub x_label: String,
    pub y_label: String,
    pub x_unit: String,
    pub y_unit: String,
    pub show_grid: bool,
    pub show_legend: bool,
    pub grid_color: Color,
    pub axis_color: Color,
    pub text_color: Color,
    pub background_color: Color,
    pub margin_top: u16,
    pub margin_bottom: u16,
    pub margin_left: u16,
    pub margin_right: u16,
    pub x_min: Option<i32>,
    pub x_max: Option<i32>,
    pub y_min: Option<i32>,
    pub y_max: Option<i32>,
    /// The x values are tenths of the unit: labels show one decimal.
    pub x_in_tenths: bool,
    /// The y values are tenths of the unit: labels show one decimal.
    pub y_in_tenths: bool,
}

impl ChartConfig {
    /// The settings of a new chart.
    pub open spec fn is_default(&self) -> bool {
        &&& self.x_label@ == "X Axis"@
        &&& self.y_label@ == "Y Axis"@
        &&& self.x_unit@ == ""@
        &&& self.y_unit@ == ""@
        &&& self.show_grid
        &&& self.show_legend
        &&& self.grid_color == Color { r: 128, g: 128, b: 128, a: 51 }
        &&& self.axis_color == Color { r: 77, g: 77, b: 77, a: 255 }
        &&& self.text_color == Color { r: 179, g: 179, b: 179, a: 255 }
        &&& self.background_color == Color { r: 0, g: 0, b: 0, a: 0 }
        &&& self.margin_top == 5
        &&& self.margin_bottom == 85
        &&& self.margin_left == 65
        &&& self.margin_right == 30
        &&& self.x_min is None
        &&& self.x_max is None
        &&& self.y_min is None
        &&& self.y_max is None
        &&& !self.x_in_tenths
        &&& !self.y_in_tenths
    }
}

impl Default for ChartConfig {
    fn default() -> (c: ChartConfig)
        ensures
            c.is_default(),
    {
        ChartConfig {
            x_label: "X Axis".to_owned(),
            y_label: "Y Axis".to_owned(),
            x_unit: "".to_owned(),
            y_unit: "".to_owned(),
            show_grid: true,
            show_legend: true,
            grid_color: Color::rgba(128, 128, 128, 51),
            axis_color: Color::rgba(77, 77, 77, 255),
            text_color: Color::rgba(179, 179, 179, 255),
            background_color: Color::rgba(0, 0, 0, 0),
            margin_top: 5,
            margin_bottom: 85,
            margin_left: 65,
            margin_right: 30,
            x_min: None,
            x_max: None,
            y_min: None,
            y_max: None,
            x_in_tenths: false,
            y_in_tenths: false,
        }
    }
}

/// Some series holds a point.
pub open spec fn has_points(ss: Seq<ChartSeries>) -> bool {
    exists|i: int| 0 <= i < ss.len() && (#[trigger] ss[i]).points@.len() > 0
}

/// `v` is the least coordinate along the axis over all points of all series.
pub open spec fn is_least(ss: Seq<ChartSeries>, along_x: bool, v: int) -> bool {
    &&& forall|i: int, j: int|
        0 <= i < ss.len() && 0 <= j < ss[i].points@.len() ==> v <= coord(
            #[trigger] ss[i].points@[j],
            along_x,
        )
    &&& exists|i: int, j: int|
        0 <= i < ss.len() && 0 <= j < ss[i].points@.len() && v == coord(
            #[trigger] ss[i].points@[j],
            along_x,
        )
}

/// `v` is the greatest coordinate along the axis over all points of all series.
pub open spec fn is_greatest(ss: Seq<ChartSeries>, along_x: bool, v: int) -> bool {
    &&& forall|i: int, j: int|
        0 <= i < ss.len() && 0 <= j < ss[i].points@.len() ==> coord(
            #[trigger] ss[i].points@[j],
            along_x,
        ) <= v
    &&& exists|i: int, j: int|
        0 <= i < ss.len() && 0 <= j < ss[i].points@.len() && v == coord(
            #[trigger] ss[i].points@[j],
            along_x,
        )
}

pub open spec fn least(ss: Seq<ChartSeries>, along_x: bool) -> int {
    choose|v: int| is_least(ss, along_x, v)
}

pub open spec fn greatest(ss: Seq<ChartSeries>, along_x: bool) -> int {
    choose|v: int| is_greatest(ss, along_x, v)
}

/// 5% of the span between `lo` and `hi`, rounded down; none for an empty span.
pub open spec fn padding(lo: int, hi: int) -> int {
    if hi > lo {
        (hi - lo) / 20
    } else {
        0
    }
}

pub open spec fn clamp_i32(v: int) -> int {
    if v < i32::MIN {
        i32::MIN as int
    } else if v > i32::MAX {
        i32::MAX as int
    } else {
        v
    }
}

/// Lower and upper end of one axis: a configured bound as given, otherwise
/// the data's extreme (or the default range when no series has a point),
/// moved outward by the padding.
pub open spec fn axis_range(
    cfg_lo: Option<i32>,
    cfg_hi: Option<i32>,
    ss: Seq<ChartSeries>,
    along_x: bool,
) -> (int, int) {
    let lo = match cfg_lo {
        Some(v) => v as int,
        None => if has_points(ss) {
            least(ss, along_x)
        } else {
            DEFAULT_AXIS_MIN as int
        },
    };
    let hi = match cfg_hi {
        Some(v) => v as int,
        None => if has_points(ss) {
            greatest(ss, along_x)
        } else {
            DEFAULT_AXIS_MAX as int
        },
    };
    let pad = padding(lo, hi);
    (
        if cfg_lo is Some {
            lo
        } else {
            clamp_i32(lo - pad)
        },
        if cfg_hi is Some {
            hi
        } else {
            clamp_i32(hi + pad)
        },
    )
}

/// The data bounds a chart with settings `cfg` and series `ss` is drawn with.
pub open spec fn chart_bounds(cfg: ChartConfig, ss: Seq<ChartSeries>) -> (DataPoint, DataPoint) {
    let (x_lo, x_hi) = axis_range(cfg.x_min, cfg.x_max, ss, true);
    let (y_lo, y_hi) = axis_range(cfg.y_min, cfg.y_max, ss, false);
    (DataPoint { x: x_lo as i32, y: y_lo as i32 }, DataPoint { x: x_hi as i32, y: y_hi as i32 })
}

/// `n / d` rounded down.
pub open spec fn floor_div(n: int, d: int) -> int {
    if d > 0 {
        n / d
    } else if d < 0 {
        (-n) / (-d)
    } else {
        0
    }
}

/// Distance from the start of an axis of `extent` pixels at which the value
/// `v` stands, for data bounds `lo` and `hi`; the middle when the bounds
/// coincide.
pub open spec fn offset(v: int, lo: int, hi: int, extent: int) -> int {
    if hi == lo {
        floor_div(extent, 2)
    } else {
        floor_div((v - lo) * extent, hi - lo)
    }
}

/// Width of the target left inside the margins.
pub open spec fn usable_width(cfg: ChartConfig, rect: Rect) -> int {
    rect.width - cfg.margin_left - cfg.margin_right
}

/// Height of the target left inside the margins.
pub open spec fn usable_height(cfg: ChartConfig, rect: Rect) -> int {
    rect.height - cfg.margin_top - cfg.margin_bottom
}

pub open spec fn screen_x(cfg: ChartConfig, rect: Rect, v: int, lo: DataPoint, hi: DataPoint) -> int {
    rect.x + cfg.margin_left + offset(v, lo.x as int, hi.x as int, usable_width(cfg, rect))
}

pub open spec fn screen_y(cfg: ChartConfig, rect: Rect, v: int, lo: DataPoint, hi: DataPoint) -> int {
    rect.y + cfg.margin_top + usable_height(cfg, rect) - offset(
        v,
        lo.y as int,
        hi.y as int,
        usable_height(cfg, rect),
    )
}

/// Where the data point (`x`, `y`) lands on the target.
pub open spec fn to_screen(
    cfg: ChartConfig,
    rect: Rect,
    x: int,
    y: int,
    lo: DataPoint,
    hi: DataPoint,
) -> ScreenPoint {
    ScreenPoint { x: screen_x(cfg, rect, x, lo, hi) as i64, y: screen_y(cfg, rect, y, lo, hi) as i64 }
}

const LIMIT: i64 = 0x1000_0000_0000_0000;

fn floor_div_exec(n: i64, d: i64) -> (r: i64)
    requires
        d != 0,
        -LIMIT < n < LIMIT,
        -LIMIT < d < LIMIT,
    ensures
        r == floor_div(n as int, d as int),
        -LIMIT <= r <= LIMIT,
{
    let (m, e) = if d > 0 {
        (n, d)
    } else {
        (-n, -d)
    };
    assert(floor_div(n as int, d as int) == (m as int) / (e as int));
    if m >= 0 {
        assert((m as int) / (e as int) <= m) by (nonlinear_arith)
            requires
                m >= 0,
                e >= 1,
        ;
        assert((m as int) / (e as int) >= 0) by (nonlinear_arith)
            requires
                m >= 0,
                e >= 1,
        ;
        m / e
    } else {
        let k: i64 = -m;
        let q = (k + e - 1) / e;
        proof {
            let r = (k + e - 1) % (e as int);
            assert(0 <= r < e);
            assert((k + e - 1) as int == q * e + r) by {
                vstd::arithmetic::div_mod::lemma_fundamental_div_mod((k + e - 1) as int, e as int);
            }
            assert(m as int == (-q) * e + (e - 1 - r)) by (nonlinear_arith)
                requires
                    (k + e - 1) as int == q * e + r,
                    m == -k,
            ;
            lemma_fundamental_div_mod_converse(m as int, e as int, -q, e - 1 - r);
            assert(q <= k) by (nonlinear_arith)
                requires
                    (k + e - 1) as int == q * e + r,
                    0 <= r < e,
                    e >= 1,
                    k >= 1,
            ;
            assert(q >= 0) by (nonlinear_arith)
                requires
                    (k + e - 1) as int == q * e + r,
                    0 <= r < e,
                    e >= 1,
                    k >= 1,
            ;
        }
        -q
    }
}


proof fn lemma_least_unique(ss: Seq<ChartSeries>, along_x: bool, v: int)
    requires
        is_least(ss, along_x, v),
    ensures
        least(ss, along_x) == v,
{
    let w = least(ss, along_x);
    assert(is_least(ss, along_x, w));
    let (i, j) = choose|i: int, j: int|
        0 <= i < ss.len() && 0 <= j < ss[i].points@.len() && v == coord(
            #[trigger] ss[i].points@[j],
            along_x,
        );
    let (a, b) = choose|a: int, b: int|
        0 <= a < ss.len() && 0 <= b < ss[a].points@.len() && w == coord(
            #[trigger] ss[a].points@[b],
            along_x,
        );
    assert(w <= coord(ss[i].points@[j], along_x));
    assert(v <= coord(ss[a].points@[b], along_x));
}

proof fn lemma_greatest_unique(ss: Seq<ChartSeries>, along_x: bool, v: int)
    requires
        is_greatest(ss, along_x, v),
    ensures
        greatest(ss, along_x) == v,
{
    let w = greatest(ss, along_x);
    assert(is_greatest(ss, along_x, w));
    let (i, j) = choose|i: int, j: int|
        0 <= i < ss.len() && 0 <= j < ss[i].points@.len() && v == coord(
            #[trigger] ss[i].points@[j],
            along_x,
        );
    let (a, b) = choose|a: int, b: int|
        0 <= a < ss.len() && 0 <= b < ss[a].points@.len() && w == coord(
            #[trigger] ss[a].points@[b],
            along_x,
        );
    assert(coord(ss[i].points@[j], along_x) <= w);
    assert(coord(ss[a].points@[b], along_x) <= v);
}

/// Extremes over the first `k + 1` series, from those over the first `k`
/// and those of series `k`.
proof fn lemma_extend_extremes(
    ss: Seq<ChartSeries>,
    k: int,
    along_x: bool,
    found: bool,
    lo: int,
    hi: int,
    lo_k: int,
    hi_k: int,
)
    requires
        0 <= k < ss.len(),
        found == has_points(ss.take(k)),
        found ==> is_least(ss.take(k), along_x, lo) && is_greatest(ss.take(k), along_x, hi),
        ss[k].points@.len() > 0 ==> is_least_of(ss[k].points@, along_x, lo_k) && is_greatest_of(
            ss[k].points@,
            along_x,
            hi_k,
        ),
    ensures
        has_points(ss.take(k + 1)) == (found || ss[k].points@.len() > 0),
        ss[k].points@.len() == 0 && found ==> is_least(ss.take(k + 1), along_x, lo) && is_greatest(
            ss.take(k + 1),
            along_x,
            hi,
        ),
        ss[k].points@.len() > 0 ==> is_least(
            ss.take(k + 1),
            along_x,
            if found && lo < lo_k {
                lo
            } else {
                lo_k
            },
        ) && is_greatest(
            ss.take(k + 1),
            along_x,
            if found && hi > hi_k {
                hi
            } else {
                hi_k
            },
        ),
{
    let prev = ss.take(k);
    let next = ss.take(k + 1);
    assert forall|i: int| 0 <= i < k implies #[trigger] next[i] == prev[i] by {}
    assert(next[k] == ss[k]);
    if has_points(prev) {
        let i = choose|i: int| 0 <= i < prev.len() && (#[trigger] prev[i]).points@.len() > 0;
        assert(next[i] == prev[i]);
    }
    if has_points(next) {
        let i = choose|i: int| 0 <= i < next.len() && (#[trigger] next[i]).points@.len() > 0;
        if i < k {
            assert(prev[i] == next[i]);
        }
    }
    if ss[k].points@.len() > 0 {
        let nlo = if found && lo < lo_k {
            lo
        } else {
            lo_k
        };
        let nhi = if found && hi > hi_k {
            hi
        } else {
            hi_k
        };
        assert forall|i: int, j: int|
            0 <= i < next.len() && 0 <= j < next[i].points@.len() implies nlo <= coord(
            #[trigger] next[i].points@[j],
            along_x,
        ) && coord(next[i].points@[j], along_x) <= nhi by {
            if i < k {
                assert(next[i] == prev[i]);
                assert(lo <= coord(prev[i].points@[j], along_x));
                assert(coord(prev[i].points@[j], along_x) <= hi);
            } else {
                assert(lo_k <= coord(ss[k].points@[j], along_x));
                assert(coord(ss[k].points@[j], along_x) <= hi_k);
            }
        }
        if nlo == lo_k {
            let j = choose|j: int|
                0 <= j < ss[k].points@.len() && lo_k == coord(#[trigger] ss[k].points@[j], along_x);
            assert(next[k].points@[j] == ss[k].points@[j]);
        } else {
            let (i, j) = choose|i: int, j: int|
                0 <= i < prev.len() && 0 <= j < prev[i].points@.len() && lo == coord(
                    #[trigger] prev[i].points@[j],
                    along_x,
                );
            assert(next[i].points@[j] == prev[i].points@[j]);
        }
        if nhi == hi_k {
            let j = choose|j: int|
                0 <= j < ss[k].points@.len() && hi_k == coord(#[trigger] ss[k].points@[j], along_x);
            assert(next[k].points@[j] == ss[k].points@[j]);
        } else {
            let (i, j) = choose|i: int, j: int|
                0 <= i < prev.len() && 0 <= j < prev[i].points@.len() && hi == coord(
                    #[trigger] prev[i].points@[j],
                    along_x,
                );
            assert(next[i].points@[j] == prev[i].points@[j]);
        }
    } else if found {
        assert forall|i: int, j: int|
            0 <= i < next.len() && 0 <= j < next[i].points@.len() implies lo <= coord(
            #[trigger] next[i].points@[j],
            along_x,
        ) && coord(next[i].points@[j], along_x) <= hi by {
            assert(i < k);
            assert(next[i] == prev[i]);
            assert(lo <= coord(prev[i].points@[j], along_x));
            assert(coord(prev[i].points@[j], along_x) <= hi);
        }
        let (i, j) = choose|i: int, j: int|
            0 <= i < prev.len() && 0 <= j < prev[i].points@.len() && lo == coord(
                #[trigger] prev[i].points@[j],
                along_x,
            );
        assert(next[i].points@[j] == prev[i].points@[j]);
        let (a, b) = choose|a: int, b: int|
            0 <= a < prev.len() && 0 <= b < prev[a].points@.len() && hi == coord(
                #[trigger] prev[a].points@[b],
                along_x,
            );
        assert(next[a].points@[b] == prev[a].points@[b]);
    }
}


fn axis_range_exec(
    cfg_lo: Option<i32>,
    cfg_hi: Option<i32>,
    found: bool,
    auto_lo: i32,
    auto_hi: i32,
    Ghost(ss): Ghost<Seq<ChartSeries>>,
    Ghost(along_x): Ghost<bool>,
) -> (r: (i32, i32))
    requires
        found == has_points(ss),
        found ==> least(ss, along_x) == auto_lo && greatest(ss, along_x) == auto_hi,
    ensures
        r.0 as int == axis_range(cfg_lo, cfg_hi, ss, along_x).0,
        r.1 as int == axis_range(cfg_lo, cfg_hi, ss, along_x).1,
{
    let lo: i64 = match cfg_lo {
        Some(v) => v as i64,
        None => if found {
            auto_lo as i64
        } else {
            DEFAULT_AXIS_MIN as i64
        },
    };
    let hi: i64 = match cfg_hi {
        Some(v) => v as i64,
        None => if found {
            auto_hi as i64
        } else {
            DEFAULT_AXIS_MAX as i64
        },
    };
    let pad: i64 = if hi > lo {
        (hi - lo) / 20
    } else {
        0
    };
    let out_lo: i64 = if cfg_lo.is_some() {
        lo
    } else if lo - pad < i32::MIN as i64 {
        i32::MIN as i64
    } else {
        lo - pad
    };
    let out_hi: i64 = if cfg_hi.is_some() {
        hi
    } else if hi + pad > i32::MAX as i64 {
        i32::MAX as i64
    } else {
        hi + pad
    };
    (out_lo as i32, out_hi as i32)
}

fn offset_exec(v: i64, lo: i64, hi: i64, extent: i64) -> (r: i64)
    requires
        i32::MIN <= v <= i32::MAX,
        i32::MIN <= lo <= i32::MAX,
        i32::MIN <= hi <= i32::MAX,
        -0x40000 < extent < 0x40000,
    ensures
        r == offset(v as int, lo as int, hi as int, extent as int),
        -LIMIT <= r <= LIMIT,
{
    if hi == lo {
        floor_div_exec(extent, 2)
    } else {
        let d = v - lo;
        assert(-0x1_0000_0000 < d < 0x1_0000_0000);
        assert(-0x4_0000_0000_0000 < d * extent < 0x4_0000_0000_0000) by (nonlinear_arith)
            requires
                -0x1_0000_0000 < d < 0x1_0000_0000,
                -0x40000 < extent < 0x40000,
        ;
        floor_div_exec(d * extent, hi - lo)
    }
}

/// The chart: its series, in insertion order, and its settings.
pub struct Chart {
    pub series: Vec<ChartSeries>,
    pub config: ChartConfig,
    /// Set by every change to the series or the settings; the host repaints
    /// and clears it with `mark_drawn`.
    pub needs_redraw: bool,
}

impl Chart {
    /// An empty chart with the default settings.
    pub fn new() -> (c: Chart)
        ensures
            c.series@.len() == 0,
            c.config.is_default(),
            c.needs_redraw,
    {
        Chart { series: Vec::new(), config: ChartConfig::default(), needs_redraw: true }
    }

    /// An empty chart with the given settings.
    pub fn with_config(config: ChartConfig) -> (c: Chart)
        ensures
            c.series@.len() == 0,
            c.config == config,
            c.needs_redraw,
    {
        Chart { series: Vec::new(), config, needs_redraw: true }
    }

    pub fn add_series(&mut self, series: ChartSeries)
        ensures
            final(self).series@ == old(self).series@.push(series),
            final(self).config == old(self).config,
            final(self).needs_redraw,
    {
        self.series.push(series);
        self.needs_redraw = true;
    }

    pub fn clear_series(&mut self)
        ensures
            final(self).series@.len() == 0,
            final(self).config == old(self).config,
            final(self).needs_redraw,
    {
        self.series.clear();
        self.needs_redraw = true;
    }

    pub fn set_x_label(&mut self, label: String)
        ensures
            final(self).config == (ChartConfig { x_label: label, ..old(self).config }),
            final(self).series == old(self).series,
            final(self).needs_redraw,
    {
        self.config.x_label = label;
        self.needs_redraw = true;
    }

    pub fn set_y_label(&mut self, label: String)
        ensures
            final(self).config == (ChartConfig { y_label: label, ..old(self).config }),
            final(self).series == old(self).series,
            final(self).needs_redraw,
    {
        self.config.y_label = label;
        self.needs_redraw = true;
    }

    pub fn set_x_unit(&mut self, unit: String)
        ensures
            final(self).config == (ChartConfig { x_unit: unit, ..old(self).config }),
            final(self).series == old(self).series,
            final(self).needs_redraw,
    {
        self.config.x_unit = unit;
        self.needs_redraw = true;
    }

    pub fn set_y_unit(&mut self, unit: String)
        ensures
            final(self).config == (ChartConfig { y_unit: unit, ..old(self).config }),
            final(self).series == old(self).series,
            final(self).needs_redraw,
    {
        self.config.y_unit = unit;
        self.needs_redraw = true;
    }

    /// Fixes all four data bounds.
    pub fn set_bounds(&mut self, x_min: i32, x_max: i32, y_min: i32, y_max: i32)
        ensures
            final(self).config == (ChartConfig {
                x_min: Some(x_min),
                x_max: Some(x_max),
                y_min: Some(y_min),
                y_max: Some(y_max),
                ..old(self).config
            }),
            final(self).series == old(self).series,
            final(self).needs_redraw,
    {
        self.config.x_min = Some(x_min);
        self.config.x_max = Some(x_max);
        self.config.y_min = Some(y_min);
        self.config.y_max = Some(y_max);
        self.needs_redraw = true;
    }

    /// Asks for a repaint, after the series' points were changed in place.
    pub fn clear_cache(&mut self)
        ensures
            final(self).series == old(self).series,
            final(self).config == old(self).config,
            final(self).needs_redraw,
    {
        self.needs_redraw = true;
    }

    /// Records that the host painted the current state.
    pub fn mark_drawn(&mut self)
        ensures
            final(self).series == old(self).series,
            final(self).config == old(self).config,
            !final(self).needs_redraw,
    {
        self.needs_redraw = false;
    }

    /// The data bounds the chart is drawn with.
    pub fn calculate_bounds(&self) -> (r: (DataPoint, DataPoint))
        ensures
            r == chart_bounds(self.config, self.series@),
    {
        let ghost ss = self.series@;
        let mut found = false;
        let mut min_x: i32 = 0;
        let mut max_x: i32 = 0;
        let mut min_y: i32 = 0;
        let mut max_y: i32 = 0;
        let mut k: usize = 0;
        assert(!has_points(ss.take(0)));
        while k < self.series.len()
            invariant
                k <= ss.len(),
                ss == self.series@,
                found == has_points(ss.take(k as int)),
                found ==> is_least(ss.take(k as int), true, min_x as int) && is_greatest(
                    ss.take(k as int),
                    true,
                    max_x as int,
                ),
                found ==> is_least(ss.take(k as int), false, min_y as int) && is_greatest(
                    ss.take(k as int),
                    false,
                    max_y as int,
                ),
            decreases ss.len() - k,
        {
            let b = self.series[k].get_bounds();
            let ghost (lo_x, hi_x, lo_y, hi_y) = match b {
                Some((lo, hi)) => (lo.x as int, hi.x as int, lo.y as int, hi.y as int),
                None => (0, 0, 0, 0),
            };
            proof {
                lemma_extend_extremes(ss, k as int, true, found, min_x as int, max_x as int, lo_x, hi_x);
                lemma_extend_extremes(ss, k as int, false, found, min_y as int, max_y as int, lo_y, hi_y);
            }
            match b {
                Some((lo, hi)) => {
                    if !found || lo.x < min_x {
                        min_x = lo.x;
                    }
                    if !found || hi.x > max_x {
                        max_x = hi.x;
                    }
                    if !found || lo.y < min_y {
                        min_y = lo.y;
                    }
                    if !found || hi.y > max_y {
                        max_y = hi.y;
                    }
                    found = true;
                },
                None => {},
            }
            k = k + 1;
        }
        assert(ss.take(ss.len() as int) =~= ss);
        proof {
            if found {
                lemma_least_unique(ss, true, min_x as int);
                lemma_least_unique(ss, false, min_y as int);
                lemma_greatest_unique(ss, true, max_x as int);
                lemma_greatest_unique(ss, false, max_y as int);
            }
        }
        let (x_lo, x_hi) = axis_range_exec(
            self.config.x_min,
            self.config.x_max,
            found,
            min_x,
            max_x,
            Ghost(ss),
            Ghost(true),
        );
        let (y_lo, y_hi) = axis_range_exec(
            self.config.y_min,
            self.config.y_max,
            found,
            min_y,
            max_y,
            Ghost(ss),
            Ghost(false),
        );
        (DataPoint::new(x_lo, y_lo), DataPoint::new(x_hi, y_hi))
    }

    /// Where the data point (`x`, `y`) lands on `rect`, for data bounds `lo`
    /// and `hi`.
    fn map_point(&self, x: i64, y: i64, rect: Rect, lo: DataPoint, hi: DataPoint) -> (r:
        ScreenPoint)
        requires
            i32::MIN <= x <= i32::MAX,
            i32::MIN <= y <= i32::MAX,
        ensures
            r == to_screen(self.config, rect, x as int, y as int, lo, hi),
            r.x as int == screen_x(self.config, rect, x as int, lo, hi),
            r.y as int == screen_y(self.config, rect, y as int, lo, hi),
    {
        let c = &self.config;
        let w: i64 = rect.width as i64 - c.margin_left as i64 - c.margin_right as i64;
        let h: i64 = rect.height as i64 - c.margin_top as i64 - c.margin_bottom as i64;
        let ox = offset_exec(x, lo.x as i64, hi.x as i64, w);
        let oy = offset_exec(y, lo.y as i64, hi.y as i64, h);
        ScreenPoint {
            x: rect.x as i64 + c.margin_left as i64 + ox,
            y: rect.y as i64 + c.margin_top as i64 + h - oy,
        }
    }

    /// Where `p` lands on `rect`, for data bounds `lo` and `hi`.
    pub fn data_to_screen(&self, p: DataPoint, rect: Rect, lo: DataPoint, hi: DataPoint) -> (r:
        ScreenPoint)
        ensures
            r == to_screen(self.config, rect, p.x as int, p.y as int, lo, hi),
    {
        self.map_point(p.x as i64, p.y as i64, rect, lo, hi)
    }
}

impl Default for Chart {
    fn default() -> (c: Chart)
        ensures
            c.series@.len() == 0,
            c.config.is_default(),
            c.needs_redraw,
    {
        Chart::new()
    }
}

/// The lower data bound lands on the bottom-left corner of the area inside
/// the margins, and the upper one on its top-right corner.
pub proof fn lemma_corners(cfg: ChartConfig, rect: Rect, lo: DataPoint, hi: DataPoint)
    requires
        lo.x != hi.x,
        lo.y != hi.y,
    ensures
        screen_x(cfg, rect, lo.x as int, lo, hi) == rect.x + cfg.margin_left,
        screen_y(cfg, rect, lo.y as int, lo, hi) == rect.y + cfg.margin_top + usable_height(cfg, rect),
        screen_x(cfg, rect, hi.x as int, lo, hi) == rect.x + cfg.margin_left + usable_width(cfg, rect),
        screen_y(cfg, rect, hi.y as int, lo, hi) == rect.y + cfg.margin_top,
{
    let w = usable_width(cfg, rect);
    let h = usable_height(cfg, rect);
    let dx = hi.x - lo.x;
    let dy = hi.y - lo.y;
    assert(floor_div(0, dx) == 0);
    assert(floor_div(0, dy) == 0);
    lemma_exact_div(w, dx);
    lemma_exact_div(h, dy);
    assert((hi.x - lo.x) * w == w * dx) by (nonlinear_arith)
        requires
            dx == hi.x - lo.x,
    ;
    assert((hi.y - lo.y) * h == h * dy) by (nonlinear_arith)
        requires
            dy == hi.y - lo.y,
    ;
}

proof fn lemma_exact_div(q: int, d: int)
    requires
        d != 0,
    ensures
        floor_div(q * d, d) == q,
{
    if d > 0 {
        lemma_fundamental_div_mod_converse(q * d, d, q, 0);
    } else {
        assert(-(q * d) == q * (-d)) by (nonlinear_arith);
        lemma_fundamental_div_mod_converse(q * (-d), -d, q, 0);
    }
}


/// The value at tick `i` of the five equal divisions between `lo` and `hi`,
/// rounded down.
pub open spec fn tick_value(lo: int, hi: int, i: int) -> int {
    lo + (hi - lo) * i / 5
}

proof fn lemma_tick_in_range(lo: int, hi: int, i: int)
    requires
        0 <= i <= 5,
    ensures
        lo <= hi ==> lo <= tick_value(lo, hi, i) <= hi,
        hi < lo ==> hi <= tick_value(lo, hi, i) <= lo,
{
    let d = hi - lo;
    if d >= 0 {
        assert(0 <= d * i <= 5 * d) by (nonlinear_arith)
            requires
                d >= 0,
                0 <= i <= 5,
        ;
        assert(0 <= (d * i) / 5 <= d) by (nonlinear_arith)
            requires
                0 <= d * i <= 5 * d,
        ;
    } else {
        assert(5 * d <= d * i <= 0) by (nonlinear_arith)
            requires
                d < 0,
                0 <= i <= 5,
        ;
        assert(d <= (d * i) / 5 <= 0) by (nonlinear_arith)
            requires
                5 * d <= d * i <= 0,
        ;
    }
}

fn tick_value_exec(lo: i32, hi: i32, i: i64) -> (r: i64)
    requires
        0 <= i <= 5,
    ensures
        r == tick_value(lo as int, hi as int, i as int),
        i32::MIN <= r <= i32::MAX,
{
    proof {
        lemma_tick_in_range(lo as int, hi as int, i as int);
    }
    let d: i64 = hi as i64 - lo as i64;
    assert(-0x5_0000_0000 <= d * i <= 0x5_0000_0000) by (nonlinear_arith)
        requires
            -0x1_0000_0000 <= d <= 0x1_0000_0000,
            0 <= i <= 5,
    ;
    lo as i64 + floor_div_exec(d * i, 5)
}

pub open spec fn grid_column(cfg: ChartConfig, rect: Rect, lo: DataPoint, hi: DataPoint, i: int) -> Shape {
    let v = tick_value(lo.x as int, hi.x as int, i);
    Shape::Line {
        from: to_screen(cfg, rect, v, hi.y as int, lo, hi),
        to: to_screen(cfg, rect, v, lo.y as int, lo, hi),
        color: cfg.grid_color,
        stroke: 1,
    }
}

pub open spec fn grid_row(cfg: ChartConfig, rect: Rect, lo: DataPoint, hi: DataPoint, i: int) -> Shape {
    let v = tick_value(lo.y as int, hi.y as int, i);
    Shape::Line {
        from: to_screen(cfg, rect, lo.x as int, v, lo, hi),
        to: to_screen(cfg, rect, hi.x as int, v, lo, hi),
        color: cfg.grid_color,
        stroke: 1,
    }
}

/// Six vertical grid lines at the x ticks, then six horizontal ones at the y ticks.
pub open spec fn grid_shapes(cfg: ChartConfig, rect: Rect, lo: DataPoint, hi: DataPoint) -> Seq<
    Shape,
> {
    Seq::new(6, |i: int| grid_column(cfg, rect, lo, hi, i)) + Seq::new(
        6,
        |i: int| grid_row(cfg, rect, lo, hi, i),
    )
}

/// A tick value as text: one digit after the point when the axis is in
/// tenths, a whole number otherwise.
pub open spec fn value_text(v: int, in_tenths: bool) -> Seq<char> {
    if in_tenths {
        tenths_text(v)
    } else {
        decimal(v)
    }
}

/// Label of an x tick: whole seconds when the unit is ` s`, otherwise the
/// value followed by the unit.
pub open spec fn x_tick_label(cfg: ChartConfig, v: int) -> Seq<char> {
    if cfg.x_unit@ == " s"@ {
        decimal(
            if cfg.x_in_tenths {
                whole_of_tenths(v)
            } else {
                v
            },
        ) + "s"@
    } else {
        value_text(v, cfg.x_in_tenths) + cfg.x_unit@
    }
}

pub open spec fn x_tick(cfg: ChartConfig, rect: Rect, lo: DataPoint, hi: DataPoint, k: int) -> Shape {
    let v = tick_value(lo.x as int, hi.x as int, k / 2);
    let p = to_screen(cfg, rect, v, lo.y as int, lo, hi);
    if k % 2 == 0 {
        Shape::Line {
            from: p,
            to: ScreenPoint { x: p.x, y: (p.y + 5) as i64 },
            color: cfg.axis_color,
            stroke: 1,
        }
    } else {
        Shape::Text {
            content: x_tick_label(cfg, v),
            at: ScreenPoint { x: p.x, y: (p.y + 20) as i64 },
            color: cfg.text_color,
            size: 12,
        }
    }
}

pub open spec fn y_tick(cfg: ChartConfig, rect: Rect, lo: DataPoint, hi: DataPoint, k: int) -> Shape {
    let v = tick_value(lo.y as int, hi.y as int, k / 2);
    let p = to_screen(cfg, rect, lo.x as int, v, lo, hi);
    if k % 2 == 0 {
        Shape::Line {
            from: p,
            to: ScreenPoint { x: (p.x - 5) as i64, y: p.y },
            color: cfg.axis_color,
            stroke: 1,
        }
    } else {
        Shape::Text {
            content: value_text(v, cfg.y_in_tenths) + cfg.y_unit@,
            at: ScreenPoint { x: (p.x - 50) as i64, y: p.y },
            color: cfg.text_color,
            size: 12,
        }
    }
}

/// For each of the six x ticks a tick mark and its label, the same for the
/// y ticks, then the two axis titles.
pub open spec fn axis_label_shapes(cfg: ChartConfig, rect: Rect, lo: DataPoint, hi: DataPoint) -> Seq<
    Shape,
> {
    Seq::new(12, |k: int| x_tick(cfg, rect, lo, hi, k)) + Seq::new(
        12,
        |k: int| y_tick(cfg, rect, lo, hi, k),
    ) + seq![
        Shape::Text {
            content: cfg.x_label@,
            at: ScreenPoint {
                x: (rect.x + rect.width / 2) as i64,
                y: (rect.y + rect.height - cfg.margin_bottom / 4) as i64,
            },
            color: cfg.text_color,
            size: 14,
        },
        Shape::Text {
            content: cfg.y_label@,
            at: ScreenPoint { x: (rect.x + 15) as i64, y: (rect.y + cfg.margin_top / 2) as i64 },
            color: cfg.text_color,
            size: 14,
        },
    ]
}

/// The x axis and the y axis from the lower bounds' corner, then the ticks
/// and titles.
pub open spec fn axes_shapes(cfg: ChartConfig, rect: Rect, lo: DataPoint, hi: DataPoint) -> Seq<
    Shape,
> {
    let origin = to_screen(cfg, rect, lo.x as int, lo.y as int, lo, hi);
    seq![
        Shape::Line {
            from: origin,
            to: to_screen(cfg, rect, hi.x as int, lo.y as int, lo, hi),
            color: cfg.axis_color,
            stroke: 2,
        },
        Shape::Line {
            from: origin,
            to: to_screen(cfg, rect, lo.x as int, hi.y as int, lo, hi),
            color: cfg.axis_color,
            stroke: 2,
        },
    ] + axis_label_shapes(cfg, rect, lo, hi)
}

impl Chart {
    /// Appends the grid lines.
    pub fn draw_grid(&self, ops: &mut Vec<DrawOp>, rect: Rect, lo: DataPoint, hi: DataPoint)
        ensures
            shapes(final(ops)@) == shapes(old(ops)@) + grid_shapes(self.config, rect, lo, hi),
    {
        let ghost start = shapes(ops@);
        let ghost cfg = self.config;
        let mut i: i64 = 0;
        while i <= 5
            invariant
                0 <= i <= 6,
                cfg == self.config,
                shapes(ops@) == start + Seq::new(i as nat, |k: int| grid_column(cfg, rect, lo, hi, k)),
            decreases 6 - i,
        {
            let v = tick_value_exec(lo.x, hi.x, i);
            let top = self.map_point(v, hi.y as i64, rect, lo, hi);
            let bottom = self.map_point(v, lo.y as i64, rect, lo, hi);
            push_op(ops, DrawOp::Line { from: top, to: bottom, color: self.config.grid_color, stroke: 1 });
            assert(Seq::new((i + 1) as nat, |k: int| grid_column(cfg, rect, lo, hi, k)) =~= Seq::new(
                i as nat,
                |k: int| grid_column(cfg, rect, lo, hi, k),
            ).push(grid_column(cfg, rect, lo, hi, i as int)));
            i = i + 1;
        }
        let ghost mid = shapes(ops@);
        let mut i: i64 = 0;
        while i <= 5
            invariant
                0 <= i <= 6,
                cfg == self.config,
                shapes(ops@) == mid + Seq::new(i as nat, |k: int| grid_row(cfg, rect, lo, hi, k)),
            decreases 6 - i,
        {
            let v = tick_value_exec(lo.y, hi.y, i);
            let left = self.map_point(lo.x as i64, v, rect, lo, hi);
            let right = self.map_point(hi.x as i64, v, rect, lo, hi);
            push_op(ops, DrawOp::Line { from: left, to: right, color: self.config.grid_color, stroke: 1 });
            assert(Seq::new((i + 1) as nat, |k: int| grid_row(cfg, rect, lo, hi, k)) =~= Seq::new(
                i as nat,
                |k: int| grid_row(cfg, rect, lo, hi, k),
            ).push(grid_row(cfg, rect, lo, hi, i as int)));
            i = i + 1;
        }
        assert(shapes(ops@) =~= start + grid_shapes(cfg, rect, lo, hi));
    }

    /// Appends the tick marks and labels of both axes, then the axis titles.
    pub fn draw_axis_labels(&self, ops: &mut Vec<DrawOp>, rect: Rect, lo: DataPoint, hi: DataPoint)
        ensures
            shapes(final(ops)@) == shapes(old(ops)@) + axis_label_shapes(self.config, rect, lo, hi),
    {
        let ghost start = shapes(ops@);
        let ghost cfg = self.config;
        let seconds = self.config.x_unit == " s".to_owned();
        let mut i: i64 = 0;
        while i <= 5
            invariant
                0 <= i <= 6,
                cfg == self.config,
                seconds == (cfg.x_unit@ == " s"@),
                shapes(ops@) == start + Seq::new(2 * i as nat, |k: int| x_tick(cfg, rect, lo, hi, k)),
            decreases 6 - i,
        {
            let v = tick_value_exec(lo.x, hi.x, i);
            let p = self.map_point(v, lo.y as i64, rect, lo, hi);
            let mut label = String::new();
            if seconds {
                let whole: i64 = if !self.config.x_in_tenths {
                    v
                } else if v < 0 {
                    -((-v) / 10)
                } else {
                    v / 10
                };
                push_decimal(&mut label, whole);
                label.append("s");
            } else {
                if self.config.x_in_tenths {
                    push_tenths(&mut label, v);
                } else {
                    push_decimal(&mut label, v);
                }
                label.append(self.config.x_unit.as_str());
            }
            push_op(
                ops,
                DrawOp::Line {
                    from: p,
                    to: ScreenPoint { x: p.x, y: p.y + 5 },
                    color: self.config.axis_color,
                    stroke: 1,
                },
            );
            push_op(
                ops,
                DrawOp::Text {
                    content: label,
                    at: ScreenPoint { x: p.x, y: p.y + 20 },
                    color: self.config.text_color,
                    size: 12,
                },
            );
            proof {
                let f = |k: int| x_tick(cfg, rect, lo, hi, k);
                assert((2 * i) / 2 == i);
                assert((2 * i + 1) / 2 == i);
                assert(Seq::new((2 * (i + 1)) as nat, f) =~= Seq::new((2 * i) as nat, f).push(
                    f(2 * i),
                ).push(f(2 * i + 1)));
            }
            i = i + 1;
        }
        let ghost mid = shapes(ops@);
        let mut i: i64 = 0;
        while i <= 5
            invariant
                0 <= i <= 6,
                cfg == self.config,
                shapes(ops@) == mid + Seq::new(2 * i as nat, |k: int| y_tick(cfg, rect, lo, hi, k)),
            decreases 6 - i,
        {
            let v = tick_value_exec(lo.y, hi.y, i);
            let p = self.map_point(lo.x as i64, v, rect, lo, hi);
            let mut label = String::new();
            if self.config.y_in_tenths {
                push_tenths(&mut label, v);
            } else {
                push_decimal(&mut label, v);
            }
            label.append(self.config.y_unit.as_str());
            push_op(
                ops,
                DrawOp::Line {
                    from: p,
                    to: ScreenPoint { x: p.x - 5, y: p.y },
                    color: self.config.axis_color,
                    stroke: 1,
                },
            );
            push_op(
                ops,
                DrawOp::Text {
                    content: label,
                    at: ScreenPoint { x: p.x - 50, y: p.y },
                    color: self.config.text_color,
                    size: 12,
                },
            );
            proof {
                let f = |k: int| y_tick(cfg, rect, lo, hi, k);
                assert((2 * i) / 2 == i);
                assert((2 * i + 1) / 2 == i);
                assert(Seq::new((2 * (i + 1)) as nat, f) =~= Seq::new((2 * i) as nat, f).push(
                    f(2 * i),
                ).push(f(2 * i + 1)));
            }
            i = i + 1;
        }
        let c = &self.config;
        push_op(
            ops,
            DrawOp::Text {
                content: c.x_label.clone(),
                at: ScreenPoint {
                    x: rect.x as i64 + rect.width as i64 / 2,
                    y: rect.y as i64 + rect.height as i64 - c.margin_bottom as i64 / 4,
                },
                color: c.text_color,
                size: 14,
            },
        );
        push_op(
            ops,
            DrawOp::Text {
                content: c.y_label.clone(),
                at: ScreenPoint { x: rect.x as i64 + 15, y: rect.y as i64 + c.margin_top as i64 / 2 },
                color: c.text_color,
                size: 14,
            },
        );
        assert(shapes(ops@) =~= start + axis_label_shapes(cfg, rect, lo, hi));
    }

    /// Appends the two axis lines, then their ticks, labels and titles.
    pub fn draw_axes(&self, ops: &mut Vec<DrawOp>, rect: Rect, lo: DataPoint, hi: DataPoint)
        ensures
            shapes(final(ops)@) == shapes(old(ops)@) + axes_shapes(self.config, rect, lo, hi),
    {
        let ghost start = shapes(ops@);
        let origin = self.data_to_screen(lo, rect, lo, hi);
        let x_end = self.map_point(hi.x as i64, lo.y as i64, rect, lo, hi);
        let y_end = self.map_point(lo.x as i64, hi.y as i64, rect, lo, hi);
        push_op(
            ops,
            DrawOp::Line { from: origin, to: x_end, color: self.config.axis_color, stroke: 2 },
        );
        push_op(
            ops,
            DrawOp::Line { from: origin, to: y_end, color: self.config.axis_color, stroke: 2 },
        );
        self.draw_axis_labels(ops, rect, lo, hi);
        assert(shapes(ops@) =~= start + axes_shapes(self.config, rect, lo, hi));
    }
}


pub open spec fn abs(v: int) -> int {
    if v < 0 {
        -v
    } else {
        v
    }
}

/// The spacing that the step from point `i` to point `i + 1` is compared
/// with: the step that ends at point `i`, or for the first step the one
/// after it, or 1 when the series has only two points.
pub open spec fn expected_gap(pts: Seq<DataPoint>, i: int) -> int {
    if i > 0 {
        abs(pts[i].x - pts[i - 1].x)
    } else if pts.len() > 2 {
        abs(pts[2].x - pts[1].x)
    } else {
        1
    }
}

/// Whether points `i` and `i + 1` are joined: their x distance is at most
/// three times the expected spacing. A larger jump marks a gap in the
/// samples (a heuristic: irregular sampling can trip it).
pub open spec fn joins(pts: Seq<DataPoint>, i: int) -> bool {
    abs(pts[i + 1].x - pts[i].x) <= 3 * expected_gap(pts, i)
}

/// Whether the segment from point `i` to point `i + 1` is drawn.
pub fn connects(pts: &Vec<DataPoint>, i: usize) -> (r: bool)
    requires
        i + 1 < pts.len(),
    ensures
        r == joins(pts@, i as int),
{
    let next: i64 = pts[i + 1].x as i64;
    let here: i64 = pts[i].x as i64;
    let step: i64 = next - here;
    let gap: i64 = if step < 0 {
        -step
    } else {
        step
    };
    let expected: i64 = if i > 0 {
        let e: i64 = pts[i].x as i64 - pts[i - 1].x as i64;
        if e < 0 {
            -e
        } else {
            e
        }
    } else if pts.len() > 2 {
        let e: i64 = pts[2].x as i64 - pts[1].x as i64;
        if e < 0 {
            -e
        } else {
            e
        }
    } else {
        1
    };
    gap <= 3 * expected
}

pub open spec fn point_at(cfg: ChartConfig, rect: Rect, lo: DataPoint, hi: DataPoint, p: DataPoint) -> ScreenPoint {
    to_screen(cfg, rect, p.x as int, p.y as int, lo, hi)
}

/// Strokes of the first `k` steps of series `s` that join their points.
pub open spec fn segment_shapes(
    cfg: ChartConfig,
    rect: Rect,
    lo: DataPoint,
    hi: DataPoint,
    s: ChartSeries,
    k: int,
) -> Seq<Shape>
    decreases k,
{
    if k <= 0 {
        Seq::empty()
    } else {
        let pts = s.points@;
        segment_shapes(cfg, rect, lo, hi, s, k - 1) + if joins(pts, k - 1) {
            seq![
                Shape::Line {
                    from: point_at(cfg, rect, lo, hi, pts[k - 1]),
                    to: point_at(cfg, rect, lo, hi, pts[k]),
                    color: s.color,
                    stroke: s.line_width,
                },
            ]
        } else {
            Seq::empty()
        }
    }
}

pub open spec fn marker(cfg: ChartConfig, rect: Rect, lo: DataPoint, hi: DataPoint, s: ChartSeries, j: int) -> Shape {
    Shape::Circle { center: point_at(cfg, rect, lo, hi, s.points@[j]), radius: s.point_radius, color: s.color }
}

/// A series: its joining strokes (when lines are shown and it has two
/// points or more), then a marker per point (when markers are shown).
pub open spec fn series_shapes(cfg: ChartConfig, rect: Rect, lo: DataPoint, hi: DataPoint, s: ChartSeries) -> Seq<Shape> {
    let n = s.points@.len();
    (if s.show_line && n > 1 {
        segment_shapes(cfg, rect, lo, hi, s, n - 1)
    } else {
        Seq::empty()
    }) + (if s.show_points {
        Seq::new(n, |j: int| marker(cfg, rect, lo, hi, s, j))
    } else {
        Seq::empty()
    })
}

/// The first `k` series, in order.
pub open spec fn all_series_shapes(
    cfg: ChartConfig,
    rect: Rect,
    lo: DataPoint,
    hi: DataPoint,
    ss: Seq<ChartSeries>,
    k: int,
) -> Seq<Shape>
    decreases k,
{
    if k <= 0 {
        Seq::empty()
    } else {
        all_series_shapes(cfg, rect, lo, hi, ss, k - 1) + series_shapes(cfg, rect, lo, hi, ss[k - 1])
    }
}

/// Left edge of the legend.
pub open spec fn legend_x(rect: Rect) -> int {
    rect.x + rect.width - 150
}

/// Height of the legend entry `i`.
pub open spec fn legend_y(rect: Rect, i: int) -> int {
    rect.y + 40 + 25 * i
}

pub open spec fn legend_entry(cfg: ChartConfig, rect: Rect, ss: Seq<ChartSeries>, k: int) -> Shape {
    let s = ss[k / 2];
    let y = legend_y(rect, k / 2) as i64;
    if k % 2 == 0 {
        Shape::Line {
            from: ScreenPoint { x: legend_x(rect) as i64, y },
            to: ScreenPoint { x: (legend_x(rect) + 30) as i64, y },
            color: s.color,
            stroke: s.line_width,
        }
    } else {
        Shape::Text {
            content: s.label@,
            at: ScreenPoint { x: (legend_x(rect) + 40) as i64, y },
            color: cfg.text_color,
            size: 12,
        }
    }
}

/// Per series, a short stroke in its color and its label.
pub open spec fn legend_shapes(cfg: ChartConfig, rect: Rect, ss: Seq<ChartSeries>) -> Seq<Shape> {
    Seq::new(2 * ss.len(), |k: int| legend_entry(cfg, rect, ss, k))
}

/// The whole drawing: the background, then either a centred message when
/// there is no series, or the grid (if enabled), the axes, each series in
/// order and the legend (if enabled), all within the chart's bounds.
pub open spec fn chart_shapes(cfg: ChartConfig, rect: Rect, ss: Seq<ChartSeries>) -> Seq<Shape> {
    let background = Shape::Fill {
        x: rect.x as i64,
        y: rect.y as i64,
        width: rect.width as i64,
        height: rect.height as i64,
        color: cfg.background_color,
    };
    if ss.len() == 0 {
        seq![
            background,
            Shape::Text {
                content: "No data available"@,
                at: ScreenPoint {
                    x: (rect.x + rect.width / 2) as i64,
                    y: (rect.y + rect.height / 2) as i64,
                },
                color: cfg.text_color,
                size: 16,
            },
        ]
    } else {
        let (lo, hi) = chart_bounds(cfg, ss);
        seq![background] + (if cfg.show_grid {
            grid_shapes(cfg, rect, lo, hi)
        } else {
            Seq::empty()
        }) + axes_shapes(cfg, rect, lo, hi) + all_series_shapes(cfg, rect, lo, hi, ss, ss.len() as int)
            + (if cfg.show_legend {
            legend_shapes(cfg, rect, ss)
        } else {
            Seq::empty()
        })
    }
}

impl Chart {
    /// Appends the strokes and markers of one series.
    pub fn draw_series(
        &self,
        ops: &mut Vec<DrawOp>,
        rect: Rect,
        series: &ChartSeries,
        lo: DataPoint,
        hi: DataPoint,
    )
        ensures
            shapes(final(ops)@) == shapes(old(ops)@) + series_shapes(self.config, rect, lo, hi, *series),
    {
        let ghost start = shapes(ops@);
        let ghost cfg = self.config;
        let pts = &series.points;
        let n = pts.len();
        if series.show_line && n > 1 {
            let mut i: usize = 0;
            while i + 1 < n
                invariant
                    i + 1 <= n,
                    n == pts@.len(),
                    pts@ == series.points@,
                    cfg == self.config,
                    shapes(ops@) == start + segment_shapes(cfg, rect, lo, hi, *series, i as int),
                decreases n - i,
            {
                let ghost prefix = segment_shapes(cfg, rect, lo, hi, *series, i as int);
                assert(segment_shapes(cfg, rect, lo, hi, *series, i + 1) == prefix + if joins(
                    pts@,
                    i as int,
                ) {
                    seq![
                        Shape::Line {
                            from: point_at(cfg, rect, lo, hi, pts@[i as int]),
                            to: point_at(cfg, rect, lo, hi, pts@[i + 1]),
                            color: series.color,
                            stroke: series.line_width,
                        },
                    ]
                } else {
                    Seq::empty()
                });
                if connects(pts, i) {
                    let from = self.data_to_screen(pts[i], rect, lo, hi);
                    let to = self.data_to_screen(pts[i + 1], rect, lo, hi);
                    push_op(
                        ops,
                        DrawOp::Line { from, to, color: series.color, stroke: series.line_width },
                    );
                }
                assert(shapes(ops@) =~= start + segment_shapes(cfg, rect, lo, hi, *series, i + 1));
                i = i + 1;
            }
        }
        let ghost mid = shapes(ops@);
        assert(mid =~= start + (if series.show_line && n > 1 {
            segment_shapes(cfg, rect, lo, hi, *series, n - 1)
        } else {
            Seq::empty()
        }));
        if series.show_points {
            let mut j: usize = 0;
            while j < n
                invariant
                    j <= n,
                    n == pts@.len(),
                    pts@ == series.points@,
                    cfg == self.config,
                    shapes(ops@) == mid + Seq::new(j as nat, |k: int| marker(cfg, rect, lo, hi, *series, k)),
                decreases n - j,
            {
                let center = self.data_to_screen(pts[j], rect, lo, hi);
                push_op(
                    ops,
                    DrawOp::Circle { center, radius: series.point_radius, color: series.color },
                );
                assert(Seq::new((j + 1) as nat, |k: int| marker(cfg, rect, lo, hi, *series, k)) =~= Seq::new(
                    j as nat,
                    |k: int| marker(cfg, rect, lo, hi, *series, k),
                ).push(marker(cfg, rect, lo, hi, *series, j as int)));
                assert(shapes(ops@) =~= mid + Seq::new(
                    (j + 1) as nat,
                    |k: int| marker(cfg, rect, lo, hi, *series, k),
                ));
                j = j + 1;
            }
        }
        assert(shapes(ops@) =~= start + series_shapes(cfg, rect, lo, hi, *series));
    }

    /// Appends the legend: per series a short stroke in its color and its label.
    pub fn draw_legend(&self, ops: &mut Vec<DrawOp>, rect: Rect)
        requires
            self.series@.len() <= u32::MAX,
        ensures
            shapes(final(ops)@) == shapes(old(ops)@) + legend_shapes(self.config, rect, self.series@),
    {
        let ghost start = shapes(ops@);
        let ghost cfg = self.config;
        let ghost ss = self.series@;
        let x: i64 = rect.x as i64 + rect.width as i64 - 150;
        let mut i: usize = 0;
        while i < self.series.len()
            invariant
                i <= ss.len(),
                ss == self.series@,
                ss.len() <= u32::MAX,
                cfg == self.config,
                x == legend_x(rect),
                shapes(ops@) == start + Seq::new(2 * i as nat, |k: int| legend_entry(cfg, rect, ss, k)),
            decreases ss.len() - i,
        {
            let s = &self.series[i];
            let y: i64 = rect.y as i64 + 40 + 25 * (i as i64);
            push_op(
                ops,
                DrawOp::Line {
                    from: ScreenPoint { x, y },
                    to: ScreenPoint { x: x + 30, y },
                    color: s.color,
                    stroke: s.line_width,
                },
            );
            push_op(
                ops,
                DrawOp::Text {
                    content: s.label.clone(),
                    at: ScreenPoint { x: x + 40, y },
                    color: self.config.text_color,
                    size: 12,
                },
            );
            proof {
                let f = |k: int| legend_entry(cfg, rect, ss, k);
                assert((2 * i) / 2 == i);
                assert((2 * i + 1) / 2 == i);
                assert(Seq::new((2 * (i + 1)) as nat, f) =~= Seq::new((2 * i) as nat, f).push(
                    f(2 * i),
                ).push(f(2 * i + 1)));
            }
            i = i + 1;
        }
    }

    /// The drawing primitives for the chart on `rect`, in painting order.
    pub fn draw(&self, rect: Rect) -> (ops: Vec<DrawOp>)
        requires
            self.series@.len() <= u32::MAX,
        ensures
            shapes(ops@) == chart_shapes(self.config, rect, self.series@),
    {
        let mut ops: Vec<DrawOp> = Vec::new();
        let c = &self.config;
        push_op(
            &mut ops,
            DrawOp::Fill {
                x: rect.x as i64,
                y: rect.y as i64,
                width: rect.width as i64,
                height: rect.height as i64,
                color: c.background_color,
            },
        );
        if self.series.len() == 0 {
            push_op(
                &mut ops,
                DrawOp::Text {
                    content: "No data available".to_owned(),
                    at: ScreenPoint {
                        x: rect.x as i64 + rect.width as i64 / 2,
                        y: rect.y as i64 + rect.height as i64 / 2,
                    },
                    color: c.text_color,
                    size: 16,
                },
            );
            assert(shapes(ops@) =~= chart_shapes(self.config, rect, self.series@));
            return ops;
        }
        let (lo, hi) = self.calculate_bounds();
        if c.show_grid {
            self.draw_grid(&mut ops, rect, lo, hi);
        }
        self.draw_axes(&mut ops, rect, lo, hi);
        let ghost s2 = shapes(ops@);
        let ghost ss = self.series@;
        let mut k: usize = 0;
        while k < self.series.len()
            invariant
                k <= ss.len(),
                ss == self.series@,
                shapes(ops@) == s2 + all_series_shapes(self.config, rect, lo, hi, ss, k as int),
            decreases ss.len() - k,
        {
            self.draw_series(&mut ops, rect, &self.series[k], lo, hi);
            assert(shapes(ops@) =~= s2 + all_series_shapes(self.config, rect, lo, hi, ss, k + 1));
            k = k + 1;
        }
        if c.show_legend {
            self.draw_legend(&mut ops, rect);
        }
        assert(shapes(ops@) =~= chart_shapes(self.config, rect, self.series@));
        ops
    }
}

} // verus!
