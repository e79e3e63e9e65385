//! What is drawn on the performance page: grids, histories, meters and labels, as coordinates.
use vstd::prelude::*;

pub use crate::history::HistoryAccess;
use crate::history::newest;
use crate::pdh::first_zero;
use crate::rect::{divide, fits_i32, max_i64, max_of, min_i64, min_of, quotient, Rect};
use crate::text::{append_text, decimal_chars, decimal_text, decimal_text_stands_for_value,
    string_of};
use crate::utf16::{decode_lossy, decoded_lossy};

verus! {

pub const HIST_SIZE: usize = 2000;

pub const GRAPH_GRID: i32 = 12;

/// Colors of charts.
#[derive(Clone, Copy, Debug, PartialEq, Eq, Structural)]
pub enum ChartColor {
    Black,
    Green,
    Yellow,
    Red,
    Grid,
}

/// A color as red, green and blue from the lowest byte up.
pub open spec fn rgb_value(red: int, green: int, blue: int) -> int {
    red + green * 0x100 + blue * 0x1_0000
}

pub fn rgb(red: u8, green: u8, blue: u8) -> (color: u32)
    ensures
        color == rgb_value(red as int, green as int, blue as int),
{
    red as u32 + green as u32 * 0x100 + blue as u32 * 0x1_0000
}

impl ChartColor {
    pub open spec fn spec_rgb(self) -> int {
        match self {
            ChartColor::Black => rgb_value(0, 0, 0),
            ChartColor::Green => rgb_value(0, 255, 0),
            ChartColor::Yellow => rgb_value(255, 255, 0),
            ChartColor::Red => rgb_value(255, 0, 0),
            ChartColor::Grid => rgb_value(0, 128, 64),
        }
    }

    pub fn color_rgb(self) -> (color: u32)
        ensures
            color == self.spec_rgb(),
    {
        match self {
            ChartColor::Black => rgb(0, 0, 0),
            ChartColor::Green => rgb(0, 255, 0),
            ChartColor::Yellow => rgb(255, 255, 0),
            ChartColor::Red => rgb(255, 0, 0),
            ChartColor::Grid => rgb(0, 128, 64),
        }
    }
}

/// The digits of `value` that a buffer of `capacity` units has room for, before a zero: the last
/// ones, where there is not enough room for all.
pub open spec fn kept_digits(value: nat, capacity: int) -> Seq<u16> {
    let digits = decimal_text(value);
    let room = min_of(digits.len() as int, capacity - 1);
    Seq::new(room as nat, |i: int| digits[digits.len() - room + i] as u16)
}

/// What a buffer holds after a number was written into it: the digits, a zero unit, and behind
/// them what the digits left behind when they were moved to the front.
pub open spec fn written_number(value: nat, capacity: int) -> Seq<u16> {
    let digits = kept_digits(value, capacity);
    let count = digits.len() as int;
    let start = capacity - 1 - count;
    Seq::new(
        capacity as nat,
        |j: int|
            if j < count {
                digits[j]
            } else if value > 0 && j > count && start <= j < capacity - 1 {
                digits[j - start]
            } else {
                0
            },
    )
}

/// Writes `value` in decimal digits, with a zero unit behind them.
pub fn write_u64_utf16(value: u64, buf: &mut [u16])
    ensures
        final(buf)@.len() == old(buf)@.len(),
        old(buf)@.len() > 0 ==> final(buf)@ == written_number(
            value as nat,
            old(buf)@.len() as int,
        ),
{
    let capacity: usize = buf.len();
    if capacity == 0 {
        return;
    }
    let digits = decimal_chars(value);
    let room: usize = if digits.len() <= capacity - 1 {
        digits.len()
    } else {
        capacity - 1
    };
    let skipped: usize = digits.len() - room;
    let start: usize = capacity - 1 - room;
    let ghost goal = written_number(value as nat, capacity as int);
    proof {
        decimal_text_stands_for_value(value as nat);
    }
    for index in 0..capacity
        invariant
            buf@.len() == capacity,
            digits@ == decimal_text(value as nat),
            forall|i: int| 0 <= i < digits@.len() ==> crate::text::is_digit(#[trigger] digits@[i]),
            room == min_of(digits@.len() as int, capacity - 1),
            skipped == digits.len() - room,
            start == capacity - 1 - room,
            goal == written_number(value as nat, capacity as int),
            forall|i: int| 0 <= i < index ==> buf@[i] == #[trigger] goal[i],
    {
        let unit: u16 = if index < room {
            digits[skipped + index] as u16
        } else if value > 0 && index > room && start <= index && index < capacity - 1 {
            digits[skipped + (index - start)] as u16
        } else {
            0
        };
        buf[index] = unit;
        assert(buf@[index as int] == goal[index as int]);
    }
    assert(buf@ =~= goal);
}

/// A buffer with room for every digit holds the whole number, ended by a zero unit.
pub proof fn written_number_is_whole(value: nat, capacity: int)
    requires
        decimal_text(value).len() < capacity,
    ensures
        first_zero(written_number(value, capacity)) == Some(decimal_text(value).len() as int),
        forall|i: int|
            0 <= i < decimal_text(value).len() ==> #[trigger] written_number(value, capacity)[i]
                == decimal_text(value)[i] as u16,
{
    decimal_text_stands_for_value(value);
    let digits = decimal_text(value);
    let buffer = written_number(value, capacity);
    assert forall|i: int| 0 <= i < digits.len() implies #[trigger] buffer[i] == digits[i] as u16
        && buffer[i] != 0 by {
        assert(crate::text::is_digit(digits[i]));
    }
    lemma_first_zero(buffer, digits.len() as int);
}

proof fn lemma_first_zero(units: Seq<u16>, at: int)
    requires
        0 <= at < units.len(),
        units[at] == 0,
        forall|i: int| 0 <= i < at ==> #[trigger] units[i] != 0,
    ensures
        first_zero(units) == Some(at),
    decreases at,
{
    if at > 0 {
        let rest = units.drop_first();
        assert forall|i: int| 0 <= i < at - 1 implies #[trigger] rest[i] != 0 by {
            assert(rest[i] == units[i + 1]);
        }
        lemma_first_zero(rest, at - 1);
    }
}

/// How many bytes a number of kilobytes is, where that can be represented.
pub fn mem_meter_byte_count(mem_usage_kb: u64) -> (bytes: Option<u64>)
    ensures
        bytes == if mem_usage_kb * 1024 <= u64::MAX {
            Some((mem_usage_kb * 1024) as u64)
        } else {
            None
        },
{
    mem_usage_kb.checked_mul(1024)
}

/// The units up to the first zero; all of them where there is none.
pub open spec fn up_to_zero(units: Seq<u16>) -> Seq<u16> {
    match first_zero(units) {
        Some(length) => units.take(length),
        None => units,
    }
}

/// Decodes the units up to the first zero.
pub fn decode_up_to_zero(units: &[u16]) -> (text: String)
    ensures
        text@ == decoded_lossy(up_to_zero(units@)),
{
    let mut length: usize = 0;
    assert(units@.skip(0) =~= units@);
    while length < units.len() && units[length] != 0
        invariant
            length <= units@.len(),
            match first_zero(units@) {
                Some(at) => first_zero(units@.skip(length as int)) == Some(at - length),
                None => first_zero(units@.skip(length as int)) is None,
            },
        decreases units.len() - length,
    {
        assert(units@.skip(length as int)[0] == units@[length as int]);
        assert(units@.skip(length as int).drop_first() =~= units@.skip(length + 1));
        length = length + 1;
    }
    proof {
        if length < units@.len() {
            assert(units@.skip(length as int)[0] == 0);
        } else {
            assert(units@.take(length as int) =~= units@);
        }
        assert(units@.subrange(0, length as int) =~= units@.take(length as int));
    }
    decode_lossy(vstd::slice::slice_subrange(units, 0, length))
}

/// The text below the memory meter. `formatted` is what the system made of the number of bytes,
/// where it could; else the kilobytes are shown.
pub fn format_mem_meter_text(mem_usage_kb: u64, formatted: Option<Vec<u16>>) -> (text: String)
    ensures
        text@ == match formatted {
            Some(units) if mem_usage_kb * 1024 <= u64::MAX => decoded_lossy(up_to_zero(units@)),
            _ => decimal_text(mem_usage_kb as nat) + " KB"@,
        },
{
    if mem_meter_byte_count(mem_usage_kb).is_some() {
        if let Some(units) = &formatted {
            return decode_up_to_zero(units.as_slice());
        }
    }
    let mut chars = decimal_chars(mem_usage_kb);
    append_text(&mut chars, " KB");
    string_of(chars.as_slice())
}

/// A point on a chart.
#[derive(Clone, Copy, Debug, PartialEq, Eq, Structural)]
pub struct Point {
    pub x: i32,
    pub y: i32,
}

/// A straight line on a chart.
#[derive(Clone, Copy, Debug, PartialEq, Eq, Structural)]
pub struct Segment {
    pub from: Point,
    pub to: Point,
}

/// How many horizontal lines a grid has: they stand one grid apart, the first one grid below the
/// top.
pub open spec fn grid_row_count(rect: Rect) -> int {
    max_of((rect.bottom - rect.top) / (GRAPH_GRID as int), 0)
}

pub open spec fn grid_row(rect: Rect, width: int, index: int) -> Segment {
    let y = rect.top + GRAPH_GRID - 1 + index * GRAPH_GRID;
    Segment {
        from: Point { x: (rect.right - max_of(width, 0)) as i32, y: y as i32 },
        to: Point { x: rect.right, y: y as i32 },
    }
}

/// How many vertical lines a grid has: they stand one grid apart, counted from the right edge
/// less the scroll offset.
pub open spec fn grid_column_count(width: int, scroll_offset: int) -> int {
    max_of((max_of(width, 0) - scroll_offset + GRAPH_GRID - 1) / (GRAPH_GRID as int), 0)
}

pub open spec fn grid_column(rect: Rect, scroll_offset: int, index: int) -> Segment {
    let x = rect.right - scroll_offset - index * GRAPH_GRID;
    Segment {
        from: Point { x: x as i32, y: rect.top },
        to: Point { x: x as i32, y: rect.bottom },
    }
}

/// The lines of a grid over the rightmost `width` pixels: first the rows, then the columns.
pub open spec fn grid(rect: Rect, width: int, scroll_offset: int) -> Seq<Segment> {
    Seq::new(grid_row_count(rect) as nat, |i: int| grid_row(rect, width, i)) + Seq::new(
        grid_column_count(width, scroll_offset) as nat,
        |i: int| grid_column(rect, scroll_offset, i),
    )
}

pub fn draw_grid_width(rect: Rect, width: i32, scroll_offset: i32) -> (lines: Vec<Segment>)
    requires
        fits_i32(rect.right - max_of(width as int, 0)),
        fits_i32(rect.right - scroll_offset),
    ensures
        lines@ == grid(rect, width as int, scroll_offset as int),
{
    let left: i64 = rect.right as i64 - max_i64(width as i64, 0);
    let mut lines: Vec<Segment> = Vec::new();
    let ghost rows = Seq::new(
        grid_row_count(rect) as nat,
        |i: int| grid_row(rect, width as int, i),
    );
    let mut y: i64 = rect.top as i64 + GRAPH_GRID as i64 - 1;
    let ghost mut index: int = 0;
    while y < rect.bottom as i64
        invariant
            left == rect.right - max_of(width as int, 0),
            fits_i32(left as int),
            0 <= index <= rows.len(),
            rows == Seq::new(
                grid_row_count(rect) as nat,
                |i: int| grid_row(rect, width as int, i),
            ),
            y == rect.top + GRAPH_GRID - 1 + index * GRAPH_GRID,
            y <= rect.bottom + 0x10 || index == 0,
            y <= 0x1_0000_0000,
            lines@ == rows.take(index),
        decreases rect.bottom + 0x10 - y,
    {
        let ghost n = index;
        lines.push(
            Segment {
                from: Point { x: left as i32, y: y as i32 },
                to: Point { x: rect.right, y: y as i32 },
            },
        );
        proof {
            assert(n < grid_row_count(rect));
            assert(rows.take(n + 1) =~= rows.take(n).push(rows[n]));
            assert(rows[n] == lines@[n]);
            index = index + 1;
        }
        y = y + GRAPH_GRID as i64;
    }
    proof {
        assert(index == grid_row_count(rect));
        assert(rows.take(index) =~= rows);
    }
    let ghost columns = Seq::new(
        grid_column_count(width as int, scroll_offset as int) as nat,
        |i: int| grid_column(rect, scroll_offset as int, i),
    );
    let mut x: i64 = rect.right as i64 - scroll_offset as i64;
    proof {
        index = 0;
        assert(rows + columns.take(0) =~= rows);
    }
    while x > left
        invariant
            left == rect.right - max_of(width as int, 0),
            fits_i32(left as int),
            fits_i32(rect.right - scroll_offset),
            0 <= index <= columns.len(),
            columns == Seq::new(
                grid_column_count(width as int, scroll_offset as int) as nat,
                |i: int| grid_column(rect, scroll_offset as int, i),
            ),
            x == rect.right - scroll_offset - index * GRAPH_GRID,
            x <= rect.right - scroll_offset,
            x >= left - 0x10 || index == 0,
            lines@ == rows + columns.take(index),
        decreases x + 0x10 - left,
    {
        let ghost n = index;
        lines.push(
            Segment {
                from: Point { x: x as i32, y: rect.top },
                to: Point { x: x as i32, y: rect.bottom },
            },
        );
        proof {
            assert(n < columns.len());
            assert(columns.take(n + 1) =~= columns.take(n).push(columns[n]));
            assert(rows + columns.take(n + 1) =~= (rows + columns.take(n)).push(columns[n]));
            index = index + 1;
        }
        x = x - GRAPH_GRID as i64;
    }
    proof {
        assert(index == columns.len());
        assert(columns.take(index) =~= columns);
    }
    lines
}

/// How a history is laid out on a chart: the height of one hundred percent, the width in pixels,
/// and the pixels from one value to the next.
#[derive(Clone, Copy, Debug, PartialEq, Eq, Structural)]
pub struct HistoryPlotLayout {
    pub graph_height: i32,
    pub width: i32,
    pub scale: usize,
}

/// A history with the way it is drawn. A series may end before its first zero.
#[derive(Clone, Copy)]
pub struct HistorySeries<'a, H: HistoryAccess + ?Sized> {
    pub history: &'a H,
    pub color: ChartColor,
    pub stop_on_zero: bool,
}

/// A width as an unsigned machine word; a negative one becomes huge.
pub open spec fn width_units(width: i32) -> int {
    if width >= 0 {
        width as int
    } else {
        width + 0x1_0000_0000_0000_0000
    }
}

/// How many values a line of the given layout has room for.
pub open spec fn line_limit(layout: HistoryPlotLayout, len: int) -> int {
    min_of(width_units(layout.width) / layout.scale as int, len)
}

/// How many values single segments of the given layout have room for.
pub open spec fn segment_limit(layout: HistoryPlotLayout, len: int) -> int {
    if layout.scale == 0 {
        if layout.width == 0 {
            0
        } else {
            len
        }
    } else {
        min_of((width_units(layout.width) + layout.scale - 1) / layout.scale as int, len)
    }
}

/// How many of the first `limit` values are drawn.
pub open spec fn drawn_count(values: Seq<u8>, limit: int, stop_on_zero: bool) -> int
    decreases limit,
{
    if limit <= 0 {
        0
    } else {
        let before = drawn_count(values, limit - 1, stop_on_zero);
        if before < limit - 1 || (stop_on_zero && values[limit - 1] == 0) {
            before
        } else {
            limit
        }
    }
}

pub open spec fn plot_y(rect: Rect, layout: HistoryPlotLayout, value: u8) -> int {
    rect.bottom - quotient(value * layout.graph_height, 100)
}

pub open spec fn plot_x(rect: Rect, layout: HistoryPlotLayout, index: int) -> int {
    rect.right - layout.scale * index
}

/// Where the value at `index` stands on the chart.
pub open spec fn plot_point(
    rect: Rect,
    layout: HistoryPlotLayout,
    values: Seq<u8>,
    index: int,
) -> Point {
    Point {
        x: plot_x(rect, layout, index) as i32,
        y: plot_y(rect, layout, values[index]) as i32,
    }
}

/// The point that every series starts from: the newest value at the right edge.
pub open spec fn start_point(rect: Rect, layout: HistoryPlotLayout, values: Seq<u8>) -> Point {
    Point { x: rect.right, y: plot_y(rect, layout, newest(values)) as i32 }
}

/// The points of the values that are drawn can be represented.
pub open spec fn can_plot(
    rect: Rect,
    layout: HistoryPlotLayout,
    values: Seq<u8>,
    count: int,
) -> bool {
    &&& fits_i32(plot_y(rect, layout, newest(values)))
    &&& forall|i: int|
        0 <= i < count ==> fits_i32(layout.scale * i) && fits_i32(#[trigger] plot_x(rect, layout, i))
            && fits_i32(plot_y(rect, layout, values[i]))
}

/// Whether a line through the values can be drawn.
pub open spec fn can_draw_line(
    rect: Rect,
    layout: HistoryPlotLayout,
    values: Seq<u8>,
    stop_on_zero: bool,
) -> bool {
    values.len() > 0 ==> layout.scale > 0 && can_plot(
        rect,
        layout,
        values,
        drawn_count(values, line_limit(layout, values.len() as int), stop_on_zero),
    )
}

/// The points of a line through the values, from the newest one on.
pub open spec fn line_points(
    rect: Rect,
    layout: HistoryPlotLayout,
    values: Seq<u8>,
    stop_on_zero: bool,
) -> Seq<Point> {
    if values.len() == 0 {
        Seq::empty()
    } else {
        seq![start_point(rect, layout, values)] + Seq::new(
            drawn_count(values, line_limit(layout, values.len() as int), stop_on_zero) as nat,
            |i: int| plot_point(rect, layout, values, i),
        )
    }
}

/// Whether single segments through the values can be drawn.
pub open spec fn can_draw_segments(
    rect: Rect,
    layout: HistoryPlotLayout,
    values: Seq<u8>,
    stop_on_zero: bool,
) -> bool {
    values.len() > 0 ==> can_plot(
        rect,
        layout,
        values,
        drawn_count(values, segment_limit(layout, values.len() as int), stop_on_zero),
    )
}

/// The segments of a line through the values, from the newest one on.
pub open spec fn line_segments(
    rect: Rect,
    layout: HistoryPlotLayout,
    values: Seq<u8>,
    stop_on_zero: bool,
) -> Seq<Segment> {
    if values.len() == 0 {
        Seq::empty()
    } else {
        segments_through(
            seq![start_point(rect, layout, values)] + Seq::new(
                drawn_count(values, segment_limit(layout, values.len() as int), stop_on_zero) as nat,
                |i: int| plot_point(rect, layout, values, i),
            ),
        )
    }
}

fn y_of(rect: Rect, layout: HistoryPlotLayout, value: u8) -> (y: i32)
    requires
        fits_i32(plot_y(rect, layout, value)),
    ensures
        y == plot_y(rect, layout, value),
{
    let (percent, height) = (value as i64, layout.graph_height as i64);
    assert(-0x100 * 0x8000_0000 <= percent * height <= 0x100 * 0x8000_0000) by (nonlinear_arith)
        requires
            0 <= percent <= 255,
            -0x8000_0000 <= height <= 0x7FFF_FFFF,
    ;
    (rect.bottom as i64 - divide(percent * height, 100)) as i32
}

fn units_of(width: i32) -> (units: u64)
    ensures
        units == width_units(width),
{
    if width >= 0 {
        width as u64
    } else {
        u64::MAX - ((-(width as i64)) as u64 - 1)
    }
}

/// The points of a line through a history, from the newest value on.
pub fn draw_history_series<H: HistoryAccess + ?Sized>(
    rect: Rect,
    layout: HistoryPlotLayout,
    series: HistorySeries<'_, H>,
) -> (points: Vec<Point>)
    requires
        can_draw_line(rect, layout, series.history.values(), series.stop_on_zero),
    ensures
        points@ == line_points(rect, layout, series.history.values(), series.stop_on_zero),
{
    let mut points: Vec<Point> = Vec::new();
    if series.history.is_empty() {
        assert(points@ =~= Seq::<Point>::empty());
        return points;
    }
    let ghost values = series.history.values();
    let len: usize = series.history.len();
    let units: u64 = units_of(layout.width);
    let room: u64 = units / layout.scale as u64;
    let max_points: usize = if room < len as u64 {
        room as usize
    } else {
        len
    };
    assert(max_points == line_limit(layout, values.len() as int));
    let ghost drawn = drawn_count(values, max_points as int, series.stop_on_zero);
    let start_y: i32 = y_of(rect, layout, series.history.newest_value());
    points.push(Point { x: rect.right, y: start_y });
    let mut index: usize = 0;
    let mut stopped = false;
    assert(points@ =~= seq![start_point(rect, layout, values)] + Seq::new(
        0,
        |i: int| plot_point(rect, layout, values, i),
    ));
    while index < max_points && !stopped
        invariant
            values == series.history.values(),
            max_points <= values.len(),
            0 <= index <= max_points,
            drawn == drawn_count(values, max_points as int, series.stop_on_zero),
            can_plot(rect, layout, values, drawn),
            !stopped ==> drawn_count(values, index as int, series.stop_on_zero) == index,
            stopped ==> index < max_points && drawn_count(
                values,
                index + 1,
                series.stop_on_zero,
            ) == index,
            points@ == seq![start_point(rect, layout, values)] + Seq::new(
                index as nat,
                |i: int| plot_point(rect, layout, values, i),
            ),
        decreases max_points - index, (if stopped { 0int } else { 1int }),
    {
        let value: u8 = match series.history.value_at(index) {
            Some(value) => value,
            None => 0,
        };
        if series.stop_on_zero && value == 0 {
            stopped = true;
        } else {
            proof {
                lemma_drawn_reaches(values, index as int, max_points as int, series.stop_on_zero);
                assert(fits_i32(plot_x(rect, layout, index as int)));
            }
            let x: i32 = (rect.right as i64 - (layout.scale * index) as i64) as i32;
            let y: i32 = y_of(rect, layout, value);
            let ghost before = points@;
            points.push(Point { x, y });
            index = index + 1;
            assert(points@ =~= seq![start_point(rect, layout, values)] + Seq::new(
                index as nat,
                |i: int| plot_point(rect, layout, values, i),
            ));
        }
    }
    proof {
        if stopped {
            lemma_drawn_stops(values, index as int, max_points as int, series.stop_on_zero);
        }
        assert(index == drawn);
    }
    points
}

/// Where the value at `index` is drawn, at least the values up to it are drawn.
proof fn lemma_drawn_reaches(values: Seq<u8>, index: int, limit: int, stop_on_zero: bool)
    requires
        0 <= index < limit <= values.len(),
        drawn_count(values, index, stop_on_zero) == index,
        !(stop_on_zero && values[index] == 0),
    ensures
        index < drawn_count(values, limit, stop_on_zero) <= limit,
    decreases limit,
{
    if limit > index + 1 {
        lemma_drawn_reaches(values, index, limit - 1, stop_on_zero);
    }
}

/// Where the value at `index` ends the series, nothing behind it is drawn.
proof fn lemma_drawn_stops(values: Seq<u8>, index: int, limit: int, stop_on_zero: bool)
    requires
        0 <= index < limit <= values.len(),
        drawn_count(values, index + 1, stop_on_zero) == index,
    ensures
        drawn_count(values, limit, stop_on_zero) == index,
    decreases limit,
{
    if limit > index + 1 {
        lemma_drawn_stops(values, index, limit - 1, stop_on_zero);
    }
}

/// The segments of a series: from each drawn point to the one before it.
pub open spec fn segments_through(points: Seq<Point>) -> Seq<Segment> {
    Seq::new(
        (points.len() - 1) as nat,
        |i: int| Segment { from: points[i], to: points[i + 1] },
    )
}

/// The segments of a line through a history, from the newest value on.
pub fn draw_history_series_gpu<H: HistoryAccess + ?Sized>(
    rect: Rect,
    layout: HistoryPlotLayout,
    series: HistorySeries<'_, H>,
) -> (segments: Vec<Segment>)
    requires
        can_draw_segments(rect, layout, series.history.values(), series.stop_on_zero),
    ensures
        segments@ == line_segments(rect, layout, series.history.values(), series.stop_on_zero),
{
    let mut segments: Vec<Segment> = Vec::new();
    if series.history.is_empty() {
        assert(segments@ =~= Seq::<Segment>::empty());
        return segments;
    }
    let ghost values = series.history.values();
    let len: usize = series.history.len();
    let units: u64 = units_of(layout.width);
    let scale: u64 = layout.scale as u64;
    let max_points: usize = if scale == 0 {
        if units == 0 {
            0
        } else {
            len
        }
    } else {
        let whole: u64 = units / scale;
        let partial: u64 = if units % scale == 0 {
            0
        } else {
            1
        };
        proof {
            lemma_ceiling(units as int, scale as int);
        }
        if whole >= len as u64 {
            len
        } else if whole + partial < len as u64 {
            (whole + partial) as usize
        } else {
            len
        }
    };
    assert(max_points == segment_limit(layout, values.len() as int));
    let ghost drawn = drawn_count(values, max_points as int, series.stop_on_zero);
    let mut previous = Point {
        x: rect.right,
        y: y_of(rect, layout, series.history.newest_value()),
    };
    let ghost mut points = seq![start_point(rect, layout, values)];
    let mut index: usize = 0;
    let mut stopped = false;
    proof {
        assert(points =~= seq![start_point(rect, layout, values)] + Seq::new(
            0,
            |i: int| plot_point(rect, layout, values, i),
        ));
        assert(segments@ =~= segments_through(points));
    }
    while index < max_points && !stopped
        invariant
            values == series.history.values(),
            max_points <= values.len(),
            0 <= index <= max_points,
            drawn == drawn_count(values, max_points as int, series.stop_on_zero),
            can_plot(rect, layout, values, drawn),
            !stopped ==> drawn_count(values, index as int, series.stop_on_zero) == index,
            stopped ==> index < max_points && drawn_count(
                values,
                index + 1,
                series.stop_on_zero,
            ) == index,
            points == seq![start_point(rect, layout, values)] + Seq::new(
                index as nat,
                |i: int| plot_point(rect, layout, values, i),
            ),
            points.len() == index + 1,
            previous == points[index as int],
            segments@ == segments_through(points),
        decreases max_points - index, (if stopped { 0int } else { 1int }),
    {
        let value: u8 = match series.history.value_at(index) {
            Some(value) => value,
            None => 0,
        };
        if series.stop_on_zero && value == 0 {
            stopped = true;
        } else {
            proof {
                lemma_drawn_reaches(values, index as int, max_points as int, series.stop_on_zero);
                assert(fits_i32(plot_x(rect, layout, index as int)));
            }
            let next = Point {
                x: (rect.right as i64 - (layout.scale * index) as i64) as i32,
                y: y_of(rect, layout, value),
            };
            segments.push(Segment { from: previous, to: next });
            previous = next;
            proof {
                let before = points;
                points = points.push(plot_point(rect, layout, values, index as int));
                assert(points =~= seq![start_point(rect, layout, values)] + Seq::new(
                    (index + 1) as nat,
                    |i: int| plot_point(rect, layout, values, i),
                ));
                assert(segments@ =~= segments_through(points));
            }
            index = index + 1;
        }
    }
    proof {
        if stopped {
            lemma_drawn_stops(values, index as int, max_points as int, series.stop_on_zero);
        }
        assert(index == drawn);
    }
    segments
}

proof fn lemma_ceiling(units: int, scale: int)
    requires
        units >= 0,
        scale > 0,
    ensures
        (units + scale - 1) / scale == units / scale + if units % scale == 0 {
            0int
        } else {
            1int
        },
{
    let whole = units / scale;
    let rest = units % scale;
    vstd::arithmetic::div_mod::lemma_fundamental_div_mod(units, scale);
    if rest == 0 {
        assert((units + scale - 1) / scale == whole) by {
            assert(units + scale - 1 == whole * scale + (scale - 1)) by (nonlinear_arith)
                requires
                    units == scale * whole + 0,
            ;
            vstd::arithmetic::div_mod::lemma_fundamental_div_mod_converse(
                units + scale - 1,
                scale,
                whole,
                scale - 1,
            );
        }
    } else {
        assert((units + scale - 1) / scale == whole + 1) by {
            assert(units + scale - 1 == (whole + 1) * scale + (rest - 1)) by (nonlinear_arith)
                requires
                    units == scale * whole + rest,
            ;
            vstd::arithmetic::div_mod::lemma_fundamental_div_mod_converse(
                units + scale - 1,
                scale,
                whole + 1,
                rest - 1,
            );
        }
    }
}

/// What a meter is made of: the unlit part above, the lit part, the red part below, and the
/// place of the text. A part without height is left out.
#[derive(Clone, Copy, Debug, PartialEq, Eq, Structural)]
pub struct MeterPlan {
    pub unlit: Option<Rect>,
    pub lit: Option<Rect>,
    pub red: Option<Rect>,
    pub text: Rect,
}

pub open spec fn meter_top(rect: Rect) -> int {
    rect.top + 4
}

pub open spec fn meter_bottom(rect: Rect) -> int {
    max_of(rect.bottom - 18 - 4, meter_top(rect))
}

pub open spec fn meter_height(rect: Rect) -> int {
    max_of(meter_bottom(rect) - meter_top(rect), 1)
}

pub open spec fn meter_left(rect: Rect) -> int {
    rect.left + max_of((rect.right - rect.left - 20) / 2, 0)
}

pub open spec fn lit_pixels(rect: Rect, fill_percent: u8) -> int {
    min_of(meter_height(rect) * fill_percent / 100, meter_height(rect))
}

pub open spec fn red_pixels(rect: Rect, fill_percent: u8, red_percent: u8) -> int {
    min_of(meter_height(rect) * red_percent / 100, lit_pixels(rect, fill_percent))
}

pub open spec fn meter_part(rect: Rect, top: int, bottom: int) -> Rect {
    Rect {
        left: meter_left(rect) as i32,
        top: top as i32,
        right: (meter_left(rect) + 20) as i32,
        bottom: bottom as i32,
    }
}

pub open spec fn meter_plan(rect: Rect, fill_percent: u8, red_percent: u8) -> MeterPlan {
    let bottom = meter_bottom(rect);
    let lit = lit_pixels(rect, fill_percent);
    let red = red_pixels(rect, fill_percent, red_percent);
    MeterPlan {
        unlit: if lit < meter_height(rect) {
            Some(meter_part(rect, meter_top(rect), bottom - lit))
        } else {
            None
        },
        lit: if lit > red {
            Some(meter_part(rect, bottom - lit, bottom - red))
        } else {
            None
        },
        red: if red > 0 {
            Some(meter_part(rect, bottom - red, bottom))
        } else {
            None
        },
        text: Rect { top: (rect.bottom - 18) as i32, ..rect },
    }
}

/// Whether every coordinate of a meter can be represented.
pub open spec fn meter_fits(rect: Rect) -> bool {
    &&& fits_i32(rect.bottom - 18)
    &&& fits_i32(meter_top(rect))
    &&& fits_i32(meter_bottom(rect) - meter_height(rect))
    &&& fits_i32(meter_bottom(rect))
    &&& fits_i32(meter_left(rect) + 20)
}

/// Lays a meter out.
pub fn draw_meter(rect: Rect, fill_percent: u8, red_percent: u8) -> (plan: MeterPlan)
    requires
        meter_fits(rect),
    ensures
        plan == meter_plan(rect, fill_percent, red_percent),
{
    let top: i64 = rect.top as i64 + 4;
    let bottom: i64 = max_i64(rect.bottom as i64 - 18 - 4, top);
    let height: i64 = max_i64(bottom - top, 1);
    let room: i64 = rect.width() - 20;
    let left: i64 = rect.left as i64 + if room > 0 {
        room / 2
    } else {
        0
    };
    let (fill, red_part) = (fill_percent as i64, red_percent as i64);
    assert(0 <= height * fill <= 0x2_0000_0000 * 0x100) by (nonlinear_arith)
        requires
            0 <= height <= 0x2_0000_0000,
            0 <= fill <= 255,
    ;
    assert(0 <= height * red_part <= 0x2_0000_0000 * 0x100) by (nonlinear_arith)
        requires
            0 <= height <= 0x2_0000_0000,
            0 <= red_part <= 255,
    ;
    let lit: i64 = min_i64(height * fill / 100, height);
    let red: i64 = min_i64(height * red_part / 100, lit);
    assert(lit == lit_pixels(rect, fill_percent));
    assert(red == red_pixels(rect, fill_percent, red_percent));
    let (bar_left, bar_right) = (left as i32, (left + 20) as i32);
    let unlit_rect = if lit < height {
        Some(
            Rect {
                left: bar_left,
                top: top as i32,
                right: bar_right,
                bottom: (bottom - lit) as i32,
            },
        )
    } else {
        None
    };
    let lit_rect = if lit > red {
        Some(
            Rect {
                left: bar_left,
                top: (bottom - lit) as i32,
                right: bar_right,
                bottom: (bottom - red) as i32,
            },
        )
    } else {
        None
    };
    let red_rect = if red > 0 {
        Some(
            Rect {
                left: bar_left,
                top: (bottom - red) as i32,
                right: bar_right,
                bottom: bottom as i32,
            },
        )
    } else {
        None
    };
    MeterPlan {
        unlit: unlit_rect,
        lit: lit_rect,
        red: red_rect,
        text: Rect {
            left: rect.left,
            top: (rect.bottom as i64 - 18) as i32,
            right: rect.right,
            bottom: rect.bottom,
        },
    }
}

/// The parts of a meter follow each other without gap: what is not lit is unlit, and the red
/// part is the lowest of the lit one.
pub proof fn meter_parts_fill_the_bar(rect: Rect, fill_percent: u8, red_percent: u8)
    ensures
        0 <= red_pixels(rect, fill_percent, red_percent) <= lit_pixels(rect, fill_percent)
            <= meter_height(rect),
        fill_percent >= 100 ==> lit_pixels(rect, fill_percent) == meter_height(rect),
        fill_percent == 0 ==> lit_pixels(rect, fill_percent) == 0,
        red_percent >= fill_percent ==> red_pixels(rect, fill_percent, red_percent) == lit_pixels(
            rect,
            fill_percent,
        ),
{
    let height = meter_height(rect);
    let (fill, red) = (fill_percent as int, red_percent as int);
    assert(height * fill >= 0 && height * red >= 0) by (nonlinear_arith)
        requires
            height >= 1,
            fill >= 0,
            red >= 0,
    ;
    if fill >= 100 {
        assert(height * fill >= height * 100) by (nonlinear_arith)
            requires
                height >= 1,
                fill >= 100,
        ;
    }
    if fill == 0 {
        assert(height * fill == 0) by (nonlinear_arith)
            requires
                fill == 0,
        ;
    }
    if red >= fill {
        assert(height * red >= height * fill) by (nonlinear_arith)
            requires
                height >= 1,
                red >= fill,
        ;
    }
}

/// The room that a label has on a graph.
#[derive(Clone, Copy, Debug, PartialEq, Eq, Structural)]
pub struct LabelArea {
    pub available_width: i32,
    pub available_height: i32,
    pub text_rect: Rect,
}

/// The room for a label on a graph; none where the graph is smaller than eight pixels.
pub fn graph_label_area(rect: Rect) -> (area: Option<LabelArea>)
    requires
        fits_i32(rect.spec_width()),
        fits_i32(rect.spec_height()),
    ensures
        match area {
            None => rect.spec_width() < 8 || rect.spec_height() < 8,
            Some(area) => {
                &&& rect.spec_width() >= 8 && rect.spec_height() >= 8
                &&& area.available_width == rect.spec_width() - 4
                &&& area.available_height == rect.spec_height() - 4
                &&& area.text_rect.left == rect.left + 2
                &&& area.text_rect.top == rect.top + 2
                &&& area.text_rect.right == rect.right - 2
                &&& area.text_rect.bottom == rect.bottom - 2
            },
        },
{
    if rect.width() < 8 || rect.height() < 8 {
        return None;
    }
    Some(
        LabelArea {
            available_width: (rect.width() - 4) as i32,
            available_height: (rect.height() - 4) as i32,
            text_rect: Rect {
                left: rect.left + 2,
                top: rect.top + 2,
                right: rect.right - 2,
                bottom: rect.bottom - 2,
            },
        },
    )
}

/// Whether a label of the measured size is used: it has text and fits into the room.
fn accepts_label(area: LabelArea, measured: Option<(i32, i32)>) -> (accepted: bool)
    ensures
        accepted == label_fits(area, measured),
{
    match measured {
        Some((width, height)) => height > 0 && height <= area.available_height && width
            <= area.available_width,
        None => false,
    }
}

/// Which of its labels a graph bears.
#[derive(Clone, Copy, Debug, PartialEq, Eq, Structural)]
pub enum GraphLabel {
    Full,
    Compact,
}

pub open spec fn label_fits(area: LabelArea, measured: Option<(i32, i32)>) -> bool {
    measured matches Some((width, height)) && 0 < height <= area.available_height && width
        <= area.available_width
}

/// Which label a graph bears: the full one where it fits, else the compact one where that fits.
/// A label is measured by width and height, unless it is empty.
pub fn draw_graph_label(
    area: LabelArea,
    full: Option<(i32, i32)>,
    compact: Option<(i32, i32)>,
) -> (label: Option<GraphLabel>)
    ensures
        label == if label_fits(area, full) {
            Some(GraphLabel::Full)
        } else if label_fits(area, compact) {
            Some(GraphLabel::Compact)
        } else {
            None
        },
{
    if accepts_label(area, full) {
        Some(GraphLabel::Full)
    } else if accepts_label(area, compact) {
        Some(GraphLabel::Compact)
    } else {
        None
    }
}

} // verus!
