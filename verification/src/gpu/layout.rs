//! Complete layouts of the graphics page.
//!
//! A layout is computed as a whole and committed by the caller, so that what a resize does is
//! determined by the size of the page alone.
use vstd::prelude::*;

use super::graph_heights::{fit_graph_heights, fitted, fitted_heights_are_exact, ints, total};
use crate::rect::{
    can_place, clamped, fits_i32, max_i64, max_of, min_i64, min_of, rect_xywh, Rect,
};

verus! {

pub const ENGINE_SLOT_COUNT: usize = 4;

pub const DETAIL_ROW_COUNT: usize = 5;

/// Measures of the font and the controls of the page; each is at least one.
#[derive(Clone, Copy, Debug, PartialEq, Eq, Structural)]
pub struct GpuLayoutMetrics {
    pub base_x: i32,
    pub base_y: i32,
    pub text_line_height: i32,
    pub combo_visible_height: i32,
}

fn at_least_one(value: i32) -> (raised: i32)
    ensures
        raised == max_of(value as int, 1),
{
    if value >= 1 {
        value
    } else {
        1
    }
}

impl GpuLayoutMetrics {
    pub open spec fn well_formed(self) -> bool {
        self.base_x >= 1 && self.base_y >= 1 && self.text_line_height >= 1
            && self.combo_visible_height >= 1
    }

    pub fn new(
        base_x: i32,
        base_y: i32,
        text_line_height: i32,
        combo_visible_height: i32,
    ) -> (metrics: Self)
        ensures
            metrics.well_formed(),
            metrics.base_x == max_of(base_x as int, 1),
            metrics.base_y == max_of(base_y as int, 1),
            metrics.text_line_height == max_of(text_line_height as int, 1),
            metrics.combo_visible_height == max_of(combo_visible_height as int, 1),
    {
        GpuLayoutMetrics {
            base_x: at_least_one(base_x),
            base_y: at_least_one(base_y),
            text_line_height: at_least_one(text_line_height),
            combo_visible_height: at_least_one(combo_visible_height),
        }
    }
}

#[derive(Clone, Copy, Debug, PartialEq, Eq)]
pub struct GpuLayoutPlan {
    pub selector: Rect,
    pub model: Rect,
    pub status: Rect,
    pub engine_selectors: [Rect; 4],
    pub engine_percentages: [Rect; 4],
    pub engine_graphs: [Rect; 4],
    pub dedicated_caption: Rect,
    pub dedicated_graph: Rect,
    pub shared_caption: Rect,
    pub shared_graph: Rect,
    pub metrics_group: Rect,
    pub details_group: Rect,
    pub metric_labels: [Rect; 5],
    pub metric_values: [Rect; 5],
    pub detail_labels: [Rect; 5],
    pub detail_values: [Rect; 5],
    pub content_height: i32,
    pub scroll_position: i32,
    pub needs_scrollbar: bool,
}

/// The measures that follow from the font alone.
pub struct PageMeasures {
    /// The space around and between controls.
    pub margin: int,
    /// The height of a combo box with its caption.
    pub header: int,
    /// The height of a line of text with room around it.
    pub status: int,
    /// The space between a caption and its graph.
    pub caption_gap: int,
    /// How far text stands below the top of a combo box beside it.
    pub text_inset: int,
    pub text_line: int,
    pub details: int,
    pub unit: int,
}

pub open spec fn measures(metrics: GpuLayoutMetrics) -> PageMeasures {
    let header = max_of(max_of(metrics.base_y * 3, 22), metrics.combo_visible_height as int);
    PageMeasures {
        margin: max_of(metrics.base_x * 2, 6),
        header,
        status: max_of(max_of(metrics.base_y * 2, 16), metrics.text_line_height as int),
        caption_gap: max_of(metrics.base_y as int, 2),
        text_inset: max_of((header - metrics.text_line_height) / 2, 0),
        text_line: metrics.text_line_height as int,
        details: max_of(metrics.base_y * 17, 136),
        unit: metrics.base_y as int,
    }
}

/// The height of everything but the graphs.
pub open spec fn chrome_height(page: PageMeasures) -> int {
    page.margin + page.header + page.status + page.margin + page.header * 2 + page.caption_gap * 2
        + page.margin * 2 + (page.status + page.caption_gap + page.margin) * 2 + page.details
        + page.margin
}

pub open spec fn preferred_heights(metrics: GpuLayoutMetrics) -> Seq<int> {
    let engine = max_of(metrics.base_y * 10, 76);
    let memory = max_of(metrics.base_y * 8, 58);
    seq![engine, engine, memory, memory]
}

pub open spec fn minimum_heights(metrics: GpuLayoutMetrics) -> Seq<int> {
    let least = max_of(metrics.base_y * 3, 24);
    seq![least, least, least, least]
}

/// The heights of the graphs: both rows of engines, then dedicated and shared memory.
pub open spec fn graph_heights(client: Rect, metrics: GpuLayoutMetrics) -> Seq<int> {
    let available = max_of(client.spec_height(), 0);
    fitted(
        preferred_heights(metrics),
        minimum_heights(metrics),
        max_of(
            max_of(available - chrome_height(measures(metrics)), 0),
            total(minimum_heights(metrics)),
        ),
    )
}

pub open spec fn content_height(client: Rect, metrics: GpuLayoutMetrics) -> int {
    chrome_height(measures(metrics)) + total(graph_heights(client, metrics))
}

pub open spec fn scroll_position(client: Rect, metrics: GpuLayoutMetrics, requested: int) -> int {
    clamped(
        requested,
        0,
        max_of(content_height(client, metrics) - max_of(client.spec_height(), 0), 0),
    )
}

/// The widths on the page.
pub struct PageColumns {
    pub content: int,
    pub gap: int,
    pub column: int,
    pub second: int,
    pub selector: int,
    pub model_left: int,
}

pub open spec fn page_columns(client: Rect, page: PageMeasures) -> PageColumns {
    let content = max_of(max_of(client.spec_width(), 0) - page.margin * 2, 0);
    let gap = min_of(page.margin, content);
    let column = (content - gap) / 2;
    let selector = if content - gap == 0 {
        content
    } else {
        min_of(max_of(content * 2 / 5, 120), content - gap)
    };
    PageColumns {
        content,
        gap,
        column,
        second: page.margin + column + gap,
        selector,
        model_left: page.margin + selector + if selector < content {
            gap
        } else {
            0
        },
    }
}

/// Where the parts of the page start, from top to bottom.
pub open spec fn header_top(page: PageMeasures, scroll: int) -> int {
    page.margin - scroll
}

pub open spec fn engine_top(page: PageMeasures, heights: Seq<int>, scroll: int, row: int) -> int {
    header_top(page, scroll) + page.header + page.status + page.margin + if row == 0 {
        0
    } else {
        page.header + page.caption_gap + heights[0] + page.margin
    }
}

pub open spec fn dedicated_top(page: PageMeasures, heights: Seq<int>, scroll: int) -> int {
    engine_top(page, heights, scroll, 1) + page.header + page.caption_gap + heights[1]
        + page.margin
}

pub open spec fn shared_top(page: PageMeasures, heights: Seq<int>, scroll: int) -> int {
    dedicated_top(page, heights, scroll) + page.status + page.caption_gap + heights[2]
        + page.margin
}

pub open spec fn details_top(page: PageMeasures, heights: Seq<int>, scroll: int) -> int {
    shared_top(page, heights, scroll) + page.status + page.caption_gap + heights[3] + page.margin
}

/// A rectangle by its corner and its extent.
pub struct Frame {
    pub x: int,
    pub y: int,
    pub width: int,
    pub height: int,
}

impl Frame {
    pub open spec fn placeable(self) -> bool {
        can_place(self.x, self.y, self.width, self.height)
    }

    pub open spec fn is_rect(self, rect: Rect) -> bool {
        rect.is_at(self.x, self.y, self.width, self.height)
    }
}

/// Everything that a layout is computed from.
pub struct PageLayout {
    pub page: PageMeasures,
    pub columns: PageColumns,
    pub heights: Seq<int>,
    pub scroll: int,
}

pub open spec fn page_layout(client: Rect, metrics: GpuLayoutMetrics, requested: int) -> PageLayout {
    PageLayout {
        page: measures(metrics),
        columns: page_columns(client, measures(metrics)),
        heights: graph_heights(client, metrics),
        scroll: scroll_position(client, metrics, requested),
    }
}

impl PageLayout {
    pub open spec fn selector(self) -> Frame {
        Frame {
            x: self.page.margin,
            y: header_top(self.page, self.scroll),
            width: self.columns.selector,
            height: self.page.header * 8,
        }
    }

    pub open spec fn model(self) -> Frame {
        Frame {
            x: self.columns.model_left,
            y: header_top(self.page, self.scroll) + self.page.text_inset,
            width: self.page.margin + self.columns.content - self.columns.model_left,
            height: self.page.text_line,
        }
    }

    pub open spec fn status(self) -> Frame {
        Frame {
            x: self.page.margin,
            y: header_top(self.page, self.scroll) + self.page.header,
            width: self.columns.content,
            height: self.page.status,
        }
    }

    /// Engines stand in two rows of two: where the graph of a slot stands.
    pub open spec fn slot_x(self, slot: int) -> int {
        if slot % 2 == 0 {
            self.page.margin
        } else {
            self.columns.second
        }
    }

    pub open spec fn slot_y(self, slot: int) -> int {
        engine_top(self.page, self.heights, self.scroll, slot / 2)
    }

    pub open spec fn combo_gap(self) -> int {
        min_of(self.page.margin, self.columns.column)
    }

    pub open spec fn combo_width(self) -> int {
        min_of(self.columns.column * 3 / 4, self.columns.column - self.combo_gap())
    }

    pub open spec fn engine_selector(self, slot: int) -> Frame {
        Frame {
            x: self.slot_x(slot),
            y: self.slot_y(slot),
            width: self.combo_width(),
            height: self.page.header * 8,
        }
    }

    pub open spec fn engine_percentage(self, slot: int) -> Frame {
        Frame {
            x: self.slot_x(slot) + self.combo_width() + self.combo_gap(),
            y: self.slot_y(slot) + self.page.text_inset,
            width: self.columns.column - self.combo_width() - self.combo_gap(),
            height: self.page.text_line,
        }
    }

    pub open spec fn engine_graph(self, slot: int) -> Frame {
        Frame {
            x: self.slot_x(slot),
            y: self.slot_y(slot) + self.page.header + self.page.caption_gap,
            width: self.columns.column,
            height: self.heights[slot / 2],
        }
    }

    pub open spec fn full_width(self, y: int, height: int) -> Frame {
        Frame { x: self.page.margin, y, width: self.columns.content, height }
    }

    pub open spec fn dedicated_caption(self) -> Frame {
        self.full_width(dedicated_top(self.page, self.heights, self.scroll), self.page.status)
    }

    pub open spec fn dedicated_graph(self) -> Frame {
        self.full_width(
            dedicated_top(self.page, self.heights, self.scroll) + self.page.status
                + self.page.caption_gap,
            self.heights[2],
        )
    }

    pub open spec fn shared_caption(self) -> Frame {
        self.full_width(shared_top(self.page, self.heights, self.scroll), self.page.status)
    }

    pub open spec fn shared_graph(self) -> Frame {
        self.full_width(
            shared_top(self.page, self.heights, self.scroll) + self.page.status
                + self.page.caption_gap,
            self.heights[3],
        )
    }

    pub open spec fn group(self, x: int) -> Frame {
        Frame {
            x,
            y: details_top(self.page, self.heights, self.scroll),
            width: self.columns.column,
            height: self.page.details,
        }
    }

    pub open spec fn inner_margin(self) -> int {
        min_of(self.page.margin, self.columns.column / 2)
    }

    pub open spec fn row_height(self) -> int {
        max_of((self.page.details - self.inner_margin() * 2) / 6, self.page.unit * 2)
    }

    pub open spec fn inner_width(self) -> int {
        self.columns.column - self.inner_margin() * 2
    }

    pub open spec fn label_width(self) -> int {
        self.inner_width() * 47 / 100
    }

    pub open spec fn row_y(self, row: int) -> int {
        details_top(self.page, self.heights, self.scroll) + self.inner_margin() + self.row_height()
            * (row + 1)
    }

    /// The label of a row in the group that starts at `x`.
    pub open spec fn label(self, x: int, row: int) -> Frame {
        Frame {
            x: x + self.inner_margin(),
            y: self.row_y(row),
            width: self.label_width(),
            height: self.row_height(),
        }
    }

    pub open spec fn value(self, x: int, row: int) -> Frame {
        Frame {
            x: x + self.inner_margin() + self.label_width(),
            y: self.row_y(row),
            width: self.inner_width() - self.label_width(),
            height: self.row_height(),
        }
    }

    /// Every rectangle of the layout can be represented.
    pub open spec fn placeable(self) -> bool {
        &&& self.selector().placeable()
        &&& self.model().placeable()
        &&& self.status().placeable()
        &&& self.dedicated_caption().placeable()
        &&& self.dedicated_graph().placeable()
        &&& self.shared_caption().placeable()
        &&& self.shared_graph().placeable()
        &&& self.group(self.page.margin).placeable()
        &&& self.group(self.columns.second).placeable()
        &&& forall|slot: int|
            0 <= slot < 4 ==> #[trigger] self.engine_selector(slot).placeable()
                && self.engine_percentage(slot).placeable() && self.engine_graph(slot).placeable()
        &&& forall|row: int|
            0 <= row < 5 ==> #[trigger] self.label(self.page.margin, row).placeable() && self.value(
                self.page.margin,
                row,
            ).placeable() && self.label(self.columns.second, row).placeable() && self.value(
                self.columns.second,
                row,
            ).placeable()
    }
}

/// Whether a layout of the page can be represented at all.
pub open spec fn layout_fits(client: Rect, metrics: GpuLayoutMetrics, requested: int) -> bool {
    page_layout(client, metrics, requested).placeable() && fits_i32(content_height(client, metrics))
}

/// Whether `plan` is the layout of the page.
pub open spec fn is_layout(
    plan: GpuLayoutPlan,
    client: Rect,
    metrics: GpuLayoutMetrics,
    requested: int,
) -> bool {
    let layout = page_layout(client, metrics, requested);
    &&& layout.selector().is_rect(plan.selector)
    &&& layout.model().is_rect(plan.model)
    &&& layout.status().is_rect(plan.status)
    &&& layout.dedicated_caption().is_rect(plan.dedicated_caption)
    &&& layout.dedicated_graph().is_rect(plan.dedicated_graph)
    &&& layout.shared_caption().is_rect(plan.shared_caption)
    &&& layout.shared_graph().is_rect(plan.shared_graph)
    &&& layout.group(layout.page.margin).is_rect(plan.metrics_group)
    &&& layout.group(layout.columns.second).is_rect(plan.details_group)
    &&& forall|slot: int|
        #![trigger plan.engine_graphs@[slot]]
        #![trigger plan.engine_selectors@[slot]]
        #![trigger plan.engine_percentages@[slot]]
        0 <= slot < 4 ==> layout.engine_selector(slot).is_rect(plan.engine_selectors@[slot])
            && layout.engine_percentage(slot).is_rect(plan.engine_percentages@[slot])
            && layout.engine_graph(slot).is_rect(plan.engine_graphs@[slot])
    &&& forall|row: int|
        #![trigger plan.metric_labels@[row]]
        #![trigger plan.metric_values@[row]]
        #![trigger plan.detail_labels@[row]]
        #![trigger plan.detail_values@[row]]
        0 <= row < 5 ==> layout.label(layout.page.margin, row).is_rect(plan.metric_labels@[row])
            && layout.value(layout.page.margin, row).is_rect(plan.metric_values@[row])
            && layout.label(layout.columns.second, row).is_rect(plan.detail_labels@[row])
            && layout.value(layout.columns.second, row).is_rect(plan.detail_values@[row])
    &&& plan.content_height == content_height(client, metrics)
    &&& plan.scroll_position == layout.scroll
    &&& plan.needs_scrollbar == (content_height(client, metrics) > max_of(client.spec_height(), 0))
}

struct Measures {
    margin: i64,
    header: i64,
    status: i64,
    caption_gap: i64,
    text_inset: i64,
    text_line: i64,
    details: i64,
    unit: i64,
}

impl View for Measures {
    type V = PageMeasures;

    closed spec fn view(&self) -> PageMeasures {
        PageMeasures {
            margin: self.margin as int,
            header: self.header as int,
            status: self.status as int,
            caption_gap: self.caption_gap as int,
            text_inset: self.text_inset as int,
            text_line: self.text_line as int,
            details: self.details as int,
            unit: self.unit as int,
        }
    }
}

/// A bound that no measure of a page exceeds.
spec fn bounded(value: int) -> bool {
    0 <= value <= 0x10_0000_0000
}

impl Measures {
    spec fn all_bounded(&self) -> bool {
        &&& bounded(self.margin as int)
        &&& bounded(self.header as int)
        &&& bounded(self.status as int)
        &&& bounded(self.caption_gap as int)
        &&& bounded(self.text_inset as int)
        &&& bounded(self.text_line as int)
        &&& bounded(self.details as int)
        &&& bounded(self.unit as int)
    }

    fn of(metrics: GpuLayoutMetrics) -> (page: Measures)
        requires
            metrics.well_formed(),
        ensures
            page@ == measures(metrics),
            page.all_bounded(),
    {
        let base_x: i64 = metrics.base_x as i64;
        let base_y: i64 = metrics.base_y as i64;
        let text_line: i64 = metrics.text_line_height as i64;
        let header: i64 = max_i64(
            max_i64(base_y * 3, 22),
            metrics.combo_visible_height as i64,
        );
        let text_inset: i64 = if header > text_line {
            (header - text_line) / 2
        } else {
            0
        };
        Measures {
            margin: max_i64(base_x * 2, 6),
            header,
            status: max_i64(max_i64(base_y * 2, 16), text_line),
            caption_gap: max_i64(base_y, 2),
            text_inset,
            text_line,
            details: max_i64(base_y * 17, 136),
            unit: base_y,
        }
    }

    fn chrome_height(&self) -> (height: i64)
        requires
            self.all_bounded(),
        ensures
            height == chrome_height(self@),
            0 <= height <= 0x200_0000_0000,
    {
        self.margin + self.header + self.status + self.margin + self.header * 2 + self.caption_gap
            * 2 + self.margin * 2 + (self.status + self.caption_gap + self.margin) * 2
            + self.details + self.margin
    }
}

struct Columns {
    content: i64,
    gap: i64,
    column: i64,
    second: i64,
    selector: i64,
    model_left: i64,
}

impl View for Columns {
    type V = PageColumns;

    closed spec fn view(&self) -> PageColumns {
        PageColumns {
            content: self.content as int,
            gap: self.gap as int,
            column: self.column as int,
            second: self.second as int,
            selector: self.selector as int,
            model_left: self.model_left as int,
        }
    }
}

impl Columns {
    spec fn all_bounded(&self) -> bool {
        &&& bounded(self.content as int)
        &&& bounded(self.gap as int)
        &&& bounded(self.column as int)
        &&& bounded(self.selector as int)
        &&& 0 <= self.second <= 0x40_0000_0000
        &&& 0 <= self.model_left <= 0x40_0000_0000
    }

    fn of(client: Rect, page: &Measures) -> (columns: Columns)
        requires
            page.all_bounded(),
        ensures
            columns@ == page_columns(client, page@),
            columns.all_bounded(),
            columns.gap <= columns.content,
    {
        let content: i64 = max_i64(max_i64(client.width(), 0) - page.margin * 2, 0);
        let gap: i64 = min_i64(page.margin, content);
        let column: i64 = (content - gap) / 2;
        let selector: i64 = if content - gap == 0 {
            content
        } else {
            min_i64(max_i64(content * 2 / 5, 120), content - gap)
        };
        let model_gap: i64 = if selector < content {
            gap
        } else {
            0
        };
        Columns {
            content,
            gap,
            column,
            second: page.margin + column + gap,
            selector,
            model_left: page.margin + selector + model_gap,
        }
    }
}

proof fn lemma_four(heights: Seq<int>)
    requires
        heights.len() == 4,
    ensures
        total(heights) == heights[0] + heights[1] + heights[2] + heights[3],
{
    reveal_with_fuel(total, 5);
    assert(heights.drop_last().last() == heights[2]);
    assert(heights.drop_last().drop_last().last() == heights[1]);
    assert(heights.drop_last().drop_last().drop_last().last() == heights[0]);
}

/// What holds of the heights of the graphs on any page: none is below its minimum, and together
/// they take what the rest of the page leaves, but no less than their minimums.
pub proof fn graphs_share_the_rest(client: Rect, metrics: GpuLayoutMetrics)
    requires
        metrics.well_formed(),
    ensures
        ({
            let heights = graph_heights(client, metrics);
            let least = max_of(metrics.base_y * 3, 24);
            let rest = max_of(client.spec_height(), 0) - chrome_height(measures(metrics));
            &&& heights.len() == 4
            &&& heights[0] >= least && heights[1] >= least && heights[2] >= least && heights[3]
                >= least
            &&& heights[0] + heights[1] + heights[2] + heights[3] == max_of(rest, 4 * least)
            &&& content_height(client, metrics) == max_of(
                max_of(client.spec_height(), 0),
                chrome_height(measures(metrics)) + 4 * least,
            )
        }),
{
    let preferred = preferred_heights(metrics);
    let minimum = minimum_heights(metrics);
    let heights = graph_heights(client, metrics);
    let available = max_of(client.spec_height(), 0);
    let target = max_of(
        max_of(available - chrome_height(measures(metrics)), 0),
        total(minimum),
    );
    fitted_heights_are_exact(preferred, minimum, target);
    lemma_four(heights);
    lemma_four(minimum);
    assert(heights[0] >= minimum[0]);
    assert(heights[1] >= minimum[1]);
    assert(heights[2] >= minimum[2]);
    assert(heights[3] >= minimum[3]);
}

fn page_graph_heights(client: Rect, metrics: GpuLayoutMetrics, chrome: i64) -> (heights: [i32; 4])
    requires
        metrics.well_formed(),
        chrome == chrome_height(measures(metrics)),
        fits_i32(content_height(client, metrics)),
    ensures
        ints(heights) == graph_heights(client, metrics),
{
    proof {
        graphs_share_the_rest(client, metrics);
        lemma_four(minimum_heights(metrics));
    }
    let base_y: i64 = metrics.base_y as i64;
    let available: i64 = max_i64(client.height(), 0);
    let engine: i32 = max_i64(base_y * 10, 76) as i32;
    let memory: i32 = max_i64(base_y * 8, 58) as i32;
    let least: i32 = max_i64(base_y * 3, 24) as i32;
    let preferred: [i32; 4] = [engine, engine, memory, memory];
    let minimum: [i32; 4] = [least, least, least, least];
    let target: i64 = max_i64(max_i64(available - chrome, 0), 4 * least as i64);
    assert(ints(preferred) =~= preferred_heights(metrics));
    assert(ints(minimum) =~= minimum_heights(metrics));
    assert(target == max_of(max_of(available - chrome, 0), total(minimum_heights(metrics))));
    let ghost goal = graph_heights(client, metrics);
    assert(forall|i: int| 0 <= i < 4 ==> fits_i32(#[trigger] goal[i])) by {
        assert(fits_i32(goal[0]) && fits_i32(goal[1]) && fits_i32(goal[2]) && fits_i32(goal[3]));
    }
    fit_graph_heights(preferred, minimum, target as i32)
}

fn place(x: i64, y: i64, width: i64, height: i64, Ghost(frame): Ghost<Frame>) -> (rect: Rect)
    requires
        frame == (Frame { x: x as int, y: y as int, width: width as int, height: height as int }),
        frame.placeable(),
    ensures
        frame.is_rect(rect),
{
    rect_xywh(x, y, width, height)
}

/// Computes the layout of the page for a client area and a requested scroll position.
///
/// The scroll position is brought into the range that the content allows.
#[verifier::rlimit(60)]
pub fn compute_gpu_layout(
    client_rect: Rect,
    metrics: GpuLayoutMetrics,
    requested_scroll_position: i32,
) -> (plan: GpuLayoutPlan)
    requires
        metrics.well_formed(),
        layout_fits(client_rect, metrics, requested_scroll_position as int),
    ensures
        is_layout(plan, client_rect, metrics, requested_scroll_position as int),
{
    let ghost layout = page_layout(client_rect, metrics, requested_scroll_position as int);
    proof {
        graphs_share_the_rest(client_rect, metrics);
        lemma_four(layout.heights);
    }
    let page = Measures::of(metrics);
    let columns = Columns::of(client_rect, &page);
    let chrome: i64 = page.chrome_height();
    let heights = page_graph_heights(client_rect, metrics, chrome);
    let first: i64 = heights[0] as i64;
    let second: i64 = heights[1] as i64;
    let third: i64 = heights[2] as i64;
    let fourth: i64 = heights[3] as i64;
    assert(layout.heights[0] == first && layout.heights[1] == second && layout.heights[2] == third
        && layout.heights[3] == fourth);
    let available: i64 = max_i64(client_rect.height(), 0);
    let content: i64 = chrome + first + second + third + fourth;
    let max_scroll: i64 = max_i64(content - available, 0);
    let requested: i64 = requested_scroll_position as i64;
    let scroll: i64 = if requested < 0 {
        0
    } else if requested > max_scroll {
        max_scroll
    } else {
        requested
    };
    assert(scroll == layout.scroll);
    assert(page@ == layout.page);
    assert(columns@ == layout.columns);

    let top: i64 = page.margin - scroll;
    let selector = place(
        page.margin,
        top,
        columns.selector,
        page.header * 8,
        Ghost(layout.selector()),
    );
    let model = place(
        columns.model_left,
        top + page.text_inset,
        page.margin + columns.content - columns.model_left,
        page.text_line,
        Ghost(layout.model()),
    );
    let status = place(
        page.margin,
        top + page.header,
        columns.content,
        page.status,
        Ghost(layout.status()),
    );
    let engine_row_0: i64 = top + page.header + page.status + page.margin;
    let engine_row_1: i64 = engine_row_0 + (page.header + page.caption_gap + first + page.margin);
    let combo_gap: i64 = min_i64(page.margin, columns.column);
    let combo_width: i64 = min_i64(columns.column * 3 / 4, columns.column - combo_gap);
    let mut engine_selectors: [Rect; 4] = [Rect::empty(), Rect::empty(), Rect::empty(),
        Rect::empty()];
    let mut engine_percentages: [Rect; 4] = [Rect::empty(), Rect::empty(), Rect::empty(),
        Rect::empty()];
    let mut engine_graphs: [Rect; 4] = [Rect::empty(), Rect::empty(), Rect::empty(),
        Rect::empty()];
    for slot in 0..4usize
        invariant
            page.all_bounded(),
            columns.all_bounded(),
            page@ == layout.page,
            columns@ == layout.columns,
            layout.heights.len() == 4,
            layout.heights[0] == first,
            layout.heights[1] == second,
            0 <= first <= i32::MAX,
            0 <= second <= i32::MAX,
            combo_gap == layout.combo_gap(),
            combo_width == layout.combo_width(),
            bounded(combo_gap as int),
            bounded(combo_width as int),
            engine_row_0 == engine_top(layout.page, layout.heights, layout.scroll, 0),
            engine_row_1 == engine_top(layout.page, layout.heights, layout.scroll, 1),
            -0x100_0000_0000 <= engine_row_0 <= 0x100_0000_0000,
            -0x200_0000_0000 <= engine_row_1 <= 0x200_0000_0000,
            layout.placeable(),
            forall|k: int|
                0 <= k < slot ==> layout.engine_selector(k).is_rect(
                    #[trigger] engine_selectors@[k],
                ),
            forall|k: int|
                0 <= k < slot ==> layout.engine_percentage(k).is_rect(
                    #[trigger] engine_percentages@[k],
                ),
            forall|k: int|
                0 <= k < slot ==> layout.engine_graph(k).is_rect(#[trigger] engine_graphs@[k]),
    {
        let x: i64 = if slot % 2 == 0 {
            page.margin
        } else {
            columns.second
        };
        let y: i64 = if slot / 2 == 0 {
            engine_row_0
        } else {
            engine_row_1
        };
        let height: i64 = if slot / 2 == 0 {
            first
        } else {
            second
        };
        assert(layout.engine_selector(slot as int).placeable());
        engine_selectors[slot] = place(
            x,
            y,
            combo_width,
            page.header * 8,
            Ghost(layout.engine_selector(slot as int)),
        );
        engine_percentages[slot] = place(
            x + combo_width + combo_gap,
            y + page.text_inset,
            columns.column - combo_width - combo_gap,
            page.text_line,
            Ghost(layout.engine_percentage(slot as int)),
        );
        engine_graphs[slot] = place(
            x,
            y + page.header + page.caption_gap,
            columns.column,
            height,
            Ghost(layout.engine_graph(slot as int)),
        );
    }
    let dedicated_y: i64 = engine_row_1 + page.header + page.caption_gap + second + page.margin;
    let shared_y: i64 = dedicated_y + page.status + page.caption_gap + third + page.margin;
    let details_y: i64 = shared_y + page.status + page.caption_gap + fourth + page.margin;
    let dedicated_caption = place(
        page.margin,
        dedicated_y,
        columns.content,
        page.status,
        Ghost(layout.dedicated_caption()),
    );
    let dedicated_graph = place(
        page.margin,
        dedicated_y + page.status + page.caption_gap,
        columns.content,
        third,
        Ghost(layout.dedicated_graph()),
    );
    let shared_caption = place(
        page.margin,
        shared_y,
        columns.content,
        page.status,
        Ghost(layout.shared_caption()),
    );
    let shared_graph = place(
        page.margin,
        shared_y + page.status + page.caption_gap,
        columns.content,
        fourth,
        Ghost(layout.shared_graph()),
    );
    let metrics_group = place(
        page.margin,
        details_y,
        columns.column,
        page.details,
        Ghost(layout.group(layout.page.margin)),
    );
    let details_group = place(
        columns.second,
        details_y,
        columns.column,
        page.details,
        Ghost(layout.group(layout.columns.second)),
    );
    let inner_margin: i64 = min_i64(page.margin, columns.column / 2);
    let inner_width: i64 = columns.column - inner_margin * 2;
    let row_height: i64 = if page.details > inner_margin * 2 {
        max_i64((page.details - inner_margin * 2) / 6, page.unit * 2)
    } else {
        page.unit * 2
    };
    assert(row_height == layout.row_height());
    let label_width: i64 = inner_width * 47 / 100;
    let value_width: i64 = inner_width - label_width;
    let mut metric_labels: [Rect; 5] = [Rect::empty(), Rect::empty(), Rect::empty(), Rect::empty(),
        Rect::empty()];
    let mut metric_values: [Rect; 5] = [Rect::empty(), Rect::empty(), Rect::empty(), Rect::empty(),
        Rect::empty()];
    let mut detail_labels: [Rect; 5] = [Rect::empty(), Rect::empty(), Rect::empty(), Rect::empty(),
        Rect::empty()];
    let mut detail_values: [Rect; 5] = [Rect::empty(), Rect::empty(), Rect::empty(), Rect::empty(),
        Rect::empty()];
    for row in 0..5usize
        invariant
            page.all_bounded(),
            columns.all_bounded(),
            page@ == layout.page,
            columns@ == layout.columns,
            inner_margin == layout.inner_margin(),
            row_height == layout.row_height(),
            label_width == layout.label_width(),
            value_width == layout.inner_width() - layout.label_width(),
            bounded(inner_margin as int),
            0 <= row_height <= 0x20_0000_0000,
            bounded(label_width as int),
            details_y == details_top(layout.page, layout.heights, layout.scroll),
            -0x1000_0000_0000 <= details_y <= 0x1000_0000_0000,
            layout.placeable(),
            forall|k: int|
                0 <= k < row ==> layout.label(layout.page.margin, k).is_rect(
                    #[trigger] metric_labels@[k],
                ),
            forall|k: int|
                0 <= k < row ==> layout.value(layout.page.margin, k).is_rect(
                    #[trigger] metric_values@[k],
                ),
            forall|k: int|
                0 <= k < row ==> layout.label(layout.columns.second, k).is_rect(
                    #[trigger] detail_labels@[k],
                ),
            forall|k: int|
                0 <= k < row ==> layout.value(layout.columns.second, k).is_rect(
                    #[trigger] detail_values@[k],
                ),
    {
        assert(0 <= row_height * (row + 1) <= 0x20_0000_0000 * 5) by (nonlinear_arith)
            requires
                0 <= row_height <= 0x20_0000_0000,
                0 <= row < 5,
        ;
        let row_y: i64 = details_y + inner_margin + row_height * (row as i64 + 1);
        assert(row_y == layout.row_y(row as int));
        assert(layout.label(layout.page.margin, row as int).placeable());
        metric_labels[row] = place(
            page.margin + inner_margin,
            row_y,
            label_width,
            row_height,
            Ghost(layout.label(layout.page.margin, row as int)),
        );
        metric_values[row] = place(
            page.margin + inner_margin + label_width,
            row_y,
            value_width,
            row_height,
            Ghost(layout.value(layout.page.margin, row as int)),
        );
        detail_labels[row] = place(
            columns.second + inner_margin,
            row_y,
            label_width,
            row_height,
            Ghost(layout.label(layout.columns.second, row as int)),
        );
        detail_values[row] = place(
            columns.second + inner_margin + label_width,
            row_y,
            value_width,
            row_height,
            Ghost(layout.value(layout.columns.second, row as int)),
        );
    }
    GpuLayoutPlan {
        selector,
        model,
        status,
        engine_selectors,
        engine_percentages,
        engine_graphs,
        dedicated_caption,
        dedicated_graph,
        shared_caption,
        shared_graph,
        metrics_group,
        details_group,
        metric_labels,
        metric_values,
        detail_labels,
        detail_values,
        content_height: content as i32,
        scroll_position: scroll as i32,
        needs_scrollbar: content > available,
    }
}

/// Whether every measure of a layout is small enough for all sums of them.
spec fn is_ordinary(layout: PageLayout) -> bool {
    &&& 0 <= layout.page.margin <= 0x20_0000
    &&& 0 <= layout.page.header <= 0x40_0000
    &&& 0 <= layout.page.status <= 0x40_0000
    &&& 0 <= layout.page.caption_gap <= 0x10_0000
    &&& 0 <= layout.page.text_inset <= 0x40_0000
    &&& 0 <= layout.page.text_line <= 0x10_0000
    &&& 0 <= layout.page.details <= 0x200_0000
    &&& 0 <= layout.page.unit <= 0x10_0000
    &&& 0 <= layout.columns.content <= 0x1000_0000
    &&& 0 <= layout.columns.gap <= 0x20_0000
    &&& 0 <= layout.columns.column <= 0x1000_0000
    &&& 0 <= layout.columns.second <= 0x1100_0000
    &&& 0 <= layout.columns.selector <= 0x1000_0000
    &&& 0 <= layout.columns.model_left <= 0x1100_0000
    &&& layout.heights.len() == 4
    &&& 0 <= layout.heights[0] <= 0x1000_0000
    &&& 0 <= layout.heights[1] <= 0x1000_0000
    &&& 0 <= layout.heights[2] <= 0x1000_0000
    &&& 0 <= layout.heights[3] <= 0x1000_0000
    &&& 0 <= layout.scroll <= 0x2000_0000
}

proof fn lemma_ordinary_is_placeable(layout: PageLayout)
    requires
        is_ordinary(layout),
    ensures
        layout.placeable(),
{
    let top = details_top(layout.page, layout.heights, layout.scroll);
    assert(-0x2000_0000 <= top <= 0x5000_0000);
    let row_height = layout.row_height();
    assert(0 <= row_height <= 0x100_0000) by {
        assert((layout.page.details - layout.inner_margin() * 2) / 6 <= 0x100_0000);
    }
    assert forall|slot: int| 0 <= slot < 4 implies #[trigger] layout.engine_selector(
        slot,
    ).placeable() && layout.engine_percentage(slot).placeable() && layout.engine_graph(
        slot,
    ).placeable() by {
        assert(slot / 2 == 0 || slot / 2 == 1);
        assert(-0x2000_0000 <= layout.slot_y(slot) <= 0x1800_0000);
        assert(0 <= layout.combo_gap() <= 0x20_0000);
        assert(-0x20_0000 <= layout.combo_width() <= 0x1000_0000);
    }
    assert forall|row: int| 0 <= row < 5 implies #[trigger] layout.label(
        layout.page.margin,
        row,
    ).placeable() && layout.value(layout.page.margin, row).placeable() && layout.label(
        layout.columns.second,
        row,
    ).placeable() && layout.value(layout.columns.second, row).placeable() by {
        assert(0 <= row_height * (row + 1) <= 0x100_0000 * 5) by (nonlinear_arith)
            requires
                0 <= row_height <= 0x100_0000,
                0 <= row < 5,
        ;
        assert(0 <= layout.inner_margin() <= 0x20_0000);
        assert(0 <= layout.inner_width() <= 0x1000_0000);
        assert(0 <= layout.label_width() <= 0x1000_0000);
    }
}

/// Any page up to a few hundred million pixels has a layout that can be represented.
pub proof fn ordinary_pages_have_a_layout(client: Rect, metrics: GpuLayoutMetrics, requested: int)
    requires
        metrics.well_formed(),
        client.spec_width() <= 0x1000_0000,
        client.spec_height() <= 0x1000_0000,
        metrics.base_x <= 0x10_0000,
        metrics.base_y <= 0x10_0000,
        metrics.text_line_height <= 0x10_0000,
        metrics.combo_visible_height <= 0x10_0000,
    ensures
        layout_fits(client, metrics, requested),
{
    graphs_share_the_rest(client, metrics);
    let layout = page_layout(client, metrics, requested);
    assert(chrome_height(layout.page) <= 0x800_0000);
    assert(is_ordinary(layout));
    lemma_ordinary_is_placeable(layout);
}

/// The parts of the page follow each other from top to bottom without overlap, the two columns
/// lie side by side, and nothing reaches over the right margin.
pub proof fn sections_stay_apart(
    plan: GpuLayoutPlan,
    client: Rect,
    metrics: GpuLayoutMetrics,
    requested: int,
)
    requires
        metrics.well_formed(),
        is_layout(plan, client, metrics, requested),
    ensures
        plan.model.top >= plan.selector.top,
        plan.status.top >= plan.selector.top + metrics.combo_visible_height,
        plan.engine_graphs[0].top == plan.engine_graphs[1].top,
        plan.engine_graphs[2].top == plan.engine_graphs[3].top,
        plan.status.bottom < plan.engine_selectors[0].top,
        plan.engine_graphs[0].bottom < plan.engine_selectors[2].top,
        plan.engine_graphs[1].bottom < plan.engine_selectors[3].top,
        plan.engine_graphs[2].bottom < plan.dedicated_caption.top,
        plan.engine_graphs[3].bottom < plan.dedicated_caption.top,
        plan.dedicated_graph.bottom < plan.shared_caption.top,
        plan.shared_graph.bottom < plan.metrics_group.top,
        plan.metrics_group.top == plan.details_group.top,
        plan.metrics_group.bottom == plan.details_group.bottom,
        ({
            let page = measures(metrics);
            let gap = page_columns(client, page).gap;
            let room = max_of(client.spec_width(), 0) - 2 * page.margin;
            &&& plan.engine_graphs[0].right + gap == plan.engine_graphs[1].left
            &&& plan.engine_graphs[2].right + gap == plan.engine_graphs[3].left
            &&& plan.metrics_group.right + gap == plan.details_group.left
            &&& room > 0 ==> gap > 0 && plan.shared_graph.right == client.spec_width()
                - page.margin && plan.dedicated_graph.right == plan.shared_graph.right
                && plan.details_group.right <= client.spec_width() - page.margin
                && plan.engine_graphs[1].right <= client.spec_width() - page.margin
        }),
{
    graphs_share_the_rest(client, metrics);
    let layout = page_layout(client, metrics, requested);
    assert(plan.engine_graphs@[0] == plan.engine_graphs[0]);
    assert(plan.engine_graphs@[1] == plan.engine_graphs[1]);
    assert(plan.engine_graphs@[2] == plan.engine_graphs[2]);
    assert(plan.engine_graphs@[3] == plan.engine_graphs[3]);
    assert(plan.engine_selectors@[0] == plan.engine_selectors[0]);
    assert(plan.engine_selectors@[2] == plan.engine_selectors[2]);
    assert(plan.engine_selectors@[3] == plan.engine_selectors[3]);
}

/// Captions end before their graphs begin, as long as a line of text is not higher than a
/// caption with the space below it.
pub proof fn captions_end_before_graphs(
    plan: GpuLayoutPlan,
    client: Rect,
    metrics: GpuLayoutMetrics,
    requested: int,
    slot: int,
)
    requires
        metrics.well_formed(),
        is_layout(plan, client, metrics, requested),
        0 <= slot < 4,
        metrics.text_line_height < measures(metrics).header + measures(metrics).caption_gap,
    ensures
        plan.engine_selectors[slot].top + metrics.combo_visible_height
            < plan.engine_graphs[slot].top,
        plan.engine_percentages[slot].bottom < plan.engine_graphs[slot].top,
        plan.dedicated_caption.bottom < plan.dedicated_graph.top,
        plan.shared_caption.bottom < plan.shared_graph.top,
{
    graphs_share_the_rest(client, metrics);
    assert(plan.engine_graphs@[slot] == plan.engine_graphs[slot]);
    assert(plan.engine_selectors@[slot] == plan.engine_selectors[slot]);
    assert(plan.engine_percentages@[slot] == plan.engine_percentages[slot]);
}

/// The scroll position stays inside the content. The details end one margin above the end of
/// the content: at the bottom of the page where nothing has to be scrolled, and where everything
/// has been scrolled.
pub proof fn scrolling_reaches_the_end(
    plan: GpuLayoutPlan,
    client: Rect,
    metrics: GpuLayoutMetrics,
    requested: int,
)
    requires
        metrics.well_formed(),
        is_layout(plan, client, metrics, requested),
    ensures
        0 <= plan.scroll_position <= max_of(
            plan.content_height - max_of(client.spec_height(), 0),
            0,
        ),
        !plan.needs_scrollbar ==> plan.scroll_position == 0,
        plan.details_group.bottom == plan.content_height - measures(metrics).margin
            - plan.scroll_position,
        plan.selector.top == measures(metrics).margin - plan.scroll_position,
        !plan.needs_scrollbar || (plan.needs_scrollbar && requested >= plan.content_height)
            ==> plan.details_group.bottom == max_of(client.spec_height(), 0) - measures(
            metrics,
        ).margin,
{
    graphs_share_the_rest(client, metrics);
    let heights = graph_heights(client, metrics);
    lemma_four(heights);
}

} // verus!
