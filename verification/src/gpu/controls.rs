//! The controls of the page: where they stand, which graphs they are, and how it scrolls.
use vstd::prelude::*;

use super::adapter_history::{MEMORY_DEDICATED_GRAPH_INDEX, MEMORY_SHARED_GRAPH_INDEX};
use super::layout::{GpuLayoutMetrics, GpuLayoutPlan, DETAIL_ROW_COUNT, ENGINE_SLOT_COUNT};
use super::page::GpuPageState;
use crate::rect::{max_i64, max_of, min_of, Rect};
use crate::resource::{
    IDC_GPU_DEDICATED_CAPTION, IDC_GPU_DEDICATED_GRAPH, IDC_GPU_DEDICATED_MEMORY_LABEL,
    IDC_GPU_DEDICATED_MEMORY_VALUE, IDC_GPU_DETAILS_GROUP, IDC_GPU_DIRECTX_LABEL,
    IDC_GPU_DIRECTX_VALUE, IDC_GPU_DRIVER_DATE_LABEL, IDC_GPU_DRIVER_DATE_VALUE,
    IDC_GPU_DRIVER_VERSION_LABEL, IDC_GPU_DRIVER_VERSION_VALUE, IDC_GPU_ENGINE_GRAPH_FIRST,
    IDC_GPU_ENGINE_PERCENT_FIRST, IDC_GPU_ENGINE_SELECTOR_FIRST, IDC_GPU_LOCATION_LABEL,
    IDC_GPU_LOCATION_VALUE, IDC_GPU_METRICS_GROUP, IDC_GPU_MODEL, IDC_GPU_RESERVED_MEMORY_LABEL,
    IDC_GPU_RESERVED_MEMORY_VALUE, IDC_GPU_SELECTOR, IDC_GPU_SHARED_CAPTION, IDC_GPU_SHARED_GRAPH,
    IDC_GPU_SHARED_MEMORY_LABEL, IDC_GPU_SHARED_MEMORY_VALUE, IDC_GPU_STATUS,
    IDC_GPU_TEMPERATURE_LABEL, IDC_GPU_TEMPERATURE_VALUE, IDC_GPU_TOTAL_MEMORY_LABEL,
    IDC_GPU_TOTAL_MEMORY_VALUE, IDC_GPU_UTILIZATION_LABEL, IDC_GPU_UTILIZATION_VALUE,
};
use crate::win32::ERROR_INVALID_DATA;

verus! {

pub const SB_LINEUP: i32 = 0;

pub const SB_LINEDOWN: i32 = 1;

pub const SB_PAGEUP: i32 = 2;

pub const SB_PAGEDOWN: i32 = 3;

pub const SB_THUMBPOSITION: i32 = 4;

pub const SB_THUMBTRACK: i32 = 5;

pub const SB_TOP: i32 = 6;

pub const SB_BOTTOM: i32 = 7;

pub const SB_ENDSCROLL: i32 = 8;

/// How far one line scrolls.
pub const SCROLL_LINE: i32 = 24;

/// How far one turn of the wheel counts.
pub const WHEEL_STEP: i32 = 120;

pub open spec fn graph_of(control_id: int) -> Option<int> {
    if 0 <= control_id - IDC_GPU_ENGINE_GRAPH_FIRST < ENGINE_SLOT_COUNT {
        Some(control_id - IDC_GPU_ENGINE_GRAPH_FIRST)
    } else if control_id == IDC_GPU_DEDICATED_GRAPH {
        Some(MEMORY_DEDICATED_GRAPH_INDEX as int)
    } else if control_id == IDC_GPU_SHARED_GRAPH {
        Some(MEMORY_SHARED_GRAPH_INDEX as int)
    } else {
        None
    }
}

/// Which graph a control is.
pub fn graph_index(control_id: i32) -> (index: Option<usize>)
    ensures
        match graph_of(control_id as int) {
            Some(graph) => index == Some(graph as usize) && graph as usize == graph,
            None => index is None,
        },
{
    if IDC_GPU_ENGINE_GRAPH_FIRST <= control_id && control_id < IDC_GPU_ENGINE_GRAPH_FIRST + 4 {
        Some((control_id - IDC_GPU_ENGINE_GRAPH_FIRST) as usize)
    } else if control_id == IDC_GPU_DEDICATED_GRAPH {
        Some(MEMORY_DEDICATED_GRAPH_INDEX)
    } else if control_id == IDC_GPU_SHARED_GRAPH {
        Some(MEMORY_SHARED_GRAPH_INDEX)
    } else {
        None
    }
}

/// Two controls are never the same graph.
pub proof fn graphs_are_told_apart(first: int, second: int)
    requires
        first != second,
        graph_of(first) is Some,
    ensures
        graph_of(first) != graph_of(second),
{
}

/// The height of a control, which has to have one.
pub fn control_height(rect: Rect) -> (outcome: Result<i32, u32>)
    ensures
        ({
            let height = rect.bottom - rect.top;
            outcome == if 0 < height <= i32::MAX {
                Ok::<i32, u32>(height as i32)
            } else {
                Err(ERROR_INVALID_DATA)
            }
        }),
{
    let height: i64 = rect.bottom as i64 - rect.top as i64;
    if 0 < height && height <= i32::MAX as i64 {
        Ok(height as i32)
    } else {
        Err(ERROR_INVALID_DATA)
    }
}

pub open spec fn largest(values: Seq<i32>) -> int
    decreases values.len(),
{
    if values.len() == 0 {
        0
    } else {
        max_of(largest(values.drop_last()), values.last() as int)
    }
}

/// The measures of the page: of the dialog units, given what a rectangle of four by eight of them
/// comes to, of the two kinds of choices, and of the texts.
pub fn capture_layout_metrics(
    dialog_units: Rect,
    selector_height: i32,
    engine_selector_height: i32,
    text_heights: &Vec<i32>,
) -> (outcome: Result<GpuLayoutMetrics, u32>)
    requires
        dialog_units.right - dialog_units.left <= i32::MAX - 3,
        dialog_units.bottom - dialog_units.top <= i32::MAX - 7,
    ensures
        ({
            let width = dialog_units.right - dialog_units.left;
            let height = dialog_units.bottom - dialog_units.top;
            if width <= 0 || height <= 0 {
                outcome == Err::<GpuLayoutMetrics, u32>(ERROR_INVALID_DATA)
            } else {
                &&& outcome matches Ok(metrics)
                &&& metrics.well_formed()
                &&& metrics.base_x == (width + 3) / 4
                &&& metrics.base_y == (height + 7) / 8
                &&& metrics.text_line_height == max_of(largest(text_heights@), 1)
                &&& metrics.combo_visible_height == max_of(
                    max_of(selector_height as int, engine_selector_height as int),
                    1,
                )
            }
        }),
{
    let width: i64 = dialog_units.right as i64 - dialog_units.left as i64;
    let height: i64 = dialog_units.bottom as i64 - dialog_units.top as i64;
    if width <= 0 || height <= 0 {
        return Err(ERROR_INVALID_DATA);
    }
    let base_x: i32 = ((width + 3) / 4) as i32;
    let base_y: i32 = ((height + 7) / 8) as i32;
    let combo: i32 = if selector_height >= engine_selector_height {
        selector_height
    } else {
        engine_selector_height
    };
    let mut text: i32 = 0;
    assert(text_heights@.take(0) =~= Seq::<i32>::empty());
    for index in 0..text_heights.len()
        invariant
            text == largest(text_heights@.take(index as int)),
    {
        assert(text_heights@.take(index + 1).drop_last() =~= text_heights@.take(index as int));
        if text_heights[index] > text {
            text = text_heights[index];
        }
    }
    assert(text_heights@.take(text_heights@.len() as int) =~= text_heights@);
    Ok(GpuLayoutMetrics::new(base_x, base_y, text, combo))
}

/// The labels and values of the measured rows.
pub open spec fn metric_row(index: int) -> (i32, i32) {
    if index == 0 {
        (IDC_GPU_UTILIZATION_LABEL, IDC_GPU_UTILIZATION_VALUE)
    } else if index == 1 {
        (IDC_GPU_TOTAL_MEMORY_LABEL, IDC_GPU_TOTAL_MEMORY_VALUE)
    } else if index == 2 {
        (IDC_GPU_DEDICATED_MEMORY_LABEL, IDC_GPU_DEDICATED_MEMORY_VALUE)
    } else if index == 3 {
        (IDC_GPU_SHARED_MEMORY_LABEL, IDC_GPU_SHARED_MEMORY_VALUE)
    } else {
        (IDC_GPU_TEMPERATURE_LABEL, IDC_GPU_TEMPERATURE_VALUE)
    }
}

/// The labels and values of the descriptive rows.
pub open spec fn detail_row(index: int) -> (i32, i32) {
    if index == 0 {
        (IDC_GPU_DRIVER_VERSION_LABEL, IDC_GPU_DRIVER_VERSION_VALUE)
    } else if index == 1 {
        (IDC_GPU_DRIVER_DATE_LABEL, IDC_GPU_DRIVER_DATE_VALUE)
    } else if index == 2 {
        (IDC_GPU_DIRECTX_LABEL, IDC_GPU_DIRECTX_VALUE)
    } else if index == 3 {
        (IDC_GPU_LOCATION_LABEL, IDC_GPU_LOCATION_VALUE)
    } else {
        (IDC_GPU_RESERVED_MEMORY_LABEL, IDC_GPU_RESERVED_MEMORY_VALUE)
    }
}

fn metric_row_controls(index: usize) -> (row: (i32, i32))
    ensures
        row == metric_row(index as int),
{
    match index {
        0 => (IDC_GPU_UTILIZATION_LABEL, IDC_GPU_UTILIZATION_VALUE),
        1 => (IDC_GPU_TOTAL_MEMORY_LABEL, IDC_GPU_TOTAL_MEMORY_VALUE),
        2 => (IDC_GPU_DEDICATED_MEMORY_LABEL, IDC_GPU_DEDICATED_MEMORY_VALUE),
        3 => (IDC_GPU_SHARED_MEMORY_LABEL, IDC_GPU_SHARED_MEMORY_VALUE),
        _ => (IDC_GPU_TEMPERATURE_LABEL, IDC_GPU_TEMPERATURE_VALUE),
    }
}

fn detail_row_controls(index: usize) -> (row: (i32, i32))
    ensures
        row == detail_row(index as int),
{
    match index {
        0 => (IDC_GPU_DRIVER_VERSION_LABEL, IDC_GPU_DRIVER_VERSION_VALUE),
        1 => (IDC_GPU_DRIVER_DATE_LABEL, IDC_GPU_DRIVER_DATE_VALUE),
        2 => (IDC_GPU_DIRECTX_LABEL, IDC_GPU_DIRECTX_VALUE),
        3 => (IDC_GPU_LOCATION_LABEL, IDC_GPU_LOCATION_VALUE),
        _ => (IDC_GPU_RESERVED_MEMORY_LABEL, IDC_GPU_RESERVED_MEMORY_VALUE),
    }
}

/// The controls of one slot, with their places.
pub open spec fn slot_placements(layout: GpuLayoutPlan, slot: int) -> Seq<(i32, Rect)> {
    seq![
        (
            (IDC_GPU_ENGINE_SELECTOR_FIRST + slot) as i32,
            layout.engine_selectors@[slot],
        ),
        (
            (IDC_GPU_ENGINE_PERCENT_FIRST + slot) as i32,
            layout.engine_percentages@[slot],
        ),
        ((IDC_GPU_ENGINE_GRAPH_FIRST + slot) as i32, layout.engine_graphs@[slot]),
    ]
}

/// The controls of a measured and of a descriptive row, with their places.
pub open spec fn row_placements(layout: GpuLayoutPlan, index: int) -> Seq<(i32, Rect)> {
    seq![
        (metric_row(index).0, layout.metric_labels@[index]),
        (metric_row(index).1, layout.metric_values@[index]),
        (detail_row(index).0, layout.detail_labels@[index]),
        (detail_row(index).1, layout.detail_values@[index]),
    ]
}

pub open spec fn slots_placements(layout: GpuLayoutPlan, count: int) -> Seq<(i32, Rect)>
    decreases count,
{
    if count <= 0 {
        Seq::empty()
    } else {
        slots_placements(layout, count - 1) + slot_placements(layout, count - 1)
    }
}

pub open spec fn rows_placements(layout: GpuLayoutPlan, count: int) -> Seq<(i32, Rect)>
    decreases count,
{
    if count <= 0 {
        Seq::empty()
    } else {
        rows_placements(layout, count - 1) + row_placements(layout, count - 1)
    }
}

pub open spec fn head_placements(layout: GpuLayoutPlan) -> Seq<(i32, Rect)> {
    seq![
        (IDC_GPU_SELECTOR, layout.selector),
        (IDC_GPU_MODEL, layout.model),
        (IDC_GPU_STATUS, layout.status),
    ]
}

pub open spec fn memory_placements(layout: GpuLayoutPlan) -> Seq<(i32, Rect)> {
    seq![
        (IDC_GPU_DEDICATED_CAPTION, layout.dedicated_caption),
        (IDC_GPU_DEDICATED_GRAPH, layout.dedicated_graph),
        (IDC_GPU_SHARED_CAPTION, layout.shared_caption),
        (IDC_GPU_SHARED_GRAPH, layout.shared_graph),
        (IDC_GPU_METRICS_GROUP, layout.metrics_group),
        (IDC_GPU_DETAILS_GROUP, layout.details_group),
    ]
}

/// Where every control of the page stands.
pub fn layout_placements(layout: &GpuLayoutPlan) -> (placements: Vec<(i32, Rect)>)
    ensures
        placements@ == head_placements(*layout) + slots_placements(*layout, 4) + memory_placements(
            *layout,
        ) + rows_placements(*layout, 5),
        placements@.len() == 41,
{
    let mut placements: Vec<(i32, Rect)> = Vec::new();
    placements.push((IDC_GPU_SELECTOR, layout.selector));
    placements.push((IDC_GPU_MODEL, layout.model));
    placements.push((IDC_GPU_STATUS, layout.status));
    let ghost head = head_placements(*layout);
    assert(placements@ =~= head + slots_placements(*layout, 0));
    for slot in 0..ENGINE_SLOT_COUNT
        invariant
            placements@ == head + slots_placements(*layout, slot as int),
            placements@.len() == 3 + 3 * slot,
    {
        let ghost before = placements@;
        let offset: i32 = slot as i32;
        placements.push((IDC_GPU_ENGINE_SELECTOR_FIRST + offset, layout.engine_selectors[slot]));
        placements.push((IDC_GPU_ENGINE_PERCENT_FIRST + offset, layout.engine_percentages[slot]));
        placements.push((IDC_GPU_ENGINE_GRAPH_FIRST + offset, layout.engine_graphs[slot]));
        assert(placements@ =~= before + slot_placements(*layout, slot as int));
        assert(placements@ =~= head + (slots_placements(*layout, slot as int) + slot_placements(
            *layout,
            slot as int,
        )));
    }
    let ghost upper = placements@;
    placements.push((IDC_GPU_DEDICATED_CAPTION, layout.dedicated_caption));
    placements.push((IDC_GPU_DEDICATED_GRAPH, layout.dedicated_graph));
    placements.push((IDC_GPU_SHARED_CAPTION, layout.shared_caption));
    placements.push((IDC_GPU_SHARED_GRAPH, layout.shared_graph));
    placements.push((IDC_GPU_METRICS_GROUP, layout.metrics_group));
    placements.push((IDC_GPU_DETAILS_GROUP, layout.details_group));
    assert(placements@ =~= upper + memory_placements(*layout));
    let ghost middle = placements@;
    assert(placements@ =~= middle + rows_placements(*layout, 0));
    for index in 0..DETAIL_ROW_COUNT
        invariant
            placements@ == middle + rows_placements(*layout, index as int),
            placements@.len() == 21 + 4 * index,
    {
        let ghost before = placements@;
        let metric = metric_row_controls(index);
        let detail = detail_row_controls(index);
        placements.push((metric.0, layout.metric_labels[index]));
        placements.push((metric.1, layout.metric_values[index]));
        placements.push((detail.0, layout.detail_labels[index]));
        placements.push((detail.1, layout.detail_values[index]));
        assert(placements@ =~= before + row_placements(*layout, index as int));
        assert(placements@ =~= middle + (rows_placements(*layout, index as int) + row_placements(
            *layout,
            index as int,
        )));
    }
    placements
}

/// What the scroll bar shows.
#[derive(Clone, Copy, Debug, PartialEq, Eq, Structural)]
pub struct ScrollRange {
    pub max: i32,
    pub page: u32,
    pub position: i32,
}

/// How far the page scrolls at once.
pub open spec fn page_step(n_page: u32) -> int {
    max_of(min_of(n_page as int, i32::MAX as int), SCROLL_LINE as int)
}

/// How far the page can be scrolled.
pub open spec fn max_scroll(content_height: i32, n_page: u32) -> int {
    max_of(content_height - page_step(n_page), 0)
}

/// Where a command of the scroll bar leads, before the limits are kept.
pub open spec fn scroll_request(
    command: i32,
    position: i32,
    content_height: i32,
    n_page: u32,
    track_position: i32,
) -> int {
    if command == SB_TOP {
        0
    } else if command == SB_BOTTOM {
        content_height as int
    } else if command == SB_LINEUP {
        position - SCROLL_LINE
    } else if command == SB_LINEDOWN {
        position + SCROLL_LINE
    } else if command == SB_PAGEUP {
        position - page_step(n_page)
    } else if command == SB_PAGEDOWN {
        position + page_step(n_page)
    } else if command == SB_THUMBPOSITION || command == SB_THUMBTRACK {
        track_position as int
    } else {
        position as int
    }
}

pub open spec fn clamped(value: int, limit: int) -> int {
    if value < 0 {
        0
    } else if value > limit {
        limit
    } else {
        value
    }
}

impl GpuPageState {
    pub fn is_graph_control(&self, control_id: i32) -> (is_graph: bool)
        ensures
            is_graph == (graph_of(control_id as int) is Some),
    {
        graph_index(control_id).is_some()
    }

    /// Takes over a layout, and tells what the scroll bar shows.
    pub fn apply_layout(&mut self, layout: &GpuLayoutPlan, client: Rect) -> (range: ScrollRange)
        requires
            client.bottom - client.top <= i32::MAX,
        ensures
            *final(self) == (GpuPageState {
                content_height: layout.content_height,
                page_scroll_position: layout.scroll_position,
                ..*old(self)
            }),
            range.max == max_of(layout.content_height - 1, 0),
            range.page == max_of(client.bottom - client.top, 0),
            range.position == layout.scroll_position,
    {
        self.content_height = layout.content_height;
        self.page_scroll_position = layout.scroll_position;
        let available: i64 = max_i64(client.bottom as i64 - client.top as i64, 0);
        ScrollRange {
            max: max_i64(self.content_height as i64 - 1, 0) as i32,
            page: available as u32,
            position: self.page_scroll_position,
        }
    }

    /// Where a command of the scroll bar leads. The end of a movement leads nowhere.
    pub fn handle_vscroll(&self, command: i32, n_page: u32, track_position: i32) -> (next: Option<
        i32,
    >)
        ensures
            next == if command == SB_ENDSCROLL {
                None
            } else {
                Some(
                    clamped(
                        scroll_request(
                            command,
                            self.page_scroll_position,
                            self.content_height,
                            n_page,
                            track_position,
                        ),
                        max_scroll(self.content_height, n_page),
                    ) as i32,
                )
            },
            next matches Some(next) ==> 0 <= next <= max_scroll(self.content_height, n_page),
    {
        let position: i64 = self.page_scroll_position as i64;
        let content: i64 = self.content_height as i64;
        let visible: i64 = if n_page <= i32::MAX as u32 {
            n_page as i64
        } else {
            i32::MAX as i64
        };
        let page: i64 = max_i64(visible, SCROLL_LINE as i64);
        let next: i64 = if command == SB_TOP {
            0
        } else if command == SB_BOTTOM {
            content
        } else if command == SB_LINEUP {
            position - SCROLL_LINE as i64
        } else if command == SB_LINEDOWN {
            position + SCROLL_LINE as i64
        } else if command == SB_PAGEUP {
            position - page
        } else if command == SB_PAGEDOWN {
            position + page
        } else if command == SB_THUMBPOSITION || command == SB_THUMBTRACK {
            track_position as i64
        } else if command == SB_ENDSCROLL {
            return None;
        } else {
            position
        };
        let limit: i64 = max_i64(content - page, 0);
        let next: i64 = if next < 0 {
            0
        } else if next > limit {
            limit
        } else {
            next
        };
        Some(next as i32)
    }
}

/// What a turn of the wheel stands for: a command of the scroll bar, and how often it is given.
/// A turn of nothing is not for the page.
pub fn handle_mouse_wheel(delta: i16) -> (scroll: Option<(i32, u32)>)
    ensures
        ({
            let turns = if delta >= 0 {
                delta as int / WHEEL_STEP as int
            } else {
                -((-delta) / WHEEL_STEP as int)
            };
            let steps = if turns > 3 {
                3
            } else if turns < -3 {
                -3
            } else {
                turns
            };
            scroll == if delta == 0 {
                None
            } else if steps > 0 {
                Some((SB_LINEUP, steps as u32))
            } else {
                Some((SB_LINEDOWN, (-steps) as u32))
            }
        }),
{
    if delta == 0 {
        return None;
    }
    let wide: i32 = delta as i32;
    if wide > 0 {
        let turns: i32 = wide / WHEEL_STEP;
        let steps: u32 = if turns > 3 {
            3
        } else {
            turns as u32
        };
        if steps > 0 {
            Some((SB_LINEUP, steps))
        } else {
            Some((SB_LINEDOWN, 0))
        }
    } else {
        let turns: i32 = -wide / WHEEL_STEP;
        let steps: u32 = if turns > 3 {
            3
        } else {
            turns as u32
        };
        Some((SB_LINEDOWN, steps))
    }
}

} // verus!
