//! How the controls of the page lie beside each other, how it scrolls, and what it draws.
use vstd::prelude::*;

use super::adapter_history::{shown_history, AdapterHistory};
use super::controls::{
    clamped, detail_row, head_placements, largest, max_scroll, memory_placements, metric_row,
    page_step, row_placements, rows_placements, scroll_request, slot_placements, slots_placements,
    SB_BOTTOM, SB_LINEDOWN, SB_LINEUP, SB_PAGEDOWN, SB_PAGEUP, SB_THUMBPOSITION, SB_THUMBTRACK,
    SB_TOP,
};
use super::graph_heights::grown;
use super::graphs::{graph_layout, graph_target, text_of_status, StatusTexts};
use super::layout::{
    is_layout, measures, page_columns, page_layout, GpuLayoutMetrics, GpuLayoutPlan, PageLayout,
};
use super::model::{GpuAdapterId, GpuEngineId};
use super::status::GpuPageStatus;
use crate::perf_drawing::ChartColor;
use crate::rect::Rect;
use crate::resource::{
    IDC_GPU_DEDICATED_CAPTION, IDC_GPU_DEDICATED_GRAPH, IDC_GPU_DEDICATED_MEMORY_LABEL,
    IDC_GPU_DEDICATED_MEMORY_VALUE, IDC_GPU_DIRECTX_LABEL, IDC_GPU_DIRECTX_VALUE,
    IDC_GPU_DRIVER_DATE_LABEL, IDC_GPU_DRIVER_DATE_VALUE, IDC_GPU_DRIVER_VERSION_LABEL,
    IDC_GPU_DRIVER_VERSION_VALUE, IDC_GPU_ENGINE_GRAPH_FIRST, IDC_GPU_ENGINE_PERCENT_FIRST,
    IDC_GPU_ENGINE_SELECTOR_FIRST, IDC_GPU_LOCATION_LABEL, IDC_GPU_LOCATION_VALUE, IDC_GPU_MODEL,
    IDC_GPU_RESERVED_MEMORY_LABEL, IDC_GPU_RESERVED_MEMORY_VALUE, IDC_GPU_SELECTOR,
    IDC_GPU_SHARED_CAPTION, IDC_GPU_SHARED_GRAPH, IDC_GPU_SHARED_MEMORY_LABEL,
    IDC_GPU_SHARED_MEMORY_VALUE, IDC_GPU_STATUS, IDC_GPU_TEMPERATURE_LABEL,
    IDC_GPU_TEMPERATURE_VALUE, IDC_GPU_TOTAL_MEMORY_LABEL, IDC_GPU_TOTAL_MEMORY_VALUE,
    IDC_GPU_UTILIZATION_LABEL, IDC_GPU_UTILIZATION_VALUE,
};

verus! {

proof fn lemma_column_parts(layout: PageLayout)
    requires
        layout.columns.column >= 0,
        layout.page.margin >= 0,
    ensures
        0 <= layout.inner_margin() <= layout.columns.column / 2,
        layout.inner_width() >= 0,
        0 <= layout.label_width() <= layout.inner_width(),
        0 <= layout.combo_gap() <= layout.columns.column,
        0 <= layout.combo_width() <= layout.columns.column - layout.combo_gap(),
{
}

/// A value stands right behind its label and reaches to the margin inside its group; the rows
/// follow each other without overlap.
pub proof fn values_stand_behind_their_labels(
    plan: GpuLayoutPlan,
    client: Rect,
    metrics: GpuLayoutMetrics,
    requested: int,
    row: int,
)
    requires
        metrics.well_formed(),
        is_layout(plan, client, metrics, requested),
        0 <= row < 5,
    ensures
        plan.metric_values@[row].left == plan.metric_labels@[row].right,
        plan.detail_values@[row].left == plan.detail_labels@[row].right,
        plan.metric_values@[row].top == plan.metric_labels@[row].top,
        plan.metric_values@[row].bottom == plan.metric_labels@[row].bottom,
        plan.detail_values@[row].top == plan.metric_values@[row].top,
        plan.detail_values@[row].bottom == plan.metric_values@[row].bottom,
        plan.metric_values@[row].right + (plan.metric_labels@[row].left - plan.metrics_group.left)
            == plan.metrics_group.right,
        plan.detail_values@[row].right + (plan.detail_labels@[row].left - plan.details_group.left)
            == plan.details_group.right,
        row < 4 ==> plan.metric_labels@[row].bottom == plan.metric_labels@[row + 1].top,
        plan.metric_labels@[row].top > plan.metrics_group.top,
{
    let layout = page_layout(client, metrics, requested);
    assert(layout.columns == page_columns(client, measures(metrics)));
    lemma_column_parts(layout);
    assert(layout.label(layout.page.margin, row).is_rect(plan.metric_labels@[row]));
    assert(layout.value(layout.page.margin, row).is_rect(plan.metric_values@[row]));
    assert(layout.label(layout.columns.second, row).is_rect(plan.detail_labels@[row]));
    assert(layout.value(layout.columns.second, row).is_rect(plan.detail_values@[row]));
    let height = layout.row_height();
    assert(height > 0);
    assert(height * (row + 1) + height == height * (row + 2) && height * (row + 1) >= height)
        by (nonlinear_arith)
        requires
            row >= 0,
            height > 0,
    ;
    if row < 4 {
        assert(layout.label(layout.page.margin, row + 1).is_rect(plan.metric_labels@[row + 1]));
    }
}

/// The choice of an engine starts where its graph does, and its percentage ends where its graph
/// does, with a space between them.
pub proof fn engines_are_chosen_above_their_graphs(
    plan: GpuLayoutPlan,
    client: Rect,
    metrics: GpuLayoutMetrics,
    requested: int,
    slot: int,
)
    requires
        metrics.well_formed(),
        is_layout(plan, client, metrics, requested),
        0 <= slot < 4,
    ensures
        plan.engine_selectors@[slot].left == plan.engine_graphs@[slot].left,
        plan.engine_percentages@[slot].right == plan.engine_graphs@[slot].right,
        plan.engine_selectors@[slot].right <= plan.engine_percentages@[slot].left,
        plan.engine_graphs@[slot].right - plan.engine_graphs@[slot].left
            == plan.engine_graphs@[0].right - plan.engine_graphs@[0].left,
        slot == 0 || slot == 2 ==> plan.engine_graphs@[slot].left == plan.selector.left,
        slot == 1 || slot == 3 ==> plan.engine_graphs@[slot].left == plan.details_group.left,
{
    let layout = page_layout(client, metrics, requested);
    lemma_column_parts(layout);
    assert(layout.engine_selector(slot).is_rect(plan.engine_selectors@[slot]));
    assert(layout.engine_percentage(slot).is_rect(plan.engine_percentages@[slot]));
    assert(layout.engine_graph(slot).is_rect(plan.engine_graphs@[slot]));
    assert(layout.engine_graph(0).is_rect(plan.engine_graphs@[0]));
}

/// The name of the adapter stands behind the choice and ends where the page does.
pub proof fn name_stands_behind_the_choice(
    plan: GpuLayoutPlan,
    client: Rect,
    metrics: GpuLayoutMetrics,
    requested: int,
)
    requires
        metrics.well_formed(),
        is_layout(plan, client, metrics, requested),
    ensures
        plan.selector.right <= plan.model.left,
        plan.model.right == plan.status.right,
        plan.status.left == plan.selector.left,
        plan.dedicated_graph.left == plan.status.left,
        plan.dedicated_graph.right == plan.status.right,
        plan.shared_graph.left == plan.status.left,
        plan.shared_graph.right == plan.status.right,
{
    let layout = page_layout(client, metrics, requested);
    let columns = layout.columns;
    assert(columns.content >= 0 && 0 <= columns.gap <= columns.content);
    assert(0 <= columns.selector <= columns.content);
    assert(columns.model_left <= layout.page.margin + columns.content);
}

/// What is to be shared out beyond the preferred heights is shared out evenly: no graph gets more
/// than one pixel more than another, and earlier ones no less than later ones.
pub proof fn spare_height_is_shared_evenly(heights: Seq<int>, extra: int, i: int, j: int)
    requires
        0 <= i <= j < heights.len(),
        extra >= 0,
    ensures
        ({
            let (first, second) = (
                grown(heights, extra)[i] - heights[i],
                grown(heights, extra)[j] - heights[j],
            );
            0 <= second <= first <= second + 1
        }),
{
    let count = heights.len() as int;
    assert(extra / count >= 0) by (nonlinear_arith)
        requires
            extra >= 0,
            count > 0,
    ;
}

/// Each command of the scroll bar leads where it says: by a line or a page up or down, to the ends,
/// or to where the thumb is.
pub proof fn commands_scroll_as_they_say(
    position: i32,
    content_height: i32,
    n_page: u32,
    track: i32,
)
    ensures
        scroll_request(SB_LINEUP, position, content_height, n_page, track) == position - 24,
        scroll_request(SB_LINEDOWN, position, content_height, n_page, track) == position + 24,
        scroll_request(SB_PAGEUP, position, content_height, n_page, track) == position - page_step(
            n_page,
        ),
        scroll_request(SB_PAGEDOWN, position, content_height, n_page, track) == position
            + page_step(n_page),
        scroll_request(SB_TOP, position, content_height, n_page, track) == 0,
        scroll_request(SB_BOTTOM, position, content_height, n_page, track) >= max_scroll(
            content_height,
            n_page,
        ) || content_height < 0,
        scroll_request(SB_THUMBPOSITION, position, content_height, n_page, track) == track,
        scroll_request(SB_THUMBTRACK, position, content_height, n_page, track) == track,
        page_step(n_page) >= 24,
        24 <= n_page <= i32::MAX ==> page_step(n_page) == n_page,
{
}

/// A request beyond the ends leads to the ends, and any other where it asks; the last position
/// shows the end of the content.
pub proof fn scrolling_stops_at_the_ends(value: int, content_height: i32, n_page: u32)
    ensures
        ({
            let limit = max_scroll(content_height, n_page);
            &&& limit >= 0
            &&& 0 <= clamped(value, limit) <= limit
            &&& 0 <= value <= limit ==> clamped(value, limit) == value
            &&& value < 0 ==> clamped(value, limit) == 0
            &&& value > limit ==> clamped(value, limit) == limit
            &&& content_height >= page_step(n_page) ==> limit + page_step(n_page) == content_height
            &&& content_height <= page_step(n_page) ==> limit == 0
        }),
{
}

/// The largest of some measures is one of them, or none if all are negative, and no other exceeds
/// it.
pub proof fn largest_exceeds_the_others(values: Seq<i32>)
    ensures
        forall|i: int| 0 <= i < values.len() ==> #[trigger] values[i] <= largest(values),
        largest(values) == 0 || exists|i: int|
            0 <= i < values.len() && #[trigger] values[i] == largest(values),
    decreases values.len(),
{
    if values.len() > 0 {
        let front = values.drop_last();
        let n = values.len() - 1;
        largest_exceeds_the_others(front);
        assert forall|i: int| 0 <= i < values.len() implies #[trigger] values[i] <= largest(
            values,
        ) by {
            if i < n {
                assert(front[i] == values[i]);
            }
        }
        if largest(values) != 0 {
            if largest(values) == values[n] {
                assert(values[n] == largest(values));
            } else {
                let i = choose|i: int|
                    0 <= i < front.len() && #[trigger] front[i] == largest(front);
                assert(values[i] == largest(values));
            }
        }
    }
}

/// Every row of the page has the label and the value of the same thing.
pub proof fn labels_and_values_belong_together()
    ensures
        metric_row(0) == (IDC_GPU_UTILIZATION_LABEL, IDC_GPU_UTILIZATION_VALUE),
        metric_row(1) == (IDC_GPU_TOTAL_MEMORY_LABEL, IDC_GPU_TOTAL_MEMORY_VALUE),
        metric_row(2) == (IDC_GPU_DEDICATED_MEMORY_LABEL, IDC_GPU_DEDICATED_MEMORY_VALUE),
        metric_row(3) == (IDC_GPU_SHARED_MEMORY_LABEL, IDC_GPU_SHARED_MEMORY_VALUE),
        metric_row(4) == (IDC_GPU_TEMPERATURE_LABEL, IDC_GPU_TEMPERATURE_VALUE),
        detail_row(0) == (IDC_GPU_DRIVER_VERSION_LABEL, IDC_GPU_DRIVER_VERSION_VALUE),
        detail_row(1) == (IDC_GPU_DRIVER_DATE_LABEL, IDC_GPU_DRIVER_DATE_VALUE),
        detail_row(2) == (IDC_GPU_DIRECTX_LABEL, IDC_GPU_DIRECTX_VALUE),
        detail_row(3) == (IDC_GPU_LOCATION_LABEL, IDC_GPU_LOCATION_VALUE),
        detail_row(4) == (IDC_GPU_RESERVED_MEMORY_LABEL, IDC_GPU_RESERVED_MEMORY_VALUE),
{
}

proof fn lemma_slots(layout: GpuLayoutPlan, count: int, slot: int)
    requires
        0 <= slot < count,
    ensures
        slots_placements(layout, count).contains(
            (
                (IDC_GPU_ENGINE_SELECTOR_FIRST + slot) as i32,
                layout.engine_selectors@[slot],
            ),
        ),
        slots_placements(layout, count).contains(
            ((IDC_GPU_ENGINE_PERCENT_FIRST + slot) as i32, layout.engine_percentages@[slot]),
        ),
        slots_placements(layout, count).contains(
            ((IDC_GPU_ENGINE_GRAPH_FIRST + slot) as i32, layout.engine_graphs@[slot]),
        ),
    decreases count,
{
    let all = slots_placements(layout, count);
    let before = slots_placements(layout, count - 1);
    let own = slot_placements(layout, count - 1);
    if slot == count - 1 {
        assert(all[before.len() as int] == own[0]);
        assert(all[before.len() as int + 1] == own[1]);
        assert(all[before.len() as int + 2] == own[2]);
    } else {
        lemma_slots(layout, count - 1, slot);
        lemma_prefix_contains(before, own);
    }
}

proof fn lemma_prefix_contains(first: Seq<(i32, Rect)>, second: Seq<(i32, Rect)>)
    ensures
        forall|placement: (i32, Rect)| #[trigger]
            first.contains(placement) ==> (first + second).contains(placement),
        forall|placement: (i32, Rect)| #[trigger]
            second.contains(placement) ==> (first + second).contains(placement),
{
    assert forall|placement: (i32, Rect)| #[trigger] first.contains(placement) implies (first
        + second).contains(placement) by {
        let k = choose|k: int| 0 <= k < first.len() && first[k] == placement;
        assert((first + second)[k] == placement);
    }
    assert forall|placement: (i32, Rect)| #[trigger] second.contains(placement) implies (first
        + second).contains(placement) by {
        let k = choose|k: int| 0 <= k < second.len() && second[k] == placement;
        assert((first + second)[first.len() + k] == placement);
    }
}

/// The controls of every slot stand in the places that the layout has for that slot.
pub proof fn slots_stand_in_their_places(layout: GpuLayoutPlan, slot: int)
    requires
        0 <= slot < 4,
    ensures
        ({
            let placements = head_placements(layout) + slots_placements(layout, 4)
                + memory_placements(layout) + rows_placements(layout, 5);
            &&& placements.contains(
                ((IDC_GPU_ENGINE_GRAPH_FIRST + slot) as i32, layout.engine_graphs@[slot]),
            )
            &&& placements.contains(
                ((IDC_GPU_ENGINE_SELECTOR_FIRST + slot) as i32, layout.engine_selectors@[slot]),
            )
            &&& placements.contains(
                ((IDC_GPU_ENGINE_PERCENT_FIRST + slot) as i32, layout.engine_percentages@[slot]),
            )
        }),
{
    lemma_slots(layout, 4, slot);
    let (head, slots) = (head_placements(layout), slots_placements(layout, 4));
    let (memory, rows) = (memory_placements(layout), rows_placements(layout, 5));
    lemma_prefix_contains(head, slots);
    lemma_prefix_contains(head + slots, memory);
    lemma_prefix_contains(head + slots + memory, rows);
}

/// The choice of adapters, the name, the state and the memory stand in their places as well.
pub proof fn other_controls_stand_in_their_places(layout: GpuLayoutPlan)
    ensures
        head_placements(layout).contains((IDC_GPU_SELECTOR, layout.selector)),
        head_placements(layout).contains((IDC_GPU_MODEL, layout.model)),
        head_placements(layout).contains((IDC_GPU_STATUS, layout.status)),
        memory_placements(layout).contains((IDC_GPU_DEDICATED_CAPTION, layout.dedicated_caption)),
        memory_placements(layout).contains((IDC_GPU_DEDICATED_GRAPH, layout.dedicated_graph)),
        memory_placements(layout).contains((IDC_GPU_SHARED_CAPTION, layout.shared_caption)),
        memory_placements(layout).contains((IDC_GPU_SHARED_GRAPH, layout.shared_graph)),
{
    let (head, memory) = (head_placements(layout), memory_placements(layout));
    assert(head[0] == (IDC_GPU_SELECTOR, layout.selector));
    assert(head[1] == (IDC_GPU_MODEL, layout.model));
    assert(head[2] == (IDC_GPU_STATUS, layout.status));
    assert(memory[0] == (IDC_GPU_DEDICATED_CAPTION, layout.dedicated_caption));
    assert(memory[1] == (IDC_GPU_DEDICATED_GRAPH, layout.dedicated_graph));
    assert(memory[2] == (IDC_GPU_SHARED_CAPTION, layout.shared_caption));
    assert(memory[3] == (IDC_GPU_SHARED_GRAPH, layout.shared_graph));
}

/// The label and the value of each row stand in the places of that row.
pub proof fn rows_stand_in_their_places(layout: GpuLayoutPlan, count: int, row: int)
    requires
        0 <= row < count,
    ensures
        rows_placements(layout, count).contains((metric_row(row).0, layout.metric_labels@[row])),
        rows_placements(layout, count).contains((metric_row(row).1, layout.metric_values@[row])),
        rows_placements(layout, count).contains((detail_row(row).0, layout.detail_labels@[row])),
        rows_placements(layout, count).contains((detail_row(row).1, layout.detail_values@[row])),
    decreases count,
{
    let all = rows_placements(layout, count);
    let before = rows_placements(layout, count - 1);
    let own = row_placements(layout, count - 1);
    if row == count - 1 {
        assert(all[before.len() as int] == own[0]);
        assert(all[before.len() as int + 1] == own[1]);
        assert(all[before.len() as int + 2] == own[2]);
        assert(all[before.len() as int + 3] == own[3]);
    } else {
        rows_stand_in_their_places(layout, count - 1, row);
        lemma_prefix_contains(before, own);
    }
}

/// A graph of a slot shows the engine that is chosen for it, of the adapter that is chosen; the
/// graphs of the memory show the memory of that adapter. Without a history nothing is shown.
pub proof fn graphs_show_what_is_chosen(
    adapter: GpuAdapterId,
    histories: Map<GpuAdapterId, AdapterHistory>,
    selections: Map<GpuAdapterId, [Option<GpuEngineId>; 4]>,
    slot: int,
    engine: GpuEngineId,
)
    requires
        histories.contains_key(adapter),
        0 <= slot < 4,
    ensures
        selections.contains_key(adapter) && selections[adapter]@[slot] == Some(engine)
            && histories[adapter]@.engines.contains_key(engine) ==> shown_history(
            Some(adapter),
            histories,
            selections,
            slot,
        ) == (Some(histories[adapter]@.engines[engine]), ChartColor::Green),
        !selections.contains_key(adapter) || selections[adapter]@[slot] is None ==> shown_history(
            Some(adapter),
            histories,
            selections,
            slot,
        ).0 is None,
        shown_history(Some(adapter), histories, selections, 4) == (
            Some(histories[adapter]@.dedicated),
            ChartColor::Yellow,
        ),
        shown_history(Some(adapter), histories, selections, 5) == (
            Some(histories[adapter]@.shared),
            ChartColor::Yellow,
        ),
        shown_history(None, histories, selections, slot).0 is None,
{
}

/// A graph is drawn at its place, over its whole height and width, one pixel for each value.
pub proof fn graphs_use_their_whole_place(rect: Rect)
    requires
        rect.left < rect.right,
        rect.top < rect.bottom,
        rect.right - rect.left <= i32::MAX,
        rect.bottom - rect.top <= i32::MAX,
    ensures
        graph_target(rect).target_rect == rect,
        graph_target(rect).source_x == 0,
        graph_target(rect).width == rect.right - rect.left,
        graph_target(rect).height == rect.bottom - rect.top,
        !graph_target(rect).use_surface,
        graph_layout(rect).graph_height == rect.bottom - rect.top,
        graph_layout(rect).width == rect.right - rect.left,
        graph_layout(rect).scale == 1,
        graph_target(rect).layout == graph_layout(rect),
{
}

/// Every state of the page has its own text, and there is nothing to say where all is well.
pub proof fn states_have_their_texts(texts: StatusTexts)
    ensures
        text_of_status(GpuPageStatus::Loading, texts) == texts.loading@,
        text_of_status(GpuPageStatus::LoadingPerformance, texts) == texts.loading_performance@,
        text_of_status(GpuPageStatus::LoadingDetails, texts) == texts.loading_details@,
        text_of_status(GpuPageStatus::Ready, texts).len() == 0,
        text_of_status(GpuPageStatus::Partial, texts) == texts.partial_details@,
        text_of_status(GpuPageStatus::NoHardware, texts) == texts.no_hardware@,
        text_of_status(GpuPageStatus::Unsupported, texts) == texts.requires_newer_drivers@,
        text_of_status(GpuPageStatus::Failed, texts) == texts.refresh_failed@,
        text_of_status(GpuPageStatus::Stale, texts) == texts.refresh_failed_stale@,
{
    reveal_strlit("");
}

} // verus!
