use taskmgr::history::HistoryAccess;
use taskmgr::options::Options;
use taskmgr::perf_drawing::{
    draw_graph_label, draw_grid_width, draw_history_series, draw_meter, format_mem_meter_text,
    graph_label_area, rgb, write_u64_utf16, ChartColor, GraphLabel, HistoryPlotLayout,
    HistorySeries,
};
use taskmgr::perf_layout::{
    compute_perf_layout, next_graph_surface_extent, PerfDialogSpacing, PerfLayoutAnchors,
};
use taskmgr::perfpage::{
    cpu_graph_controls, cpu_graph_target, dialog_spacing, ensure_graph_surface, mem_graph_target,
    memory_usage_percent, plan_strip_meter, strip_chunks, GraphSurface, PerformancePageState,
    SurfaceAction, SystemSample,
};
use taskmgr::rect::Rect;
use taskmgr::resource::{
    IDC_CPUGRAPH, IDC_CPUMETER, IDC_MEMGRAPH, IDC_MEMMETER, IDC_TOTAL_HANDLES,
};

fn rect(left: i32, top: i32, right: i32, bottom: i32) -> Rect {
    Rect {
        left,
        top,
        right,
        bottom,
    }
}

fn sample_anchors() -> PerfLayoutAnchors {
    PerfLayoutAnchors {
        master_rect: rect(10, 180, 160, 220),
        top_frame: rect(10, 160, 160, 200),
        cpu_history_frame: rect(130, 10, 200, 100),
        cpu_usage_frame: rect(10, 10, 110, 100),
        mem_bar_frame: rect(10, 110, 110, 200),
        mem_frame: rect(130, 110, 200, 200),
    }
}

fn sample_spacing() -> PerfDialogSpacing {
    PerfDialogSpacing {
        def_spacing: 6,
        inner_spacing: 3,
        top_spacing: 15,
    }
}

#[test]
fn meter_rect_respects_frame_inner_padding() {
    let layout = compute_perf_layout(
        rect(0, 0, 640, 260),
        sample_anchors(),
        sample_spacing(),
        1,
        false,
    );

    assert_eq!(layout.meter_rect.left, 16);
    assert_eq!(layout.meter_rect.right, 104);
    assert!(layout.meter_rect.right <= sample_anchors().cpu_usage_frame.right);
}

#[test]
fn memory_graph_uses_memory_frame_bounds() {
    let layout = compute_perf_layout(
        rect(0, 0, 640, 260),
        sample_anchors(),
        sample_spacing(),
        1,
        false,
    );

    assert_eq!(layout.mem_graph_rect.left, layout.mem_frame_rect.left + 6);
    assert_eq!(layout.mem_graph_rect.right, layout.mem_frame_rect.right - 6);
}

#[test]
fn u64_formatter_preserves_the_full_value_and_terminator() {
    let mut buffer = [0u16; 24];
    write_u64_utf16(u64::MAX, &mut buffer);
    let length = buffer.iter().position(|value| *value == 0).unwrap();
    assert_eq!(
        String::from_utf16_lossy(&buffer[..length]),
        u64::MAX.to_string()
    );
}

#[test]
fn memory_formatter_preserves_unrepresentable_byte_counts_as_kilobytes() {
    let shown: Vec<u16> = "1 KB".encode_utf16().collect();
    assert_eq!(
        format_mem_meter_text(u64::MAX, Some(shown)),
        format!("{} KB", u64::MAX)
    );
}

fn state(processors: usize) -> PerformancePageState {
    let mut state = PerformancePageState::new();
    state.initialize(processors);
    state
}

fn sample(processors: usize, cpu: u8) -> SystemSample {
    let mut counters = PerformancePageState::new().counters;
    counters.cpu_usage = cpu;
    counters.kernel_usage = 90;
    counters.physical_mem_usage_kb = 1;
    counters.physical_mem_limit_kb = 3;
    counters.handle_count = 77;
    SystemSample {
        processor_count: processors,
        cpu_delta_valid: true,
        counters,
        processor_cpu_usage: (0..processors).map(|index| index as u8).collect(),
        processor_kernel_usage: vec![5; processors],
    }
}

#[test]
fn sample_moves_the_histories() {
    let mut page = state(2);
    assert_eq!(page.apply_system_sample(&sample(2, 40)), Ok(()));
    assert_eq!(page.cpu_history[1].newest_value(), 1);
    assert_eq!(page.averaged_cpu_history.newest_value(), 40);
    assert_eq!(page.mem_history.newest_value(), 33);
    assert_eq!(page.scroll_offset, 2);
    let mut first = sample(2, 50);
    first.cpu_delta_valid = false;
    assert_eq!(page.apply_system_sample(&first), Ok(()));
    assert_eq!(page.averaged_cpu_history.newest_value(), 40);
    assert_eq!(page.mem_history.value_at(1), Some(33));
    let mut broken = sample(2, 60);
    broken.processor_kernel_usage.pop();
    assert_eq!(page.apply_system_sample(&broken), Err(13));
    assert_eq!(page.counters.cpu_usage, 50);
    assert_eq!(page.apply_system_sample(&sample(3, 1)), Ok(()));
    assert_eq!(page.cpu_history.len(), 3);
    assert_eq!(memory_usage_percent(5, 0), 0);
    assert_eq!(memory_usage_percent(u64::MAX, 1), 100);
}

#[test]
fn options_decide_what_is_drawn() {
    let mut page = state(2);
    page.graph_slots = 32;
    let mut options = Options::default();
    options.cpu_history_mode = 1;
    let effect = page.apply_options(&options, 2);
    assert!(effect.layout_changed && effect.update_texts && effect.redraw);
    assert_eq!(page.visible_cpu_graph_count(), 2);
    assert_eq!(
        page.invalidate_graph_controls(),
        vec![
            IDC_CPUMETER,
            IDC_MEMMETER,
            IDC_MEMGRAPH,
            IDC_CPUGRAPH,
            IDC_CPUGRAPH + 1
        ]
    );
    options.show_kernel_times = true;
    let effect = page.apply_options(&options, 2);
    assert!(!effect.layout_changed && effect.redraw);
    options.hide_title = true;
    assert!(page.apply_options(&options, 2).layout_changed);
    assert!(page.no_title());
    page.apply_system_sample(&sample(2, 40)).unwrap();
    let place = rect(10, 20, 110, 121);
    let drawing = page.draw_cpu_graph(place, 1).unwrap();
    assert!(!drawing.target.use_surface);
    let colors: Vec<ChartColor> = drawing.lines.iter().map(|line| line.color).collect();
    assert_eq!(colors, vec![ChartColor::Red, ChartColor::Green]);
    let heights: Vec<i32> = drawing.lines.iter().map(|line| line.points[0].y).collect();
    assert_eq!(heights, vec![121 - 5, 121 - 1]);
    assert_eq!(drawing.lines[1].points.len(), 51);
    assert_eq!(drawing.lines[1].points[50].x, 110 - 2 * 49);
    assert_eq!(drawing.grid.len(), 8 + 9);
    assert_eq!(drawing.grid[8].from.x, 110 - page.scroll_offset);
    assert!(page.draw_cpu_graph(place, 2).is_none());
    let frame = page.draw_cpu_graph_gpu(place, 1);
    assert_eq!(frame.grid, drawing.grid);
    assert_eq!(frame.lines[1].segments.len(), 50);
    assert_eq!(frame.lines[1].segments[0].from, drawing.lines[1].points[0]);
    let memory = page.draw_mem_graph(place);
    assert_eq!(memory.lines.len(), 1);
    assert_eq!(memory.lines[0].color, ChartColor::Yellow);
    assert_eq!(memory.lines[0].points.len(), 2);
    assert_eq!(page.draw_mem_graph_gpu(place).lines[0].segments.len(), 1);
    let meter = page.draw_cpu_meter();
    assert_eq!(meter.label, "40 %");
    assert_eq!((meter.fill_percent, meter.red_percent), (40, 40));
    let shown: Vec<u16> = "1.0 KB\0".encode_utf16().collect();
    assert_eq!(page.draw_mem_meter(Some(shown)).label, "1.0 KB");
    assert_eq!(page.draw_mem_meter(None).label, "1 KB");
    assert!(page.detail_texts().contains(&(IDC_TOTAL_HANDLES, 77)));
    assert!(page.record_meter_draw_error(3));
    assert!(!page.record_meter_draw_error(3));
    page.clear_meter_draw_error();
    assert!(page.record_meter_draw_error(3));
}

#[test]
fn controls_of_the_graphs_are_found_again() {
    let mut page = state(40);
    let controls = cpu_graph_controls(40).unwrap();
    assert_eq!(controls.len(), 40);
    page.graph_slots = controls.len();
    for (index, control) in controls.iter().enumerate() {
        assert_eq!(page.cpu_graph_pane_index(*control), Some(index));
        assert!(page.is_graph_control(*control));
    }
    assert_eq!(page.cpu_graph_pane_index(IDC_CPUGRAPH - 1), None);
    assert!(page.is_graph_control(IDC_MEMGRAPH));
    assert!(!page.is_graph_control(IDC_TOTAL_HANDLES));
}

#[test]
fn surface_grows_in_steps() {
    assert_eq!(next_graph_surface_extent(0, 100, 64), 128);
    assert_eq!(next_graph_surface_extent(200, 210, 64), 300);
    assert_eq!(dialog_spacing(0x0010_0008).def_spacing, 6);
    assert_eq!(dialog_spacing(0x0010_0008).top_spacing, 20);
    let none = GraphSurface {
        present: false,
        width: 0,
        height: 0,
    };
    assert!(matches!(
        ensure_graph_surface(none, 100, 50),
        SurfaceAction::Create { .. }
    ));
    let large = GraphSurface {
        present: true,
        width: 200,
        height: 100,
    };
    assert_eq!(ensure_graph_surface(large, 100, 50), SurfaceAction::Keep);
    assert_eq!(ensure_graph_surface(large, 0, 50), SurfaceAction::Destroy);
    let target = cpu_graph_target(large, rect(0, 0, 50, 40));
    assert!(target.use_surface);
    assert_eq!(target.source_x, 150);
    let target = mem_graph_target(none, rect(0, 0, 50, 40));
    assert!(!target.use_surface);
    assert_eq!(target.layout.graph_height, 39);
}

#[test]
fn strips_fill_the_meter() {
    let meter = plan_strip_meter(rect(0, 0, 60, 140), 10, 10, 50, 20).unwrap();
    let bar = 140 - (10 + 30);
    assert_eq!(
        meter.unlit.height + meter.lit.height + meter.red.height,
        bar
    );
    assert_eq!(meter.red.height, 20);
    assert!(plan_strip_meter(rect(0, 0, 60, 40), 10, 10, 50, 20).is_none());
    let chunks = strip_chunks(meter.lit);
    assert_eq!(
        chunks.iter().map(|chunk| chunk.height).sum::<i32>(),
        meter.lit.height
    );
}

#[test]
fn number_without_room_is_not_written() {
    let mut buffer = vec![9u16; 3];
    write_u64_utf16(12, &mut buffer);
    assert_eq!(buffer, vec![0x31, 0x32, 0]);
    let mut nothing: Vec<u16> = Vec::new();
    write_u64_utf16(12, &mut nothing);
    assert!(nothing.is_empty());
}

#[test]
fn history_is_drawn_from_the_right() {
    let history = vec![100u8, 0, 50];
    let layout = HistoryPlotLayout {
        graph_height: 101,
        width: 20,
        scale: 2,
    };
    let points = draw_history_series(
        rect(0, 0, 20, 101),
        layout,
        HistorySeries {
            history: &history,
            color: ChartColor::Green,
            stop_on_zero: false,
        },
    );
    let drawn: Vec<(i32, i32)> = points.iter().map(|point| (point.x, point.y)).collect();
    assert_eq!(drawn, vec![(20, 0), (20, 0), (18, 101), (16, 51)]);
    assert_eq!(rgb(1, 2, 3), 0x0003_0201);
    assert!(!draw_grid_width(rect(0, 0, 100, 100), 100, 0).is_empty());
}

#[test]
fn label_has_to_fit() {
    assert!(graph_label_area(rect(0, 0, 7, 50)).is_none());
    let area = graph_label_area(rect(0, 0, 54, 24)).unwrap();
    assert_eq!((area.available_width, area.available_height), (50, 20));
    assert_eq!(area.text_rect, rect(2, 2, 52, 22));
    let choose = |full, compact| draw_graph_label(area, full, compact);
    assert_eq!(choose(Some((50, 20)), Some((5, 5))), Some(GraphLabel::Full));
    assert_eq!(choose(Some((51, 20)), Some((5, 5))), Some(GraphLabel::Compact));
    assert_eq!(choose(None, Some((5, 5))), Some(GraphLabel::Compact));
    assert_eq!(choose(Some((5, 0)), Some((5, 21))), None);
}

#[test]
fn meter_is_filled_from_below() {
    let plan = draw_meter(rect(0, 0, 40, 126), 50, 20);
    assert_eq!(plan.unlit, Some(rect(10, 4, 30, 54)));
    assert_eq!(plan.lit, Some(rect(10, 54, 30, 84)));
    assert_eq!(plan.red, Some(rect(10, 84, 30, 104)));
    assert_eq!(plan.text, rect(0, 108, 40, 126));
}

#[test]
fn page_needs_all_its_graphs() {
    let mut page = state(2);
    assert_eq!(page.complete_initialize(&vec![Ok(()), Err(6), Err(7)]), Err(6));
    assert_eq!(page.graph_slots, 0);
    assert_eq!(page.complete_initialize(&vec![Ok(()); 32]), Ok(()));
    assert_eq!(page.graph_slots, 32);
}
