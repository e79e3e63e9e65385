use taskmgr::gpu::graph_heights::fit_graph_heights;
use taskmgr::gpu::layout::{compute_gpu_layout, GpuLayoutMetrics, ENGINE_SLOT_COUNT};
use taskmgr::rect::Rect;

fn client(width: i32, height: i32) -> Rect {
    Rect {
        left: 0,
        top: 0,
        right: width,
        bottom: height,
    }
}

fn metrics() -> GpuLayoutMetrics {
    GpuLayoutMetrics::new(2, 2, 18, 28)
}

fn rect_width(rect: Rect) -> i32 {
    rect.right - rect.left
}

fn rect_height(rect: Rect) -> i32 {
    rect.bottom - rect.top
}

#[test]
fn wide_layout_keeps_columns_and_graph_sections_separate() {
    let layout = compute_gpu_layout(client(1200, 900), metrics(), 0);
    assert!(!layout.needs_scrollbar);
    assert!(layout.engine_graphs[0].right < layout.engine_graphs[1].left);
    assert_eq!(layout.engine_graphs[0].top, layout.engine_graphs[1].top);
    assert!(layout.dedicated_graph.top >= layout.engine_graphs[2].bottom);
    assert!(layout.shared_graph.top >= layout.dedicated_graph.bottom);
    assert!(layout.metrics_group.top >= layout.shared_graph.bottom);
    assert!(layout.details_group.left > layout.metrics_group.right);
    assert!(layout.shared_graph.right <= 1200);
}

#[test]
fn short_layout_clamps_scroll_position_to_content() {
    let first = compute_gpu_layout(client(700, 320), metrics(), i32::MAX);
    assert!(first.needs_scrollbar);
    assert!(first.content_height > 320);
    assert_eq!(first.scroll_position, first.content_height - 320);
    assert_eq!(first.details_group.bottom, 320 - 6);

    let top = compute_gpu_layout(client(700, 320), metrics(), -100);
    assert_eq!(top.scroll_position, 0);
    assert_eq!(top.selector.top, 6);
}

#[test]
fn resizing_recomputes_full_width_graph_bounds() {
    let narrow = compute_gpu_layout(client(640, 900), metrics(), 0);
    let wide = compute_gpu_layout(client(1000, 900), metrics(), 0);
    assert_eq!(narrow.shared_graph.right, 640 - 6);
    assert_eq!(wide.shared_graph.right, 1000 - 6);
    assert!(rect_width(wide.shared_graph) > rect_width(narrow.shared_graph));
}

#[test]
fn compressed_layout_keeps_details_at_bottom_and_shrinks_graphs() {
    let tall = compute_gpu_layout(client(1000, 900), metrics(), 0);
    let compressed = compute_gpu_layout(client(1000, 500), metrics(), 0);

    assert!(!compressed.needs_scrollbar);
    assert_eq!(compressed.details_group.bottom, 500 - 6);
    assert_eq!(compressed.metrics_group.bottom, 500 - 6);
    assert!(rect_height(compressed.engine_graphs[0]) < rect_height(tall.engine_graphs[0]));
    assert!(rect_height(compressed.shared_graph) < rect_height(tall.shared_graph));
    assert!(rect_height(compressed.engine_graphs[0]) >= 24);
    assert!(rect_height(compressed.shared_graph) >= 24);
}

#[test]
fn graph_height_fitting_preserves_exact_target_and_minimums() {
    let fitted = fit_graph_heights([76, 76, 58, 58], [24; 4], 208);

    assert_eq!(fitted.iter().sum::<i32>(), 208);
    assert!(fitted.into_iter().all(|height| height >= 24));
}

#[test]
fn caption_controls_end_before_their_graphs_begin() {
    let layout = compute_gpu_layout(client(1000, 500), metrics(), 0);

    for slot in 0..ENGINE_SLOT_COUNT {
        assert!(
            layout.engine_selectors[slot].top + metrics().combo_visible_height
                < layout.engine_graphs[slot].top
        );
        assert!(layout.engine_percentages[slot].bottom < layout.engine_graphs[slot].top);
    }
    assert!(layout.dedicated_caption.bottom < layout.dedicated_graph.top);
    assert!(layout.shared_caption.bottom < layout.shared_graph.top);
}
