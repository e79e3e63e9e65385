//! Layout of the performance page.
//!
//! All sizes and positions are computed at once from the size of the page and from anchors that
//! the dialog template gives; the page only has to commit them.
use vstd::prelude::*;

use crate::rect::{divide, fits_i32, max_i64, max_of, quotient, Rect};

verus! {

#[derive(Clone, Copy, Debug, PartialEq, Eq, Structural)]
pub struct PerfDialogSpacing {
    pub def_spacing: i32,
    pub inner_spacing: i32,
    pub top_spacing: i32,
}

/// Positions of controls in the dialog template.
#[derive(Clone, Copy, Debug, PartialEq, Eq, Structural)]
pub struct PerfLayoutAnchors {
    pub master_rect: Rect,
    pub top_frame: Rect,
    pub cpu_history_frame: Rect,
    pub cpu_usage_frame: Rect,
    pub mem_bar_frame: Rect,
    pub mem_frame: Rect,
}

/// The result of one computation of the layout.
#[derive(Clone, Debug, PartialEq, Eq)]
pub struct PerfLayoutPlan {
    pub detail_shift_y: i32,
    pub cpu_history_width: i32,
    pub cpu_history_height: i32,
    pub cpu_usage_frame_width: i32,
    pub meter_rect: Rect,
    pub mem_bar_frame_rect: Rect,
    pub mem_frame_rect: Rect,
    pub mem_graph_rect: Rect,
    pub cpu_pane_rects: Vec<Rect>,
    pub graph_surface_width: i32,
    pub graph_surface_height: i32,
}

/// The edges of a rectangle as numbers without bound.
pub struct Edges {
    pub left: int,
    pub top: int,
    pub right: int,
    pub bottom: int,
}

impl Edges {
    pub open spec fn fits(self) -> bool {
        fits_i32(self.left) && fits_i32(self.top) && fits_i32(self.right) && fits_i32(self.bottom)
    }

    pub open spec fn is_rect(self, rect: Rect) -> bool {
        rect.left == self.left && rect.top == self.top && rect.right == self.right && rect.bottom
            == self.bottom
    }
}

/// What the layout of the page is computed from.
pub struct PerfPage {
    pub parent: Rect,
    pub anchors: PerfLayoutAnchors,
    pub spacing: PerfDialogSpacing,
    pub pane_count: int,
    pub no_title: bool,
}

impl PerfPage {
    /// How far the details below the graphs move. They never leave the page at the top.
    pub open spec fn detail_shift(self) -> int {
        max_of(
            self.parent.bottom - self.spacing.def_spacing * 2 - self.anchors.master_rect.bottom,
            -self.anchors.master_rect.bottom,
        )
    }

    /// The height of the frames around the graphs: the whole page where there is no title, and
    /// else half of what stands above the details.
    pub open spec fn history_height(self) -> int {
        max_of(
            if self.no_title {
                self.parent.bottom - self.parent.top - self.spacing.def_spacing * 2
            } else {
                (self.anchors.top_frame.top + self.detail_shift() - self.spacing.def_spacing * 3)
                    / 2
            },
            0,
        )
    }

    pub open spec fn history_width(self) -> int {
        max_of(
            self.parent.right - self.anchors.cpu_history_frame.left - self.spacing.def_spacing * 2,
            0,
        )
    }

    pub open spec fn usage_width(self) -> int {
        max_of(self.anchors.cpu_usage_frame.spec_width(), 0)
    }

    /// The height of a graph inside its frame.
    pub open spec fn graph_height(self) -> int {
        max_of(
            self.history_height() - self.spacing.inner_spacing * 2 - self.spacing.top_spacing,
            0,
        )
    }

    pub open spec fn meter(self) -> Edges {
        let left = self.anchors.cpu_usage_frame.left + self.spacing.inner_spacing * 2;
        let top = self.anchors.cpu_usage_frame.top + self.spacing.top_spacing;
        Edges {
            left,
            top,
            right: max_of(
                self.anchors.cpu_usage_frame.right - self.spacing.inner_spacing * 2,
                left,
            ),
            bottom: top + self.graph_height(),
        }
    }

    pub open spec fn memory_top(self) -> int {
        self.history_height() + self.spacing.def_spacing * 2
    }

    pub open spec fn memory_bar_frame(self) -> Edges {
        Edges {
            left: self.anchors.mem_bar_frame.left as int,
            top: self.memory_top(),
            right: self.anchors.mem_bar_frame.right as int,
            bottom: self.memory_top() + self.history_height(),
        }
    }

    pub open spec fn memory_frame(self) -> Edges {
        Edges {
            left: self.anchors.mem_frame.left as int,
            top: self.memory_top(),
            right: self.parent.right - self.spacing.def_spacing * 2,
            bottom: self.memory_top() + self.history_height(),
        }
    }

    pub open spec fn memory_graph(self) -> Edges {
        let left = self.memory_frame().left + self.spacing.inner_spacing * 2;
        Edges {
            left,
            top: self.memory_top() + self.spacing.top_spacing,
            right: max_of(self.memory_frame().right - self.spacing.inner_spacing * 2, left),
            bottom: self.memory_top() + self.spacing.top_spacing + self.graph_height(),
        }
    }

    /// The width that the panes of the processors and the spaces between them share.
    pub open spec fn panes_width(self) -> int {
        max_of(
            self.parent.right - self.anchors.cpu_history_frame.left - self.spacing.def_spacing * 2
                - self.spacing.inner_spacing * 3,
            0,
        )
    }

    pub open spec fn pane_width(self) -> int {
        max_of(
            (self.panes_width() - self.pane_count * self.spacing.inner_spacing) / self.pane_count,
            0,
        )
    }

    pub open spec fn pane(self, index: int) -> Edges {
        let left = self.anchors.cpu_history_frame.left + self.spacing.inner_spacing * (index + 2)
            + self.pane_width() * index;
        let top = self.anchors.cpu_history_frame.top + self.spacing.top_spacing;
        Edges { left, top, right: left + self.pane_width(), bottom: top + self.graph_height() }
    }

    /// The width of a surface that any graph of the page fits on.
    pub open spec fn surface_width(self) -> int {
        max_of(
            if self.pane_count > 0 {
                self.pane_width()
            } else {
                0
            },
            self.memory_graph().right - self.memory_graph().left,
        )
    }

    /// Every number of the layout can be represented.
    pub open spec fn fits(self) -> bool {
        &&& 0 <= self.pane_count <= i32::MAX
        &&& fits_i32(self.detail_shift())
        &&& fits_i32(self.history_height())
        &&& fits_i32(self.history_width())
        &&& fits_i32(self.usage_width())
        &&& fits_i32(self.graph_height())
        &&& self.meter().fits()
        &&& self.memory_bar_frame().fits()
        &&& self.memory_frame().fits()
        &&& self.memory_graph().fits()
        &&& fits_i32(self.surface_width())
        &&& forall|index: int| 0 <= index < self.pane_count ==> #[trigger] self.pane(index).fits()
    }

    /// Whether `plan` is the layout of the page.
    pub open spec fn is_plan(self, plan: PerfLayoutPlan) -> bool {
        &&& plan.detail_shift_y == self.detail_shift()
        &&& plan.cpu_history_width == self.history_width()
        &&& plan.cpu_history_height == self.history_height()
        &&& plan.cpu_usage_frame_width == self.usage_width()
        &&& self.meter().is_rect(plan.meter_rect)
        &&& self.memory_bar_frame().is_rect(plan.mem_bar_frame_rect)
        &&& self.memory_frame().is_rect(plan.mem_frame_rect)
        &&& self.memory_graph().is_rect(plan.mem_graph_rect)
        &&& plan.cpu_pane_rects@.len() == self.pane_count
        &&& forall|index: int|
            0 <= index < self.pane_count ==> self.pane(index).is_rect(
                #[trigger] plan.cpu_pane_rects@[index],
            )
        &&& plan.graph_surface_width == self.surface_width()
        &&& plan.graph_surface_height == self.graph_height()
    }
}

/// Half of a number that is not negative, and zero for any other.
fn half(value: i64) -> (result: i64)
    ensures
        result == max_of(value as int / 2, 0),
{
    if value > 0 {
        value / 2
    } else {
        0
    }
}

/// The panes of the processors, from left to right.
fn pane_rects(
    left_edge: i64,
    inner: i64,
    top: i64,
    bottom: i64,
    panes_width: i64,
    pane_count: usize,
    Ghost(page): Ghost<PerfPage>,
) -> (panes: Vec<Rect>)
    requires
        page.fits(),
        page.pane_count == pane_count,
        left_edge == page.anchors.cpu_history_frame.left,
        inner == page.spacing.inner_spacing,
        panes_width == page.panes_width(),
        top == page.anchors.cpu_history_frame.top + page.spacing.top_spacing,
        bottom == top + page.graph_height(),
        0 <= panes_width <= 0x10_0000_0000,
    ensures
        panes@.len() == pane_count,
        forall|index: int|
            0 <= index < pane_count ==> page.pane(index).is_rect(#[trigger] panes@[index]),
{
    let mut panes: Vec<Rect> = Vec::new();
    if pane_count == 0 {
        return panes;
    }
    let count: i64 = pane_count as i64;
    assert(-0x8000_0000 * 0x8000_0000 <= count * inner <= 0x8000_0000 * 0x8000_0000)
        by (nonlinear_arith)
        requires
            0 <= count <= 0x7FFF_FFFF,
            -0x8000_0000 <= inner <= 0x7FFF_FFFF,
    ;
    let room: i64 = panes_width - count * inner;
    let pane_width: i64 = if room > 0 {
        room / count
    } else {
        0
    };
    proof {
        if room <= 0 {
            assert(room as int / count as int <= 0) by (nonlinear_arith)
                requires
                    room <= 0,
                    count > 0,
            ;
        }
        assert(0 <= pane_width && pane_width * count <= max_of(room as int, 0))
            by (nonlinear_arith)
            requires
                count > 0,
                pane_width == if room > 0 {
                    room as int / count as int
                } else {
                    0
                },
        ;
    }
    assert(pane_width == page.pane_width());
    for index in 0..pane_count
        invariant
            page.fits(),
            page.pane_count == pane_count,
            count == pane_count,
            0 < count <= 0x7FFF_FFFF,
            left_edge == page.anchors.cpu_history_frame.left,
            inner == page.spacing.inner_spacing,
            -0x8000_0000 <= inner <= 0x7FFF_FFFF,
            top == page.anchors.cpu_history_frame.top + page.spacing.top_spacing,
            bottom == top + page.graph_height(),
            pane_width == page.pane_width(),
            0 <= pane_width,
            pane_width * count <= 0x5000_0000_0000_0000,
            panes@.len() == index,
            forall|i: int| 0 <= i < index ==> page.pane(i).is_rect(#[trigger] panes@[i]),
    {
        let at: i64 = index as i64;
        assert(0 <= pane_width * at <= pane_width * count) by (nonlinear_arith)
            requires
                0 <= at < count,
                0 <= pane_width,
        ;
        assert(-0x1_0000_0000 * 0x8000_0000 <= inner * (at + 2) <= 0x1_0000_0000 * 0x8000_0000)
            by (nonlinear_arith)
            requires
                0 <= at <= 0x7FFF_FFFF,
                -0x8000_0000 <= inner <= 0x7FFF_FFFF,
        ;
        assert(pane_width <= pane_width * count) by (nonlinear_arith)
            requires
                0 <= pane_width,
                1 <= count,
        ;
        assert(page.pane(at as int).fits());
        let left: i64 = left_edge + inner * (at + 2) + pane_width * at;
        panes.push(
            Rect {
                left: left as i32,
                top: top as i32,
                right: (left + pane_width) as i32,
                bottom: bottom as i32,
            },
        );
    }
    panes
}

/// Computes the layout of the page.
pub fn compute_perf_layout(
    parent_rect: Rect,
    anchors: PerfLayoutAnchors,
    spacing: PerfDialogSpacing,
    pane_count: usize,
    no_title: bool,
) -> (plan: PerfLayoutPlan)
    requires
        (PerfPage {
            parent: parent_rect,
            anchors,
            spacing,
            pane_count: pane_count as int,
            no_title,
        }).fits(),
    ensures
        (PerfPage {
            parent: parent_rect,
            anchors,
            spacing,
            pane_count: pane_count as int,
            no_title,
        }).is_plan(plan),
{
    let ghost page = PerfPage {
        parent: parent_rect,
        anchors,
        spacing,
        pane_count: pane_count as int,
        no_title,
    };
    let def: i64 = spacing.def_spacing as i64;
    let inner: i64 = spacing.inner_spacing as i64;
    let top_spacing: i64 = spacing.top_spacing as i64;
    let detail_shift: i64 = max_i64(
        parent_rect.bottom as i64 - def * 2 - anchors.master_rect.bottom as i64,
        -(anchors.master_rect.bottom as i64),
    );
    let history_height: i64 = if no_title {
        max_i64(parent_rect.bottom as i64 - parent_rect.top as i64 - def * 2, 0)
    } else {
        half(anchors.top_frame.top as i64 + detail_shift - def * 3)
    };
    assert(history_height == page.history_height());
    let history_width: i64 = max_i64(
        parent_rect.right as i64 - anchors.cpu_history_frame.left as i64 - def * 2,
        0,
    );
    let usage_width: i64 = max_i64(anchors.cpu_usage_frame.width(), 0);
    let graph_height: i64 = max_i64(history_height - inner * 2 - top_spacing, 0);
    assert(page.meter().fits());
    assert(page.memory_bar_frame().fits());
    assert(page.memory_frame().fits());
    assert(page.memory_graph().fits());
    let meter_left: i64 = anchors.cpu_usage_frame.left as i64 + inner * 2;
    let meter_top: i64 = anchors.cpu_usage_frame.top as i64 + top_spacing;
    let meter_right: i64 = max_i64(anchors.cpu_usage_frame.right as i64 - inner * 2, meter_left);
    let meter_rect = Rect {
        left: meter_left as i32,
        top: meter_top as i32,
        right: meter_right as i32,
        bottom: (meter_top + graph_height) as i32,
    };
    let mem_top: i64 = history_height + def * 2;
    let mem_bar_frame_rect = Rect {
        left: anchors.mem_bar_frame.left,
        top: mem_top as i32,
        right: anchors.mem_bar_frame.right,
        bottom: (mem_top + history_height) as i32,
    };
    let mem_right: i64 = parent_rect.right as i64 - def * 2;
    let mem_frame_rect = Rect {
        left: anchors.mem_frame.left,
        top: mem_top as i32,
        right: mem_right as i32,
        bottom: (mem_top + history_height) as i32,
    };
    let mem_graph_left: i64 = anchors.mem_frame.left as i64 + inner * 2;
    let mem_graph_right: i64 = max_i64(mem_right - inner * 2, mem_graph_left);
    let mem_graph_rect = Rect {
        left: mem_graph_left as i32,
        top: (mem_top + top_spacing) as i32,
        right: mem_graph_right as i32,
        bottom: (mem_top + top_spacing + graph_height) as i32,
    };
    let panes_width: i64 = max_i64(
        parent_rect.right as i64 - anchors.cpu_history_frame.left as i64 - def * 2 - inner * 3,
        0,
    );
    let pane_top: i64 = anchors.cpu_history_frame.top as i64 + top_spacing;
    let cpu_pane_rects = pane_rects(
        anchors.cpu_history_frame.left as i64,
        inner,
        pane_top,
        pane_top + graph_height,
        panes_width,
        pane_count,
        Ghost(page),
    );
    let first_width: i64 = if cpu_pane_rects.len() > 0 {
        cpu_pane_rects[0].width()
    } else {
        0
    };
    proof {
        if pane_count > 0 {
            assert(page.pane(0).is_rect(cpu_pane_rects@[0]));
        }
    }
    let surface_width: i64 = max_i64(first_width, mem_graph_right - mem_graph_left);
    PerfLayoutPlan {
        detail_shift_y: detail_shift as i32,
        cpu_history_width: history_width as i32,
        cpu_history_height: history_height as i32,
        cpu_usage_frame_width: usage_width as i32,
        meter_rect,
        mem_bar_frame_rect,
        mem_frame_rect,
        mem_graph_rect,
        cpu_pane_rects,
        graph_surface_width: surface_width as i32,
        graph_surface_height: graph_height as i32,
    }
}

/// The extent of a drawing surface that has to hold `required` pixels. A surface grows by whole
/// quanta and by half of what it has, so that it is not made anew for every single pixel.
pub open spec fn next_extent(current: int, required: int, quantum: int) -> int {
    if current >= required {
        current
    } else {
        max_of(
            max_of(
                quotient(required + quantum - 1, quantum) * quantum,
                if current > 0 {
                    current + current / 2
                } else {
                    0
                },
            ),
            required,
        )
    }
}

pub fn next_graph_surface_extent(current: i32, required: i32, quantum: i32) -> (extent: i32)
    requires
        current < required ==> quantum != 0,
        fits_i32(next_extent(current as int, required as int, quantum as int)),
    ensures
        extent == next_extent(current as int, required as int, quantum as int),
        extent >= required,
        extent >= current,
{
    if current >= required {
        return current;
    }
    let sum: i64 = required as i64 + quantum as i64 - 1;
    let steps: i64 = divide(sum, quantum as i64);
    let rounded_required: i64 = steps * quantum as i64;
    let grown_current: i64 = if current > 0 {
        current as i64 + current as i64 / 2
    } else {
        0
    };
    max_i64(max_i64(rounded_required, grown_current), required as i64) as i32
}

/// A surface that has grown holds what it was grown for, and is not touched again until more is
/// required than it holds.
pub proof fn grown_surface_is_kept(current: int, required: int, later: int, quantum: int)
    requires
        quantum != 0,
        later <= next_extent(current, required, quantum),
    ensures
        required <= next_extent(current, required, quantum),
        next_extent(next_extent(current, required, quantum), later, quantum) == next_extent(
            current,
            required,
            quantum,
        ),
{
}

/// A surface that has to grow from nothing grows to the next whole quantum.
pub proof fn fresh_surface_is_whole_quanta(required: int, quantum: int)
    requires
        quantum > 0,
        required > 0,
    ensures
        next_extent(0, required, quantum) % quantum == 0,
        required <= next_extent(0, required, quantum) < required + quantum,
{
    let sum = required + quantum - 1;
    let steps = sum / quantum;
    vstd::arithmetic::div_mod::lemma_fundamental_div_mod(sum, quantum);
    vstd::arithmetic::div_mod::lemma_mod_bound(sum, quantum);
    assert(quantum * steps == steps * quantum) by (nonlinear_arith);
    vstd::arithmetic::div_mod::lemma_mod_multiples_basic(steps, quantum);
}

/// The meter stays inside its frame, between the paddings, wherever the frame has room for
/// them.
pub proof fn meter_respects_frame_padding(page: PerfPage)
    requires
        page.anchors.cpu_usage_frame.spec_width() >= page.spacing.inner_spacing * 4,
    ensures
        page.meter().left == page.anchors.cpu_usage_frame.left + page.spacing.inner_spacing * 2,
        page.meter().right == page.anchors.cpu_usage_frame.right - page.spacing.inner_spacing * 2,
        page.meter().left <= page.meter().right,
{
}

/// The memory graph stays inside the memory frame, between the paddings, wherever the frame has
/// room for them.
pub proof fn memory_graph_respects_frame_padding(page: PerfPage)
    requires
        page.memory_frame().right - page.memory_frame().left >= page.spacing.inner_spacing * 4,
    ensures
        page.memory_graph().left == page.memory_frame().left + page.spacing.inner_spacing * 2,
        page.memory_graph().right == page.memory_frame().right - page.spacing.inner_spacing * 2,
{
}

/// Panes lie side by side, one inner spacing apart, and all have the same size.
pub proof fn panes_do_not_overlap(page: PerfPage, index: int)
    requires
        page.pane_count > 0,
        0 <= index,
    ensures
        page.pane(index).right + page.spacing.inner_spacing == page.pane(index + 1).left,
        page.pane(index).top == page.pane(index + 1).top,
        page.pane(index).bottom == page.pane(index + 1).bottom,
        page.pane(index).right - page.pane(index).left == page.pane(index + 1).right - page.pane(
            index + 1,
        ).left,
{
    let (inner, width) = (page.spacing.inner_spacing as int, page.pane_width());
    assert(inner * (index + 2) + width * index + width + inner == inner * (index + 3) + width * (
    index + 1)) by (nonlinear_arith);
}

} // verus!
