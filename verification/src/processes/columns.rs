//! Columns of the process list, their order and their widths.
use vstd::prelude::*;

use crate::options::Options;
use crate::table::Table;

verus! {

pub const NUM_COLUMN: usize = 16;

#[derive(Clone, Copy, Debug, PartialEq, Eq, Structural, Hash)]
pub enum ColumnId {
    ImageName,
    Pid,
    Username,
    SessionId,
    Cpu,
    CpuTime,
    MemUsage,
    MemUsageDiff,
    PageFaults,
    PageFaultsDiff,
    CommitCharge,
    PagedPool,
    NonPagedPool,
    BasePriority,
    HandleCount,
    ThreadCount,
}

impl ColumnId {
    /// The place of the column in the list of all columns.
    pub open spec fn number(self) -> int {
        match self {
            ColumnId::ImageName => 0,
            ColumnId::Pid => 1,
            ColumnId::Username => 2,
            ColumnId::SessionId => 3,
            ColumnId::Cpu => 4,
            ColumnId::CpuTime => 5,
            ColumnId::MemUsage => 6,
            ColumnId::MemUsageDiff => 7,
            ColumnId::PageFaults => 8,
            ColumnId::PageFaultsDiff => 9,
            ColumnId::CommitCharge => 10,
            ColumnId::PagedPool => 11,
            ColumnId::NonPagedPool => 12,
            ColumnId::BasePriority => 13,
            ColumnId::HandleCount => 14,
            ColumnId::ThreadCount => 15,
        }
    }

    pub fn index(self) -> (index: usize)
        ensures
            index == self.number(),
            index < NUM_COLUMN,
    {
        match self {
            ColumnId::ImageName => 0,
            ColumnId::Pid => 1,
            ColumnId::Username => 2,
            ColumnId::SessionId => 3,
            ColumnId::Cpu => 4,
            ColumnId::CpuTime => 5,
            ColumnId::MemUsage => 6,
            ColumnId::MemUsageDiff => 7,
            ColumnId::PageFaults => 8,
            ColumnId::PageFaultsDiff => 9,
            ColumnId::CommitCharge => 10,
            ColumnId::PagedPool => 11,
            ColumnId::NonPagedPool => 12,
            ColumnId::BasePriority => 13,
            ColumnId::HandleCount => 14,
            ColumnId::ThreadCount => 15,
        }
    }

    /// The width of the column where none has been stored.
    pub open spec fn default_width(self) -> i32 {
        match self {
            ColumnId::ImageName | ColumnId::Username => 107,
            ColumnId::Pid => 50,
            ColumnId::Cpu => 35,
            ColumnId::SessionId
            | ColumnId::BasePriority
            | ColumnId::HandleCount
            | ColumnId::ThreadCount => 60,
            _ => 70,
        }
    }

    pub fn standard_width(self) -> (width: i32)
        ensures
            width == self.default_width(),
    {
        match self {
            ColumnId::ImageName | ColumnId::Username => 107,
            ColumnId::Pid => 50,
            ColumnId::Cpu => 35,
            ColumnId::SessionId
            | ColumnId::BasePriority
            | ColumnId::HandleCount
            | ColumnId::ThreadCount => 60,
            _ => 70,
        }
    }

    /// Whether the texts of the column stand at its left edge.
    pub fn is_left_aligned(self) -> (left: bool)
        ensures
            left == (self == ColumnId::ImageName || self == ColumnId::Username),
    {
        match self {
            ColumnId::ImageName | ColumnId::Username => true,
            _ => false,
        }
    }
}

/// The column with a number, if there is one.
pub open spec fn column_numbered(value: int) -> Option<ColumnId> {
    if value == 0 {
        Some(ColumnId::ImageName)
    } else if value == 1 {
        Some(ColumnId::Pid)
    } else if value == 2 {
        Some(ColumnId::Username)
    } else if value == 3 {
        Some(ColumnId::SessionId)
    } else if value == 4 {
        Some(ColumnId::Cpu)
    } else if value == 5 {
        Some(ColumnId::CpuTime)
    } else if value == 6 {
        Some(ColumnId::MemUsage)
    } else if value == 7 {
        Some(ColumnId::MemUsageDiff)
    } else if value == 8 {
        Some(ColumnId::PageFaults)
    } else if value == 9 {
        Some(ColumnId::PageFaultsDiff)
    } else if value == 10 {
        Some(ColumnId::CommitCharge)
    } else if value == 11 {
        Some(ColumnId::PagedPool)
    } else if value == 12 {
        Some(ColumnId::NonPagedPool)
    } else if value == 13 {
        Some(ColumnId::BasePriority)
    } else if value == 14 {
        Some(ColumnId::HandleCount)
    } else if value == 15 {
        Some(ColumnId::ThreadCount)
    } else {
        None
    }
}

pub fn column_id_from_i32(value: i32) -> (column: Option<ColumnId>)
    ensures
        column == column_numbered(value as int),
        column matches Some(found) ==> found.number() == value,
        column is None <==> !(0 <= value < NUM_COLUMN),
{
    match value {
        0 => Some(ColumnId::ImageName),
        1 => Some(ColumnId::Pid),
        2 => Some(ColumnId::Username),
        3 => Some(ColumnId::SessionId),
        4 => Some(ColumnId::Cpu),
        5 => Some(ColumnId::CpuTime),
        6 => Some(ColumnId::MemUsage),
        7 => Some(ColumnId::MemUsageDiff),
        8 => Some(ColumnId::PageFaults),
        9 => Some(ColumnId::PageFaultsDiff),
        10 => Some(ColumnId::CommitCharge),
        11 => Some(ColumnId::PagedPool),
        12 => Some(ColumnId::NonPagedPool),
        13 => Some(ColumnId::BasePriority),
        14 => Some(ColumnId::HandleCount),
        15 => Some(ColumnId::ThreadCount),
        _ => None,
    }
}

/// A number stands for the column that has it.
pub proof fn column_numbers_stand_for_columns(column: ColumnId)
    ensures
        column_numbered(column.number()) == Some(column),
{
}

/// A set of columns.
#[derive(Clone, Copy, Debug, PartialEq, Eq, Structural)]
pub struct DirtyColumns(pub u32);

impl Default for DirtyColumns {
    fn default() -> (columns: Self)
        ensures
            columns == no_columns(),
    {
        DirtyColumns(0)
    }
}

pub open spec fn no_columns() -> DirtyColumns {
    DirtyColumns(0)
}

proof fn lemma_marked(mask: u32, marked: u32, asked: u32)
    by (bit_vector)
    requires
        marked < 32,
        asked < 32,
    ensures
        ((mask | (1u32 << marked)) >> asked) & 1 == 1 <==> (marked == asked || (mask >> asked) & 1
            == 1),
        mask & (1u32 << asked) != 0 <==> (mask >> asked) & 1 == 1,
        (0u32 >> asked) & 1 == 0,
        0u32 | (1u32 << marked) == 1u32 << marked,
{
}

proof fn lemma_joined(left: u32, right: u32, asked: u32)
    by (bit_vector)
    requires
        asked < 32,
    ensures
        ((left | right) >> asked) & 1 == 1 <==> ((left >> asked) & 1 == 1 || (right >> asked) & 1
            == 1),
        ((left & right) >> asked) & 1 == 1 <==> ((left >> asked) & 1 == 1 && (right >> asked) & 1
            == 1),
{
}

proof fn lemma_join_one(dirty: u32, changed: u32, visible: u32, marked: u32)
    by (bit_vector)
    requires
        marked < 16,
        changed < 0x1_0000,
    ensures
        changed | (1u32 << marked) < 0x1_0000,
        (visible >> marked) & 1 == 1 ==> (dirty | (changed & visible)) | (1u32 << marked) == dirty
            | ((changed | (1u32 << marked)) & visible),
        (visible >> marked) & 1 != 1 ==> dirty | (changed & visible) == dirty | ((changed | (1u32
            << marked)) & visible),
{
}

proof fn lemma_equal_masks(left: u32, right: u32)
    by (bit_vector)
    requires
        left < 0x1_0000,
        right < 0x1_0000,
        (left >> 0) & 1 == (right >> 0) & 1,
        (left >> 1) & 1 == (right >> 1) & 1,
        (left >> 2) & 1 == (right >> 2) & 1,
        (left >> 3) & 1 == (right >> 3) & 1,
        (left >> 4) & 1 == (right >> 4) & 1,
        (left >> 5) & 1 == (right >> 5) & 1,
        (left >> 6) & 1 == (right >> 6) & 1,
        (left >> 7) & 1 == (right >> 7) & 1,
        (left >> 8) & 1 == (right >> 8) & 1,
        (left >> 9) & 1 == (right >> 9) & 1,
        (left >> 10) & 1 == (right >> 10) & 1,
        (left >> 11) & 1 == (right >> 11) & 1,
        (left >> 12) & 1 == (right >> 12) & 1,
        (left >> 13) & 1 == (right >> 13) & 1,
        (left >> 14) & 1 == (right >> 14) & 1,
        (left >> 15) & 1 == (right >> 15) & 1,
    ensures
        left == right,
{
}

proof fn lemma_bit_or_not(mask: u32, asked: u32)
    by (bit_vector)
    requires
        asked < 32,
    ensures
        (mask >> asked) & 1 == 0 || (mask >> asked) & 1 == 1,
{
}

/// The set of the columns among the first `count` for which something holds.
pub open spec fn columns_where_below(
    wanted: spec_fn(ColumnId) -> bool,
    count: int,
) -> DirtyColumns
    decreases count,
{
    if count <= 0 {
        no_columns()
    } else {
        let before = columns_where_below(wanted, count - 1);
        match column_numbered(count - 1) {
            Some(column) if wanted(column) => before.with(column),
            _ => before,
        }
    }
}

/// The set of the columns for which something holds.
pub open spec fn columns_where(wanted: spec_fn(ColumnId) -> bool) -> DirtyColumns {
    columns_where_below(wanted, NUM_COLUMN as int)
}

/// The set of the columns in a list.
pub open spec fn column_set(columns: Seq<ColumnId>) -> DirtyColumns {
    columns_where(|column: ColumnId| columns.contains(column))
}

proof fn lemma_columns_where_below(wanted: spec_fn(ColumnId) -> bool, count: int)
    requires
        0 <= count <= NUM_COLUMN,
    ensures
        columns_where_below(wanted, count).is_proper(),
        forall|column: ColumnId| #[trigger]
            columns_where_below(wanted, count).has(column) <==> column.number() < count && wanted(
                column,
            ),
    decreases count,
{
    if count <= 0 {
        no_columns().lemma_with(ColumnId::Pid);
    } else {
        let before = columns_where_below(wanted, count - 1);
        lemma_columns_where_below(wanted, count - 1);
        let column = column_numbered(count - 1)->0;
        assert(column_numbered(count - 1) == Some(column) && column.number() == count - 1);
        before.lemma_with(column);
        lemma_join_one(0, before.0, 0, column.number() as u32);
        assert forall|other: ColumnId| #[trigger]
            columns_where_below(wanted, count).has(other) <==> other.number() < count && wanted(
                other,
            ) by {
            column_numbers_stand_for_columns(other);
            assert(before.has(other) <==> other.number() < count - 1 && wanted(other));
        }
    }
}

/// A set holds the columns for which the condition of the set holds, and nothing else.
pub proof fn lemma_columns_where(wanted: spec_fn(ColumnId) -> bool)
    ensures
        columns_where(wanted).is_proper(),
        forall|column: ColumnId| #[trigger] columns_where(wanted).has(column) <==> wanted(column),
{
    lemma_columns_where_below(wanted, NUM_COLUMN as int);
    assert forall|column: ColumnId| #[trigger] columns_where(wanted).has(column) <==> wanted(
        column,
    ) by {
        assert(column.number() < NUM_COLUMN);
    }
}

impl DirtyColumns {
    /// Whether the word says nothing but which columns are in the set.
    pub open spec fn is_proper(self) -> bool {
        self.0 < 0x1_0000
    }

    /// What is in one of two sets.
    pub open spec fn joined(self, other: DirtyColumns) -> DirtyColumns {
        DirtyColumns(self.0 | other.0)
    }

    /// What is in both of two sets.
    pub open spec fn common(self, other: DirtyColumns) -> DirtyColumns {
        DirtyColumns(self.0 & other.0)
    }

    /// Which columns two sets have together and in common.
    pub proof fn lemma_joined(self, other: DirtyColumns)
        ensures
            forall|column: ColumnId| #[trigger]
                self.joined(other).has(column) <==> self.has(column) || other.has(column),
            forall|column: ColumnId| #[trigger]
                self.common(other).has(column) <==> self.has(column) && other.has(column),
    {
        assert forall|column: ColumnId| #[trigger]
            self.joined(other).has(column) <==> self.has(column) || other.has(column) by {
            lemma_joined(self.0, other.0, column.number() as u32);
        }
        assert forall|column: ColumnId| #[trigger]
            self.common(other).has(column) <==> self.has(column) && other.has(column) by {
            lemma_joined(self.0, other.0, column.number() as u32);
        }
    }

    /// One more column that changed: of the rest of a row it has to be drawn if it is visible.
    pub proof fn lemma_join_one(self, changed: DirtyColumns, visible: DirtyColumns, column: ColumnId)
        requires
            changed.is_proper(),
        ensures
            changed.with(column).is_proper(),
            self.joined(changed.with(column).common(visible)) == if visible.has(column) {
                self.joined(changed.common(visible)).with(column)
            } else {
                self.joined(changed.common(visible))
            },
    {
        lemma_join_one(self.0, changed.0, visible.0, column.number() as u32);
    }

    /// Nothing changed, so nothing more has to be drawn.
    pub proof fn lemma_nothing(self, visible: DirtyColumns)
        ensures
            self.joined(no_columns().common(visible)) == self,
    {
        let (dirty, visible) = (self.0, visible.0);
        assert(dirty | (0u32 & visible) == dirty) by (bit_vector);
    }

    proof fn lemma_same_bit(self, other: DirtyColumns, column: ColumnId)
        requires
            self.has(column) <==> other.has(column),
        ensures
            (self.0 >> (column.number() as u32)) & 1 == (other.0 >> (column.number() as u32)) & 1,
    {
        lemma_bit_or_not(self.0, column.number() as u32);
        lemma_bit_or_not(other.0, column.number() as u32);
    }

    /// Two sets with the same columns are the same.
    pub proof fn lemma_same(self, other: DirtyColumns)
        requires
            self.is_proper(),
            other.is_proper(),
            forall|column: ColumnId| #[trigger] self.has(column) <==> other.has(column),
        ensures
            self == other,
    {
        self.lemma_same_bit(other, ColumnId::ImageName);
        self.lemma_same_bit(other, ColumnId::Pid);
        self.lemma_same_bit(other, ColumnId::Username);
        self.lemma_same_bit(other, ColumnId::SessionId);
        self.lemma_same_bit(other, ColumnId::Cpu);
        self.lemma_same_bit(other, ColumnId::CpuTime);
        self.lemma_same_bit(other, ColumnId::MemUsage);
        self.lemma_same_bit(other, ColumnId::MemUsageDiff);
        self.lemma_same_bit(other, ColumnId::PageFaults);
        self.lemma_same_bit(other, ColumnId::PageFaultsDiff);
        self.lemma_same_bit(other, ColumnId::CommitCharge);
        self.lemma_same_bit(other, ColumnId::PagedPool);
        self.lemma_same_bit(other, ColumnId::NonPagedPool);
        self.lemma_same_bit(other, ColumnId::BasePriority);
        self.lemma_same_bit(other, ColumnId::HandleCount);
        self.lemma_same_bit(other, ColumnId::ThreadCount);
        lemma_equal_masks(self.0, other.0);
    }

    pub open spec fn has(self, column: ColumnId) -> bool {
        (self.0 >> (column.number() as u32)) & 1 == 1
    }

    /// The set with one more column.
    pub open spec fn with(self, column: ColumnId) -> DirtyColumns {
        DirtyColumns(self.0 | (1u32 << (column.number() as u32)))
    }

    /// What a set with one more column holds; the empty set holds nothing.
    pub proof fn lemma_with(self, column: ColumnId)
        ensures
            forall|other: ColumnId| #[trigger]
                self.with(column).has(other) <==> (other == column || self.has(other)),
            forall|other: ColumnId| !#[trigger] no_columns().has(other),
    {
        assert forall|other: ColumnId| #[trigger]
            self.with(column).has(other) <==> (other == column || self.has(other)) by {
            lemma_marked(self.0, column.number() as u32, other.number() as u32);
        }
        assert forall|other: ColumnId| !#[trigger] no_columns().has(other) by {
            lemma_marked(0, 0, other.number() as u32);
        }
    }

    pub fn from_column(column_id: ColumnId) -> (columns: Self)
        ensures
            columns == no_columns().with(column_id),
            forall|other: ColumnId| #[trigger] columns.has(other) <==> other == column_id,
    {
        let columns = DirtyColumns(1u32 << (column_id.index() as u32));
        proof {
            lemma_marked(0, column_id.number() as u32, 0);
            no_columns().lemma_with(column_id);
        }
        columns
    }

    pub fn mark(&mut self, column_id: ColumnId)
        ensures
            *final(self) == old(self).with(column_id),
            forall|other: ColumnId| #[trigger]
                final(self).has(other) <==> (other == column_id || old(self).has(other)),
    {
        let ghost before = *self;
        self.0 = self.0 | (1u32 << (column_id.index() as u32));
        proof {
            before.lemma_with(column_id);
            assert(*self == before.with(column_id));
        }
    }

    pub fn from_columns(columns: &[ColumnId]) -> (set: Self)
        ensures
            set == column_set(columns@),
            forall|column: ColumnId| #[trigger] set.has(column) <==> columns@.contains(column),
    {
        let mut set = DirtyColumns(0);
        proof {
            no_columns().lemma_with(ColumnId::Pid);
        }
        for index in 0..columns.len()
            invariant
                set.is_proper(),
                forall|column: ColumnId| #[trigger]
                    set.has(column) <==> columns@.take(index as int).contains(column),
        {
            proof {
                no_columns().lemma_join_one(set, no_columns(), columns@[index as int]);
                assert(columns@.take(index + 1) =~= columns@.take(index as int).push(
                    columns@[index as int],
                ));
                crate::seqs::lemma_push_contains(
                    columns@.take(index as int),
                    columns@[index as int],
                );
            }
            set.mark(columns[index]);
        }
        proof {
            assert(columns@.take(columns@.len() as int) =~= columns@);
            let wanted = |column: ColumnId| columns@.contains(column);
            lemma_columns_where(wanted);
            set.lemma_same(columns_where(wanted));
        }
        set
    }

    /// Whether there is any column in the set.
    pub fn any(self) -> (any: bool)
        ensures
            any == (self != no_columns()),
    {
        self.0 != 0
    }

    pub fn contains(self, column_id: ColumnId) -> (contained: bool)
        ensures
            contained == self.has(column_id),
    {
        proof {
            lemma_marked(self.0, 0, column_id.number() as u32);
        }
        self.0 & (1u32 << (column_id.index() as u32)) != 0
    }
}

/// The columns among some numbers, in order; numbers of no column are left out.
pub open spec fn columns_among(numbers: Seq<i32>) -> Seq<ColumnId>
    decreases numbers.len(),
{
    if numbers.len() == 0 {
        Seq::empty()
    } else {
        let before = columns_among(numbers.drop_last());
        match column_numbered(numbers.last() as int) {
            Some(column) => before.push(column),
            None => before,
        }
    }
}

pub fn columns_from_options(options: &Options) -> (columns: Vec<ColumnId>)
    ensures
        columns@ == columns_among(options.active_process_columns@),
{
    let ghost numbers = options.active_process_columns@;
    let mut columns: Vec<ColumnId> = Vec::new();
    assert(numbers.take(0) =~= Seq::<i32>::empty());
    for index in 0..16usize
        invariant
            numbers == options.active_process_columns@,
            columns@ == columns_among(numbers.take(index as int)),
    {
        assert(numbers.take(index + 1).drop_last() =~= numbers.take(index as int));
        match column_id_from_i32(options.active_process_columns[index]) {
            Some(column) => {
                columns.push(column);
            },
            None => {},
        }
    }
    assert(numbers.take(16) =~= numbers);
    columns
}

/// Whether `order` lists every place of a list of `count` elements once.
pub open spec fn is_permutation(order: Seq<i32>, count: int) -> bool {
    &&& order.len() == count
    &&& forall|i: int| 0 <= i < order.len() ==> 0 <= #[trigger] order[i] < count
    &&& order.no_duplicates()
}

pub open spec fn reordered(active: Seq<ColumnId>, order: Seq<i32>) -> Seq<ColumnId> {
    Seq::new(order.len(), |i: int| active[order[i] as int])
}

/// The columns in the order in which they are displayed. The image name has to stay first.
pub fn reorder_process_columns(active: &[ColumnId], display_order: &[i32]) -> (columns: Option<
    Vec<ColumnId>,
>)
    ensures
        columns is Some <==> active@.len() > 0 && is_permutation(
            display_order@,
            active@.len() as int,
        ) && reordered(active@, display_order@)[0] == ColumnId::ImageName,
        columns matches Some(ordered) ==> ordered@ == reordered(active@, display_order@),
{
    if active.len() == 0 || active.len() != display_order.len() {
        return None;
    }
    let mut seen: Vec<bool> = Vec::new();
    for index in 0..active.len()
        invariant
            seen@.len() == index,
            forall|k: int| 0 <= k < index ==> !#[trigger] seen@[k],
    {
        seen.push(false);
    }
    let mut ordered: Vec<ColumnId> = Vec::new();
    for index in 0..display_order.len()
        invariant
            0 < active@.len() == display_order@.len(),
            seen@.len() == active@.len(),
            forall|i: int| 0 <= i < index ==> 0 <= #[trigger] display_order@[i] < active@.len(),
            forall|i: int, j: int|
                0 <= i < j < index ==> #[trigger] display_order@[i] != #[trigger] display_order@[j],
            forall|k: int|
                0 <= k < active@.len() ==> (#[trigger] seen@[k] <==> exists|i: int|
                    0 <= i < index && #[trigger] display_order@[i] == k),
            ordered@ =~= reordered(active@, display_order@).take(index as int),
    {
        let place: i32 = display_order[index];
        if place < 0 {
            return None;
        }
        let at: usize = place as usize;
        if at >= active.len() || seen[at] {
            proof {
                if at < active@.len() {
                    let i = choose|i: int| 0 <= i < index && #[trigger] display_order@[i] == at;
                    assert(display_order@[i] == display_order@[index as int]);
                }
            }
            return None;
        }
        assert(forall|i: int| 0 <= i < index ==> #[trigger] display_order@[i] != at);
        let ghost before = seen@;
        seen.set(at, true);
        ordered.push(active[at]);
        proof {
            assert forall|k: int| 0 <= k < active@.len() implies (#[trigger] seen@[k] <==> exists|
                i: int,
            |
                0 <= i < index + 1 && #[trigger] display_order@[i] == k) by {
                if k == at {
                    assert(display_order@[index as int] == k);
                } else if before[k] {
                    let i = choose|i: int| 0 <= i < index && #[trigger] display_order@[i] == k;
                    assert(display_order@[i] == k);
                }
            }
        }
    }
    assert(ordered@ =~= reordered(active@, display_order@));
    if ordered[0] == ColumnId::ImageName {
        Some(ordered)
    } else {
        None
    }
}

/// The width that is stored for a column: the known one where it is positive, and else the
/// standard width.
pub open spec fn stored_width(widths: Map<u32, i32>, column: ColumnId) -> int {
    let number = column.number() as u32;
    if widths.contains_key(number) && widths[number] > 0 {
        widths[number] as int
    } else {
        column.default_width() as int
    }
}

/// Stores the columns in order, each with its width.
pub fn write_process_column_layout(
    options: &mut Options,
    columns: &[ColumnId],
    widths: &Table<u32, i32>,
)
    requires
        widths.well_formed(),
    ensures
        forall|i: int|
            0 <= i < 16 ==> #[trigger] final(options).active_process_columns@[i] == if i
                < columns@.len() {
                columns@[i].number()
            } else {
                -1
            },
        forall|i: int|
            0 <= i < 16 ==> #[trigger] final(options).column_widths@[i] == if i < columns@.len() {
                stored_width(widths@, columns@[i])
            } else {
                -1
            },
        *final(options) == (Options {
            active_process_columns: final(options).active_process_columns,
            column_widths: final(options).column_widths,
            ..*old(options)
        }),
{
    let mut numbers: [i32; 16] = [-1; 16];
    let mut stored: [i32; 16] = [-1; 16];
    let count: usize = if columns.len() < 16 {
        columns.len()
    } else {
        16
    };
    for index in 0..count
        invariant
            widths.well_formed(),
            count <= 16,
            count <= columns@.len(),
            forall|i: int|
                0 <= i < 16 ==> #[trigger] numbers@[i] == if i < index {
                    columns@[i].number()
                } else {
                    -1
                },
            forall|i: int|
                0 <= i < 16 ==> #[trigger] stored@[i] == if i < index {
                    stored_width(widths@, columns@[i])
                } else {
                    -1
                },
    {
        let column = columns[index];
        numbers[index] = column.index() as i32;
        stored[index] = match widths.get(&(column.index() as u32)) {
            Some(width) => if *width > 0 {
                *width
            } else {
                column.standard_width()
            },
            None => column.standard_width(),
        };
    }
    options.active_process_columns = numbers;
    options.column_widths = stored;
}

/// What was stored is read again: the same columns in the same order.
pub proof fn stored_columns_are_read_again(columns: Seq<ColumnId>, numbers: Seq<i32>)
    requires
        columns.len() <= numbers.len(),
        forall|i: int|
            0 <= i < numbers.len() ==> #[trigger] numbers[i] == if i < columns.len() {
                columns[i].number()
            } else {
                -1
            },
    ensures
        columns_among(numbers) == columns,
    decreases numbers.len(),
{
    if numbers.len() > 0 {
        let shorter = numbers.drop_last();
        if columns.len() == numbers.len() {
            let fewer = columns.drop_last();
            assert forall|i: int| 0 <= i < shorter.len() implies #[trigger] shorter[i] == if i
                < fewer.len() {
                fewer[i].number()
            } else {
                -1
            } by {
                assert(shorter[i] == numbers[i]);
            }
            stored_columns_are_read_again(fewer, shorter);
            column_numbers_stand_for_columns(columns.last());
            assert(numbers.last() == columns.last().number());
            assert(fewer.push(columns.last()) =~= columns);
        } else {
            assert forall|i: int| 0 <= i < shorter.len() implies #[trigger] shorter[i] == if i
                < columns.len() {
                columns[i].number()
            } else {
                -1
            } by {
                assert(shorter[i] == numbers[i]);
            }
            stored_columns_are_read_again(columns, shorter);
            assert(numbers.last() == -1);
        }
    } else {
        assert(columns =~= Seq::<ColumnId>::empty());
    }
}

/// The width with which a column is shown at a place: the stored one where it is positive, and
/// else the standard width.
pub fn shown_width(options: &Options, index: usize, column: ColumnId) -> (width: i32)
    ensures
        width == if index < 16 && options.column_widths@[index as int] > 0 {
            options.column_widths@[index as int]
        } else {
            column.default_width()
        },
{
    if index < 16 && options.column_widths[index] > 0 {
        options.column_widths[index]
    } else {
        column.standard_width()
    }
}

/// Which columns are still to be shown, and which are listed already.
pub struct ColumnChoice {
    pub columns: Seq<ColumnId>,
    pub open: Set<ColumnId>,
}

/// The choice before any column is listed but the image name, which is always shown.
pub open spec fn initial_choice(checked: Seq<bool>) -> ColumnChoice {
    ColumnChoice {
        columns: seq![ColumnId::ImageName],
        open: Set::new(
            |column: ColumnId| column == ColumnId::ImageName || checked[column.number()],
        ),
    }
}

/// The choice after a column was taken up, if it is open.
pub open spec fn with_choice(choice: ColumnChoice, column: ColumnId) -> ColumnChoice {
    if choice.open.contains(column) {
        ColumnChoice {
            columns: choice.columns.push(column),
            open: choice.open.remove(column),
        }
    } else {
        choice
    }
}

pub open spec fn with_choices(choice: ColumnChoice, columns: Seq<ColumnId>) -> ColumnChoice
    decreases columns.len(),
{
    if columns.len() == 0 {
        choice
    } else {
        with_choice(with_choices(choice, columns.drop_last()), columns.last())
    }
}

/// The choice after the columns with the numbers from one up to `count` were taken up.
pub open spec fn with_numbers(choice: ColumnChoice, count: int) -> ColumnChoice
    decreases count,
{
    if count <= 1 {
        choice
    } else {
        with_choice(with_numbers(choice, count - 1), column_numbered(count - 1)->0)
    }
}

/// All columns but the first one.
pub open spec fn behind_first(columns: Seq<ColumnId>) -> Seq<ColumnId> {
    if columns.len() == 0 {
        columns
    } else {
        columns.skip(1)
    }
}

/// The columns that are shown after the user has checked some: the image name first, then those
/// shown before in their order, then new ones in the order of all columns.
pub open spec fn chosen_columns(existing: Seq<ColumnId>, checked: Seq<bool>) -> Seq<ColumnId> {
    with_numbers(
        with_choices(initial_choice(checked), behind_first(existing)),
        NUM_COLUMN as int,
    ).columns
}

/// Which columns are still open.
spec fn open_columns(open: Seq<bool>) -> Set<ColumnId> {
    Set::new(|column: ColumnId| open[column.number()])
}

fn take_up(columns: &mut Vec<ColumnId>, open: &mut [bool; 16], column: ColumnId)
    ensures
        ({
            let before = ColumnChoice { columns: old(columns)@, open: open_columns(old(open)@) };
            let after = with_choice(before, column);
            final(columns)@ == after.columns && open_columns(final(open)@) == after.open
        }),
{
    let ghost before = open@;
    let index: usize = column.index();
    if open[index] {
        columns.push(column);
        open[index] = false;
        proof {
            assert forall|other: ColumnId|
                open_columns(open@).contains(other) == open_columns(before).remove(
                    column,
                ).contains(other) by {
                column_numbers_stand_for_columns(other);
                column_numbers_stand_for_columns(column);
            }
            assert(open_columns(open@) =~= open_columns(before).remove(column));
        }
    }
}

/// Lists the columns that are shown after the user has checked some.
pub fn choose_columns(existing: &[ColumnId], checked: &[bool; 16]) -> (columns: Vec<ColumnId>)
    ensures
        columns@ == chosen_columns(existing@, checked@),
{
    let mut open: [bool; 16] = *checked;
    open[0] = true;
    let mut columns: Vec<ColumnId> = Vec::new();
    columns.push(ColumnId::ImageName);
    let ghost start = initial_choice(checked@);
    let ghost known = behind_first(existing@);
    proof {
        assert(open_columns(open@) =~= start.open);
        assert(columns@ =~= start.columns);
        assert(known.take(0) =~= Seq::<ColumnId>::empty());
    }
    let mut index: usize = 1;
    while index < existing.len()
        invariant
            1 <= index,
            index <= existing@.len() || index == 1,
            known == behind_first(existing@),
            ({
                let choice = with_choices(start, known.take(index - 1));
                columns@ == choice.columns && open_columns(open@) == choice.open
            }),
        decreases existing.len() - index,
    {
        assert(known.take(index as int).drop_last() =~= known.take(index - 1));
        assert(known.take(index as int).last() == existing@[index as int]);
        take_up(&mut columns, &mut open, existing[index]);
        index = index + 1;
    }
    proof {
        assert(known.take(index - 1) =~= known);
    }
    let ghost base = with_choices(start, known);
    for number in 1..16i32
        invariant
            ({
                let choice = with_numbers(base, number as int);
                columns@ == choice.columns && open_columns(open@) == choice.open
            }),
    {
        match column_id_from_i32(number) {
            Some(column) => {
                take_up(&mut columns, &mut open, column);
            },
            None => {
                assert(false);
            },
        }
    }
    columns
}

proof fn lemma_choices(choice: ColumnChoice, columns: Seq<ColumnId>, column: ColumnId)
    ensures
        ({
            let after = with_choices(choice, columns);
            &&& (after.columns.contains(column) || after.open.contains(column)) == (
            choice.columns.contains(column) || choice.open.contains(column))
            &&& after.open.subset_of(choice.open)
        }),
    decreases columns.len(),
{
    if columns.len() > 0 {
        lemma_choices(choice, columns.drop_last(), column);
        let before = with_choices(choice, columns.drop_last());
        crate::seqs::lemma_push_contains(before.columns, columns.last());
    }
}

proof fn lemma_numbers(choice: ColumnChoice, count: int, column: ColumnId)
    requires
        1 <= count <= NUM_COLUMN,
    ensures
        ({
            let after = with_numbers(choice, count);
            &&& (after.columns.contains(column) || after.open.contains(column)) == (
            choice.columns.contains(column) || choice.open.contains(column))
            &&& 1 <= column.number() < count ==> !after.open.contains(column)
            &&& after.open.subset_of(choice.open)
        }),
    decreases count,
{
    if count > 1 {
        lemma_numbers(choice, count - 1, column);
        let before = with_numbers(choice, count - 1);
        let next = column_numbered(count - 1)->0;
        crate::seqs::lemma_push_contains(before.columns, next);
        column_numbers_stand_for_columns(column);
    }
}

/// Exactly the checked columns are shown, and the image name, which comes first.
pub proof fn chosen_columns_are_the_checked_ones(
    existing: Seq<ColumnId>,
    checked: Seq<bool>,
    column: ColumnId,
)
    requires
        checked.len() == NUM_COLUMN,
    ensures
        chosen_columns(existing, checked).contains(column) <==> (column == ColumnId::ImageName
            || checked[column.number()]),
        chosen_columns(existing, checked).len() > 0,
        chosen_columns(existing, checked)[0] == ColumnId::ImageName,
{
    let start = initial_choice(checked);
    let middle = with_choices(start, behind_first(existing));
    lemma_choices(start, behind_first(existing), column);
    lemma_numbers(middle, NUM_COLUMN as int, column);
    lemma_choices_first(start, behind_first(existing));
    lemma_numbers_first(middle, NUM_COLUMN as int);
    assert(start.columns.contains(column) <==> column == ColumnId::ImageName) by {
        assert(start.columns[0] == ColumnId::ImageName);
    }
    let after = with_numbers(middle, NUM_COLUMN as int);
    if column == ColumnId::ImageName {
        assert(after.columns[0] == column);
    } else {
        assert(1 <= column.number() < NUM_COLUMN);
    }
}

proof fn lemma_choices_first(choice: ColumnChoice, columns: Seq<ColumnId>)
    requires
        choice.columns.len() > 0,
    ensures
        with_choices(choice, columns).columns.len() > 0,
        with_choices(choice, columns).columns[0] == choice.columns[0],
    decreases columns.len(),
{
    if columns.len() > 0 {
        lemma_choices_first(choice, columns.drop_last());
    }
}

proof fn lemma_numbers_first(choice: ColumnChoice, count: int)
    requires
        choice.columns.len() > 0,
    ensures
        with_numbers(choice, count).columns.len() > 0,
        with_numbers(choice, count).columns[0] == choice.columns[0],
    decreases count,
{
    if count > 1 {
        lemma_numbers_first(choice, count - 1);
    }
}

/// The widths that are stored for the columns up to the first unused place.
pub open spec fn widths_stored(numbers: Seq<i32>, widths: Seq<i32>, count: int) -> Map<u32, i32>
    decreases count,
{
    if count <= 0 {
        Map::empty()
    } else {
        let before = widths_stored(numbers, widths, count - 1);
        if forall|i: int| 0 <= i < count ==> column_numbered(#[trigger] numbers[i] as int) is Some {
            before.insert(numbers[count - 1] as u32, widths[count - 1])
        } else {
            before
        }
    }
}

fn stored_widths(options: &Options) -> (widths: Table<u32, i32>)
    ensures
        widths.well_formed(),
        widths@ == widths_stored(options.active_process_columns@, options.column_widths@, 16),
{
    let ghost numbers = options.active_process_columns@;
    let ghost sizes = options.column_widths@;
    let mut widths: Table<u32, i32> = Table::new();
    let mut open = true;
    for index in 0..16usize
        invariant
            numbers == options.active_process_columns@,
            sizes == options.column_widths@,
            widths.well_formed(),
            open <==> forall|i: int|
                0 <= i < index ==> column_numbered(#[trigger] numbers[i] as int) is Some,
            widths@ == widths_stored(numbers, sizes, index as int),
    {
        if open {
            match column_id_from_i32(options.active_process_columns[index]) {
                Some(column) => {
                    widths.insert(column.index() as u32, options.column_widths[index]);
                },
                None => {
                    assert(column_numbered(numbers[index as int] as int) is None);
                    open = false;
                },
            }
        }
    }
    widths
}

/// Stores the columns that the user has checked. Columns that were shown keep their widths.
pub fn apply_selected_columns(options: &mut Options, checked: &[bool; 16])
    ensures
        ({
            let columns = chosen_columns(
                columns_among(old(options).active_process_columns@),
                checked@,
            );
            let widths = widths_stored(
                old(options).active_process_columns@,
                old(options).column_widths@,
                16,
            );
            &&& forall|i: int|
                0 <= i < 16 ==> #[trigger] final(options).active_process_columns@[i] == if i
                    < columns.len() {
                    columns[i].number()
                } else {
                    -1
                }
            &&& forall|i: int|
                0 <= i < 16 ==> #[trigger] final(options).column_widths@[i] == if i
                    < columns.len() {
                    stored_width(widths, columns[i])
                } else {
                    -1
                }
        }),
        *final(options) == (Options {
            active_process_columns: final(options).active_process_columns,
            column_widths: final(options).column_widths,
            ..*old(options)
        }),
{
    let existing = columns_from_options(options);
    let widths = stored_widths(options);
    let columns = choose_columns(existing.as_slice(), checked);
    write_process_column_layout(options, columns.as_slice(), &widths);
}

} // verus!
