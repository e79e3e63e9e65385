//! Rows of the process list: their data, their texts, and what changes in a refresh.
use vstd::prelude::*;

use super::columns::{columns_where, lemma_columns_where, no_columns, ColumnId, DirtyColumns};
use crate::process_identity::ProcIdentity;
use crate::text::{
    append_chars, append_text, chars_of, copy_of, decimal_chars, decimal_text, lowercase,
    padded_to_two, same_text, signed_decimal_chars, signed_decimal_text, string_of, two_digits,
};

verus! {

pub const IDLE_PRIORITY_CLASS: u32 = 0x40;

pub const BELOW_NORMAL_PRIORITY_CLASS: u32 = 0x4000;

pub const NORMAL_PRIORITY_CLASS: u32 = 0x20;

pub const ABOVE_NORMAL_PRIORITY_CLASS: u32 = 0x8000;

pub const HIGH_PRIORITY_CLASS: u32 = 0x80;

pub const REALTIME_PRIORITY_CLASS: u32 = 0x100;

/// What stands behind the image name of a 32-bit process.
pub const SUFFIX_32_BIT: &'static str = " *32";

/// One row: what was sampled, the texts that are shown, and what has to be drawn anew.
#[derive(Clone, Debug, PartialEq, Eq)]
pub struct ProcEntry {
    pub identity: ProcIdentity,
    pub pid: u32,
    pub image_name: String,
    pub image_name_lower: String,
    pub is_32_bit: Option<bool>,
    pub user_name: String,
    pub user_name_lower: String,
    pub session_id: Option<u32>,
    pub cpu: u8,
    pub cpu_time_100ns: u64,
    pub display_cpu_time_100ns: u64,
    pub mem_usage_kb: u64,
    pub mem_diff_kb: i64,
    pub page_faults: u32,
    pub page_faults_diff: i64,
    pub commit_charge_kb: u64,
    pub paged_pool_kb: u64,
    pub nonpaged_pool_kb: u64,
    pub priority_class: u32,
    pub handle_count: u32,
    pub thread_count: u32,
    pub display_text: [String; 16],
    pub pass_count: u64,
    pub dirty_columns: DirtyColumns,
}

/// What was sampled of a process, with its texts as characters.
pub struct ProcFacts {
    pub pid: u32,
    pub image_name: Seq<char>,
    pub image_name_lower: Seq<char>,
    pub is_32_bit: Option<bool>,
    pub user_name: Seq<char>,
    pub user_name_lower: Seq<char>,
    pub session_id: Option<u32>,
    pub cpu: u8,
    pub cpu_time_100ns: u64,
    pub display_cpu_time_100ns: u64,
    pub mem_usage_kb: u64,
    pub mem_diff_kb: i64,
    pub page_faults: u32,
    pub page_faults_diff: i64,
    pub commit_charge_kb: u64,
    pub paged_pool_kb: u64,
    pub nonpaged_pool_kb: u64,
    pub priority_class: u32,
    pub handle_count: u32,
    pub thread_count: u32,
}

impl ProcFacts {
    /// Whether the lower-case forms are those of the names.
    pub open spec fn has_lower_names(self) -> bool {
        self.image_name_lower == lowercase(self.image_name) && self.user_name_lower == lowercase(
            self.user_name,
        )
    }
}

impl ProcEntry {
    pub open spec fn facts(&self) -> ProcFacts {
        ProcFacts {
            pid: self.pid,
            image_name: self.image_name@,
            image_name_lower: self.image_name_lower@,
            is_32_bit: self.is_32_bit,
            user_name: self.user_name@,
            user_name_lower: self.user_name_lower@,
            session_id: self.session_id,
            cpu: self.cpu,
            cpu_time_100ns: self.cpu_time_100ns,
            display_cpu_time_100ns: self.display_cpu_time_100ns,
            mem_usage_kb: self.mem_usage_kb,
            mem_diff_kb: self.mem_diff_kb,
            page_faults: self.page_faults,
            page_faults_diff: self.page_faults_diff,
            commit_charge_kb: self.commit_charge_kb,
            paged_pool_kb: self.paged_pool_kb,
            nonpaged_pool_kb: self.nonpaged_pool_kb,
            priority_class: self.priority_class,
            handle_count: self.handle_count,
            thread_count: self.thread_count,
        }
    }

    /// The text that is kept for a column.
    pub open spec fn shown(&self, column: ColumnId) -> Seq<char> {
        self.display_text@[column.number()]@
    }
}

/// What stays the same of a process as long as it runs.
#[derive(Clone, Debug, PartialEq, Eq)]
pub struct ProcStaticMetadata {
    pub is_32_bit: Option<bool>,
    pub user_name: String,
    pub user_name_lower: String,
    pub session_id: Option<u32>,
    pub user_identity_resolved: bool,
}

/// Hours, minutes and seconds of a time in units of 100 ns.
pub open spec fn elapsed_time(total_100ns: u64) -> Seq<char> {
    let seconds = total_100ns as int / 10_000_000;
    padded_to_two(decimal_text((seconds / 3600) as nat), ' ') + seq![':'] + padded_to_two(
        decimal_text((seconds % 3600 / 60) as nat),
        '0',
    ) + seq![':'] + padded_to_two(decimal_text((seconds % 60) as nat), '0')
}

pub fn format_elapsed_time(total_100ns: u64) -> (text: String)
    ensures
        text@ == elapsed_time(total_100ns),
{
    let seconds: u64 = total_100ns / 10_000_000;
    let mut chars = two_digits(seconds / 3600, ' ');
    chars.push(':');
    append_chars(&mut chars, two_digits(seconds % 3600 / 60, '0').as_slice());
    chars.push(':');
    append_chars(&mut chars, two_digits(seconds % 60, '0').as_slice());
    assert(chars@ =~= elapsed_time(total_100ns));
    string_of(chars.as_slice())
}

pub open spec fn kilobytes(value: int) -> Seq<char> {
    signed_decimal_text(value) + " K"@
}

pub fn format_kilobytes(value: u64) -> (text: String)
    ensures
        text@ == kilobytes(value as int),
{
    let mut chars = decimal_chars(value);
    append_text(&mut chars, " K");
    string_of(chars.as_slice())
}

pub fn format_signed_kilobytes(value: i64) -> (text: String)
    ensures
        text@ == kilobytes(value as int),
{
    let mut chars = signed_decimal_chars(value);
    append_text(&mut chars, " K");
    string_of(chars.as_slice())
}

/// The text of a column. That of the base priority depends on the language and is not kept.
pub open spec fn column_display(facts: ProcFacts, column: ColumnId) -> Seq<char> {
    match column {
        ColumnId::ImageName => if facts.is_32_bit == Some(true) {
            facts.image_name + SUFFIX_32_BIT@
        } else {
            facts.image_name
        },
        ColumnId::Pid => decimal_text(facts.pid as nat),
        ColumnId::Username => facts.user_name,
        ColumnId::SessionId => match facts.session_id {
            Some(session) => decimal_text(session as nat),
            None => Seq::empty(),
        },
        ColumnId::Cpu => padded_to_two(decimal_text(facts.cpu as nat), '0') + " %"@,
        ColumnId::CpuTime => elapsed_time(facts.display_cpu_time_100ns),
        ColumnId::MemUsage => kilobytes(facts.mem_usage_kb as int),
        ColumnId::MemUsageDiff => kilobytes(facts.mem_diff_kb as int),
        ColumnId::PageFaults => decimal_text(facts.page_faults as nat),
        ColumnId::PageFaultsDiff => signed_decimal_text(facts.page_faults_diff as int),
        ColumnId::CommitCharge => kilobytes(facts.commit_charge_kb as int),
        ColumnId::PagedPool => kilobytes(facts.paged_pool_kb as int),
        ColumnId::NonPagedPool => kilobytes(facts.nonpaged_pool_kb as int),
        ColumnId::BasePriority => Seq::empty(),
        ColumnId::HandleCount => decimal_text(facts.handle_count as nat),
        ColumnId::ThreadCount => decimal_text(facts.thread_count as nat),
    }
}

fn number_text(value: u64) -> (text: String)
    ensures
        text@ == decimal_text(value as nat),
{
    string_of(decimal_chars(value).as_slice())
}

impl ProcEntry {
    fn column_display_text(&self, column: ColumnId) -> (text: String)
        ensures
            text@ == column_display(self.facts(), column),
    {
        match column {
            ColumnId::ImageName => {
                let mut chars = chars_of(self.image_name.as_str());
                let is_32_bit = match self.is_32_bit {
                    Some(is_32_bit) => is_32_bit,
                    None => false,
                };
                if is_32_bit {
                    append_text(&mut chars, SUFFIX_32_BIT);
                }
                string_of(chars.as_slice())
            },
            ColumnId::Pid => number_text(self.pid as u64),
            ColumnId::Username => copy_of(self.user_name.as_str()),
            ColumnId::SessionId => match self.session_id {
                Some(session) => number_text(session as u64),
                None => {
                    let text = String::new();
                    assert(text@ =~= Seq::<char>::empty());
                    text
                },
            },
            ColumnId::Cpu => {
                let mut chars = two_digits(self.cpu as u64, '0');
                append_text(&mut chars, " %");
                string_of(chars.as_slice())
            },
            ColumnId::CpuTime => format_elapsed_time(self.display_cpu_time_100ns),
            ColumnId::MemUsage => format_kilobytes(self.mem_usage_kb),
            ColumnId::MemUsageDiff => format_signed_kilobytes(self.mem_diff_kb),
            ColumnId::PageFaults => number_text(self.page_faults as u64),
            ColumnId::PageFaultsDiff => string_of(
                signed_decimal_chars(self.page_faults_diff).as_slice(),
            ),
            ColumnId::CommitCharge => format_kilobytes(self.commit_charge_kb),
            ColumnId::PagedPool => format_kilobytes(self.paged_pool_kb),
            ColumnId::NonPagedPool => format_kilobytes(self.nonpaged_pool_kb),
            ColumnId::BasePriority => {
                let text = String::new();
                assert(text@ =~= Seq::<char>::empty());
                text
            },
            ColumnId::HandleCount => number_text(self.handle_count as u64),
            ColumnId::ThreadCount => number_text(self.thread_count as u64),
        }
    }

    /// Everything but the texts and what has to be drawn is the same.
    pub open spec fn same_sample(&self, other: &ProcEntry) -> bool {
        self.identity == other.identity && self.facts() == other.facts() && self.pass_count
            == other.pass_count
    }

    /// Whether the texts are those of `before` but for that of one column, which fits the facts.
    pub open spec fn shows_anew(&self, before: &ProcEntry, column: ColumnId) -> bool {
        forall|other: ColumnId| #[trigger]
            self.shown(other) == if other == column && column != ColumnId::BasePriority {
                column_display(before.facts(), column)
            } else {
                before.shown(other)
            }
    }

    fn rebuild_display_column(&mut self, column_id: ColumnId)
        ensures
            final(self).same_sample(old(self)),
            final(self).dirty_columns == old(self).dirty_columns,
            final(self).shows_anew(old(self), column_id),
    {
        let ghost before = *self;
        if column_id != ColumnId::BasePriority {
            let text = self.column_display_text(column_id);
            self.display_text[column_id.index()] = text;
            proof {
                assert forall|other: ColumnId| #[trigger] self.shown(other) == if other
                    == column_id && column_id != ColumnId::BasePriority {
                    column_display(before.facts(), column_id)
                } else {
                    before.shown(other)
                } by {
                    super::columns::column_numbers_stand_for_columns(other);
                    super::columns::column_numbers_stand_for_columns(column_id);
                }
            }
        }
    }

    /// Writes the texts of the given columns.
    pub fn rebuild_display_columns(&mut self, columns: &[ColumnId])
        ensures
            final(self).same_sample(old(self)),
            final(self).dirty_columns == old(self).dirty_columns,
            forall|column: ColumnId| #[trigger]
                final(self).shown(column) == if columns@.contains(column) && column
                    != ColumnId::BasePriority {
                    column_display(old(self).facts(), column)
                } else {
                    old(self).shown(column)
                },
    {
        for index in 0..columns.len()
            invariant
                self.same_sample(old(self)),
                self.dirty_columns == old(self).dirty_columns,
                forall|column: ColumnId| #[trigger]
                    self.shown(column) == if columns@.take(index as int).contains(column) && column
                        != ColumnId::BasePriority {
                        column_display(old(self).facts(), column)
                    } else {
                        old(self).shown(column)
                    },
        {
            proof {
                assert(columns@.take(index + 1) =~= columns@.take(index as int).push(
                    columns@[index as int],
                ));
                crate::seqs::lemma_push_contains(
                    columns@.take(index as int),
                    columns@[index as int],
                );
            }
            self.rebuild_display_column(columns[index]);
        }
        assert(columns@.take(columns@.len() as int) =~= columns@);
    }

    /// Takes over what is known of the process from earlier samples.
    pub fn apply_static_metadata(&mut self, metadata: &ProcStaticMetadata)
        ensures
            final(self).identity == old(self).identity,
            final(self).facts() == (ProcFacts {
                is_32_bit: metadata.is_32_bit,
                user_name: metadata.user_name@,
                user_name_lower: metadata.user_name_lower@,
                session_id: metadata.session_id,
                ..old(self).facts()
            }),
            final(self).display_text == old(self).display_text,
            final(self).pass_count == old(self).pass_count,
            final(self).dirty_columns == old(self).dirty_columns,
    {
        self.is_32_bit = metadata.is_32_bit;
        self.user_name = metadata.user_name.clone();
        self.user_name_lower = metadata.user_name_lower.clone();
        self.session_id = metadata.session_id;
    }

    /// A row that is new in the list: all its visible columns have to be drawn.
    pub fn with_pass_count(
        self,
        pass_count: u64,
        active_columns: &[ColumnId],
        visible_columns: DirtyColumns,
    ) -> (entry: Self)
        ensures
            entry.identity == self.identity,
            entry.facts() == self.facts(),
            entry.pass_count == pass_count,
            entry.dirty_columns == visible_columns,
            forall|column: ColumnId| #[trigger]
                entry.shown(column) == if active_columns@.contains(column) && column
                    != ColumnId::BasePriority {
                    column_display(self.facts(), column)
                } else {
                    self.shown(column)
                },
    {
        let mut entry = self;
        entry.pass_count = pass_count;
        let ghost start = entry;
        entry.rebuild_display_columns(active_columns);
        let ghost rebuilt = entry;
        entry.dirty_columns = visible_columns;
        assert(forall|column: ColumnId| #[trigger] entry.shown(column) == rebuilt.shown(column));
        assert(forall|column: ColumnId| #[trigger] start.shown(column) == self.shown(column));
        entry
    }
}

/// The localized names of the priority classes.
#[derive(Clone, Debug, PartialEq, Eq)]
pub struct PriorityNames {
    pub low: String,
    pub below_normal: String,
    pub normal: String,
    pub above_normal: String,
    pub high: String,
    pub realtime: String,
    pub unknown: String,
}

/// The name of a priority class.
pub open spec fn priority_name(names: PriorityNames, priority_class: u32) -> Seq<char> {
    if priority_class == IDLE_PRIORITY_CLASS {
        names.low@
    } else if priority_class == BELOW_NORMAL_PRIORITY_CLASS {
        names.below_normal@
    } else if priority_class == HIGH_PRIORITY_CLASS {
        names.high@
    } else if priority_class == ABOVE_NORMAL_PRIORITY_CLASS {
        names.above_normal@
    } else if priority_class == REALTIME_PRIORITY_CLASS {
        names.realtime@
    } else if priority_class == NORMAL_PRIORITY_CLASS {
        names.normal@
    } else {
        names.unknown@
    }
}

/// The text that a row shows in a column.
pub fn column_text<'a>(
    entry: &'a ProcEntry,
    column_id: ColumnId,
    strings: &'a PriorityNames,
) -> (text: &'a str)
    ensures
        text@ == if column_id == ColumnId::BasePriority {
            priority_name(*strings, entry.priority_class)
        } else {
            entry.shown(column_id)
        },
{
    match column_id {
        ColumnId::BasePriority => {
            let class: u32 = entry.priority_class;
            if class == IDLE_PRIORITY_CLASS {
                strings.low.as_str()
            } else if class == BELOW_NORMAL_PRIORITY_CLASS {
                strings.below_normal.as_str()
            } else if class == HIGH_PRIORITY_CLASS {
                strings.high.as_str()
            } else if class == ABOVE_NORMAL_PRIORITY_CLASS {
                strings.above_normal.as_str()
            } else if class == REALTIME_PRIORITY_CLASS {
                strings.realtime.as_str()
            } else if class == NORMAL_PRIORITY_CLASS {
                strings.normal.as_str()
            } else {
                strings.unknown.as_str()
            }
        },
        _ => entry.display_text[column_id.index()].as_str(),
    }
}

/// Whether a column shows something else after a refresh.
pub open spec fn column_changed(before: ProcFacts, after: ProcFacts, column: ColumnId) -> bool {
    match column {
        ColumnId::ImageName => before.image_name != after.image_name || before.is_32_bit
            != after.is_32_bit,
        ColumnId::Pid => before.pid != after.pid,
        ColumnId::Username => before.user_name != after.user_name,
        ColumnId::SessionId => before.session_id != after.session_id,
        ColumnId::Cpu => before.cpu != after.cpu,
        ColumnId::CpuTime => before.display_cpu_time_100ns != after.display_cpu_time_100ns,
        ColumnId::MemUsage => before.mem_usage_kb != after.mem_usage_kb,
        ColumnId::MemUsageDiff => before.mem_diff_kb != after.mem_diff_kb,
        ColumnId::PageFaults => before.page_faults != after.page_faults,
        ColumnId::PageFaultsDiff => before.page_faults_diff != after.page_faults_diff,
        ColumnId::CommitCharge => before.commit_charge_kb != after.commit_charge_kb,
        ColumnId::PagedPool => before.paged_pool_kb != after.paged_pool_kb,
        ColumnId::NonPagedPool => before.nonpaged_pool_kb != after.nonpaged_pool_kb,
        ColumnId::BasePriority => before.priority_class != after.priority_class,
        ColumnId::HandleCount => before.handle_count != after.handle_count,
        ColumnId::ThreadCount => before.thread_count != after.thread_count,
    }
}

/// What a row holds after a refresh: what was sampled. The lower-case form of a name is taken
/// over together with the name.
pub open spec fn refreshed(before: ProcFacts, sample: ProcFacts) -> ProcFacts {
    ProcFacts {
        image_name_lower: if before.image_name == sample.image_name {
            before.image_name_lower
        } else {
            sample.image_name_lower
        },
        user_name_lower: if before.user_name == sample.user_name {
            before.user_name_lower
        } else {
            sample.user_name_lower
        },
        ..sample
    }
}

fn mark_process_column_changed(
    entry: &mut ProcEntry,
    changed: &mut DirtyColumns,
    column_id: ColumnId,
    visible_columns: DirtyColumns,
)
    ensures
        final(entry).same_sample(old(entry)),
        *final(changed) == old(changed).with(column_id),
        final(entry).dirty_columns == if visible_columns.has(column_id) {
            old(entry).dirty_columns.with(column_id)
        } else {
            old(entry).dirty_columns
        },
        forall|column: ColumnId| #[trigger]
            final(entry).shown(column) == if column == column_id && visible_columns.has(column)
                && column != ColumnId::BasePriority {
                column_display(old(entry).facts(), column)
            } else {
                old(entry).shown(column)
            },
{
    changed.mark(column_id);
    if visible_columns.contains(column_id) {
        entry.rebuild_display_column(column_id);
        let ghost rebuilt = *entry;
        entry.dirty_columns.mark(column_id);
        assert(forall|column: ColumnId| #[trigger] entry.shown(column) == rebuilt.shown(column));
    }
}

/// How far a refresh of a row has come: the columns with a number below `stage` are done.
spec fn refreshed_up_to(before: ProcFacts, sample: ProcFacts, stage: int) -> ProcFacts {
    let after = refreshed(before, sample);
    ProcFacts {
        image_name: if stage > 0 { after.image_name } else { before.image_name },
        image_name_lower: if stage > 0 {
            after.image_name_lower
        } else {
            before.image_name_lower
        },
        is_32_bit: if stage > 0 { after.is_32_bit } else { before.is_32_bit },
        pid: if stage > 1 { after.pid } else { before.pid },
        user_name: if stage > 2 { after.user_name } else { before.user_name },
        user_name_lower: if stage > 2 { after.user_name_lower } else { before.user_name_lower },
        session_id: if stage > 3 { after.session_id } else { before.session_id },
        cpu: if stage > 4 { after.cpu } else { before.cpu },
        cpu_time_100ns: if stage > 5 { after.cpu_time_100ns } else { before.cpu_time_100ns },
        display_cpu_time_100ns: if stage > 5 {
            after.display_cpu_time_100ns
        } else {
            before.display_cpu_time_100ns
        },
        mem_usage_kb: if stage > 6 { after.mem_usage_kb } else { before.mem_usage_kb },
        mem_diff_kb: if stage > 7 { after.mem_diff_kb } else { before.mem_diff_kb },
        page_faults: if stage > 8 { after.page_faults } else { before.page_faults },
        page_faults_diff: if stage > 9 { after.page_faults_diff } else { before.page_faults_diff },
        commit_charge_kb: if stage > 10 {
            after.commit_charge_kb
        } else {
            before.commit_charge_kb
        },
        paged_pool_kb: if stage > 11 { after.paged_pool_kb } else { before.paged_pool_kb },
        nonpaged_pool_kb: if stage > 12 {
            after.nonpaged_pool_kb
        } else {
            before.nonpaged_pool_kb
        },
        priority_class: if stage > 13 { after.priority_class } else { before.priority_class },
        handle_count: if stage > 14 { after.handle_count } else { before.handle_count },
        thread_count: if stage > 15 { after.thread_count } else { before.thread_count },
    }
}

/// What holds of a row when the columns below `stage` have been refreshed.
#[verifier::opaque]
spec fn refresh_reached(
    entry: ProcEntry,
    changed: DirtyColumns,
    before: ProcEntry,
    sample: ProcFacts,
    pass_count: u64,
    visible: DirtyColumns,
    stage: int,
) -> bool {
    &&& entry.identity == before.identity
    &&& entry.pass_count == pass_count
    &&& entry.facts() == refreshed_up_to(before.facts(), sample, stage)
    &&& forall|column: ColumnId| #[trigger]
        changed.has(column) <==> column.number() < stage && column_changed(
            before.facts(),
            sample,
            column,
        )
    &&& changed.is_proper()
    &&& entry.dirty_columns == before.dirty_columns.joined(changed.common(visible))
    &&& forall|column: ColumnId| #[trigger]
        entry.shown(column) == if column.number() < stage && column_changed(
            before.facts(),
            sample,
            column,
        ) && visible.has(column) && column != ColumnId::BasePriority {
            column_display(refreshed(before.facts(), sample), column)
        } else {
            before.shown(column)
        }
}

/// One more column has been refreshed: its facts were taken over, and it was marked if they
/// changed.
proof fn lemma_next_column(
    reached: ProcEntry,
    changed_before: DirtyColumns,
    updated: ProcEntry,
    entry: ProcEntry,
    changed: DirtyColumns,
    before: ProcEntry,
    sample: ProcFacts,
    pass_count: u64,
    visible: DirtyColumns,
    column: ColumnId,
)
    requires
        refresh_reached(
            reached,
            changed_before,
            before,
            sample,
            pass_count,
            visible,
            column.number(),
        ),
        updated.identity == reached.identity,
        updated.pass_count == reached.pass_count,
        updated.dirty_columns == reached.dirty_columns,
        updated.display_text == reached.display_text,
        updated.facts() == refreshed_up_to(before.facts(), sample, column.number() + 1),
        column_changed(before.facts(), sample, column) ==> {
            &&& entry.same_sample(&updated)
            &&& changed == changed_before.with(column)
            &&& entry.dirty_columns == if visible.has(column) {
                updated.dirty_columns.with(column)
            } else {
                updated.dirty_columns
            }
            &&& forall|other: ColumnId| #[trigger]
                entry.shown(other) == if other == column && visible.has(other) && other
                    != ColumnId::BasePriority {
                    column_display(updated.facts(), other)
                } else {
                    updated.shown(other)
                }
        },
        !column_changed(before.facts(), sample, column) ==> entry == updated && changed
            == changed_before,
    ensures
        refresh_reached(
            entry,
            changed,
            before,
            sample,
            pass_count,
            visible,
            column.number() + 1,
        ),
{
    reveal(refresh_reached);
    before.dirty_columns.lemma_join_one(changed_before, visible, column);
    changed_before.lemma_with(column);
    super::columns::column_numbers_stand_for_columns(column);
    assert forall|other: ColumnId| other.number() == column.number() implies other == column by {
        super::columns::column_numbers_stand_for_columns(other);
    }
    assert(forall|other: ColumnId| #[trigger] updated.shown(other) == reached.shown(other));
    assert(column_display(updated.facts(), column) == column_display(
        refreshed(before.facts(), sample),
        column,
    ));
    assert(forall|other: ColumnId|
        other.number() < column.number() + 1 <==> (other.number() < column.number() || other
            == column));
    assert forall|other: ColumnId| #[trigger]
        changed.has(other) <==> other.number() < column.number() + 1 && column_changed(
            before.facts(),
            sample,
            other,
        ) by {
        assert(changed_before.has(other) <==> other.number() < column.number() && column_changed(
            before.facts(),
            sample,
            other,
        ));
    }
    assert forall|other: ColumnId| #[trigger] entry.shown(other) == if other.number()
        < column.number() + 1 && column_changed(before.facts(), sample, other) && visible.has(other)
        && other != ColumnId::BasePriority {
        column_display(refreshed(before.facts(), sample), other)
    } else {
        before.shown(other)
    } by {
        assert(reached.shown(other) == if other.number() < column.number() && column_changed(
            before.facts(),
            sample,
            other,
        ) && visible.has(other) && other != ColumnId::BasePriority {
            column_display(refreshed(before.facts(), sample), other)
        } else {
            before.shown(other)
        });
        assert(updated.shown(other) == reached.shown(other));
    }
}

fn same_bitness(a: Option<bool>, b: Option<bool>) -> (same: bool)
    ensures
        same == (a == b),
{
    match (a, b) {
        (None, None) => true,
        (Some(left), Some(right)) => left == right,
        _ => false,
    }
}

fn same_session(a: Option<u32>, b: Option<u32>) -> (same: bool)
    ensures
        same == (a == b),
{
    match (a, b) {
        (None, None) => true,
        (Some(left), Some(right)) => left == right,
        _ => false,
    }
}

proof fn lemma_reached_facts(
    entry: ProcEntry,
    changed: DirtyColumns,
    before: ProcEntry,
    sample: ProcFacts,
    pass_count: u64,
    visible: DirtyColumns,
    stage: int,
)
    requires
        refresh_reached(entry, changed, before, sample, pass_count, visible, stage),
    ensures
        entry.facts() == refreshed_up_to(before.facts(), sample, stage),
{
    reveal(refresh_reached);
}

/// Takes over the image name and the process identifier.
fn refresh_names(
    entry: &mut ProcEntry,
    changed: &mut DirtyColumns,
    snapshot: &ProcEntry,
    visible_columns: DirtyColumns,
    Ghost(before): Ghost<ProcEntry>,
    Ghost(pass_count): Ghost<u64>,
)
    requires
        refresh_reached(
            *old(entry),
            *old(changed),
            before,
            snapshot.facts(),
            pass_count,
            visible_columns,
            0,
        ),
    ensures
        refresh_reached(
            *final(entry),
            *final(changed),
            before,
            snapshot.facts(),
            pass_count,
            visible_columns,
            2,
        ),
{
    let ghost sample = snapshot.facts();
    let image_name_changed = !same_text(entry.image_name.as_str(), snapshot.image_name.as_str());
    let bitness_changed = !same_bitness(entry.is_32_bit, snapshot.is_32_bit);
    let ghost (reached, known) = (*entry, *changed);
    proof {
        lemma_reached_facts(reached, known, before, sample, pass_count, visible_columns, 0);
    }
    if image_name_changed {
        entry.image_name = snapshot.image_name.clone();
        entry.image_name_lower = snapshot.image_name_lower.clone();
    }
    entry.is_32_bit = snapshot.is_32_bit;
    let ghost updated = *entry;
    if image_name_changed || bitness_changed {
        mark_process_column_changed(entry, changed, ColumnId::ImageName, visible_columns);
    }
    proof {
        lemma_next_column(
            reached,
            known,
            updated,
            *entry,
            *changed,
            before,
            sample,
            pass_count,
            visible_columns,
            ColumnId::ImageName,
        );
    }
    let pid_changed = entry.pid != snapshot.pid;
    let ghost (reached, known) = (*entry, *changed);
    proof {
        lemma_reached_facts(reached, known, before, sample, pass_count, visible_columns, 1);
    }
    entry.pid = snapshot.pid;
    let ghost updated = *entry;
    if pid_changed {
        mark_process_column_changed(entry, changed, ColumnId::Pid, visible_columns);
    }
    proof {
        lemma_next_column(
            reached,
            known,
            updated,
            *entry,
            *changed,
            before,
            sample,
            pass_count,
            visible_columns,
            ColumnId::Pid,
        );
    }
}

/// Takes over the user and the session.
fn refresh_owner(
    entry: &mut ProcEntry,
    changed: &mut DirtyColumns,
    snapshot: &ProcEntry,
    visible_columns: DirtyColumns,
    Ghost(before): Ghost<ProcEntry>,
    Ghost(pass_count): Ghost<u64>,
)
    requires
        refresh_reached(
            *old(entry),
            *old(changed),
            before,
            snapshot.facts(),
            pass_count,
            visible_columns,
            2,
        ),
    ensures
        refresh_reached(
            *final(entry),
            *final(changed),
            before,
            snapshot.facts(),
            pass_count,
            visible_columns,
            4,
        ),
{
    let ghost sample = snapshot.facts();
    let user_name_changed = !same_text(entry.user_name.as_str(), snapshot.user_name.as_str());
    let ghost (reached, known) = (*entry, *changed);
    proof {
        lemma_reached_facts(reached, known, before, sample, pass_count, visible_columns, 2);
    }
    if user_name_changed {
        entry.user_name = snapshot.user_name.clone();
        entry.user_name_lower = snapshot.user_name_lower.clone();
    }
    let ghost updated = *entry;
    if user_name_changed {
        mark_process_column_changed(entry, changed, ColumnId::Username, visible_columns);
    }
    proof {
        lemma_next_column(
            reached,
            known,
            updated,
            *entry,
            *changed,
            before,
            sample,
            pass_count,
            visible_columns,
            ColumnId::Username,
        );
    }
    let session_changed = !same_session(entry.session_id, snapshot.session_id);
    let ghost (reached, known) = (*entry, *changed);
    proof {
        lemma_reached_facts(reached, known, before, sample, pass_count, visible_columns, 3);
    }
    entry.session_id = snapshot.session_id;
    let ghost updated = *entry;
    if session_changed {
        mark_process_column_changed(entry, changed, ColumnId::SessionId, visible_columns);
    }
    proof {
        lemma_next_column(
            reached,
            known,
            updated,
            *entry,
            *changed,
            before,
            sample,
            pass_count,
            visible_columns,
            ColumnId::SessionId,
        );
    }
}

/// Takes over the processor times.
fn refresh_times(
    entry: &mut ProcEntry,
    changed: &mut DirtyColumns,
    snapshot: &ProcEntry,
    visible_columns: DirtyColumns,
    Ghost(before): Ghost<ProcEntry>,
    Ghost(pass_count): Ghost<u64>,
)
    requires
        refresh_reached(
            *old(entry),
            *old(changed),
            before,
            snapshot.facts(),
            pass_count,
            visible_columns,
            4,
        ),
    ensures
        refresh_reached(
            *final(entry),
            *final(changed),
            before,
            snapshot.facts(),
            pass_count,
            visible_columns,
            6,
        ),
{
    let ghost sample = snapshot.facts();
    let cpu_changed = entry.cpu != snapshot.cpu;
    let ghost (reached, known) = (*entry, *changed);
    proof {
        lemma_reached_facts(reached, known, before, sample, pass_count, visible_columns, 4);
    }
    entry.cpu = snapshot.cpu;
    let ghost updated = *entry;
    if cpu_changed {
        mark_process_column_changed(entry, changed, ColumnId::Cpu, visible_columns);
    }
    proof {
        lemma_next_column(
            reached,
            known,
            updated,
            *entry,
            *changed,
            before,
            sample,
            pass_count,
            visible_columns,
            ColumnId::Cpu,
        );
    }
    let display_cpu_time_100ns_changed = entry.display_cpu_time_100ns != snapshot.display_cpu_time_100ns;
    let ghost (reached, known) = (*entry, *changed);
    proof {
        lemma_reached_facts(reached, known, before, sample, pass_count, visible_columns, 5);
    }
    entry.cpu_time_100ns = snapshot.cpu_time_100ns;
    entry.display_cpu_time_100ns = snapshot.display_cpu_time_100ns;
    let ghost updated = *entry;
    if display_cpu_time_100ns_changed {
        mark_process_column_changed(entry, changed, ColumnId::CpuTime, visible_columns);
    }
    proof {
        lemma_next_column(
            reached,
            known,
            updated,
            *entry,
            *changed,
            before,
            sample,
            pass_count,
            visible_columns,
            ColumnId::CpuTime,
        );
    }
}

/// Takes over the memory.
fn refresh_memory(
    entry: &mut ProcEntry,
    changed: &mut DirtyColumns,
    snapshot: &ProcEntry,
    visible_columns: DirtyColumns,
    Ghost(before): Ghost<ProcEntry>,
    Ghost(pass_count): Ghost<u64>,
)
    requires
        refresh_reached(
            *old(entry),
            *old(changed),
            before,
            snapshot.facts(),
            pass_count,
            visible_columns,
            6,
        ),
    ensures
        refresh_reached(
            *final(entry),
            *final(changed),
            before,
            snapshot.facts(),
            pass_count,
            visible_columns,
            8,
        ),
{
    let ghost sample = snapshot.facts();
    let mem_usage_kb_changed = entry.mem_usage_kb != snapshot.mem_usage_kb;
    let ghost (reached, known) = (*entry, *changed);
    proof {
        lemma_reached_facts(reached, known, before, sample, pass_count, visible_columns, 6);
    }
    entry.mem_usage_kb = snapshot.mem_usage_kb;
    let ghost updated = *entry;
    if mem_usage_kb_changed {
        mark_process_column_changed(entry, changed, ColumnId::MemUsage, visible_columns);
    }
    proof {
        lemma_next_column(
            reached,
            known,
            updated,
            *entry,
            *changed,
            before,
            sample,
            pass_count,
            visible_columns,
            ColumnId::MemUsage,
        );
    }
    let mem_diff_kb_changed = entry.mem_diff_kb != snapshot.mem_diff_kb;
    let ghost (reached, known) = (*entry, *changed);
    proof {
        lemma_reached_facts(reached, known, before, sample, pass_count, visible_columns, 7);
    }
    entry.mem_diff_kb = snapshot.mem_diff_kb;
    let ghost updated = *entry;
    if mem_diff_kb_changed {
        mark_process_column_changed(entry, changed, ColumnId::MemUsageDiff, visible_columns);
    }
    proof {
        lemma_next_column(
            reached,
            known,
            updated,
            *entry,
            *changed,
            before,
            sample,
            pass_count,
            visible_columns,
            ColumnId::MemUsageDiff,
        );
    }
}

/// Takes over the page faults.
fn refresh_faults(
    entry: &mut ProcEntry,
    changed: &mut DirtyColumns,
    snapshot: &ProcEntry,
    visible_columns: DirtyColumns,
    Ghost(before): Ghost<ProcEntry>,
    Ghost(pass_count): Ghost<u64>,
)
    requires
        refresh_reached(
            *old(entry),
            *old(changed),
            before,
            snapshot.facts(),
            pass_count,
            visible_columns,
            8,
        ),
    ensures
        refresh_reached(
            *final(entry),
            *final(changed),
            before,
            snapshot.facts(),
            pass_count,
            visible_columns,
            10,
        ),
{
    let ghost sample = snapshot.facts();
    let page_faults_changed = entry.page_faults != snapshot.page_faults;
    let ghost (reached, known) = (*entry, *changed);
    proof {
        lemma_reached_facts(reached, known, before, sample, pass_count, visible_columns, 8);
    }
    entry.page_faults = snapshot.page_faults;
    let ghost updated = *entry;
    if page_faults_changed {
        mark_process_column_changed(entry, changed, ColumnId::PageFaults, visible_columns);
    }
    proof {
        lemma_next_column(
            reached,
            known,
            updated,
            *entry,
            *changed,
            before,
            sample,
            pass_count,
            visible_columns,
            ColumnId::PageFaults,
        );
    }
    let page_faults_diff_changed = entry.page_faults_diff != snapshot.page_faults_diff;
    let ghost (reached, known) = (*entry, *changed);
    proof {
        lemma_reached_facts(reached, known, before, sample, pass_count, visible_columns, 9);
    }
    entry.page_faults_diff = snapshot.page_faults_diff;
    let ghost updated = *entry;
    if page_faults_diff_changed {
        mark_process_column_changed(entry, changed, ColumnId::PageFaultsDiff, visible_columns);
    }
    proof {
        lemma_next_column(
            reached,
            known,
            updated,
            *entry,
            *changed,
            before,
            sample,
            pass_count,
            visible_columns,
            ColumnId::PageFaultsDiff,
        );
    }
}

/// Takes over the commit charge and the paged pool.
fn refresh_pools(
    entry: &mut ProcEntry,
    changed: &mut DirtyColumns,
    snapshot: &ProcEntry,
    visible_columns: DirtyColumns,
    Ghost(before): Ghost<ProcEntry>,
    Ghost(pass_count): Ghost<u64>,
)
    requires
        refresh_reached(
            *old(entry),
            *old(changed),
            before,
            snapshot.facts(),
            pass_count,
            visible_columns,
            10,
        ),
    ensures
        refresh_reached(
            *final(entry),
            *final(changed),
            before,
            snapshot.facts(),
            pass_count,
            visible_columns,
            12,
        ),
{
    let ghost sample = snapshot.facts();
    let commit_charge_kb_changed = entry.commit_charge_kb != snapshot.commit_charge_kb;
    let ghost (reached, known) = (*entry, *changed);
    proof {
        lemma_reached_facts(reached, known, before, sample, pass_count, visible_columns, 10);
    }
    entry.commit_charge_kb = snapshot.commit_charge_kb;
    let ghost updated = *entry;
    if commit_charge_kb_changed {
        mark_process_column_changed(entry, changed, ColumnId::CommitCharge, visible_columns);
    }
    proof {
        lemma_next_column(
            reached,
            known,
            updated,
            *entry,
            *changed,
            before,
            sample,
            pass_count,
            visible_columns,
            ColumnId::CommitCharge,
        );
    }
    let paged_pool_kb_changed = entry.paged_pool_kb != snapshot.paged_pool_kb;
    let ghost (reached, known) = (*entry, *changed);
    proof {
        lemma_reached_facts(reached, known, before, sample, pass_count, visible_columns, 11);
    }
    entry.paged_pool_kb = snapshot.paged_pool_kb;
    let ghost updated = *entry;
    if paged_pool_kb_changed {
        mark_process_column_changed(entry, changed, ColumnId::PagedPool, visible_columns);
    }
    proof {
        lemma_next_column(
            reached,
            known,
            updated,
            *entry,
            *changed,
            before,
            sample,
            pass_count,
            visible_columns,
            ColumnId::PagedPool,
        );
    }
}

/// Takes over the nonpaged pool and the priority.
fn refresh_priority(
    entry: &mut ProcEntry,
    changed: &mut DirtyColumns,
    snapshot: &ProcEntry,
    visible_columns: DirtyColumns,
    Ghost(before): Ghost<ProcEntry>,
    Ghost(pass_count): Ghost<u64>,
)
    requires
        refresh_reached(
            *old(entry),
            *old(changed),
            before,
            snapshot.facts(),
            pass_count,
            visible_columns,
            12,
        ),
    ensures
        refresh_reached(
            *final(entry),
            *final(changed),
            before,
            snapshot.facts(),
            pass_count,
            visible_columns,
            14,
        ),
{
    let ghost sample = snapshot.facts();
    let nonpaged_pool_kb_changed = entry.nonpaged_pool_kb != snapshot.nonpaged_pool_kb;
    let ghost (reached, known) = (*entry, *changed);
    proof {
        lemma_reached_facts(reached, known, before, sample, pass_count, visible_columns, 12);
    }
    entry.nonpaged_pool_kb = snapshot.nonpaged_pool_kb;
    let ghost updated = *entry;
    if nonpaged_pool_kb_changed {
        mark_process_column_changed(entry, changed, ColumnId::NonPagedPool, visible_columns);
    }
    proof {
        lemma_next_column(
            reached,
            known,
            updated,
            *entry,
            *changed,
            before,
            sample,
            pass_count,
            visible_columns,
            ColumnId::NonPagedPool,
        );
    }
    let priority_class_changed = entry.priority_class != snapshot.priority_class;
    let ghost (reached, known) = (*entry, *changed);
    proof {
        lemma_reached_facts(reached, known, before, sample, pass_count, visible_columns, 13);
    }
    entry.priority_class = snapshot.priority_class;
    let ghost updated = *entry;
    if priority_class_changed {
        mark_process_column_changed(entry, changed, ColumnId::BasePriority, visible_columns);
    }
    proof {
        lemma_next_column(
            reached,
            known,
            updated,
            *entry,
            *changed,
            before,
            sample,
            pass_count,
            visible_columns,
            ColumnId::BasePriority,
        );
    }
}

/// Takes over the handles and the threads.
fn refresh_counts(
    entry: &mut ProcEntry,
    changed: &mut DirtyColumns,
    snapshot: &ProcEntry,
    visible_columns: DirtyColumns,
    Ghost(before): Ghost<ProcEntry>,
    Ghost(pass_count): Ghost<u64>,
)
    requires
        refresh_reached(
            *old(entry),
            *old(changed),
            before,
            snapshot.facts(),
            pass_count,
            visible_columns,
            14,
        ),
    ensures
        refresh_reached(
            *final(entry),
            *final(changed),
            before,
            snapshot.facts(),
            pass_count,
            visible_columns,
            16,
        ),
{
    let ghost sample = snapshot.facts();
    let handle_count_changed = entry.handle_count != snapshot.handle_count;
    let ghost (reached, known) = (*entry, *changed);
    proof {
        lemma_reached_facts(reached, known, before, sample, pass_count, visible_columns, 14);
    }
    entry.handle_count = snapshot.handle_count;
    let ghost updated = *entry;
    if handle_count_changed {
        mark_process_column_changed(entry, changed, ColumnId::HandleCount, visible_columns);
    }
    proof {
        lemma_next_column(
            reached,
            known,
            updated,
            *entry,
            *changed,
            before,
            sample,
            pass_count,
            visible_columns,
            ColumnId::HandleCount,
        );
    }
    let thread_count_changed = entry.thread_count != snapshot.thread_count;
    let ghost (reached, known) = (*entry, *changed);
    proof {
        lemma_reached_facts(reached, known, before, sample, pass_count, visible_columns, 15);
    }
    entry.thread_count = snapshot.thread_count;
    let ghost updated = *entry;
    if thread_count_changed {
        mark_process_column_changed(entry, changed, ColumnId::ThreadCount, visible_columns);
    }
    proof {
        lemma_next_column(
            reached,
            known,
            updated,
            *entry,
            *changed,
            before,
            sample,
            pass_count,
            visible_columns,
            ColumnId::ThreadCount,
        );
    }
}

/// The columns that show something else after a refresh.
pub open spec fn changed_columns(before: ProcFacts, after: ProcFacts) -> DirtyColumns {
    columns_where(|column: ColumnId| column_changed(before, after, column))
}

/// Whether a row is `after` when it has taken a sample over, and `changed` are the columns that
/// changed: of those, the visible ones have new texts and have to be drawn.
pub open spec fn takes_sample(
    after: ProcEntry,
    changed: DirtyColumns,
    before: ProcEntry,
    sample: ProcFacts,
    pass_count: u64,
    visible: DirtyColumns,
) -> bool {
    &&& after.identity == before.identity
    &&& after.pass_count == pass_count
    &&& after.facts() == refreshed(before.facts(), sample)
    &&& changed == changed_columns(before.facts(), sample)
    &&& changed.is_proper()
    &&& forall|column: ColumnId| #[trigger]
        changed.has(column) <==> column_changed(before.facts(), sample, column)
    &&& after.dirty_columns == before.dirty_columns.joined(changed.common(visible))
    &&& forall|column: ColumnId| #[trigger]
        after.shown(column) == if column_changed(before.facts(), sample, column) && visible.has(
            column,
        ) && column != ColumnId::BasePriority {
            column_display(after.facts(), column)
        } else {
            before.shown(column)
        }
}

/// Takes a new sample over into a row, and returns the columns that changed.
///
/// Of the columns that changed, the visible ones get new texts and have to be drawn anew.
pub fn update_process_entry(
    entry: &mut ProcEntry,
    snapshot: &ProcEntry,
    pass_count: u64,
    visible_columns: DirtyColumns,
) -> (changed: DirtyColumns)
    ensures
        takes_sample(
            *final(entry),
            changed,
            *old(entry),
            snapshot.facts(),
            pass_count,
            visible_columns,
        ),
{
    let ghost before = *entry;
    let ghost sample = snapshot.facts();
    entry.pass_count = pass_count;
    let mut changed = DirtyColumns(0);
    proof {
        reveal(refresh_reached);
        no_columns().lemma_with(ColumnId::Pid);
        before.dirty_columns.lemma_nothing(visible_columns);
        assert(forall|column: ColumnId| #[trigger] entry.shown(column) == before.shown(column));
        assert(refresh_reached(*entry, changed, before, sample, pass_count, visible_columns, 0));
    }
    refresh_names(entry, &mut changed, snapshot, visible_columns, Ghost(before), Ghost(pass_count));
    refresh_owner(entry, &mut changed, snapshot, visible_columns, Ghost(before), Ghost(pass_count));
    refresh_times(entry, &mut changed, snapshot, visible_columns, Ghost(before), Ghost(pass_count));
    refresh_memory(entry, &mut changed, snapshot, visible_columns, Ghost(before), Ghost(pass_count));
    refresh_faults(entry, &mut changed, snapshot, visible_columns, Ghost(before), Ghost(pass_count));
    refresh_pools(entry, &mut changed, snapshot, visible_columns, Ghost(before), Ghost(pass_count));
    refresh_priority(entry, &mut changed, snapshot, visible_columns, Ghost(before), Ghost(pass_count));
    refresh_counts(entry, &mut changed, snapshot, visible_columns, Ghost(before), Ghost(pass_count));
    proof {
        reveal(refresh_reached);
        assert(entry.facts() == refreshed(before.facts(), sample));
        let wanted = |column: ColumnId| column_changed(before.facts(), sample, column);
        lemma_columns_where(wanted);
        assert forall|column: ColumnId| #[trigger] changed.has(column) <==> columns_where(
            wanted,
        ).has(column) by {
            assert(column.number() < 16);
        }
        changed.lemma_same(columns_where(wanted));
    }
    changed
}

/// Where no column shows anything else, the set of changed columns is empty.
pub(crate) proof fn lemma_nothing_changed(before: ProcFacts, after: ProcFacts)
    requires
        forall|column: ColumnId| !#[trigger] column_changed(before, after, column),
    ensures
        changed_columns(before, after) == no_columns(),
{
    let wanted = |column: ColumnId| column_changed(before, after, column);
    lemma_columns_where(wanted);
    no_columns().lemma_with(ColumnId::Pid);
    columns_where(wanted).lemma_same(no_columns());
}

/// A row that has taken a sample over is not changed by the same sample once more: no column
/// counts as changed, and none more has to be drawn. Where the lower-case forms of the names are
/// theirs before and in the sample, the row holds exactly what was sampled.
pub proof fn second_update_changes_nothing(
    before: ProcEntry,
    once: ProcEntry,
    twice: ProcEntry,
    first_changed: DirtyColumns,
    second_changed: DirtyColumns,
    sample: ProcFacts,
    pass_count: u64,
    visible: DirtyColumns,
)
    requires
        takes_sample(once, first_changed, before, sample, pass_count, visible),
        takes_sample(twice, second_changed, once, sample, pass_count, visible),
    ensures
        before.facts().has_lower_names() && sample.has_lower_names() ==> once.facts() == sample,
        second_changed == no_columns(),
        twice.identity == once.identity,
        twice.pass_count == once.pass_count,
        twice.facts() == once.facts(),
        twice.dirty_columns == once.dirty_columns,
        forall|column: ColumnId| #[trigger] twice.shown(column) == once.shown(column),
{
    lemma_nothing_changed(once.facts(), sample);
    once.dirty_columns.lemma_nothing(visible);
}

} // verus!
