//! The texts of the page.
use vstd::prelude::*;

use super::adapter_history::{find_usage, usage_or_zero};
use super::counters::engine_sample_views;
use super::layout::ENGINE_SLOT_COUNT;
use super::model::{GpuAdapterInfo, GpuAdapterMetadata, GpuAdapterSample, GpuEngineId};
use super::page::GpuPageState;
use super::selection::chosen_engine;
use crate::perf_drawing::{decode_up_to_zero, up_to_zero};
use crate::text::{append_chars, append_text, chars_of, copy_of, decimal_chars, decimal_text, string_of};
use crate::utf16::decoded_lossy;

verus! {

/// The amounts of memory that the page shows.
pub struct ByteAmounts {
    pub dedicated_usage: Option<u64>,
    pub dedicated_limit: Option<u64>,
    pub shared_usage: Option<u64>,
    pub shared_limit: Option<u64>,
    pub total_usage: Option<u64>,
    pub total_limit: Option<u64>,
    pub reserved: Option<u64>,
}

/// The same amounts as texts.
pub struct ByteTexts {
    pub dedicated_usage: Option<String>,
    pub dedicated_limit: Option<String>,
    pub shared_usage: Option<String>,
    pub shared_limit: Option<String>,
    pub total_usage: Option<String>,
    pub total_limit: Option<String>,
    pub reserved: Option<String>,
}

/// The sum of two amounts, where both are known and it is not too large.
pub open spec fn sum_of(first: Option<u64>, second: Option<u64>) -> Option<u64> {
    match (first, second) {
        (Some(first), Some(second)) => if first + second <= u64::MAX {
            Some((first + second) as u64)
        } else {
            None
        },
        _ => None,
    }
}

fn add_amounts(first: Option<u64>, second: Option<u64>) -> (sum: Option<u64>)
    ensures
        sum == sum_of(first, second),
{
    match (first, second) {
        (Some(first), Some(second)) => first.checked_add(second),
        _ => None,
    }
}

pub fn byte_amounts(
    info: &GpuAdapterInfo,
    sample: Option<&GpuAdapterSample>,
    metadata: Option<&GpuAdapterMetadata>,
) -> (amounts: ByteAmounts)
    ensures
        amounts.dedicated_usage == match sample {
            Some(sample) => Some(sample.dedicated_usage_bytes),
            None => None,
        },
        amounts.shared_usage == match sample {
            Some(sample) => Some(sample.shared_usage_bytes),
            None => None,
        },
        amounts.dedicated_limit == info.dedicated_limit_bytes,
        amounts.shared_limit == info.shared_limit_bytes,
        amounts.total_usage == sum_of(amounts.dedicated_usage, amounts.shared_usage),
        amounts.total_limit == sum_of(amounts.dedicated_limit, amounts.shared_limit),
        amounts.reserved == match metadata {
            Some(metadata) => metadata.hardware_reserved_bytes,
            None => None,
        },
{
    let (dedicated_usage, shared_usage): (Option<u64>, Option<u64>) = match sample {
        Some(sample) => (Some(sample.dedicated_usage_bytes), Some(sample.shared_usage_bytes)),
        None => (None, None),
    };
    ByteAmounts {
        dedicated_usage,
        dedicated_limit: info.dedicated_limit_bytes,
        shared_usage,
        shared_limit: info.shared_limit_bytes,
        total_usage: add_amounts(dedicated_usage, shared_usage),
        total_limit: add_amounts(info.dedicated_limit_bytes, info.shared_limit_bytes),
        reserved: match metadata {
            Some(metadata) => metadata.hardware_reserved_bytes,
            None => None,
        },
    }
}

/// The text of an amount: what the system made of it, or else its bytes.
pub fn format_bytes(bytes: u64, status: i32, buffer: &[u16]) -> (text: String)
    ensures
        text@ == if status >= 0 {
            decoded_lossy(up_to_zero(buffer@))
        } else {
            decimal_text(bytes as nat) + " B"@
        },
{
    if status >= 0 {
        return decode_up_to_zero(buffer);
    }
    let mut text = decimal_chars(bytes);
    append_text(&mut text, " B");
    string_of(text.as_slice())
}

/// The text of what is used out of a limit.
pub open spec fn usage_of_limit(
    usage: Option<String>,
    limit: Option<String>,
    missing: Seq<char>,
    unavailable: Seq<char>,
) -> Seq<char> {
    match (usage, limit) {
        (Some(usage), Some(limit)) => usage@ + " / "@ + limit@,
        (Some(usage), None) => usage@ + " / "@ + unavailable,
        (None, Some(limit)) => missing + " / "@ + limit@,
        (None, None) => missing,
    }
}

pub fn format_optional_usage_limit(
    usage: &Option<String>,
    limit: &Option<String>,
    missing: &str,
    unavailable: &str,
) -> (text: String)
    ensures
        text@ == usage_of_limit(*usage, *limit, missing@, unavailable@),
{
    let mut text = match usage {
        Some(usage) => chars_of(usage.as_str()),
        None => chars_of(missing),
    };
    match (usage, limit) {
        (_, Some(limit)) => {
            append_text(&mut text, " / ");
            append_text(&mut text, limit.as_str());
        },
        (Some(_), None) => {
            append_text(&mut text, " / ");
            append_text(&mut text, unavailable);
        },
        (None, None) => {},
    }
    string_of(text.as_slice())
}

/// The text of a temperature that is given in tenths of a degree.
pub open spec fn temperature_text(deci_c: u32) -> Seq<char> {
    decimal_text((deci_c / 10) as nat) + "."@ + decimal_text((deci_c % 10) as nat) + " °C"@
}

pub fn format_temperature(deci_c: u32) -> (text: String)
    ensures
        text@ == temperature_text(deci_c),
{
    let mut text = decimal_chars((deci_c / 10) as u64);
    append_text(&mut text, ".");
    append_chars(&mut text, decimal_chars((deci_c % 10) as u64).as_slice());
    append_text(&mut text, " °C");
    string_of(text.as_slice())
}

pub open spec fn percent_text(percent: u8) -> Seq<char> {
    decimal_text(percent as nat) + "%"@
}

fn format_percent(percent: u8) -> (text: String)
    ensures
        text@ == percent_text(percent),
{
    let mut text = decimal_chars(percent as u64);
    append_text(&mut text, "%");
    string_of(text.as_slice())
}

/// What stands for a value of the metadata that is not there.
pub open spec fn metadata_text(
    metadata: Option<&GpuAdapterMetadata>,
    value: Option<String>,
    pending: Seq<char>,
    unavailable: Seq<char>,
) -> Seq<char> {
    match value {
        Some(value) => value@,
        None => if metadata is Some {
            unavailable
        } else {
            pending
        },
    }
}

pub fn metadata_value_placeholder<'a>(
    metadata: Option<&GpuAdapterMetadata>,
    pending: &'a str,
    unavailable: &'a str,
) -> (placeholder: &'a str)
    ensures
        placeholder@ == if metadata is Some {
            unavailable@
        } else {
            pending@
        },
{
    if metadata.is_some() {
        unavailable
    } else {
        pending
    }
}

fn format_metadata(
    metadata: Option<&GpuAdapterMetadata>,
    value: &Option<String>,
    pending: &str,
    unavailable: &str,
) -> (text: String)
    ensures
        text@ == metadata_text(metadata, *value, pending@, unavailable@),
{
    match value {
        Some(value) => copy_of(value.as_str()),
        None => copy_of(metadata_value_placeholder(metadata, pending, unavailable)),
    }
}

/// The words of the page in the language of the user.
pub struct PageTexts {
    pub unavailable: String,
    pub dedicated_memory: String,
    pub shared_memory: String,
}

/// The texts of the values on the page.
pub struct VisibleValues {
    pub engine_percents: Vec<String>,
    pub dedicated_caption: String,
    pub shared_caption: String,
    pub utilization: String,
    pub total_memory: String,
    pub dedicated_memory: String,
    pub shared_memory: String,
    pub temperature: String,
    pub driver_version: String,
    pub driver_date: String,
    pub directx: String,
    pub location: String,
    pub reserved_memory: String,
}

/// The value of a field of the metadata.
pub open spec fn driver_field(metadata: Option<&GpuAdapterMetadata>, field: int) -> Option<String> {
    match metadata {
        None => None,
        Some(metadata) => if field == 0 {
            metadata.driver.version
        } else if field == 1 {
            metadata.driver.date
        } else if field == 2 {
            metadata.directx_feature_level
        } else {
            metadata.driver.location
        },
    }
}

impl GpuPageState {
    /// What stands for a value of a sample that is not there.
    pub open spec fn sample_placeholder(&self, texts: PageTexts) -> Seq<char> {
        if self.last_dynamic_error is Some {
            texts.unavailable@
        } else {
            "--"@
        }
    }

    /// What stands for a value of the metadata as long as there are none.
    pub open spec fn metadata_placeholder(&self, texts: PageTexts) -> Seq<char> {
        if self.last_metadata_error is Some {
            texts.unavailable@
        } else {
            "--"@
        }
    }

    /// The percentages of the engines that are shown.
    fn engine_percents(
        &self,
        info: &GpuAdapterInfo,
        sample: Option<&GpuAdapterSample>,
        missing: &str,
    ) -> (percents: Vec<String>)
        requires
            self.well_formed(),
        ensures
            percents@.len() == ENGINE_SLOT_COUNT,
            forall|slot: int|
                0 <= slot < ENGINE_SLOT_COUNT ==> (#[trigger] percents@[slot])@ == match sample {
                    None => missing@,
                    Some(sample) => percent_text(
                        match chosen_engine(self.engine_selections@, info.id, slot) {
                            Some(id) => usage_or_zero(engine_sample_views(sample.engines@), id),
                            None => 0,
                        },
                    ),
                },
    {
        let selections: [Option<GpuEngineId>; 4] = match self.engine_selections.get(&info.id) {
            Some(selections) => *selections,
            None => [None, None, None, None],
        };
        let mut percents: Vec<String> = Vec::new();
        for slot in 0..ENGINE_SLOT_COUNT
            invariant
                percents@.len() == slot,
                forall|i: int|
                    0 <= i < ENGINE_SLOT_COUNT ==> #[trigger] selections@[i] == chosen_engine(
                        self.engine_selections@,
                        info.id,
                        i,
                    ),
                forall|i: int|
                    0 <= i < slot ==> (#[trigger] percents@[i])@ == match sample {
                        None => missing@,
                        Some(sample) => percent_text(
                            match chosen_engine(self.engine_selections@, info.id, i) {
                                Some(id) => usage_or_zero(engine_sample_views(sample.engines@), id),
                                None => 0,
                            },
                        ),
                    },
        {
            let text = match sample {
                None => copy_of(missing),
                Some(sample) => {
                    let usage: u8 = match selections[slot] {
                        Some(id) => find_usage(&sample.engines, id),
                        None => 0,
                    };
                    format_percent(usage)
                },
            };
            percents.push(text);
        }
        percents
    }

    /// The texts for an adapter, with the amounts of memory already as texts.
    pub fn update_visible_values(
        &self,
        info: &GpuAdapterInfo,
        sample: Option<&GpuAdapterSample>,
        metadata: Option<&GpuAdapterMetadata>,
        texts: &PageTexts,
        bytes: &ByteTexts,
    ) -> (values: VisibleValues)
        requires
            self.well_formed(),
        ensures
            ({
                let unavailable = texts.unavailable@;
                let missing = self.sample_placeholder(*texts);
                let pending = self.metadata_placeholder(*texts);
                let dedicated = usage_of_limit(
                    bytes.dedicated_usage,
                    bytes.dedicated_limit,
                    missing,
                    unavailable,
                );
                let shared = usage_of_limit(
                    bytes.shared_usage,
                    bytes.shared_limit,
                    missing,
                    unavailable,
                );
                &&& values.engine_percents@.len() == ENGINE_SLOT_COUNT
                &&& forall|slot: int|
                    0 <= slot < ENGINE_SLOT_COUNT ==> (#[trigger] values.engine_percents@[slot])@
                        == match sample {
                        None => missing,
                        Some(sample) => percent_text(
                            match chosen_engine(self.engine_selections@, info.id, slot) {
                                Some(id) => usage_or_zero(engine_sample_views(sample.engines@), id),
                                None => 0,
                            },
                        ),
                    }
                &&& values.dedicated_caption@ == texts.dedicated_memory@ + "   "@ + dedicated
                &&& values.shared_caption@ == texts.shared_memory@ + "   "@ + shared
                &&& values.utilization@ == match sample {
                    Some(sample) => percent_text(sample.overall_utilization_percent),
                    None => missing,
                }
                &&& values.total_memory@ == usage_of_limit(
                    bytes.total_usage,
                    bytes.total_limit,
                    missing,
                    unavailable,
                )
                &&& values.dedicated_memory@ == dedicated
                &&& values.shared_memory@ == shared
                &&& values.temperature@ == match sample {
                    None => missing,
                    Some(sample) => match sample.temperature_deci_c {
                        Some(deci_c) => temperature_text(deci_c),
                        None => unavailable,
                    },
                }
                &&& values.driver_version@ == metadata_text(
                    metadata,
                    driver_field(metadata, 0),
                    pending,
                    unavailable,
                )
                &&& values.driver_date@ == metadata_text(
                    metadata,
                    driver_field(metadata, 1),
                    pending,
                    unavailable,
                )
                &&& values.directx@ == metadata_text(
                    metadata,
                    driver_field(metadata, 2),
                    pending,
                    unavailable,
                )
                &&& values.location@ == metadata_text(
                    metadata,
                    driver_field(metadata, 3),
                    pending,
                    unavailable,
                )
                &&& values.reserved_memory@ == metadata_text(
                    metadata,
                    bytes.reserved,
                    pending,
                    unavailable,
                )
            }),
    {
        let unavailable = texts.unavailable.as_str();
        let missing = if self.last_dynamic_error.is_some() {
            unavailable
        } else {
            "--"
        };
        let pending = if self.last_metadata_error.is_some() {
            unavailable
        } else {
            "--"
        };
        let dedicated = format_optional_usage_limit(
            &bytes.dedicated_usage,
            &bytes.dedicated_limit,
            missing,
            unavailable,
        );
        let shared = format_optional_usage_limit(
            &bytes.shared_usage,
            &bytes.shared_limit,
            missing,
            unavailable,
        );
        let mut dedicated_caption = chars_of(texts.dedicated_memory.as_str());
        append_text(&mut dedicated_caption, "   ");
        append_text(&mut dedicated_caption, dedicated.as_str());
        let mut shared_caption = chars_of(texts.shared_memory.as_str());
        append_text(&mut shared_caption, "   ");
        append_text(&mut shared_caption, shared.as_str());
        let utilization = match sample {
            Some(sample) => format_percent(sample.overall_utilization_percent),
            None => copy_of(missing),
        };
        let temperature = match sample {
            None => copy_of(missing),
            Some(sample) => match sample.temperature_deci_c {
                Some(deci_c) => format_temperature(deci_c),
                None => copy_of(unavailable),
            },
        };
        let (driver_version, driver_date, directx, location) = match metadata {
            None => (copy_of(pending), copy_of(pending), copy_of(pending), copy_of(pending)),
            Some(known) => (
                format_metadata(metadata, &known.driver.version, pending, unavailable),
                format_metadata(metadata, &known.driver.date, pending, unavailable),
                format_metadata(metadata, &known.directx_feature_level, pending, unavailable),
                format_metadata(metadata, &known.driver.location, pending, unavailable),
            ),
        };
        VisibleValues {
            engine_percents: self.engine_percents(info, sample, missing),
            dedicated_caption: string_of(dedicated_caption.as_slice()),
            shared_caption: string_of(shared_caption.as_slice()),
            utilization,
            total_memory: format_optional_usage_limit(
                &bytes.total_usage,
                &bytes.total_limit,
                missing,
                unavailable,
            ),
            dedicated_memory: dedicated,
            shared_memory: shared,
            temperature,
            driver_version,
            driver_date,
            directx,
            location,
            reserved_memory: format_metadata(metadata, &bytes.reserved, pending, unavailable),
        }
    }

    /// The texts as long as there is no adapter.
    pub fn clear_visible_values(&self, texts: &PageTexts) -> (values: VisibleValues)
        ensures
            values.engine_percents@.len() == ENGINE_SLOT_COUNT,
            forall|slot: int|
                0 <= slot < ENGINE_SLOT_COUNT ==> (#[trigger] values.engine_percents@[slot])@
                    == "--"@,
            values.dedicated_caption@ == texts.dedicated_memory@,
            values.shared_caption@ == texts.shared_memory@,
            values.utilization@ == texts.unavailable@,
            values.total_memory@ == texts.unavailable@,
            values.dedicated_memory@ == texts.unavailable@,
            values.shared_memory@ == texts.unavailable@,
            values.temperature@ == texts.unavailable@,
            values.driver_version@ == texts.unavailable@,
            values.driver_date@ == texts.unavailable@,
            values.directx@ == texts.unavailable@,
            values.location@ == texts.unavailable@,
            values.reserved_memory@ == texts.unavailable@,
    {
        let mut engine_percents: Vec<String> = Vec::new();
        for slot in 0..ENGINE_SLOT_COUNT
            invariant
                engine_percents@.len() == slot,
                forall|i: int| 0 <= i < slot ==> (#[trigger] engine_percents@[i])@ == "--"@,
        {
            engine_percents.push(copy_of("--"));
        }
        let unavailable = texts.unavailable.as_str();
        VisibleValues {
            engine_percents,
            dedicated_caption: copy_of(texts.dedicated_memory.as_str()),
            shared_caption: copy_of(texts.shared_memory.as_str()),
            utilization: copy_of(unavailable),
            total_memory: copy_of(unavailable),
            dedicated_memory: copy_of(unavailable),
            shared_memory: copy_of(unavailable),
            temperature: copy_of(unavailable),
            driver_version: copy_of(unavailable),
            driver_date: copy_of(unavailable),
            directx: copy_of(unavailable),
            location: copy_of(unavailable),
            reserved_memory: copy_of(unavailable),
        }
    }
}

} // verus!
