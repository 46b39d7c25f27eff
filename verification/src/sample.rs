//! From what a disk answered to what is published.

use crate::attribute::{Attribute, ReadingKind};
use crate::verdict::Verdict;
use vstd::prelude::*;

verus! {

/// What one read of one attribute gave.
#[derive(Clone, Copy, Debug, PartialEq, Eq)]
pub enum Reading {
    /// The disk did not answer the read.
    Failed,
    /// A number, unconverted.
    Count(u64),
    /// A yes or a no.
    Flag(bool),
    /// The raw code of an overall verdict.
    Verdict(u32),
}

/// One value to be written into the registry: the entry for `attribute` and `disk`, and
/// for `status` where the metric has that label, becomes `raw / divisor`.
#[derive(Clone, Copy, Debug, PartialEq, Eq)]
pub struct Sample {
    /// The attribute whose metric is written.
    pub attribute: Attribute,
    /// The disk that was read, by its place in the order of discovery.
    pub disk: usize,
    /// The verdict that the `status` label selects; none where the metric has no such
    /// label.
    pub status: Option<Verdict>,
    /// The dividend of the published value.
    pub raw: u64,
    /// The divisor of the published value; not zero in a sample that [`convert`] made.
    pub divisor: u64,
}

impl Sample {
    /// Whether the sample can be written: its divisor is not zero, and it names a verdict
    /// if and only if its metric has a `status` label.
    pub open spec fn well_formed(self) -> bool {
        &&& self.divisor > 0
        &&& self.status is Some <==> self.attribute.has_status_label()
    }

    /// The values of the labels that select the entry of the sample, where `disk` is the
    /// label of its disk: that label, and after it the label of the verdict if there is
    /// one.
    pub open spec fn labels_for(self, disk: Seq<char>) -> Seq<Seq<char>> {
        match self.status {
            Some(verdict) => seq![disk, verdict.label_text()],
            None => seq![disk],
        }
    }

    /// The values of the labels that select the entry of the sample, where `disk` is the
    /// label of its disk.
    pub fn label_values<'a>(&self, disk: &'a str) -> (values: Vec<&'a str>)
        ensures
            values.deep_view() == self.labels_for(disk@),
    {
        let mut values: Vec<&'a str> = Vec::new();
        values.push(disk);
        match self.status {
            Some(verdict) => {
                values.push(verdict.label());
            },
            None => {},
        }
        assert(values.deep_view() =~= self.labels_for(disk@));
        values
    }
}

impl Reading {
    /// Whether the reading is of the kind that `attribute` hands over.
    pub open spec fn fits(self, attribute: Attribute) -> bool {
        match self {
            Reading::Failed => false,
            Reading::Count(_) => attribute.kind() == ReadingKind::Count,
            Reading::Flag(_) => attribute.kind() == ReadingKind::Flag,
            Reading::Verdict(_) => attribute.kind() == ReadingKind::Verdict,
        }
    }
}

/// The sample that a reading of `attribute` on `disk` is published as. A number is
/// published as it is, but a temperature divided by [`TEMPERATURE_DIVISOR`]; a flag as 1
/// or 0; a verdict as 1 under the label of the verdict. A failed reading and one of
/// another kind than the attribute's are not published.
///
/// [`TEMPERATURE_DIVISOR`]: crate::attribute::TEMPERATURE_DIVISOR
pub open spec fn sample_of(attribute: Attribute, disk: usize, reading: Reading) -> Option<Sample> {
    if !reading.fits(attribute) {
        None
    } else {
        Some(
            match reading {
                Reading::Verdict(code) => Sample {
                    attribute,
                    disk,
                    status: Some(Verdict::of_code(code)),
                    raw: 1,
                    divisor: 1,
                },
                Reading::Flag(set) => Sample {
                    attribute,
                    disk,
                    status: None,
                    raw: if set {
                        1
                    } else {
                        0
                    },
                    divisor: 1,
                },
                Reading::Count(raw) => Sample {
                    attribute,
                    disk,
                    status: None,
                    raw,
                    divisor: attribute.divisor(),
                },
                Reading::Failed => arbitrary(),
            },
        )
    }
}

/// Converts a reading of `attribute` on `disk` into the sample to publish, if there is one.
pub fn convert(attribute: Attribute, disk: usize, reading: Reading) -> (sample: Option<Sample>)
    ensures
        sample == sample_of(attribute, disk, reading),
        sample matches Some(sample) ==> sample.well_formed(),
{
    match (attribute.reading_kind(), reading) {
        (ReadingKind::Count, Reading::Count(raw)) => {
            let divisor: u64 = match attribute {
                Attribute::Temperature => crate::attribute::TEMPERATURE_DIVISOR,
                _ => 1,
            };
            Some(Sample { attribute, disk, status: None, raw, divisor })
        },
        (ReadingKind::Flag, Reading::Flag(set)) => {
            let raw: u64 = if set {
                1
            } else {
                0
            };
            Some(Sample { attribute, disk, status: None, raw, divisor: 1 })
        },
        (ReadingKind::Verdict, Reading::Verdict(code)) => Some(
            Sample { attribute, disk, status: Some(Verdict::from_code(code)), raw: 1, divisor: 1 },
        ),
        _ => None,
    }
}

/// Every sample that a reading is published as can be written, and is written to the
/// metric of the attribute that was read and for the disk it was read from, with as many
/// label values as the metric has labels.
pub proof fn lemma_samples_can_be_written(
    attribute: Attribute,
    disk: usize,
    reading: Reading,
    label: Seq<char>,
)
    ensures
        sample_of(attribute, disk, reading) matches Some(sample) ==> {
            &&& sample.well_formed()
            &&& sample.attribute == attribute
            &&& sample.disk == disk
            &&& sample.labels_for(label).len() == attribute.labels().len()
            &&& sample.labels_for(label)[0] == label
        },
{
}

} // verus!
