//! The overall SMART verdict of a disk and the label it is published under.

use vstd::prelude::*;

verus! {

/// The overall verdict on a disk's health.
#[derive(Clone, Copy, Debug, PartialEq, Eq, Hash)]
pub enum Verdict {
    /// Nothing is wrong.
    Good,
    /// An attribute was beyond its threshold in the past.
    BadAttributeInThePast,
    /// There is a bad sector.
    BadSector,
    /// An attribute is beyond its threshold now.
    BadAttributeNow,
    /// There are many bad sectors.
    BadSectorMany,
    /// The disk's own assessment is negative.
    BadStatus,
    /// The end marker of the verdicts.
    OverallMax,
    /// A code that stands for none of the others.
    Unknown,
}

impl Verdict {
    /// The verdict that a raw code stands for.
    pub open spec fn of_code(code: u32) -> Verdict {
        if code == 0 {
            Verdict::Good
        } else if code == 1 {
            Verdict::BadAttributeInThePast
        } else if code == 2 {
            Verdict::BadSector
        } else if code == 3 {
            Verdict::BadAttributeNow
        } else if code == 4 {
            Verdict::BadSectorMany
        } else if code == 5 {
            Verdict::BadStatus
        } else if code == 6 {
            Verdict::OverallMax
        } else {
            Verdict::Unknown
        }
    }

    /// The value of the `status` label that selects the verdict.
    pub open spec fn label_text(self) -> Seq<char> {
        match self {
            Verdict::Good => "good"@,
            Verdict::BadAttributeInThePast => "bad_attr_in_past"@,
            Verdict::BadSector => "bad_sector"@,
            Verdict::BadAttributeNow => "bad_attr_now"@,
            Verdict::BadSectorMany => "bad_sector_many"@,
            Verdict::BadStatus => "bad_status"@,
            Verdict::OverallMax => "overall_max"@,
            Verdict::Unknown => "unknown"@,
        }
    }

    /// The verdict that a raw code stands for. A code beyond the seven known ones does not
    /// fail: it gets the variant kept for such codes.
    pub fn from_code(code: u32) -> (verdict: Verdict)
        ensures
            verdict == Verdict::of_code(code),
    {
        match code {
            0 => Verdict::Good,
            1 => Verdict::BadAttributeInThePast,
            2 => Verdict::BadSector,
            3 => Verdict::BadAttributeNow,
            4 => Verdict::BadSectorMany,
            5 => Verdict::BadStatus,
            6 => Verdict::OverallMax,
            _ => Verdict::Unknown,
        }
    }

    /// The value of the `status` label that selects the verdict.
    pub fn label(self) -> (label: &'static str)
        ensures
            label@ == self.label_text(),
    {
        match self {
            Verdict::Good => "good",
            Verdict::BadAttributeInThePast => "bad_attr_in_past",
            Verdict::BadSector => "bad_sector",
            Verdict::BadAttributeNow => "bad_attr_now",
            Verdict::BadSectorMany => "bad_sector_many",
            Verdict::BadStatus => "bad_status",
            Verdict::OverallMax => "overall_max",
            Verdict::Unknown => "unknown",
        }
    }
}

/// Eight codes are told apart and no more: the seven known ones stand each for its own
/// verdict, and every other code for the same one.
pub proof fn lemma_codes_are_told_apart(one: u32, other: u32)
    ensures
        one < 7 && one != other ==> Verdict::of_code(one) != Verdict::of_code(other),
        one < 7 ==> Verdict::of_code(one) != Verdict::Unknown,
        one >= 7 ==> Verdict::of_code(one) == Verdict::Unknown,
{
}

/// No two verdicts share a label.
pub proof fn lemma_labels_differ(one: Verdict, other: Verdict)
    ensures
        one != other ==> one.label_text() != other.label_text(),
{
    reveal_strlit("good");
    reveal_strlit("bad_attr_in_past");
    reveal_strlit("bad_sector");
    reveal_strlit("bad_attr_now");
    reveal_strlit("bad_sector_many");
    reveal_strlit("bad_status");
    reveal_strlit("overall_max");
    reveal_strlit("unknown");
    if one.label_text().len() == other.label_text().len() && one != other {
        assert(one.label_text()[5] != other.label_text()[5]);
    }
}

} // verus!
