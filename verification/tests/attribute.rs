use atasmart_exporter::attribute::{Attribute, ReadingKind, TEMPERATURE_DIVISOR};
use atasmart_exporter::verdict::Verdict;

#[test]
fn attributes_are_read_in_order() {
    let expected = vec![
        Attribute::DiskSize,
        Attribute::SleepMode,
        Attribute::Temperature,
        Attribute::BadSectors,
        Attribute::PowerCycles,
        Attribute::PowerOn,
        Attribute::Status,
        Attribute::Overall,
        Attribute::IdentifyAvailable,
        Attribute::SmartAvailable,
    ];
    let mut seen = Vec::new();
    let mut at = Some(Attribute::first());
    while let Some(attribute) = at {
        seen.push(attribute);
        at = attribute.next();
    }
    assert_eq!(seen, expected);
}

#[test]
fn nothing_is_read_after_the_last_attribute() {
    assert_eq!(Attribute::SmartAvailable.next(), None);
}

#[test]
fn every_attribute_has_its_metric() {
    assert_eq!(Attribute::Temperature.metric_name(), "atasmart_temperature");
    assert_eq!(Attribute::BadSectors.metric_name(), "atasmart_bad_sectors");
    assert_eq!(Attribute::PowerCycles.metric_name(), "atasmart_power_cycles");
    assert_eq!(Attribute::PowerOn.metric_name(), "atasmart_power_on");
    assert_eq!(Attribute::DiskSize.metric_name(), "atasmart_disk_size");
    assert_eq!(Attribute::SleepMode.metric_name(), "atasmart_sleep_mode");
    assert_eq!(Attribute::Status.metric_name(), "atasmart_status");
    assert_eq!(Attribute::Overall.metric_name(), "atasmart_overall");
    assert_eq!(Attribute::IdentifyAvailable.metric_name(), "atasmart_identify_available");
    assert_eq!(Attribute::SmartAvailable.metric_name(), "atasmart_smart_available");
}

#[test]
fn metric_names_differ() {
    let mut names = Vec::new();
    let mut at = Some(Attribute::first());
    while let Some(attribute) = at {
        assert!(!names.contains(&attribute.metric_name()));
        names.push(attribute.metric_name());
        at = attribute.next();
    }
    assert_eq!(names.len(), 10);
}

#[test]
fn only_the_overall_verdict_has_a_status_label() {
    let mut at = Some(Attribute::first());
    while let Some(attribute) = at {
        assert_eq!(attribute.labelled_by_status(), attribute == Attribute::Overall);
        at = attribute.next();
    }
}

#[test]
fn every_attribute_has_its_kind() {
    assert_eq!(Attribute::DiskSize.reading_kind(), ReadingKind::Count);
    assert_eq!(Attribute::SleepMode.reading_kind(), ReadingKind::Flag);
    assert_eq!(Attribute::Temperature.reading_kind(), ReadingKind::Count);
    assert_eq!(Attribute::BadSectors.reading_kind(), ReadingKind::Count);
    assert_eq!(Attribute::PowerCycles.reading_kind(), ReadingKind::Count);
    assert_eq!(Attribute::PowerOn.reading_kind(), ReadingKind::Count);
    assert_eq!(Attribute::Status.reading_kind(), ReadingKind::Flag);
    assert_eq!(Attribute::Overall.reading_kind(), ReadingKind::Verdict);
    assert_eq!(Attribute::IdentifyAvailable.reading_kind(), ReadingKind::Flag);
    assert_eq!(Attribute::SmartAvailable.reading_kind(), ReadingKind::Flag);
}

#[test]
fn a_temperature_is_divided_by_ten_thousand() {
    assert_eq!(TEMPERATURE_DIVISOR, 10000);
}

#[test]
fn verdict_codes_are_told_apart() {
    assert_eq!(Verdict::from_code(0), Verdict::Good);
    assert_eq!(Verdict::from_code(1), Verdict::BadAttributeInThePast);
    assert_eq!(Verdict::from_code(2), Verdict::BadSector);
    assert_eq!(Verdict::from_code(3), Verdict::BadAttributeNow);
    assert_eq!(Verdict::from_code(4), Verdict::BadSectorMany);
    assert_eq!(Verdict::from_code(5), Verdict::BadStatus);
    assert_eq!(Verdict::from_code(6), Verdict::OverallMax);
}

#[test]
fn a_code_beyond_the_known_ones_is_unknown() {
    assert_eq!(Verdict::from_code(7), Verdict::Unknown);
    assert_eq!(Verdict::from_code(255), Verdict::Unknown);
    assert_eq!(Verdict::from_code(u32::MAX), Verdict::Unknown);
}

#[test]
fn every_verdict_has_its_label() {
    assert_eq!(Verdict::Good.label(), "good");
    assert_eq!(Verdict::BadAttributeInThePast.label(), "bad_attr_in_past");
    assert_eq!(Verdict::BadSector.label(), "bad_sector");
    assert_eq!(Verdict::BadAttributeNow.label(), "bad_attr_now");
    assert_eq!(Verdict::BadSectorMany.label(), "bad_sector_many");
    assert_eq!(Verdict::BadStatus.label(), "bad_status");
    assert_eq!(Verdict::OverallMax.label(), "overall_max");
    assert_eq!(Verdict::Unknown.label(), "unknown");
}

#[test]
fn verdict_labels_differ() {
    let mut labels = Vec::new();
    for code in 0..8 {
        let label = Verdict::from_code(code).label();
        assert!(!labels.contains(&label));
        labels.push(label);
    }
}

#[test]
fn every_metric_is_labelled_by_its_disk() {
    let mut at = Some(Attribute::first());
    while let Some(attribute) = at {
        let names = attribute.label_names();
        if attribute == Attribute::Overall {
            assert_eq!(names, vec!["disk", "status"]);
        } else {
            assert_eq!(names, vec!["disk"]);
        }
        at = attribute.next();
    }
}

#[test]
fn all_attributes_are_listed_in_the_order_of_reading() {
    let all = Attribute::all();
    assert_eq!(all.len(), 10);
    let mut at = Some(Attribute::first());
    for attribute in &all {
        assert_eq!(Some(*attribute), at);
        at = attribute.next();
    }
    assert_eq!(at, None);
}

#[test]
fn every_attribute_knows_its_place() {
    for (place, attribute) in Attribute::all().into_iter().enumerate() {
        assert_eq!(attribute.index(), place);
    }
    assert_eq!(Attribute::DiskSize.index(), 0);
    assert_eq!(Attribute::Temperature.index(), 2);
    assert_eq!(Attribute::SmartAvailable.index(), 9);
}
