use sph_notifier::plan::PlanDate;
use sph_notifier::plan::entry_eq;
use sph_notifier::plan::subplan_format_date;
use sph_notifier::sph_scraper::entry_from_cells;

fn cells(items: &[&str]) -> Vec<String> {
    items.iter().map(|s| String::from(*s)).collect()
}

#[test]
fn date_key_pads_day_and_month() {
    let d = PlanDate { year: 2023, month: 9, day: 22 };
    assert_eq!(subplan_format_date(&d), "22_09_2023");
    let d2 = PlanDate { year: 2024, month: 12, day: 1 };
    assert_eq!(subplan_format_date(&d2), "01_12_2024");
}

#[test]
fn short_rows_are_padded_with_empty_strings() {
    let row = cells(&["3", "", "Smith", "Raum", "10a"]);
    let e = entry_from_cells(&row).expect("a short row still maps");
    assert_eq!(e.period, "3");
    assert_eq!(e.teacher, "Smith");
    assert_eq!(e.entry_type, "Raum");
    assert_eq!(e.class, "10a");
    assert_eq!(e.new_room, "");
    assert_eq!(e.old_room, "");
    assert_eq!(e.note, "");
}

#[test]
fn cells_are_trimmed() {
    let row = cells(&[" 3 ", "", "\tSmith\n", " Raum", "10a ", "B204", "A101", "  "]);
    let e = entry_from_cells(&row).expect("eight cells map");
    assert_eq!(e.period, "3");
    assert_eq!(e.teacher, "Smith");
    assert_eq!(e.entry_type, "Raum");
    assert_eq!(e.class, "10a");
    assert_eq!(e.new_room, "B204");
    assert_eq!(e.old_room, "A101");
    assert_eq!(e.note, "");
}

#[test]
fn overlong_rows_are_rejected() {
    let row = cells(&["1", "2", "3", "4", "5", "6", "7", "8", "9"]);
    assert!(entry_from_cells(&row).is_none());
}

#[test]
fn entry_equality_is_field_wise() {
    let a = entry_from_cells(&cells(&["3", "", "Smith", "Raum", "10a"])).unwrap();
    let b = entry_from_cells(&cells(&["3", "", "Smith", "Raum", "10a"])).unwrap();
    let c = entry_from_cells(&cells(&["4", "", "Smith", "Raum", "10a"])).unwrap();
    assert!(entry_eq(&a, &b));
    assert!(!entry_eq(&a, &c));
}
