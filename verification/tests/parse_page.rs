use sph_notifier::plan::PlanDate;
use sph_notifier::plan::subplan_format_date;
use sph_notifier::sph_scraper::parse_subplan;
use sph_notifier::sph_scraper::parse_subplan_dated;

fn page_for(date_key: &str) -> String {
    format!(
        "<html><body>\
         <table id=\"vtable{}\"><tbody>\
         <tr><td> 3 </td><td></td><td>Smith </td><td>Raum</td><td>10a</td>\
         <td>B204</td><td>A101</td><td></td></tr>\
         <tr><td>2</td><td></td><td>Jones</td><td>Selbststudium</td><td>9b</td></tr>\
         </tbody></table>\
         </body></html>",
        date_key
    )
}

#[test]
fn rows_under_the_dated_table_become_entries() {
    let d = PlanDate { year: 2023, month: 9, day: 22 };
    let key = subplan_format_date(&d);
    let html = page_for(&key);
    let entries = parse_subplan(&html, &key);
    assert_eq!(entries.len(), 2);
    assert_eq!(entries[0].period, "3");
    assert_eq!(entries[0].teacher, "Smith");
    assert_eq!(entries[0].entry_type, "Raum");
    assert_eq!(entries[0].class, "10a");
    assert_eq!(entries[0].new_room, "B204");
    assert_eq!(entries[0].old_room, "A101");
    assert_eq!(entries[0].note, "");
    assert_eq!(entries[1].period, "2");
    assert_eq!(entries[1].class, "9b");
    assert_eq!(entries[1].new_room, "");
    assert_eq!(entries[1].note, "");
}

#[test]
fn the_dated_entry_point_selects_the_same_table() {
    let d = PlanDate { year: 2023, month: 9, day: 22 };
    let html = page_for("22_09_2023");
    let entries = parse_subplan_dated(&html, &d);
    assert_eq!(entries.len(), 2);
    assert_eq!(entries[0].class, "10a");
    let other = PlanDate { year: 2023, month: 9, day: 23 };
    assert!(parse_subplan_dated(&html, &other).is_empty());
}

#[test]
fn an_absent_table_is_the_empty_plan() {
    let d = PlanDate { year: 2023, month: 9, day: 23 };
    let key = subplan_format_date(&d);
    let html = page_for("22_09_2023");
    let entries = parse_subplan(&html, &key);
    assert!(entries.is_empty());
}

#[test]
fn an_empty_table_is_the_empty_plan() {
    let key = "22_09_2023";
    let html = format!(
        "<html><body><table id=\"vtable{}\"><tbody></tbody></table></body></html>",
        key
    );
    let entries = parse_subplan(&html, key);
    assert!(entries.is_empty());
}
