use sph_notifier::messenger::Messenger;
use sph_notifier::messenger::build_text;
use sph_notifier::notification_bot::Subscriber;
use sph_notifier::notification_bot::subscriber_matches;
use sph_notifier::plan::PlanEntry;

fn entry(fields: [&str; 8]) -> PlanEntry {
    PlanEntry {
        period: String::from(fields[0]),
        slot: String::from(fields[1]),
        teacher: String::from(fields[2]),
        entry_type: String::from(fields[3]),
        class: String::from(fields[4]),
        new_room: String::from(fields[5]),
        old_room: String::from(fields[6]),
        note: String::from(fields[7]),
    }
}

#[test]
fn room_change_message_is_literal() {
    let e = entry(["3", "", "Smith", "Raum", "10a", "B204", "A101", ""]);
    assert_eq!(
        build_text(&e),
        "Room change in 10a with Smith (period 3): A101 -> B204"
    );
}

#[test]
fn cancellation_message_mentions_class_and_period() {
    let e = entry(["2", "", "Jones", "Selbststudium", "9b", "", "", "Entfall heute"]);
    let text = build_text(&e);
    assert_eq!(text, "9b entfällt! (period 2 with Jones)");
    assert!(text.contains("9b"));
    assert!(text.contains("2"));
}

#[test]
fn self_study_without_cancellation_note_is_generic() {
    let e = entry(["4", "", "Kim", "Selbststudium", "8c", "", "", "still on"]);
    assert_eq!(
        build_text(&e),
        "New entry: class 8c, period 4, teacher Kim, type Selbststudium, note still on"
    );
}

#[test]
fn other_types_get_the_generic_dump() {
    let e = entry(["1", "", "Lee", "Vertretung", "7a", "", "", "swap"]);
    assert_eq!(
        build_text(&e),
        "New entry: class 7a, period 1, teacher Lee, type Vertretung, note swap"
    );
}

#[test]
fn subscriber_matching_is_substring_on_the_classes_string() {
    let sub = Subscriber {
        id: 1,
        name: String::from("pat"),
        classes: String::from("10a,10b"),
    };
    assert!(subscriber_matches(&sub, "10a"));
    assert!(subscriber_matches(&sub, "10b"));
    let other = Subscriber {
        id: 2,
        name: String::from("kim"),
        classes: String::from("9a"),
    };
    assert!(!subscriber_matches(&other, "10a"));
}

#[test]
fn messenger_keeps_endpoint_and_token() {
    let m = Messenger::new("https://example.invalid/send", "tok");
    assert_eq!(m.endpoint, "https://example.invalid/send");
    assert_eq!(m.access_token, "tok");
}
