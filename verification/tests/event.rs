use cabas::event::{Action, Event, EventLog, Subject};
use cabas::{IngredientId, ListEntryId, RecipeId, Timestamp, UserId};

fn deletion(at: i64, label: &str) -> Event {
    Event::new(Timestamp(at), UserId::from_raw("alice"), Action::Deleted, Subject::Recipe(RecipeId::from_raw("tart")), label)
}

#[test]
fn a_deleted_subject_is_still_nameable() {
    let mut log = EventLog::default();
    log.record(deletion(1, "Apple tart"));
    let recent = log.recent();
    let event = recent.first().expect("one event");
    assert_eq!(event.label, "Apple tart");
    assert_eq!(event.action, Action::Deleted);
}

#[test]
fn the_cap_drops_the_oldest_and_keeps_the_newest() {
    let mut log = EventLog::default();
    for i in 0..(EventLog::CAP as i64 + 50) {
        log.record(deletion(i, &format!("recipe {i}")));
    }
    assert_eq!(log.events.len(), EventLog::CAP);
    assert_eq!(log.events[0].at, Timestamp(50));
    assert_eq!(log.recent().first().expect("newest").at, Timestamp(EventLog::CAP as i64 + 49));
}

#[test]
fn trimming_an_already_short_log_changes_nothing() {
    let mut log = EventLog::default();
    log.record(deletion(1, "Apple tart"));
    log.trim(10);
    assert_eq!(log.events.len(), 1);
}

#[test]
fn trimming_after_a_merge_is_idempotent() {
    let mut log = EventLog { events: (0..300).map(|i| deletion(i, "x")).collect() };
    log.trim(EventLog::CAP);
    assert_eq!(log.events.len(), EventLog::CAP);
    log.trim(EventLog::CAP);
    assert_eq!(log.events.len(), EventLog::CAP);
}

#[test]
fn events_can_be_filtered_by_subject() {
    let mut log = EventLog::default();
    log.record(deletion(1, "Apple tart"));
    log.record(Event::new(
        Timestamp(2),
        UserId::from_raw("bob"),
        Action::Edited,
        Subject::Ingredient(IngredientId::from_raw("flour")),
        "Flour",
    ));
    let tart = Subject::Recipe(RecipeId::from_raw("tart"));
    assert_eq!(log.about(&tart).len(), 1);
    let entry = Subject::ListEntry(ListEntryId::from_raw("e1"));
    assert_eq!(log.about(&entry).len(), 0);
}
