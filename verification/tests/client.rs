use cabas::client::error::AppError;
use cabas::client::id::{format_id, mint, DEVICE, INGREDIENT, LIST_ENTRY, RECIPE, USAGE, USER};
use cabas::client::platform::{Identity, Platform};
use cabas::Timestamp;
use cabas::client::sync::{mint_phrase, read_phrase, SyncCursor, SyncSession};
use cabas::client::tags::{AisleTag, RefDisplayTag, UnitTag};
use cabas::ingredient::Aisle;
use cabas::recipe::RefDisplay;
use cabas::sync::error::SyncError;
use cabas::sync::protocol::{ClientMessage, ServerMessage};
use cabas::sync::session::Event;
use cabas::units::{MassUnit, Unit, VolumeUnit};
use std::cell::Cell;

struct Sequence(Cell<u64>);

impl Platform for Sequence {
    fn now(&self) -> Timestamp {
        Timestamp(0)
    }

    fn random_u64(&self) -> Result<u64, AppError> {
        self.0.set(self.0.get() + 1);
        Ok(self.0.get())
    }
}

#[test]
fn crate_builds() {}

#[test]
fn ids_are_prefixed_and_fixed_width() {
    let platform = Sequence(Cell::new(0));
    let id = mint(&platform, RECIPE).expect("mint");
    assert_eq!(id, "rec_0000000000000001");
    assert_eq!(mint(&platform, RECIPE).expect("mint").len(), id.len());
    assert_eq!(format_id("x_", u64::MAX), "x_ffffffffffffffff");
}

#[test]
fn every_prefix_is_distinct() {
    let mut prefixes = [INGREDIENT, RECIPE, USAGE, LIST_ENTRY, USER, DEVICE];
    prefixes.sort_unstable();
    let before = prefixes.len();
    let mut unique = prefixes.to_vec();
    unique.dedup();
    assert_eq!(unique.len(), before);
}

#[test]
fn a_minted_identity_has_two_distinct_ids() {
    let identity =
        Identity::mint(&Sequence(Cell::new(0)), "Alice".into(), "Alice's iPhone".into()).expect("mint");
    assert_ne!(identity.user, identity.device);
    assert!(identity.user.starts_with(USER));
    assert!(identity.device.starts_with(DEVICE));
}

#[test]
fn the_peer_id_is_stable_for_a_device_and_differs_between_devices() {
    let one = Identity {
        user: "usr_1".into(),
        user_name: "Alice".into(),
        device: "dev_1".into(),
        device_name: "iPhone".into(),
    };
    let two = Identity { device: "dev_2".into(), ..one.clone() };
    assert_eq!(one.peer(), one.clone().peer());
    assert_ne!(one.peer(), two.peer());
}

#[test]
fn the_peer_id_is_fnv1a_of_the_device_id() {
    let empty = Identity { user: String::new(), user_name: String::new(), device: String::new(), device_name: String::new() };
    assert_eq!(empty.peer(), 0xcbf2_9ce4_8422_2325);
    let a = Identity { device: "a".into(), ..empty.clone() };
    assert_eq!(a.peer(), 0xaf63_dc4c_8601_ec8c);
}

#[test]
fn every_unit_survives_the_round_trip_to_the_frontend_and_back() {
    let all_units = [
        Unit::Mass(MassUnit::Milligram),
        Unit::Mass(MassUnit::Gram),
        Unit::Mass(MassUnit::Kilogram),
        Unit::Mass(MassUnit::Ounce),
        Unit::Mass(MassUnit::Pound),
        Unit::Volume(VolumeUnit::Milliliter),
        Unit::Volume(VolumeUnit::Centiliter),
        Unit::Volume(VolumeUnit::Deciliter),
        Unit::Volume(VolumeUnit::Liter),
        Unit::Volume(VolumeUnit::TeaspoonFr),
        Unit::Volume(VolumeUnit::TablespoonFr),
        Unit::Volume(VolumeUnit::CupMetric),
        Unit::Volume(VolumeUnit::TeaspoonUs),
        Unit::Volume(VolumeUnit::TablespoonUs),
        Unit::Volume(VolumeUnit::CupUs),
        Unit::Volume(VolumeUnit::FluidOunceUs),
        Unit::Piece,
        Unit::Pinch,
        Unit::ToTaste,
    ];
    for unit in all_units {
        assert_eq!(Unit::from(UnitTag::from(unit)), unit);
    }
}

#[test]
fn every_aisle_survives_the_round_trip() {
    let all_aisles = [
        Aisle::Produce,
        Aisle::Butcher,
        Aisle::Fish,
        Aisle::Deli,
        Aisle::Dairy,
        Aisle::Bakery,
        Aisle::Grocery,
        Aisle::Frozen,
        Aisle::Beverages,
        Aisle::Household,
        Aisle::Other,
    ];
    for aisle in all_aisles {
        assert_eq!(Aisle::from(AisleTag::from(aisle)), aisle);
    }
}

#[test]
fn a_reference_display_survives_the_round_trip() {
    for display in [RefDisplay::Full, RefDisplay::NameOnly, RefDisplay::QuantityOnly] {
        assert_eq!(RefDisplay::from(RefDisplayTag::from(display)), display);
    }
}

#[test]
fn a_tag_names_one_variant() {
    assert_eq!(UnitTag::from(Unit::Mass(MassUnit::Gram)), UnitTag::G);
    assert_eq!(Unit::from(UnitTag::FlozUs), Unit::Volume(VolumeUnit::FluidOunceUs));
    assert_eq!(AisleTag::from(Aisle::Dairy), AisleTag::Dairy);
}

#[test]
fn sync_a_new_epoch_resets_the_cursor() {
    let phrase = mint_phrase().expect("a phrase");
    let mut session = SyncSession::open(&phrase, SyncCursor { epoch: 4, since: 91 }).expect("open");

    assert_eq!(
        session.session_mut().handle(ServerMessage::Welcome { epoch: 4 }).expect("handle"),
        Event::Connected
    );
    assert_eq!(session.status().cursor, SyncCursor { epoch: 4, since: 91 });
    assert!(!session.status().reset);

    session.session_mut().handle(ServerMessage::Welcome { epoch: 5 }).expect("handle");
    assert_eq!(
        session.status().cursor,
        SyncCursor { epoch: 5, since: 0 },
        "old sequence numbers point into a log that is gone"
    );
    assert!(session.status().reset);
}

#[test]
fn a_phrase_is_forgiven_its_formatting_and_refused_its_mistakes() {
    let phrase = mint_phrase().expect("a phrase");
    assert_eq!(phrase.split_whitespace().count(), 12);

    let shouted = format!("  {}  ", phrase.to_uppercase());
    assert_eq!(read_phrase(&shouted).expect("case and spacing are forgiven"), phrase);

    let short = read_phrase("abandon abandon abandon").expect_err("three words is not a phrase");
    assert!(
        matches!(short, AppError::Sync(SyncError::Phrase(ref m)) if m.contains("got 3")),
        "the message says what was wrong: {short:?}"
    );
    let misspelled = read_phrase(
        "abandon abandon abandon abandon abandon abandon \
         abandon abandon abandon abandon abandon abandonn",
    )
    .expect_err("a word off the list is not a phrase");
    assert!(matches!(misspelled, AppError::Sync(SyncError::Phrase(ref m)) if !m.is_empty()));

    assert!(SyncSession::open("not a phrase", SyncCursor::default()).is_err());
}

#[test]
fn a_fresh_session_reports_the_cursor_it_was_opened_at() {
    let phrase = mint_phrase().expect("a phrase");
    let session = SyncSession::open(&phrase, SyncCursor { epoch: 2, since: 8 }).expect("open");
    let status = session.status();
    assert_eq!(status.cursor, SyncCursor { epoch: 2, since: 8 });
    assert_eq!(status.replayed, 0);
    assert_eq!(status.dropped, 0);
    assert!(!status.reset);
    match session.hello() {
        ClientMessage::Hello { epoch, since, .. } => assert_eq!((epoch, since), (2, 8)),
        other => panic!("expected a hello, got {other:?}"),
    }
}
