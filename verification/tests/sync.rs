use cabas::sync::error::SyncError;
use cabas::sync::key::{FamilyId, FamilyKey, PHRASE_WORDS};
use cabas::sync::protocol::{ClientMessage, FrameKind, ServerMessage, PROTOCOL};
use cabas::sync::seal::{open, seal, seal_with_nonce};
use cabas::sync::session::{Event, Session};
use cabas::client::sync::{sync_event, SyncEvent};

const PHRASE: &str = "abandon abandon abandon abandon abandon abandon \
                      abandon abandon abandon abandon abandon about";

#[test]
fn a_generated_key_round_trips_through_its_phrase() {
    let a = FamilyKey::generate().unwrap();
    let b = FamilyKey::from_phrase(a.phrase()).unwrap();
    assert_eq!(a.bytes(), b.bytes());
    assert_eq!(a.id(), b.id());
    assert_eq!(a.phrase(), b.phrase());
}

#[test]
fn two_generated_keys_differ() {
    let a = FamilyKey::generate().unwrap();
    let b = FamilyKey::generate().unwrap();
    assert_ne!(a.bytes(), b.bytes(), "two families must never share a key");
    assert_ne!(a.id(), b.id());
}

#[test]
fn derivation_is_deterministic() {
    let a = FamilyKey::from_phrase(PHRASE).unwrap();
    let b = FamilyKey::from_phrase(PHRASE).unwrap();
    assert_eq!(a.bytes(), b.bytes());
    assert_eq!(a.id(), b.id());
}

#[test]
fn formatting_is_forgiven() {
    let sloppy = format!("  {}  ", PHRASE.to_uppercase().replace(' ', "   "));
    let a = FamilyKey::from_phrase(&sloppy).unwrap();
    let b = FamilyKey::from_phrase(PHRASE).unwrap();
    assert_eq!(a.bytes(), b.bytes());
    assert_eq!(a.phrase(), PHRASE.split_whitespace().collect::<Vec<_>>().join(" "));
}

#[test]
fn a_lost_word_names_the_count() {
    let eleven = PHRASE.split_whitespace().take(11).collect::<Vec<_>>().join(" ");
    let err = FamilyKey::from_phrase(&eleven).err().expect("refused");
    assert!(matches!(err, SyncError::Phrase(ref m) if m.contains("11")));
    assert!(matches!(err, SyncError::Phrase(ref m) if m == "expected 12 words, got 11"));
    assert_eq!(PHRASE_WORDS, 12);
}

#[test]
fn a_swapped_word_fails_the_checksum() {
    let wrong = PHRASE.replace("about", "zoo");
    assert!(matches!(FamilyKey::from_phrase(&wrong), Err(SyncError::Phrase(_))));
}

#[test]
fn a_word_outside_the_list_is_refused() {
    let wrong = PHRASE.replace("about", "aboot");
    assert!(matches!(FamilyKey::from_phrase(&wrong), Err(SyncError::Phrase(_))));
}

#[test]
fn the_id_is_not_a_prefix_of_the_key() {
    let k = FamilyKey::from_phrase(PHRASE).unwrap();
    assert!(!k.bytes().starts_with(&k.id().0));
    assert!(!k.bytes().ends_with(&k.id().0));
}

#[test]
fn family_id_round_trips_through_hex() {
    let k = FamilyKey::from_phrase(PHRASE).unwrap();
    let hex = k.id().to_hex();
    assert_eq!(hex.len(), 32);
    assert_eq!(FamilyId::from_hex(&hex).unwrap(), k.id());
    assert!(FamilyId::from_hex("not hex at all").is_err());
    assert!(FamilyId::from_hex(&hex[..30]).is_err());
}

#[test]
fn a_family_id_spells_its_bytes_in_lowercase_hex() {
    let id = FamilyId([0x01, 0x23, 0x45, 0x67, 0x89, 0xab, 0xcd, 0xef, 0, 0, 0, 0, 0, 0, 0xff, 0x10]);
    assert_eq!(id.to_hex(), "0123456789abcdef000000000000ff10");
    assert_eq!(
        FamilyId::from_hex("0123456789ABCDEF000000000000FF10").unwrap(),
        id,
        "either case reads back"
    );
}

#[test]
fn a_wrong_length_names_it() {
    assert_eq!(
        FamilyId::from_hex("abcd"),
        Err(SyncError::Wire("family id: expected 32 hex digits, got 4".to_string()))
    );
    assert_eq!(
        FamilyId::from_hex("zz23456789abcdef0123456789abcdef"),
        Err(SyncError::Wire("family id: not hex".to_string()))
    );
}

#[test]
fn debug_never_prints_the_key() {
    let k = FamilyKey::from_phrase(PHRASE).unwrap();
    let debug = k.describe();
    assert!(debug.contains("redacted"));
    assert!(!debug.contains(PHRASE.split(' ').next().unwrap()));
}

fn key() -> FamilyKey {
    FamilyKey::generate().unwrap()
}

#[test]
fn sealed_frames_round_trip() {
    let k = key();
    let plaintext = b"5 tomatoes, checked by margaux";
    let sealed = seal(&k, plaintext).unwrap();
    assert_eq!(open(&k, &sealed).unwrap(), plaintext);
}

#[test]
fn the_empty_plaintext_round_trips() {
    let k = key();
    let sealed = seal(&k, b"").unwrap();
    assert_eq!(open(&k, &sealed).unwrap(), b"");
}

#[test]
fn sealing_twice_yields_unrelated_frames() {
    let k = key();
    let a = seal(&k, b"same bytes").unwrap();
    let b = seal(&k, b"same bytes").unwrap();
    assert_ne!(a, b, "a repeated nonce would be a key-recovery bug");
}

#[test]
fn every_flipped_bit_is_caught() {
    let k = key();
    let sealed = seal(&k, b"do not trust the relay").unwrap();
    for i in 0..sealed.len() {
        let mut tampered = sealed.clone();
        tampered[i] ^= 1;
        assert_eq!(open(&k, &tampered), Err(SyncError::Open), "flipping byte {i} went unnoticed");
    }
}

#[test]
fn truncation_is_caught() {
    let k = key();
    let sealed = seal(&k, b"short me").unwrap();
    for len in 0..sealed.len() {
        assert_eq!(open(&k, &sealed[..len]), Err(SyncError::Open));
    }
}

#[test]
fn the_wrong_key_opens_nothing() {
    let sealed = seal(&key(), b"for one family only").unwrap();
    assert_eq!(open(&key(), &sealed), Err(SyncError::Open));
}

#[test]
fn a_sealed_frame_is_a_nonce_a_ciphertext_and_a_tag() {
    let sealed = seal(&key(), b"12345").unwrap();
    assert_eq!(sealed.len(), 24 + 5 + 16);
}

fn session() -> Session {
    Session::new(FamilyKey::generate().unwrap(), 0, 0)
}

#[test]
fn hello_carries_the_persisted_cursor() {
    let key = FamilyKey::generate().unwrap();
    let id = key.id();
    let s = Session::new(key, 5, 17);
    match s.hello() {
        ClientMessage::Hello { protocol, family, epoch, since } => {
            assert_eq!(protocol, PROTOCOL);
            assert_eq!(family, id);
            assert_eq!(epoch, 5);
            assert_eq!(since, 17);
        }
        other => panic!("expected a hello, got {other:?}"),
    }
}

#[test]
fn a_matching_epoch_keeps_the_cursor() {
    let key = FamilyKey::generate().unwrap();
    let mut s = Session::new(key, 5, 17);
    assert_eq!(s.handle(ServerMessage::Welcome { epoch: 5 }).unwrap(), Event::Connected);
    assert_eq!(s.cursor(), (5, 17));
}

#[test]
fn session_a_new_epoch_resets_the_cursor() {
    let key = FamilyKey::generate().unwrap();
    let mut s = Session::new(key, 5, 17);
    s.handle(ServerMessage::Welcome { epoch: 6 }).unwrap();
    assert_eq!(s.cursor(), (6, 0), "old sequence numbers point into a log that is gone");
}

#[test]
fn frames_open_advance_and_surface_the_plaintext() {
    let key = FamilyKey::from_phrase(PHRASE).unwrap();
    let sealed = seal(&key, b"ops from the other phone").unwrap();
    let mut s = Session::new(key, 0, 0);
    let event = s
        .handle(ServerMessage::Frame { seq: 4, kind: FrameKind::Delta, payload: sealed })
        .unwrap();
    assert_eq!(event, Event::Merge(b"ops from the other phone".to_vec()));
    assert_eq!(s.cursor(), (0, 4));
    assert_eq!(s.replayed(), 1);
    assert_eq!(s.dropped(), 0);
}

#[test]
fn a_frame_that_does_not_open_is_dropped_and_stepped_over() {
    let mut s = session();
    let event = s
        .handle(ServerMessage::Frame { seq: 9, kind: FrameKind::Delta, payload: vec![0; 64] })
        .unwrap();
    assert_eq!(event, Event::Dropped { seq: 9 });
    assert_eq!(s.cursor().1, 9, "refetching garbage forever would not make it open");
    assert_eq!(s.dropped(), 1);
}

#[test]
fn an_older_frame_does_not_move_the_cursor_back() {
    let mut s = Session::new(FamilyKey::generate().unwrap(), 0, 10);
    s.handle(ServerMessage::Frame { seq: 3, kind: FrameKind::Delta, payload: vec![] }).unwrap();
    assert_eq!(s.cursor(), (0, 10));
    assert_eq!(s.replayed(), 1);
}

#[test]
fn pushes_seal_and_declare_their_kind() {
    let key = FamilyKey::generate().unwrap();
    let opener = FamilyKey::from_phrase(key.phrase()).unwrap();
    let mut s = Session::new(key, 0, 0);
    s.handle(ServerMessage::Frame {
        seq: 21,
        kind: FrameKind::Delta,
        payload: seal(&opener, b"x").unwrap(),
    })
    .unwrap();

    match s.delta(b"local edits").unwrap() {
        ClientMessage::Push { kind, payload } => {
            assert_eq!(kind, FrameKind::Delta);
            assert_eq!(open(&opener, &payload).unwrap(), b"local edits");
        }
        other => panic!("expected a push, got {other:?}"),
    }
    match s.snapshot(b"whole doc").unwrap() {
        ClientMessage::Push { kind, payload } => {
            assert_eq!(
                kind,
                FrameKind::Snapshot { covers: 21 },
                "a snapshot covers exactly what this session has applied"
            );
            assert_eq!(open(&opener, &payload).unwrap(), b"whole doc");
        }
        other => panic!("expected a push, got {other:?}"),
    }
}

#[test]
fn acks_and_refusals_pass_through() {
    let mut s = session();
    assert_eq!(s.handle(ServerMessage::Ack { seq: 3 }).unwrap(), Event::Acked { seq: 3 });
    assert_eq!(s.handle(ServerMessage::CaughtUp).unwrap(), Event::CaughtUp);
    assert_eq!(
        s.handle(ServerMessage::Refused { reason: "speak protocol 1".into() }).unwrap(),
        Event::Refused { reason: "speak protocol 1".into() }
    );
}

#[test]
fn a_family_id_parses_from_hex_digits_only() {
    let plus = format!("+a{}", "0".repeat(30));
    assert!(matches!(FamilyId::from_hex(&plus), Err(SyncError::Wire(_))));
    let upper = "0123456789ABCDEF0123456789abcdef";
    assert_eq!(FamilyId::from_hex(upper).expect("either case").to_hex(), upper.to_lowercase());
}

#[test]
fn a_phrase_keys_the_family_from_its_seed() {
    let key = FamilyKey::generate().expect("entropy");
    assert_eq!(key.phrase().split(' ').count(), PHRASE_WORDS);
    let again = FamilyKey::from_phrase(&key.phrase().to_uppercase()).expect("valid");
    assert_eq!(again.phrase(), key.phrase());
    assert_eq!(again.id(), key.id());
}

#[test]
fn session_events_reach_the_host_as_they_are() {
    assert_eq!(sync_event(Event::Connected, None), Some(SyncEvent::Connected));
    assert_eq!(sync_event(Event::CaughtUp, None), Some(SyncEvent::CaughtUp));
    assert_eq!(sync_event(Event::Acked { seq: 7 }, None), Some(SyncEvent::Acked { seq: 7 }));
    assert_eq!(sync_event(Event::Dropped { seq: 9 }, None), Some(SyncEvent::Dropped { seq: 9 }));
    assert_eq!(
        sync_event(Event::Refused { reason: "epoch".to_string() }, None),
        Some(SyncEvent::Refused { reason: "epoch".to_string() })
    );
    assert_eq!(sync_event(Event::Merge(vec![1, 2, 3]), None), None);
}

#[test]
fn zero_entropy_spells_the_all_abandon_phrase() {
    let key = FamilyKey::from_entropy(&[0u8; 16]);
    assert_eq!(key.phrase(), PHRASE.split_whitespace().collect::<Vec<_>>().join(" "));
    assert_eq!(cabas::client::sync::phrase_from_entropy(&[0u8; 16]), key.phrase());
    let again = FamilyKey::from_phrase(PHRASE).unwrap();
    assert_eq!(key.id(), again.id());
}

#[test]
fn sealing_with_a_given_nonce_is_deterministic_and_opens() {
    let key = FamilyKey::from_phrase(PHRASE).unwrap();
    let nonce = [7u8; 24];
    let a = seal_with_nonce(&key, &nonce, b"hello").unwrap();
    let b = seal_with_nonce(&key, &nonce, b"hello").unwrap();
    assert_eq!(a, b);
    assert_eq!(&a[..24], &nonce[..]);
    assert_eq!(a.len(), 24 + 5 + 16);
    assert_eq!(open(&key, &a).unwrap(), b"hello".to_vec());
}

#[test]
fn a_snapshot_with_a_given_nonce_declares_what_it_covers() {
    let key = FamilyKey::from_phrase(PHRASE).unwrap();
    let session = Session::new(key, 0, 21);
    let m = session.snapshot_with_nonce(&[1u8; 24], b"state").unwrap();
    match m {
        ClientMessage::Push { kind, payload } => {
            assert_eq!(kind, FrameKind::Snapshot { covers: 21 });
            assert_eq!(&payload[..24], &[1u8; 24][..]);
        },
        _ => panic!("not a push"),
    }
}
