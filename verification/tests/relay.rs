use cabas::relay::admin::{
    bytes, frames_handed_out, humanize, humanize_secs, is_family_id, render, stalest_first, total_bytes_of, Family,
    LastWrite,
};
use cabas::relay::assets::{
    content_type, embedded, embedded_assets, etag_matches, is_sorted, respond, Asset, Reply,
    Status, IMMUTABLE, REVALIDATE,
};
use cabas::relay::connection::{greet, opening, step, Greeting, Step};
use cabas::relay::log::{encode_record, epoch_from, mint_epoch, record_at, FamilyLog, Meta, Persist, StoredFrame};
use cabas::sync::key::FamilyId;
use cabas::sync::protocol::{ClientMessage, FrameKind, ServerMessage, PROTOCOL};
use std::time::Duration;

fn fresh() -> FamilyLog {
    FamilyLog::resume(None, 77, Vec::new())
}

#[test]
fn sequences_start_at_one_and_replay_respects_since() {
    let mut log = fresh();
    assert!(log.replay(0).is_empty());
    for payload in [b"a".to_vec(), b"b".to_vec(), b"c".to_vec()] {
        log.append(FrameKind::Delta, payload);
    }
    assert_eq!(log.replay(0).iter().map(|f| f.seq).collect::<Vec<_>>(), vec![1, 2, 3]);
    assert_eq!(log.replay(2).iter().map(|f| f.seq).collect::<Vec<_>>(), vec![3]);
    assert!(log.replay(3).is_empty());
}

#[test]
fn the_log_survives_a_restart() {
    let mut log = fresh();
    log.append(FrameKind::Delta, b"first".to_vec());
    log.append(FrameKind::Delta, b"second".to_vec());
    let epoch = log.epoch();
    let meta = log.meta();
    let frames = log.frames().clone();

    let mut log = FamilyLog::resume(Some(meta), 12345, frames);
    assert_eq!(log.epoch(), epoch, "the epoch is the log's identity");
    assert_eq!(log.replay(0).len(), 2);
    let (next, _) = log.append(FrameKind::Delta, b"third".to_vec());
    assert_eq!(next.seq, 3, "sequences continue where they left off");
}

#[test]
fn a_snapshot_truncates_what_it_covers() {
    let mut log = fresh();
    for payload in [b"a".to_vec(), b"b".to_vec(), b"c".to_vec()] {
        assert_eq!(log.append(FrameKind::Delta, payload).1, Persist::AppendRecord);
    }
    let (_, persist) = log.append(FrameKind::Snapshot { covers: 2 }, b"snap".to_vec());
    assert_eq!(persist, Persist::RewriteLog);
    let seqs: Vec<u64> = log.replay(0).iter().map(|f| f.seq).collect();
    assert_eq!(seqs, vec![3, 4]);
}

#[test]
fn a_torn_tail_is_cut_off_not_fatal() {
    let mut bytes = encode_record(b"whole");
    let whole = bytes.len();
    bytes.extend_from_slice(&[42, 0, 0, 0, 1, 2, 3]);
    assert_eq!(record_at(&bytes, 0), Some((4, whole)));
    assert_eq!(record_at(&bytes, whole), None, "the torn record promises more than exists");
    assert_eq!(record_at(&bytes, bytes.len() - 2), None);
}

#[test]
fn a_lost_meta_changes_the_epoch() {
    let mut log = FamilyLog::resume(None, 5, Vec::new());
    log.append(FrameKind::Delta, b"x".to_vec());
    let frames = log.frames().clone();
    let reborn = FamilyLog::resume(None, 6, frames);
    assert_ne!(reborn.epoch(), log.epoch());
    assert_eq!(reborn.meta(), Meta { epoch: 6, next_seq: 2 }, "the frames still decide the next sequence");
}

#[test]
fn the_frames_outrank_a_stale_meta() {
    let frames = vec![StoredFrame { seq: 9, kind: FrameKind::Delta, payload: vec![1] }];
    let log = FamilyLog::resume(Some(Meta { epoch: 3, next_seq: 4 }), 0, frames);
    assert_eq!(log.meta(), Meta { epoch: 3, next_seq: 10 });
}

#[test]
fn a_record_frames_its_length_little_endian() {
    let body = vec![7u8; 300];
    let record = encode_record(&body);
    assert_eq!(&record[..4], &[44, 1, 0, 0]);
    assert_eq!(&record[4..], &body[..]);
}

#[test]
fn ages_read_as_a_person_would_say_them() {
    assert_eq!(humanize(Duration::from_secs(12)), "12s");
    assert_eq!(humanize(Duration::from_secs(3 * 60 + 4)), "3min");
    assert_eq!(humanize(Duration::from_secs(5 * 3600)), "5h");
    assert_eq!(humanize(Duration::from_secs(97 * 24 * 3600)), "97 days");
    assert_eq!(bytes(512), "512 B");
    assert_eq!(bytes(2048), "2 kB");
    assert_eq!(bytes(3 * 1_048_576), "3.0 MB");
}

#[test]
fn sizes_round_to_the_nearest_even_digit() {
    assert_eq!(bytes(1023), "1023 B");
    assert_eq!(bytes(2560), "2 kB");
    assert_eq!(bytes(3584), "4 kB");
    assert_eq!(bytes(1_572_864), "1.5 MB");
    assert_eq!(humanize_secs(59), "59s");
    assert_eq!(humanize_secs(60), "1min");
}

#[test]
fn anything_that_is_not_a_family_is_left_alone() {
    assert!(is_family_id("0123456789abcdef0123456789abcdef"));
    assert!(is_family_id("FEDCBA9876543210FEDCBA9876543210"));
    for wrong in ["not-hex", "deadbeef", "", "..", "../../etc", "0123456789abcdef", "0123456789abcdef0123456789abcdeg"] {
        assert!(!is_family_id(wrong), "{wrong:?}");
    }
}

#[test]
fn frames_handed_out_are_one_less_than_the_next() {
    assert_eq!(frames_handed_out(Some(Meta { epoch: 1, next_seq: 6 })), 5);
    assert_eq!(frames_handed_out(Some(Meta { epoch: 1, next_seq: 0 })), 0);
    assert_eq!(frames_handed_out(None), 0);
}

const FIXTURE: &[Asset] = &[
    Asset { path: "assets/app-abc123.js", etag: "\"3-0000000000000001\"", bytes: b"app" },
    Asset { path: "icons/icon-192.png", etag: "\"3-0000000000000002\"", bytes: b"png" },
    Asset { path: "index.html", etag: "\"4-0000000000000003\"", bytes: b"page" },
    Asset { path: "sw.js", etag: "\"6-0000000000000004\"", bytes: b"worker" },
];

#[test]
fn the_root_is_the_page() {
    let response = respond(FIXTURE, "/", None);
    assert_eq!(response.status, Status::Found);
    assert_eq!(response.content_type, Some("text/html; charset=utf-8"));
    assert_eq!(response.body, b"page");
}

#[test]
fn an_unknown_path_is_not_the_page() {
    let response = respond(FIXTURE, "/recipes", None);
    assert_eq!(response.status, Status::NotFound);
}

#[test]
fn hashed_assets_are_immutable_and_the_shell_is_not() {
    assert_eq!(respond(FIXTURE, "/assets/app-abc123.js", None).cache_control, Some(IMMUTABLE));
    assert_eq!(respond(FIXTURE, "/sw.js", None).cache_control, Some(REVALIDATE));
    assert_eq!(respond(FIXTURE, "/", None).cache_control, Some(REVALIDATE));
    assert_eq!(respond(FIXTURE, "/icons/icon-192.png", None).cache_control, Some(REVALIDATE));
}

#[test]
fn nothing_ever_varies() {
    for path in ["/", "/sw.js", "/assets/app-abc123.js"] {
        // A reply has no field a `Vary` could come from.
        let Reply { status, etag, cache_control, content_type, body } = respond(FIXTURE, path, None);
        assert_eq!(status, Status::Found, "{path}");
        assert!(etag.is_some() && cache_control.is_some() && content_type.is_some() && !body.is_empty());
    }
}

#[test]
fn a_matching_etag_is_answered_with_nothing() {
    let response = respond(FIXTURE, "/", Some("\"4-0000000000000003\""));
    assert_eq!(response.status, Status::NotModified);
    assert_eq!(response.etag, Some("\"4-0000000000000003\""));
    assert_eq!(response.cache_control, Some(REVALIDATE));
    assert!(response.body.is_empty());
}

#[test]
fn a_stale_etag_is_answered_with_the_file() {
    let response = respond(FIXTURE, "/", Some("\"4-000000000000ffff\""));
    assert_eq!(response.status, Status::Found);
}

#[test]
fn a_weakened_or_listed_etag_still_matches() {
    let weak = respond(FIXTURE, "/sw.js", Some("W/\"6-0000000000000004\""));
    assert_eq!(weak.status, Status::NotModified);
    let listed = respond(FIXTURE, "/sw.js", Some("\"other\", \"6-0000000000000004\""));
    assert_eq!(listed.status, Status::NotModified);
    assert!(etag_matches("*", "\"anything\""));
    assert!(!etag_matches("", "\"x\""));
}

#[test]
fn the_core_is_labelled_so_it_can_stream() {
    assert_eq!(content_type("assets/cabas_bg-x.wasm"), "application/wasm");
    assert_eq!(content_type("manifest.webmanifest"), "application/manifest+json; charset=utf-8");
    assert_eq!(content_type("favicon.svg"), "image/svg+xml");
    assert_eq!(content_type("LICENSE"), "application/octet-stream");
}

#[test]
fn the_embedded_table_is_sorted() {
    let assets = embedded_assets();
    assert!(assets.windows(2).all(|pair| pair[0].path < pair[1].path));
    assert!(is_sorted(&assets));
    assert_eq!(embedded(), assets.len());
    assert!(is_sorted(FIXTURE));
}

fn family() -> FamilyId {
    FamilyId([7; 16])
}

#[test]
fn only_a_hello_in_this_protocol_opens_a_connection() {
    assert_eq!(
        greet(Some(ClientMessage::Hello { protocol: PROTOCOL, family: family(), epoch: 2, since: 5 })),
        Greeting::Accept { family: family(), epoch: 2, since: 5 }
    );
    assert_eq!(
        greet(Some(ClientMessage::Hello { protocol: 9, family: family(), epoch: 0, since: 0 })),
        Greeting::Refuse { reason: "speak protocol 1".into() }
    );
    assert_eq!(
        greet(Some(ClientMessage::Push { kind: FrameKind::Delta, payload: vec![] })),
        Greeting::Refuse { reason: "hello first".into() }
    );
    assert_eq!(greet(None), Greeting::Refuse { reason: "unparsable hello".into() });
}

#[test]
fn an_arrival_is_welcomed_replayed_and_told_it_caught_up() {
    let mut log = FamilyLog::resume(None, 40, Vec::new());
    log.append(FrameKind::Delta, b"a".to_vec());
    log.append(FrameKind::Delta, b"b".to_vec());
    let same_epoch = opening(&log, 40, 1);
    assert_eq!(
        same_epoch,
        vec![
            ServerMessage::Welcome { epoch: 40 },
            ServerMessage::Frame { seq: 2, kind: FrameKind::Delta, payload: b"b".to_vec() },
            ServerMessage::CaughtUp,
        ]
    );
    let other_epoch = opening(&log, 39, 2);
    assert_eq!(other_epoch.len(), 4, "a stranger epoch replays from the start");
}

#[test]
fn a_push_is_appended_acknowledged_and_forwarded() {
    let mut log = fresh();
    match step(&mut log, Some(ClientMessage::Push { kind: FrameKind::Delta, payload: vec![9] })) {
        Step::Appended { frame, persist, ack, forward } => {
            assert_eq!(frame.seq, 1);
            assert_eq!(persist, Persist::AppendRecord);
            assert_eq!(ack, ServerMessage::Ack { seq: 1 });
            assert_eq!(forward, ServerMessage::Frame { seq: 1, kind: FrameKind::Delta, payload: vec![9] });
        }
        other => panic!("expected an append, got {other:?}"),
    }
    assert_eq!(
        step(&mut log, Some(ClientMessage::Hello { protocol: 1, family: family(), epoch: 0, since: 0 })),
        Step::Refuse { reason: "one hello per connection".into() }
    );
    assert_eq!(step(&mut log, None), Step::Refuse { reason: "unparsable message".into() });
    assert_eq!(log.replay(0).len(), 1);
}

#[test]
fn an_empty_survey_says_nothing_has_synced() {
    let text = render(&Vec::new());
    assert!(text.contains("nothing has ever synced"));
    assert_eq!(total_bytes_of(&Vec::new()), Some(0));
}

#[test]
fn a_survey_table_lines_up_and_totals() {
    let families = vec![
        Family {
            id: "0123456789abcdef0123456789abcdef".to_string(),
            frames: 3,
            bytes: 2048,
            last_write: LastWrite::Ago(3 * 86400),
        },
        Family {
            id: "fedcba9876543210fedcba9876543210".to_string(),
            frames: 0,
            bytes: 100,
            last_write: LastWrite::Never,
        },
    ];
    let text = render(&families);
    let lines: Vec<&str> = text.lines().collect();
    assert_eq!(lines[0], format!("{:<32}  {:>8}  {:>9}  {}", "family", "frames", "size", "last write"));
    assert_eq!(lines[1], format!("{:<32}  {:>8}  {:>9}  {}", families[0].id, 3, "2 kB", "3 days ago"));
    assert_eq!(lines[2], format!("{:<32}  {:>8}  {:>9}  {}", families[1].id, 0, "100 B", "never"));
    assert_eq!(lines[3], "");
    assert_eq!(lines[4], "2 families, 2 kB on disk");
    assert_eq!(total_bytes_of(&families), Some(2148));
    let one = vec![Family { id: "x".to_string(), frames: 1, bytes: 1, last_write: LastWrite::InTheFuture }];
    assert!(render(&one).ends_with("\n1 family, 1 B on disk\n"));
    assert!(render(&one).contains("in the future"));
    let huge = vec![
        Family { id: "a".to_string(), frames: 0, bytes: u64::MAX, last_write: LastWrite::Never },
        Family { id: "b".to_string(), frames: 0, bytes: 1, last_write: LastWrite::Never },
    ];
    assert_eq!(total_bytes_of(&huge), None);
}

#[test]
fn the_stalest_family_is_listed_first() {
    let a = "0123456789abcdef0123456789abcdef".to_string();
    let b = "fedcba9876543210fedcba9876543210".to_string();
    let c = "00000000000000000000000000000000".to_string();
    let families = vec![
        Family { id: b.clone(), frames: 1, bytes: 64, last_write: LastWrite::Ago(5) },
        Family { id: c.clone(), frames: 2, bytes: 64, last_write: LastWrite::InTheFuture },
        Family { id: a.clone(), frames: 0, bytes: 0, last_write: LastWrite::Never },
        Family { id: c.clone(), frames: 3, bytes: 64, last_write: LastWrite::Ago(90) },
    ];
    let listed = stalest_first(families);
    let order: Vec<(&str, LastWrite)> = listed.iter().map(|f| (f.id.as_str(), f.last_write)).collect();
    assert_eq!(
        order,
        vec![
            (a.as_str(), LastWrite::Never),
            (c.as_str(), LastWrite::Ago(90)),
            (b.as_str(), LastWrite::Ago(5)),
            (c.as_str(), LastWrite::InTheFuture),
        ]
    );
    let text = render(&listed);
    assert!(text.contains("never"), "{text}");
    assert!(text.contains("4 families"), "{text}");
}

#[test]
fn families_of_the_same_age_are_listed_by_id() {
    let listed = stalest_first(vec![
        Family { id: "b".to_string(), frames: 0, bytes: 0, last_write: LastWrite::Never },
        Family { id: "a".to_string(), frames: 0, bytes: 0, last_write: LastWrite::Never },
    ]);
    assert_eq!(listed[0].id, "a");
    assert_eq!(listed[1].id, "b");
}

#[test]
fn an_epoch_is_the_little_endian_number_of_its_bytes_and_never_zero() {
    assert_eq!(epoch_from(&[1, 0, 0, 0, 0, 0, 0, 0]), Some(1));
    assert_eq!(epoch_from(&[0, 1, 0, 0, 0, 0, 0, 0]), Some(256));
    assert_eq!(epoch_from(&[0xff; 8]), Some(u64::MAX));
    assert_eq!(epoch_from(&[0x78, 0x56, 0x34, 0x12, 0, 0, 0, 0x80]), Some(0x8000_0000_1234_5678));
    assert_eq!(epoch_from(&[0; 8]), None);
    let a = mint_epoch().expect("random");
    let b = mint_epoch().expect("random");
    assert_ne!(a, 0);
    assert_ne!(b, 0);
}
