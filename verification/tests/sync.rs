use driftwood::gossip::{answer_pull, docs_to_pull, local_version, opening, session_step, SessionAction, SessionEvent, SessionState};
use driftwood::storage::{build_digest, decode_version, encode_version, stored_version, version_after_put, StoreError};
use driftwood::timestamp::now_micros;
use driftwood::wire::{encode_frame, frame_length, Msg};

#[test]
fn decode_version_reads_eight_big_endian_bytes() {
    assert_eq!(decode_version(&[0, 0, 0, 0, 0, 0, 1, 2]), Ok(258));
    assert_eq!(decode_version(&[0xff; 8]), Ok(u64::MAX));
    assert_eq!(decode_version(&[1, 2, 3]), Err(StoreError::InvalidVersion));
    assert_eq!(decode_version(&[0; 9]), Err(StoreError::InvalidVersion));
    assert_eq!(decode_version(&[]), Err(StoreError::InvalidVersion));
}

#[test]
fn encode_version_matches_to_be_bytes() {
    for v in [0u64, 1, 258, 0x0102_0304_0506_0708, u64::MAX] {
        assert_eq!(encode_version(v), v.to_be_bytes().to_vec());
        assert_eq!(decode_version(&encode_version(v)), Ok(v));
    }
}

#[test]
fn stored_version_defaults_to_zero() {
    assert_eq!(stored_version(None), Ok(0));
    assert_eq!(stored_version(Some(&7u64.to_be_bytes())), Ok(7));
    assert_eq!(stored_version(Some(&[1, 2])), Err(StoreError::InvalidVersion));
}

#[test]
fn version_after_put_is_one_more() {
    assert_eq!(version_after_put(None), Ok(1u64.to_be_bytes().to_vec()));
    assert_eq!(version_after_put(Some(&41u64.to_be_bytes())), Ok(42u64.to_be_bytes().to_vec()));
    assert_eq!(version_after_put(Some(&[0; 3])), Err(StoreError::InvalidVersion));
}

#[test]
fn digest_reads_back_every_entry() {
    let entries = vec![
        (b"notes".to_vec(), 3u64.to_be_bytes().to_vec()),
        ("caf\u{e9}".as_bytes().to_vec(), 1u64.to_be_bytes().to_vec()),
    ];
    let d = build_digest(&entries).unwrap();
    assert_eq!(d, vec![("notes".to_string(), 3), ("caf\u{e9}".to_string(), 1)]);
    assert_eq!(build_digest(&vec![]), Ok(vec![]));
}

#[test]
fn digest_reports_first_bad_entry() {
    let bad_id = vec![(vec![0xff, 0xfe], 1u64.to_be_bytes().to_vec())];
    let text = String::from_utf8(vec![0xff, 0xfe]).unwrap_err().to_string();
    assert_eq!(text, "invalid utf-8 sequence of 1 bytes from index 0");
    assert_eq!(build_digest(&bad_id), Err(StoreError::InvalidDocId(text)));
    let bad_version = vec![(b"a".to_vec(), vec![1, 2, 3]), (vec![0xff], vec![])];
    assert_eq!(build_digest(&bad_version), Err(StoreError::InvalidVersion));
    let bad_later = vec![(b"a".to_vec(), 1u64.to_be_bytes().to_vec()), (b"ok\xe2\x82".to_vec(), vec![0; 8])];
    assert_eq!(
        build_digest(&bad_later),
        Err(StoreError::InvalidDocId("incomplete utf-8 byte sequence from index 2".to_string()))
    );
}

#[test]
fn store_error_messages() {
    assert_eq!(StoreError::InvalidVersion.message(), "invalid stored document version");
    assert_eq!(StoreError::InvalidDocId("bad id".to_string()).message(), "bad id");
}

#[test]
fn frames_carry_a_big_endian_length() {
    let f = encode_frame(b"hello");
    assert_eq!(f, vec![0, 0, 0, 5, b'h', b'e', b'l', b'l', b'o']);
    assert_eq!(frame_length(&f[0..4]), Some(5));
    assert_eq!(encode_frame(&[]), vec![0, 0, 0, 0]);
    let big = vec![7u8; 300];
    let g = encode_frame(&big);
    assert_eq!(&g[0..4], &[0, 0, 1, 44]);
    assert_eq!(frame_length(&g[0..4]), Some(300));
    assert_eq!(frame_length(&[1, 2, 3]), None);
}

#[test]
fn pulls_only_newer_remote_documents() {
    let local = vec![("a".to_string(), 3), ("b".to_string(), 1)];
    let remote = vec![("a".to_string(), 2), ("b".to_string(), 2), ("c".to_string(), 1), ("d".to_string(), 0)];
    assert_eq!(docs_to_pull(&local, &remote), vec!["b".to_string(), "c".to_string()]);
    assert!(docs_to_pull(&local, &local).is_empty());
    assert_eq!(local_version(&local, &"b".to_string()), 1);
    assert_eq!(local_version(&local, &"z".to_string()), 0);
}

#[test]
fn pull_is_answered_only_for_stored_documents() {
    match answer_pull("doc".to_string(), Some(vec![1, 2])) {
        Some(Msg::Delta { doc, bytes }) => {
            assert_eq!(doc, "doc");
            assert_eq!(bytes, vec![1, 2]);
        }
        other => panic!("unexpected answer {:?}", other),
    }
    assert!(answer_pull("doc".to_string(), None).is_none());
}

#[test]
fn session_opens_with_hello_then_digest() {
    let msgs = opening("node-a", vec![("x".to_string(), 4)]);
    assert_eq!(msgs.len(), 2);
    match &msgs[0] {
        Msg::Hello { node_id } => assert_eq!(node_id, "node-a"),
        other => panic!("unexpected first message {:?}", other),
    }
    match &msgs[1] {
        Msg::StateDigest { counts } => assert_eq!(counts, &vec![("x".to_string(), 4)]),
        other => panic!("unexpected second message {:?}", other),
    }
}

#[test]
fn now_micros_combines_seconds_and_micros() {
    assert_eq!(now_micros(0, 0), 0);
    assert_eq!(now_micros(2, 5), 2_000_005);
    assert_eq!(now_micros(u64::MAX, 999_999), (u64::MAX as i128) * 1_000_000 + 999_999);
}

#[test]
fn session_answers_each_message_kind() {
    let (s, a) = session_step(SessionState::Ready, SessionEvent::Received(Msg::Hello { node_id: "peer".to_string() }));
    assert!(matches!(s, SessionState::Ready));
    assert!(matches!(a, SessionAction::Greeted(ref n) if n == "peer"));

    let remote = vec![("a".to_string(), 2), ("b".to_string(), 1)];
    let (s, a) = session_step(SessionState::Ready, SessionEvent::Received(Msg::StateDigest { counts: remote.clone() }));
    assert!(matches!(a, SessionAction::ReadDigest));
    assert!(matches!(s, SessionState::Comparing { remote: ref r } if r == &remote));
    let (s, a) = session_step(s, SessionEvent::LocalDigest(vec![("a".to_string(), 1), ("b".to_string(), 1)]));
    assert!(matches!(s, SessionState::Ready));
    match a {
        SessionAction::Send(msgs) => {
            assert_eq!(msgs.len(), 1);
            assert!(matches!(&msgs[0], Msg::Pull { doc } if doc == "a"));
        }
        other => panic!("unexpected action {:?}", other),
    }

    let (s, a) = session_step(SessionState::Ready, SessionEvent::Received(Msg::Pull { doc: "d".to_string() }));
    assert!(matches!(a, SessionAction::ReadDoc(ref d) if d == "d"));
    let (s2, a2) = session_step(s, SessionEvent::StoredDoc(Some(vec![9])));
    assert!(matches!(s2, SessionState::Ready));
    match a2 {
        SessionAction::Send(msgs) => {
            assert_eq!(msgs.len(), 1);
            assert!(matches!(&msgs[0], Msg::Delta { doc, bytes } if doc == "d" && bytes == &vec![9]));
        }
        other => panic!("unexpected action {:?}", other),
    }
    let (_, a3) = session_step(SessionState::Serving { doc: "d".to_string() }, SessionEvent::StoredDoc(None));
    assert!(matches!(a3, SessionAction::Send(ref m) if m.is_empty()));

    let (s, a) = session_step(SessionState::Ready, SessionEvent::Received(Msg::Delta { doc: "e".to_string(), bytes: vec![1] }));
    assert!(matches!(s, SessionState::Ready));
    assert!(matches!(a, SessionAction::Store { ref doc, ref bytes } if doc == "e" && bytes == &vec![1]));

    let (s, a) = session_step(SessionState::Ready, SessionEvent::StoredDoc(None));
    assert!(matches!(s, SessionState::Ready));
    assert!(matches!(a, SessionAction::Ignore));
}
