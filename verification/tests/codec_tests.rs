//! Wire-format exactness, round trips, error cases, and the handshake.

use remote_object::composite::assign_discriminants;
use remote_object::composite::Message;
use remote_object::handshake::sync_direction;
use remote_object::Channel;
use remote_object::RemoteObject;
use remote_object::SyncDirection;
use remote_object::SyncError;
use remote_object::SyncPriority;

#[test]
fn scalar_wire_is_little_endian() {
    let mut ch = Channel::empty();
    0x01020304u32.push(&mut ch).unwrap();
    assert_eq!(ch.outgoing, vec![0x04, 0x03, 0x02, 0x01]);
}

#[test]
fn scalar_round_trips() {
    let mut ch = Channel::empty();
    0xABu8.push(&mut ch).unwrap();
    (-5i8).push(&mut ch).unwrap();
    0x1234u16.push(&mut ch).unwrap();
    (-30000i16).push(&mut ch).unwrap();
    0xDEADBEEFu32.push(&mut ch).unwrap();
    (-123456789i32).push(&mut ch).unwrap();
    0x0123456789ABCDEFu64.push(&mut ch).unwrap();
    (-987654321987i64).push(&mut ch).unwrap();
    42usize.push(&mut ch).unwrap();
    (-42isize).push(&mut ch).unwrap();

    let mut rx = Channel::with_incoming(ch.outgoing);
    let mut a = 0u8;
    let mut b = 0i8;
    let mut c = 0u16;
    let mut d = 0i16;
    let mut e = 0u32;
    let mut f = 0i32;
    let mut g = 0u64;
    let mut h = 0i64;
    let mut i = 0usize;
    let mut j = 0isize;
    a.pull(&mut rx).unwrap();
    b.pull(&mut rx).unwrap();
    c.pull(&mut rx).unwrap();
    d.pull(&mut rx).unwrap();
    e.pull(&mut rx).unwrap();
    f.pull(&mut rx).unwrap();
    g.pull(&mut rx).unwrap();
    h.pull(&mut rx).unwrap();
    i.pull(&mut rx).unwrap();
    j.pull(&mut rx).unwrap();
    assert_eq!(
        (a, b, c, d, e),
        (0xABu8, -5i8, 0x1234u16, -30000i16, 0xDEADBEEFu32)
    );
    assert_eq!(
        (f, g, h, i, j),
        (
            -123456789i32,
            0x0123456789ABCDEFu64,
            -987654321987i64,
            42usize,
            -42isize
        )
    );
    assert!(rx.incoming.is_empty());
}

#[test]
fn string_wire_has_length_prefix() {
    let mut ch = Channel::empty();
    "abc".to_owned().push(&mut ch).unwrap();
    let mut expected = 3u64.to_le_bytes().to_vec();
    expected.extend_from_slice(b"abc");
    assert_eq!(ch.outgoing, expected);
}

#[test]
fn string_round_trips_unicode() {
    let mut ch = Channel::empty();
    let original = "héllo wörld — ≤≥".to_owned();
    original.push(&mut ch).unwrap();
    let mut rx = Channel::with_incoming(ch.outgoing);
    let mut got = String::new();
    got.pull(&mut rx).unwrap();
    assert_eq!(got, original);
    assert!(rx.incoming.is_empty());
}

#[test]
fn empty_string_and_vector_round_trip() {
    let mut ch = Channel::empty();
    String::new().push(&mut ch).unwrap();
    Vec::<u64>::new().push(&mut ch).unwrap();
    assert_eq!(ch.outgoing.len(), 16);
    let mut rx = Channel::with_incoming(ch.outgoing);
    let mut s = "junk".to_owned();
    let mut v: Vec<u64> = vec![1, 2];
    s.pull(&mut rx).unwrap();
    v.pull(&mut rx).unwrap();
    assert_eq!(s, "");
    assert_eq!(v, Vec::<u64>::new());
}

#[test]
fn nested_vectors_round_trip() {
    let mut ch = Channel::empty();
    let original: Vec<Vec<u16>> = vec![vec![1, 2], vec![], vec![65535]];
    original.push(&mut ch).unwrap();
    let mut rx = Channel::with_incoming(ch.outgoing);
    let mut got: Vec<Vec<u16>> = Vec::new();
    got.pull(&mut rx).unwrap();
    assert_eq!(got, original);
}

#[test]
fn array_wire_has_no_prefix() {
    let mut ch = Channel::empty();
    [0x11u8, 0x22, 0x33].push(&mut ch).unwrap();
    assert_eq!(ch.outgoing, vec![0x11, 0x22, 0x33]);
}

#[test]
fn array_round_trips() {
    let mut ch = Channel::empty();
    let original: [u16; 4] = [1, 2, 3, 65535];
    original.push(&mut ch).unwrap();
    assert_eq!(ch.outgoing.len(), 8);
    let mut rx = Channel::with_incoming(ch.outgoing);
    let mut got: [u16; 4] = [0; 4];
    got.pull(&mut rx).unwrap();
    assert_eq!(got, original);
    assert!(rx.incoming.is_empty());
}

#[test]
fn short_read_is_read_error() {
    let mut rx = Channel::with_incoming(vec![0x01, 0x02]);
    let mut v = 0u32;
    assert_eq!(v.pull(&mut rx), Err(SyncError::ReadError));
}

#[test]
fn truncated_string_payload_is_read_error() {
    let mut ch = Channel::empty();
    "abcdef".to_owned().push(&mut ch).unwrap();
    let mut bytes = ch.outgoing;
    bytes.truncate(10);
    let mut rx = Channel::with_incoming(bytes);
    let mut s = String::new();
    assert_eq!(s.pull(&mut rx), Err(SyncError::ReadError));
}

#[test]
fn invalid_utf8_is_decode_error_with_position() {
    let mut bytes = 3u64.to_le_bytes().to_vec();
    bytes.extend_from_slice(&[0x61, 0x62, 0xFF]);
    let mut rx = Channel::with_incoming(bytes);
    let mut s = String::new();
    assert_eq!(s.pull(&mut rx), Err(SyncError::Utf8Error(2)));
}

#[test]
fn unknown_discriminant_is_decode_error() {
    let mut rx = Channel::with_incoming(99i64.to_le_bytes().to_vec());
    let mut m = Message::Opt1;
    assert_eq!(m.pull(&mut rx), Err(SyncError::Utf8Error(0)));
}

#[test]
fn enum_variants_round_trip_with_expected_discriminants() {
    let variants = vec![
        Message::Opt1,
        Message::Opt2("text".to_owned()),
        Message::Opt3(-1, 7),
    ];
    for (expected_discr, original) in variants.into_iter().enumerate() {
        let mut ch = Channel::empty();
        original.push(&mut ch).unwrap();
        assert_eq!(
            ch.outgoing[0..8],
            (expected_discr as i64).to_le_bytes(),
            "discriminants follow the first-empty-slot rule in declaration order"
        );
        let mut rx = Channel::with_incoming(ch.outgoing);
        let mut got = Message::Opt3(0, 0);
        got.pull(&mut rx).unwrap();
        assert_eq!(got, original);
        assert!(rx.incoming.is_empty());
    }
}

#[test]
fn discriminants_all_implicit() {
    let slots: Vec<Option<i64>> = vec![None, None, None];
    assert_eq!(assign_discriminants(&slots), vec![0, 1, 2]);
}

#[test]
fn discriminants_first_empty_slot_around_explicit() {
    // Annotated variants keep their values; the rest take the lowest free
    // non-negative integers in declaration order.
    let slots: Vec<Option<i64>> = vec![None, Some(0), None, Some(2), None];
    assert_eq!(assign_discriminants(&slots), vec![1, 0, 3, 2, 4]);
    let gaps: Vec<Option<i64>> = vec![Some(5), None, None, Some(1), None];
    assert_eq!(assign_discriminants(&gaps), vec![5, 0, 2, 1, 3]);
    let negative: Vec<Option<i64>> = vec![Some(-3), None, None];
    assert_eq!(assign_discriminants(&negative), vec![-3, 0, 1]);
}

#[test]
fn handshake_directions() {
    let mut ch = Channel::with_incoming(5u64.to_le_bytes().to_vec());
    assert_eq!(
        sync_direction(&mut ch, SyncPriority(3)),
        Ok(SyncDirection::Pull)
    );
    assert_eq!(ch.outgoing, 3u64.to_le_bytes().to_vec());
    let mut ch2 = Channel::with_incoming(5u64.to_le_bytes().to_vec());
    assert_eq!(
        sync_direction(&mut ch2, SyncPriority(8)),
        Ok(SyncDirection::Push)
    );
}

#[test]
fn handshake_is_antisymmetric() {
    // The same pair of priorities seen from the two ends: exactly one end
    // pulls and the other pushes.
    let mut ch_low = Channel::with_incoming(9u64.to_le_bytes().to_vec());
    let mut ch_high = Channel::with_incoming(2u64.to_le_bytes().to_vec());
    let low = sync_direction(&mut ch_low, SyncPriority(2));
    let high = sync_direction(&mut ch_high, SyncPriority(9));
    assert_eq!(low, Ok(SyncDirection::Pull));
    assert_eq!(high, Ok(SyncDirection::Push));
}

#[test]
fn handshake_equal_priorities_are_ambiguous() {
    let mut ch = Channel::with_incoming(4u64.to_le_bytes().to_vec());
    assert_eq!(
        sync_direction(&mut ch, SyncPriority(4)),
        Err(SyncError::EquPrior(SyncPriority(4)))
    );
}

#[test]
fn handshake_short_read() {
    let mut ch = Channel::with_incoming(vec![1, 2, 3]);
    assert_eq!(
        sync_direction(&mut ch, SyncPriority(4)),
        Err(SyncError::ReadError)
    );
    assert_eq!(ch.outgoing, 4u64.to_le_bytes().to_vec());
}
