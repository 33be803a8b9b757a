//! Full synchronization rounds between two in-memory peers.

use remote_object::composite::Message;
use remote_object::composite::Record;
use remote_object::errors::SyncError;
use remote_object::session::sync_pair;
use remote_object::Channel;
use remote_object::RemoteObject;
use remote_object::SyncPriority;

#[test]
fn it_works() {
    let mut v1 = 1usize;
    let mut v2 = 3usize;
    let (r1, r2) = sync_pair(&mut v1, SyncPriority(1), &mut v2, SyncPriority(2));
    r1.unwrap();
    r2.unwrap();
    assert_eq!(v1, 3);
    assert_eq!(v2, 3);
}

#[test]
fn it_works2() {
    let mut v1 = 1usize;
    let mut v2 = 3usize;
    let (r1, r2) = sync_pair(&mut v1, SyncPriority(3), &mut v2, SyncPriority(2));
    r1.unwrap();
    r2.unwrap();
    assert_eq!(v1, 1);
    assert_eq!(v2, 1);
}

#[test]
fn test_derive_struct() {
    let mut v1 = Record(1);
    let mut v2 = Record(3);
    let (r1, r2) = sync_pair(&mut v1, SyncPriority(3), &mut v2, SyncPriority(2));
    r1.unwrap();
    r2.unwrap();
    assert_eq!(v1.0, 1);
    assert_eq!(v2.0, 1);
}

#[test]
fn test_string() {
    let mut s1 = "abc".to_owned();
    let mut s2 = "defg".to_owned();
    let (r1, r2) = sync_pair(&mut s1, SyncPriority(1), &mut s2, SyncPriority(2));
    r1.unwrap();
    r2.unwrap();
    assert_eq!(&s1, "defg");
    assert_eq!(&s2, "defg");
}

#[test]
fn test_string_shorter() {
    let mut s1 = "abc".to_owned();
    let mut s2 = "de".to_owned();
    let (r1, r2) = sync_pair(&mut s1, SyncPriority(1), &mut s2, SyncPriority(2));
    r1.unwrap();
    r2.unwrap();
    assert_eq!(&s1, "de");
    assert_eq!(&s2, "de");
}

#[test]
fn test_derive_enum() {
    let mut v1 = Message::Opt1;
    let mut v2 = Message::Opt2("opt2".to_owned());
    let (r1, r2) = sync_pair(&mut v1, SyncPriority(1), &mut v2, SyncPriority(2));
    r1.unwrap();
    r2.unwrap();
    assert_eq!(v1, Message::Opt2("opt2".to_owned()));
    assert_eq!(v2, Message::Opt2("opt2".to_owned()));
}

#[test]
fn equal_priorities_fail_and_change_nothing() {
    let mut v1 = 10u64;
    let mut v2 = 20u64;
    let (r1, r2) = sync_pair(&mut v1, SyncPriority(7), &mut v2, SyncPriority(7));
    assert_eq!(r1, Err(SyncError::EquPrior(SyncPriority(7))));
    assert_eq!(r2, Err(SyncError::EquPrior(SyncPriority(7))));
    assert_eq!(v1, 10);
    assert_eq!(v2, 20);
}

#[test]
fn vector_shrinks_to_winner_length() {
    let mut v1: Vec<u64> = vec![1, 2, 3, 4];
    let mut v2: Vec<u64> = vec![9];
    let (r1, r2) = sync_pair(&mut v1, SyncPriority(1), &mut v2, SyncPriority(2));
    r1.unwrap();
    r2.unwrap();
    assert_eq!(v1, vec![9]);
    assert_eq!(v2, vec![9]);
}

#[test]
fn sync_failure_leaves_pusher_unchanged() {
    // A peer that pushes never touches its own value, even when the other
    // side would have nothing to say: sync on an empty read side fails with
    // a read error after writing only the priority.
    let mut v = 5u32;
    let mut ch = Channel::empty();
    let r = v.sync(&mut ch, SyncPriority(9));
    assert_eq!(r, Err(SyncError::ReadError));
    assert_eq!(v, 5);
    assert_eq!(ch.outgoing, 9u64.to_le_bytes().to_vec());
}
