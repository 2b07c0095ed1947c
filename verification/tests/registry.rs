use coop_runtime::channel::ChannelPair;
use coop_runtime::registry::Registry;
use coop_runtime::runtime::cx_box::CxBox;
use coop_runtime::task::note::Note;
use coop_runtime::task::note::ROOT_ID;
use coop_runtime::task::note::SHUTDOWN_ID;

#[test]
fn create_cx_box() {
    let mut cx_box = CxBox::new();

    assert!(
        cx_box.set("Dance the Carmagnole!").is_ok(),
        "failed to set the value"
    );

    cx_box.clean();

    assert!(
        cx_box.get_ref().is_none(),
        "incorrect handling of uninit data"
    );

    drop(cx_box);
}

#[test]
fn create_global_cx_box() {
    let mut cx_box: CxBox<usize> = CxBox::new();
    let r1 = cx_box.set(125);

    assert!(r1.is_ok(), "failed to set value");
    assert!(cx_box.get_ref().unwrap() == &125, "not equal");

    cx_box.clean();

    assert!(cx_box.set(126).is_ok(), "set failed");
    assert!(
        cx_box.get_ref().is_some_and(|val| val == &126),
        "invalid or missing value"
    );
}

#[test]
fn cx_box_refuses_a_second_value() {
    let mut cx_box = CxBox::new();
    assert_eq!(cx_box.set(1), Ok(()));
    assert_eq!(cx_box.set(2), Err(()));
    assert_eq!(cx_box.get_ref(), Some(&1));
}

#[test]
fn cx_box_starts_empty() {
    let cx_box: CxBox<u8> = CxBox::new();
    assert!(cx_box.get_ref().is_none());
}

#[test]
fn registry_hands_out_keys_in_order() {
    let mut r: Registry<&str> = Registry::new();
    assert!(r.is_empty());
    assert_eq!(r.vacant_key(), 0);
    assert_eq!(r.insert("a"), 0);
    assert_eq!(r.vacant_key(), 1);
    assert_eq!(r.insert("b"), 1);
    assert_eq!(r.insert("c"), 2);
    assert_eq!(r.len(), 3);
    assert_eq!(r.slots(), 3);
    assert_eq!(r.get(1), Some(&"b"));
    assert_eq!(r.get(3), None);
    assert!(r.contains(2));
    assert!(!r.contains(3));
}

#[test]
fn registry_reuses_a_freed_key() {
    let mut r: Registry<u32> = Registry::with_capacity(4);
    let a = r.insert(10);
    let b = r.insert(20);
    assert_eq!((a, b), (0, 1));
    assert_eq!(r.remove(a), Some(10));
    assert!(!r.contains(a));
    assert_eq!(r.len(), 1);
    assert_eq!(r.vacant_key(), 0);
    assert_eq!(r.insert(30), 0);
    assert_eq!(r.get(0), Some(&30));
    assert_eq!(r.get(1), Some(&20));
    assert_eq!(r.vacant_key(), 2);
}

#[test]
fn registry_remove_of_a_vacant_key_changes_nothing() {
    let mut r: Registry<u32> = Registry::new();
    r.insert(7);
    assert_eq!(r.remove(5), None);
    assert_eq!(r.remove(0), Some(7));
    assert_eq!(r.remove(0), None);
    assert!(r.is_empty());
    assert_eq!(r.vacant_key(), 0);
}

#[test]
fn registry_get_mut_changes_in_place() {
    let mut r: Registry<u32> = Registry::new();
    let k = r.insert(1);
    *r.get_mut(k).unwrap() = 5;
    assert_eq!(r.get(k), Some(&5));
    assert!(r.get_mut(k + 1).is_none());
    assert_eq!(r.len(), 1);
}

#[test]
fn registry_reserves_no_more_than_its_limit() {
    let mut r: Registry<u8> = Registry::with_capacity(usize::MAX);
    assert_eq!(r.insert(1), 0);
    assert_eq!(r.len(), 1);
}

#[test]
fn channel_is_first_in_first_out() {
    let mut c: ChannelPair<u32> = ChannelPair::new();
    assert!(c.open());
    assert_eq!(c.recv(), None);
    assert_eq!(c.send(1), Ok(()));
    assert_eq!(c.send(2), Ok(()));
    assert_eq!(c.send(3), Ok(()));
    assert_eq!(c.len(), 3);
    assert_eq!(c.recv(), Some(1));
    assert_eq!(c.recv(), Some(2));
    assert_eq!(c.len(), 1);
    assert_eq!(c.recv(), Some(3));
    assert_eq!(c.recv(), None);
}

#[test]
fn closed_channel_hands_the_value_back() {
    let mut c: ChannelPair<u32> = ChannelPair::new();
    assert_eq!(c.send(1), Ok(()));
    c.close();
    assert!(!c.open());
    assert_eq!(c.send(2), Err(2));
    assert_eq!(c.len(), 1);
    assert_eq!(c.recv(), Some(1));
    assert_eq!(c.recv(), None);
}

#[test]
fn notes_know_the_reserved_ids() {
    assert_eq!(SHUTDOWN_ID, u64::MAX);
    assert_eq!(ROOT_ID, u64::MAX - 1);
    assert_eq!(Note::shutdown(), Note(u64::MAX));
    assert_eq!(Note::root(), Note(u64::MAX - 1));
    assert!(Note(u64::MAX).is_shutdown());
    assert!(!Note(u64::MAX).is_root());
    assert!(Note(u64::MAX - 1).is_root());
    assert!(!Note(u64::MAX - 1).is_shutdown());
    assert!(!Note(0).is_root());
    assert!(!Note(0).is_shutdown());
    assert!(Note(1) < Note(2));
}
