use support_bridge::state::{SavedBinding, StateContainer};

#[test]
fn empty_store_resolves_nothing() {
    let st = StateContainer::new();
    assert_eq!(st.get_thread(1), None);
    assert_eq!(st.get_conversation(1), None);
    assert!(st.snapshot().is_empty());
    assert!(st.pending_chat.is_none());
}

#[test]
fn put_and_lookup_both_directions() {
    let mut st = StateContainer::new();
    st.put(10, 100);
    st.put(20, 200);
    assert_eq!(st.get_thread(10), Some(100));
    assert_eq!(st.get_thread(20), Some(200));
    assert_eq!(st.get_conversation(100), Some(10));
    assert_eq!(st.get_conversation(200), Some(20));
    assert_eq!(st.get_thread(30), None);
    assert_eq!(st.get_conversation(300), None);
}

#[test]
fn put_overwrites_by_conversation() {
    let mut st = StateContainer::new();
    st.put(10, 100);
    st.put(10, 101);
    assert_eq!(st.get_thread(10), Some(101));
    assert_eq!(st.get_conversation(100), None);
    assert_eq!(st.snapshot().len(), 1);
}

#[test]
fn conversation_keys_stay_unique() {
    let mut st = StateContainer::new();
    st.put(10, 100);
    st.put(10, 101);
    st.put(10, 102);
    let snap = st.snapshot();
    let with_key = snap.iter().filter(|b| b.chat_id == 10).count();
    assert_eq!(with_key, 1);
}

#[test]
fn thread_values_stay_unique() {
    let mut st = StateContainer::new();
    st.put(10, 100);
    st.put(20, 200);
    st.put(30, 300);
    let snap = st.snapshot();
    for i in 0..snap.len() {
        for j in 0..snap.len() {
            if i != j {
                assert_ne!(snap[i].topic_msg_id, snap[j].topic_msg_id);
                assert_ne!(snap[i].chat_id, snap[j].chat_id);
            }
        }
    }
}

#[test]
fn remove_by_conversation_removes_only_that_key() {
    let mut st = StateContainer::new();
    st.put(10, 100);
    st.put(20, 200);
    st.remove_by_conversation(10);
    assert_eq!(st.get_thread(10), None);
    assert_eq!(st.get_thread(20), Some(200));
}

#[test]
fn remove_by_thread_removes_only_that_value() {
    let mut st = StateContainer::new();
    st.put(10, 100);
    st.put(20, 200);
    st.remove_by_thread(200);
    assert_eq!(st.get_thread(20), None);
    assert_eq!(st.get_thread(10), Some(100));
}

#[test]
fn removing_absent_binding_is_a_no_op() {
    let mut st = StateContainer::new();
    st.put(10, 100);
    st.remove_by_conversation(55);
    st.remove_by_thread(555);
    assert_eq!(st.snapshot().len(), 1);
    assert_eq!(st.get_thread(10), Some(100));
}

#[test]
fn from_snapshot_keeps_well_formed_records() {
    let records = vec![
        SavedBinding { chat_id: 1, topic_msg_id: 11 },
        SavedBinding { chat_id: 2, topic_msg_id: 22 },
    ];
    let st = StateContainer::from_snapshot(&records);
    assert_eq!(st.get_thread(1), Some(11));
    assert_eq!(st.get_thread(2), Some(22));
    assert_eq!(st.snapshot(), records);
}

#[test]
fn from_snapshot_drops_duplicate_keys_and_threads() {
    let records = vec![
        SavedBinding { chat_id: 1, topic_msg_id: 11 },
        SavedBinding { chat_id: 1, topic_msg_id: 12 },
        SavedBinding { chat_id: 3, topic_msg_id: 11 },
        SavedBinding { chat_id: 4, topic_msg_id: 44 },
    ];
    let st = StateContainer::from_snapshot(&records);
    assert_eq!(st.get_thread(1), Some(11));
    assert_eq!(st.get_thread(3), None);
    assert_eq!(st.get_thread(4), Some(44));
    assert_eq!(st.snapshot().len(), 2);
}
