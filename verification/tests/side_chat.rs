use agent_client_protocol::v1::schema::{ContentBlock, TextContent};
use xai_grok_pager::side_chat::{SideChat, SideChatStore};

fn is_uuid_text(s: &str) -> bool {
    s.len() == 36
        && s.char_indices().all(|(i, c)| {
            if i == 8 || i == 13 || i == 18 || i == 23 {
                c == '-'
            } else {
                c.is_ascii_digit() || ('a'..='f').contains(&c)
            }
        })
}

#[test]
fn create_side_generates_ids() {
    let mut store = SideChatStore::new();
    let chat = store.create_side("parent-1".to_string(), Some("hello".to_string()));
    assert!(!chat.id.is_empty());
    assert!(!chat.session_id.is_empty());
    assert_eq!(chat.parent_id, "parent-1");
    assert_eq!(store.len(), 1);
    assert_eq!(store.active().unwrap().id, chat.id);
}

#[test]
fn switch_updates_active() {
    let mut store = SideChatStore::new();
    let a = store.create_side("p1".to_string(), None);
    let b = store.create_side("p1".to_string(), None);
    assert_eq!(store.active().unwrap().id, b.id);
    assert!(store.switch(&a.id));
    assert_eq!(store.active().unwrap().id, a.id);
    assert!(!store.switch("nonexistent"));
}

#[test]
fn close_archives_and_clears_active() {
    let mut store = SideChatStore::new();
    let chat = store.create_side("p1".to_string(), None);
    assert!(store.close(&chat.id));
    assert!(store.get(&chat.id).unwrap().archived);
    assert!(store.active().is_none());
    assert_eq!(store.list_active().len(), 0);
    assert_eq!(store.list_archived().len(), 1);
}

#[test]
fn open_unarchives() {
    let mut store = SideChatStore::new();
    let chat = store.create_side("p1".to_string(), None);
    store.close(&chat.id);
    assert!(store.open(&chat.id));
    assert!(!store.get(&chat.id).unwrap().archived);
    assert_eq!(store.active().unwrap().id, chat.id);
}

#[test]
fn side_chat_not_nestable() {
    let chat = SideChat::new("p1".to_string(), None);
    assert!(!chat.can_create_nested());
}

#[test]
fn list_filters_archived() {
    let mut store = SideChatStore::new();
    let a = store.create_side("p1".to_string(), None);
    let _b = store.create_side("p1".to_string(), None);
    store.close(&a.id);
    assert_eq!(store.list().len(), 2);
    assert_eq!(store.list_active().len(), 1);
    assert_eq!(store.list_archived().len(), 1);
}

#[test]
fn ids_are_prefixed_uuids() {
    let chat = SideChat::new("p".to_string(), None);
    assert!(chat.id.starts_with("side-"));
    assert!(is_uuid_text(&chat.id["side-".len()..]));
    assert!(chat.session_id.starts_with("side-session-"));
    assert!(is_uuid_text(&chat.session_id["side-session-".len()..]));
    let other = SideChat::new("p".to_string(), None);
    assert_ne!(chat.id, other.id);
    assert_eq!(chat.created_at, chat.last_active);
}

#[test]
fn blank_prompt_leaves_transcript_empty() {
    assert!(SideChat::new("p".to_string(), Some("   \t".to_string())).transcript.is_empty());
    assert!(SideChat::new("p".to_string(), None).transcript.is_empty());
    let chat = SideChat::new("p".to_string(), Some(" hi ".to_string()));
    assert_eq!(chat.transcript.len(), 1);
    match &chat.transcript[0] {
        ContentBlock::Text(t) => assert_eq!(t.text, " hi "),
        other => panic!("unexpected block {other:?}"),
    }
}

#[test]
fn append_message_counts_turns_and_keeps_text() {
    let mut chat = SideChat::new("p".to_string(), None);
    assert_eq!(chat.append_message("follow-up".to_string()), 1);
    assert_eq!(chat.append_message("  ".to_string()), 2);
    assert_eq!(chat.turn_count, 2);
    assert_eq!(chat.transcript.len(), 1);
    match &chat.transcript[0] {
        ContentBlock::Text(t) => assert_eq!(t.text, "follow-up"),
        other => panic!("unexpected block {other:?}"),
    }
    chat.turn_count = usize::MAX;
    chat.touch();
    assert_eq!(chat.turn_count, usize::MAX);
}

#[test]
fn friendly_label_prefers_label_then_id_tail() {
    let mut chat = SideChat::new("p".to_string(), None);
    let tail = chat.id[chat.id.len() - 6..].to_string();
    assert_eq!(chat.friendly_label(), tail);
    chat.set_label("  ".to_string());
    assert_eq!(chat.friendly_label(), tail);
    chat.set_label("Mine".to_string());
    assert_eq!(chat.friendly_label(), "Mine");
    chat.set_label(String::new());
    chat.id = "abc".to_string();
    assert_eq!(chat.friendly_label(), "abc");
}

#[test]
fn labels_count_the_chats() {
    let mut store = SideChatStore::default();
    assert!(store.is_empty());
    assert_eq!(store.next_label(), "Side 1");
    let a = store.create_side("p".to_string(), None);
    assert_eq!(a.label, "Side 1");
    let b = store.create_side("p".to_string(), None);
    assert_eq!(b.label, "Side 2");
    assert_eq!(SideChat::next_label(&store), "Side 3");
}

#[test]
fn snapshot_is_kept_hidden_from_transcript() {
    let mut store = SideChatStore::new();
    let snapshot = vec![ContentBlock::Text(TextContent::new("parent said".to_string()))];
    let chat = store.create_side_with_snapshot("p".to_string(), snapshot, Some("ask".to_string()));
    assert_eq!(chat.parent_snapshot.len(), 1);
    assert_eq!(chat.transcript.len(), 1);
    assert_eq!(store.active().unwrap().id, chat.id);
}

#[test]
fn refused_ids_leave_the_store_alone() {
    let mut store = SideChatStore::new();
    let a = store.create_side("p".to_string(), None);
    assert!(!store.close("missing"));
    assert!(!store.open("missing"));
    assert!(!store.open(&a.id));
    assert!(store.get("missing").is_none());
    assert!(store.get_mut("missing").is_none());
    assert_eq!(store.active().unwrap().id, a.id);
}

#[test]
fn mutable_access_reaches_the_stored_chat() {
    let mut store = SideChatStore::new();
    let a = store.create_side("p".to_string(), None);
    store.get_mut(&a.id).unwrap().draft = "typing".to_string();
    assert_eq!(store.get(&a.id).unwrap().draft, "typing");
    store.active_mut().unwrap().minimized = true;
    assert!(store.get(&a.id).unwrap().minimized);
    store.close(&a.id);
    assert!(store.active_mut().is_none());
}

#[test]
fn open_undoes_close() {
    let mut store = SideChatStore::new();
    let a = store.create_side("p".to_string(), Some("q".to_string()));
    let b = store.create_side("p".to_string(), None);
    assert!(store.close(&a.id));
    assert!(store.open(&a.id));
    let again = store.get(&a.id).unwrap();
    assert!(!again.archived);
    assert_eq!(again.label, a.label);
    assert_eq!(again.transcript.len(), 1);
    assert_eq!(again.created_at, a.created_at);
    let ids: Vec<String> = store.list().iter().map(|c| c.id.clone()).collect();
    assert_eq!(ids, vec![a.id.clone(), b.id.clone()]);
    assert!(!store.get(&b.id).unwrap().archived);
}
