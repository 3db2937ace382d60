use pebble::model::{Attachment, ImapFolderSnapshotMessage, Message};
use pebble::reconcile::{
    adopt_stable_identities, match_stable_identities, reconcile_outcome, reconcile_result, released_fates, stored_identity, taken_over,
    ReleasedFate, StoredFolderMessage,
};

fn message(id: &str, remote_id: &str, header: Option<&str>) -> Message {
    Message {
        id: id.to_string(),
        account_id: "account".to_string(),
        remote_id: remote_id.to_string(),
        message_id_header: header.map(str::to_string),
        in_reply_to: None,
        references_header: None,
        thread_id: None,
        subject: "Test".to_string(),
        snippet: "test".to_string(),
        from_address: "from@example.com".to_string(),
        from_name: "From".to_string(),
        to_list: vec![],
        cc_list: vec![],
        bcc_list: vec![],
        body_text: "body".to_string(),
        body_html_raw: String::new(),
        has_attachments: false,
        is_read: false,
        is_starred: false,
        is_draft: false,
        date: 1,
        remote_version: None,
        is_deleted: false,
        deleted_at: None,
        created_at: 1,
        updated_at: 1,
    }
}

fn stored(id: &str, header: Option<&str>, folder_count: i64) -> StoredFolderMessage {
    StoredFolderMessage {
        id: id.to_string(),
        message_id_header: header.map(str::to_string),
        is_read: true,
        is_starred: true,
        created_at: 7,
        folder_count,
    }
}

fn attachment(id: &str, message_id: &str) -> Attachment {
    Attachment {
        id: id.to_string(),
        message_id: message_id.to_string(),
        filename: "new.bin".to_string(),
        mime_type: "application/octet-stream".to_string(),
        size: 2,
        local_path: Some(format!("/tmp/{id}")),
        content_id: None,
        is_inline: false,
    }
}

#[test]
fn reconciling_imap_uidvalidity_preserves_only_unambiguous_stable_identity() {
    let old = vec![
        stored("stable", Some("<stable@example.com>"), 1),
        stored("different", Some("<old@example.com>"), 1),
        stored("shared", Some("<shared@example.com>"), 2),
    ];
    let fresh = vec![
        ImapFolderSnapshotMessage {
            message: message("fresh-stable", "99", Some("<stable@example.com>")),
            attachments: vec![attachment("att", "fresh-stable")],
        },
        ImapFolderSnapshotMessage {
            message: message("different-new", "50", Some("<new@example.com>")),
            attachments: Vec::new(),
        },
    ];
    let adopted = adopt_stable_identities(&old, fresh);
    assert_eq!(adopted[0].message.id, "stable");
    assert_eq!(adopted[0].message.remote_id, "99");
    assert!(adopted[0].message.is_read);
    assert!(adopted[0].message.is_starred);
    assert_eq!(adopted[0].message.created_at, 7);
    assert_eq!(adopted[0].attachments[0].message_id, "stable");
    assert_eq!(adopted[1].message.id, "different-new");
    assert!(!adopted[1].message.is_read);

    let headers: Vec<Option<String>> = adopted.iter().map(|e| e.message.message_id_header.clone()).collect();
    let plan = match_stable_identities(&old, &headers);
    let taken = taken_over(&old, &plan);
    assert_eq!(taken, vec![true, false, false]);
    // After the folder relation is released, "shared" is still in Sent.
    let fates = released_fates(&taken, &vec![0, 0, 1]);
    assert_eq!(fates, vec![ReleasedFate::TakenOver, ReleasedFate::Removed, ReleasedFate::Reindexed]);

    let old_messages = vec![
        message("stable", "42", Some("<stable@example.com>")),
        message("different", "50", Some("<old@example.com>")),
        message("shared", "43", Some("<shared@example.com>")),
    ];
    let fresh_ids: Vec<String> = adopted.iter().map(|e| e.message.id.clone()).collect();
    let result = reconcile_result(old_messages, &fates, &fresh_ids, &Vec::new(), &Vec::new());
    assert_eq!(result.indexed_message_ids, vec!["shared", "stable", "different-new"]);
    assert_eq!(result.removed_messages.len(), 1);
    assert_eq!(result.removed_messages[0].id, "different");
    assert!(result.unreferenced_attachment_paths.is_empty());
}

#[test]
fn imap_uidvalidity_reconcile_allows_stable_messages_to_swap_uids() {
    let old = vec![stored("a", Some("<a@example.com>"), 1), stored("b", Some("<b@example.com>"), 1)];
    let fresh = vec![
        ImapFolderSnapshotMessage { message: message("fresh-a", "2", Some("<a@example.com>")), attachments: Vec::new() },
        ImapFolderSnapshotMessage { message: message("fresh-b", "1", Some("<b@example.com>")), attachments: Vec::new() },
    ];
    let adopted = adopt_stable_identities(&old, fresh);
    assert_eq!(adopted[0].message.id, "a");
    assert_eq!(adopted[0].message.remote_id, "2");
    assert_eq!(adopted[1].message.id, "b");
    assert_eq!(adopted[1].message.remote_id, "1");
}

#[test]
fn ambiguous_or_missing_message_ids_never_inherit() {
    let old = vec![
        stored("dup-1", Some("<dup@example.com>"), 1),
        stored("dup-2", Some("<dup@example.com>"), 1),
        stored("twice", Some("<twice@example.com>"), 1),
        stored("empty", Some(""), 1),
        stored("elsewhere", Some("<elsewhere@example.com>"), 2),
    ];
    let headers = vec![
        Some("<dup@example.com>".to_string()),
        Some("<twice@example.com>".to_string()),
        Some("<twice@example.com>".to_string()),
        Some(String::new()),
        None,
        Some("<elsewhere@example.com>".to_string()),
    ];
    let plan = match_stable_identities(&old, &headers);
    assert_eq!(plan.len(), 6);
    assert!(plan.iter().all(Option::is_none));
    assert_eq!(taken_over(&old, &plan), vec![false; 5]);
}

#[test]
fn the_stored_identity_of_a_message_is_what_it_hands_on() {
    let mut m = message("m", "1", Some("<m@example.com>"));
    m.is_read = true;
    m.created_at = 99;
    let s = stored_identity(&m, 3);
    assert_eq!(s.id, "m");
    assert_eq!(s.message_id_header.as_deref(), Some("<m@example.com>"));
    assert!(s.is_read);
    assert!(!s.is_starred);
    assert_eq!(s.created_at, 99);
    assert_eq!(s.folder_count, 3);
}

#[test]
fn only_attachment_files_nothing_names_are_left_to_delete() {
    let paths = vec!["/a".to_string(), "/b".to_string(), "/c".to_string()];
    let result = reconcile_result(Vec::new(), &Vec::new(), &Vec::new(), &paths, &vec![true, false, false]);
    assert_eq!(result.unreferenced_attachment_paths, vec!["/b", "/c"]);
    assert!(result.indexed_message_ids.is_empty());
}

#[test]
fn replacing_a_mailbox_removes_only_what_nothing_else_holds() {
    let old_messages = vec![message("a", "1", Some("<a@x>")), message("b", "2", None), message("c", "3", None)];
    let taken = vec![true, false, false];
    let remaining = vec![0, 2, 0];
    let fresh_ids = vec!["a".to_string(), "n".to_string()];
    let paths = vec!["/att/one".to_string(), "/att/two".to_string()];
    let result = reconcile_outcome(old_messages, &taken, &remaining, &fresh_ids, &paths, &vec![true, false]);
    let removed: Vec<&str> = result.removed_messages.iter().map(|m| m.id.as_str()).collect();
    assert_eq!(removed, vec!["c"]);
    assert_eq!(result.indexed_message_ids, vec!["b".to_string(), "a".to_string(), "n".to_string()]);
    assert_eq!(result.unreferenced_attachment_paths, vec!["/att/two".to_string()]);
}
