use pebble::flags::{bulk_flag_updates, message_flag_update, FlagChange, FlagParam};
use pebble::messages::{
    batch_positions, check_prepared_send, check_remote_id_update, chunk_ranges, incomplete_attachments_sql,
    leaves_tombstone, max_remote_id_text, tombstone_cutoff, StoreError,
};
use pebble::placeholders::numbered_placeholders;
use pebble::threads::{split_participants, thread_summary_from_row, threads_by_folders_sql, ThreadRow};
use pebble::unread::{
    account_unread_refs_sql, folder_unread_refs_sql, unread_refs_sql, FOLDER_UNREAD_PREDICATE, UNREAD_MAIL_PREDICATE,
};

fn strings(values: &[&str]) -> Vec<String> {
    values.iter().map(|s| s.to_string()).collect()
}

#[test]
fn unread_refs_sql_wraps_the_condition() {
    let sql = unread_refs_sql("m.account_id = ?1");
    assert!(sql.starts_with("SELECT m.id, m.remote_id,"));
    assert!(sql.contains("WHERE m.account_id = ?1\n         ORDER BY m.date DESC, m.id ASC"));
    assert!(sql.ends_with("ORDER BY m.date DESC, m.id ASC"));
    assert_eq!(sql.matches("ORDER BY f.sort_order ASC, f.id ASC LIMIT 1").count(), 2);
}

#[test]
fn account_refs_use_the_mailbox_predicate() {
    let sql = account_unread_refs_sql();
    assert!(sql.contains(&format!("m.account_id = ?1 AND {UNREAD_MAIL_PREDICATE}")));
    assert!(UNREAD_MAIL_PREDICATE.contains("NOT IN ('trash', 'spam', 'drafts')"));
}

#[test]
fn folder_refs_with_no_folders_match_nothing() {
    assert!(folder_unread_refs_sql(0).is_none());
}

#[test]
fn folder_refs_bind_each_folder_after_the_account() {
    let sql = folder_unread_refs_sql(3).unwrap();
    assert!(sql.contains(&format!("m.account_id = ?1 AND {FOLDER_UNREAD_PREDICATE}")));
    assert!(sql.contains("mf_scope.folder_id IN (?2, ?3, ?4)"));
    assert!(!sql.contains("?5"));
}

#[test]
fn placeholders_are_numbered_in_decimal() {
    assert_eq!(numbered_placeholders(2, 3, ", "), "?2, ?3, ?4");
    assert_eq!(numbered_placeholders(1, 0, ","), "");
    assert_eq!(numbered_placeholders(9, 3, ","), "?9,?10,?11");
    assert_eq!(numbered_placeholders(99, 2, ","), "?99,?100");
}

#[test]
fn flag_updates_number_their_parameters_in_order() {
    assert!(message_flag_update(None, None).is_none());
    let both = message_flag_update(Some(true), Some(false)).unwrap();
    assert_eq!(both.sql, "UPDATE messages SET is_read = ?1, is_starred = ?2, updated_at = ?3 WHERE id = ?4");
    assert_eq!(both.params, vec![FlagParam::Flag(1), FlagParam::Flag(0), FlagParam::UpdatedAt, FlagParam::MessageId]);
    let read = message_flag_update(Some(false), None).unwrap();
    assert_eq!(read.sql, "UPDATE messages SET is_read = ?1, updated_at = ?2 WHERE id = ?3");
    assert_eq!(read.params, vec![FlagParam::Flag(0), FlagParam::UpdatedAt, FlagParam::MessageId]);
    let starred = message_flag_update(None, Some(true)).unwrap();
    assert_eq!(starred.sql, "UPDATE messages SET is_starred = ?1, updated_at = ?2 WHERE id = ?3");
}

#[test]
fn bulk_updates_skip_changes_that_ask_for_nothing() {
    let changes = vec![
        FlagChange { message_id: "a".to_string(), is_read: Some(true), is_starred: None },
        FlagChange { message_id: "b".to_string(), is_read: None, is_starred: None },
        FlagChange { message_id: "c".to_string(), is_read: None, is_starred: Some(true) },
    ];
    let updates = bulk_flag_updates(&changes);
    assert_eq!(updates.len(), 2);
    assert_eq!(updates[0].0, "a");
    assert_eq!(updates[1].0, "c");
    assert_eq!(updates[1].1.params, vec![FlagParam::Flag(1), FlagParam::UpdatedAt, FlagParam::MessageId]);
}

#[test]
fn batch_lookups_answer_in_request_order_once_per_id() {
    let requested = strings(&["c", "a", "missing", "c", "b"]);
    let found = strings(&["a", "b", "c"]);
    assert_eq!(batch_positions(&requested, &found), vec![2, 0, 1]);
    assert!(batch_positions(&Vec::new(), &found).is_empty());
}

#[test]
fn long_id_lists_are_cut_into_chunks() {
    assert_eq!(chunk_ranges(250, 100), vec![(0, 100), (100, 200), (200, 250)]);
    assert_eq!(chunk_ranges(100, 100), vec![(0, 100)]);
    assert!(chunk_ranges(0, 500).is_empty());
}

#[test]
fn tombstones_older_than_the_cutoff_are_purged() {
    assert_eq!(tombstone_cutoff(1_000_000, 30 * 24 * 3600), 1_000_000 - 2_592_000);
    assert!(leaves_tombstone(0));
    assert!(!leaves_tombstone(1));
}

#[test]
fn update_remote_id_reports_missing_message() {
    assert_eq!(
        check_remote_id_update(0, "missing-message"),
        Err(StoreError::Internal("Message not found for remote_id update: missing-message".to_string()))
    );
    assert_eq!(check_remote_id_update(1, "m"), Ok(()));
}

#[test]
fn completing_a_send_needs_exactly_its_operation() {
    assert_eq!(check_prepared_send(1, "op"), Ok(()));
    assert_eq!(
        check_prepared_send(0, "op-1"),
        Err(StoreError::Storage("Prepared send operation not found: op-1".to_string()))
    );
    assert!(check_prepared_send(2, "op").is_err());
}

#[test]
fn the_highest_remote_id_is_written_as_its_integer() {
    assert_eq!(max_remote_id_text(None), None);
    assert_eq!(max_remote_id_text(Some(0)), Some("0".to_string()));
    assert_eq!(max_remote_id_text(Some(4812)), Some("4812".to_string()));
    assert_eq!(max_remote_id_text(Some(-7)), Some("-7".to_string()));
    assert_eq!(max_remote_id_text(Some(i64::MIN)), Some(i64::MIN.to_string()));
    assert_eq!(max_remote_id_text(Some(i64::MAX)), Some(i64::MAX.to_string()));
}

#[test]
fn list_threads_aggregates_distinct_participants() {
    assert_eq!(
        split_participants("alice@example.com||bob@example.com"),
        strings(&["alice@example.com", "bob@example.com"])
    );
    assert_eq!(split_participants(" a ||||  || b"), strings(&["a", "b"]));
    assert!(split_participants("").is_empty());
    assert_eq!(split_participants("a|||b"), strings(&["a", "|b"]));
    let summary = thread_summary_from_row(ThreadRow {
        thread_id: "t".to_string(),
        subject: "s".to_string(),
        snippet: "n".to_string(),
        last_date: 200,
        message_count: 2,
        unread_count: 1,
        is_starred: 1,
        participants: "alice@example.com||bob@example.com".to_string(),
        has_attachments: 0,
        account_id: "acc".to_string(),
    });
    assert_eq!(summary.message_count, 2);
    assert_eq!(summary.unread_count, 1);
    assert!(summary.is_starred);
    assert!(!summary.has_attachments);
    assert_eq!(summary.participants, strings(&["alice@example.com", "bob@example.com"]));
    assert_eq!(summary.account_id, "acc");
}

#[test]
fn threads_of_several_folders_number_the_limit_after_the_folders() {
    let sql = threads_by_folders_sql(2);
    assert!(sql.starts_with("WITH selected_messages AS ("));
    assert!(sql.contains("WHERE mf.folder_id IN (?1, ?2)\n"));
    assert!(sql.contains("GROUP_CONCAT(from_address, '||') AS participants"));
    assert!(sql.ends_with("ORDER BY last_date DESC\n                     LIMIT ?3 OFFSET ?4"));

    let sql = threads_by_folders_sql(3);
    assert!(sql.contains("IN (?1, ?2, ?3)\n"));
    assert!(sql.ends_with("LIMIT ?4 OFFSET ?5"));
}

#[test]
fn incomplete_attachment_query_in_a_folder_binds_the_remote_ids_after_it() {
    let sql = incomplete_attachments_sql(true, 2);
    assert!(sql.starts_with("SELECT m.remote_id, m.id\n"));
    assert!(sql.contains("FROM messages m\n                 JOIN message_folders mf ON mf.message_id = m.id\n"));
    assert!(sql.contains("WHERE m.account_id = ?1\n                   AND mf.folder_id = ?2\n"));
    assert!(sql.contains("AND m.remote_id IN (?3, ?4)\n"));
    assert!(sql.contains("AND m.has_attachments = 1"));
    assert!(sql.contains("SELECT 1 FROM attachments a WHERE a.message_id = m.id"));
}

#[test]
fn incomplete_attachment_query_account_wide_has_no_folder_scope() {
    let sql = incomplete_attachments_sql(false, 3);
    assert!(!sql.contains("message_folders"));
    assert!(!sql.contains("mf.folder_id"));
    assert!(sql.contains("AND m.remote_id IN (?2, ?3, ?4)\n"));
    assert_eq!(
        sql,
        "SELECT m.remote_id, m.id\n                 FROM messages m\n                 \n                 WHERE m.account_id = ?1\n                   \n                   AND m.remote_id IN (?2, ?3, ?4)\n                   AND m.is_deleted = 0\n                   AND m.has_attachments = 1\n                   AND NOT EXISTS (\n                       SELECT 1 FROM attachments a WHERE a.message_id = m.id\n                   )"
    );
}

#[test]
fn chunks_cover_every_id_exactly_once() {
    for len in 0..=350usize {
        let chunks = chunk_ranges(len, 100);
        let mut next = 0;
        for (start, end) in &chunks {
            assert_eq!(*start, next);
            assert!(start < end && end - start <= 100);
            next = *end;
        }
        assert_eq!(next, len);
        assert_eq!(chunks.is_empty(), len == 0);
    }
}

#[test]
fn batch_answers_each_found_id_once_and_nothing_else() {
    let requested = strings(&["b", "x", "a", "b", "a", "y"]);
    let found = strings(&["a", "b", "z"]);
    let positions = batch_positions(&requested, &found);
    let answered: Vec<&str> = positions.iter().map(|k| found[*k].as_str()).collect();
    assert_eq!(answered, vec!["b", "a"]);
}
