//! Thread summaries as the thread list shows them: a row of the thread
//! query turned into a summary, its participants split out of the list
//! the query concatenates.

use crate::placeholders::{decimal, numbered_placeholders, placeholders_spec, push_decimal};
use crate::text::{trim, trim_spec};
use vstd::prelude::*;

verus! {

/// A participant piece as kept: trimmed, and dropped when nothing is left.
pub open spec fn keep_piece(piece: Seq<char>) -> Seq<Seq<char>> {
    let t = trim_spec(piece);
    if t.len() > 0 { seq![t] } else { Seq::empty() }
}

/// The participants of the list `s` joined by `||`, from the piece that
/// starts at `start`, scanning from `i`: every piece between separators,
/// trimmed, empty ones dropped, in order.
pub open spec fn participants_from(s: Seq<char>, start: int, i: int) -> Seq<Seq<char>>
    decreases s.len() - i,
{
    if i < 0 || start < 0 || start > i {
        Seq::empty()
    } else if i + 1 < s.len() && s[i] == '|' && s[i + 1] == '|' {
        keep_piece(s.subrange(start, i)) + participants_from(s, i + 2, i + 2)
    } else if i < s.len() {
        participants_from(s, start, i + 1)
    } else if start <= s.len() {
        keep_piece(s.subrange(start, s.len() as int))
    } else {
        Seq::empty()
    }
}

/// The participants of a thread, out of the `||`-joined list of sender
/// addresses: each trimmed, blank ones dropped, in order.
pub fn split_participants(s: &str) -> (r: Vec<String>)
    ensures
        r.deep_view() == participants_from(s@, 0, 0),
{
    let n = s.unicode_len();
    let mut r: Vec<String> = Vec::new();
    let mut start: usize = 0;
    let mut i: usize = 0;
    while i < n
        invariant
            n == s@.len(),
            0 <= start <= i <= n,
            r.deep_view() + participants_from(s@, start as int, i as int) == participants_from(s@, 0, 0),
        decreases n - i,
    {
        if i + 1 < n && s.get_char(i) == '|' && s.get_char(i + 1) == '|' {
            let ghost before = r.deep_view();
            let t = trim(s.substring_char(start, i));
            if !t.as_str().is_empty() {
                r.push(t);
                assert(r.deep_view() =~= before + keep_piece(s@.subrange(start as int, i as int)));
            } else {
                assert(keep_piece(s@.subrange(start as int, i as int)) =~= Seq::<Seq<char>>::empty());
                assert(r.deep_view() =~= before + keep_piece(s@.subrange(start as int, i as int)));
            }
            assert(before + (keep_piece(s@.subrange(start as int, i as int)) + participants_from(s@, i + 2, i + 2))
                =~= r.deep_view() + participants_from(s@, i + 2, i + 2));
            start = i + 2;
            i = i + 2;
        } else {
            i = i + 1;
        }
    }
    let ghost before = r.deep_view();
    let t = trim(s.substring_char(start, n));
    if !t.as_str().is_empty() {
        r.push(t);
        assert(r.deep_view() =~= before + keep_piece(s@.subrange(start as int, n as int)));
    } else {
        assert(keep_piece(s@.subrange(start as int, n as int)) =~= Seq::<Seq<char>>::empty());
        assert(r.deep_view() =~= before + keep_piece(s@.subrange(start as int, n as int)));
    }
    r
}

/// One row of the thread query, as the store returns it.
pub struct ThreadRow {
    pub thread_id: String,
    pub subject: String,
    pub snippet: String,
    pub last_date: i64,
    pub message_count: i64,
    pub unread_count: i64,
    pub is_starred: i32,
    pub participants: String,
    pub has_attachments: i32,
    pub account_id: String,
}

/// A thread as the thread list shows it.
pub struct ThreadSummary {
    pub thread_id: String,
    pub account_id: String,
    pub subject: String,
    pub snippet: String,
    pub last_date: i64,
    pub message_count: u32,
    pub unread_count: u32,
    pub is_starred: bool,
    pub participants: Vec<String>,
    pub has_attachments: bool,
}

/// A row of the thread query as a summary: the columns carried over, the
/// counts narrowed to 32 bits by truncation (`as u32`), the flag
/// columns read as "not zero", and the participants split out.
pub fn thread_summary_from_row(row: ThreadRow) -> (t: ThreadSummary)
    ensures
        t.thread_id@ == row.thread_id@,
        t.account_id@ == row.account_id@,
        t.subject@ == row.subject@,
        t.snippet@ == row.snippet@,
        t.last_date == row.last_date,
        t.message_count == row.message_count as u32,
        t.unread_count == row.unread_count as u32,
        t.is_starred == (row.is_starred != 0),
        t.participants.deep_view() == participants_from(row.participants@, 0, 0),
        t.has_attachments == (row.has_attachments != 0),
{
    let participants = split_participants(row.participants.as_str());
    ThreadSummary {
        thread_id: row.thread_id,
        account_id: row.account_id,
        subject: row.subject,
        snippet: row.snippet,
        last_date: row.last_date,
        message_count: #[verifier::truncate] (row.message_count as u32),
        unread_count: #[verifier::truncate] (row.unread_count as u32),
        is_starred: row.is_starred != 0,
        participants,
        has_attachments: row.has_attachments != 0,
    }
}

/// The query for the threads of several folders, up to the folder ids
/// (bound as `?1` on). A message filed in more than one of them counts once.
pub const THREADS_BY_FOLDERS_HEAD: &'static str = "WITH selected_messages AS (\n                        SELECT DISTINCT\n                               m.id,\n                               m.thread_id,\n                               m.subject,\n                               m.snippet,\n                               m.date,\n                               m.is_read,\n                               m.is_starred,\n                               m.from_address,\n                               m.has_attachments,\n                               m.account_id\n                        FROM messages m\n                        JOIN message_folders mf ON m.id = mf.message_id\n                        WHERE mf.folder_id IN (";

/// The rest of that query, after the folder ids, up to the limit's
/// placeholder.
pub const THREADS_BY_FOLDERS_BODY: &'static str = ")\n                          AND m.is_deleted = 0\n                          AND m.thread_id IS NOT NULL\n                     ),\n                     thread_participants AS (\n                        SELECT thread_id,\n                               GROUP_CONCAT(from_address, '||') AS participants\n                        FROM (\n                            SELECT DISTINCT thread_id, from_address\n                            FROM selected_messages\n                        )\n                        GROUP BY thread_id\n                     ),\n                     max_date AS (\n                        SELECT thread_id, MAX(date) AS md\n                        FROM selected_messages\n                        GROUP BY thread_id\n                     )\n                     SELECT\n                        sm.thread_id,\n                        MAX(sm.subject) AS subject,\n                        MAX(CASE WHEN sm.date = max_date.md THEN sm.snippet ELSE '' END) AS snippet,\n                        MAX(sm.date) AS last_date,\n                        COUNT(*) AS message_count,\n                        SUM(CASE WHEN sm.is_read = 0 THEN 1 ELSE 0 END) AS unread_count,\n                        MAX(sm.is_starred) AS is_starred,\n                        COALESCE(tp.participants, '') AS participants,\n                        MAX(sm.has_attachments) AS has_attachments,\n                        MAX(CASE WHEN sm.date = max_date.md THEN sm.account_id ELSE '' END) AS account_id\n                     FROM selected_messages sm\n                     JOIN max_date ON sm.thread_id = max_date.thread_id\n                     LEFT JOIN thread_participants tp ON sm.thread_id = tp.thread_id\n                     GROUP BY sm.thread_id\n                     ORDER BY last_date DESC\n                     LIMIT ?";

/// The query for the threads of `folder_count` folders, newest first: the
/// folder ids bound as `?1` to `?folder_count`, then the limit and the
/// offset as the next two parameters.
pub open spec fn threads_by_folders_spec(folder_count: nat) -> Seq<char> {
    THREADS_BY_FOLDERS_HEAD@ + placeholders_spec(1, folder_count, seq![',', ' ']) + THREADS_BY_FOLDERS_BODY@
        + decimal(folder_count + 1) + " OFFSET ?"@ + decimal(folder_count + 2)
}

/// The query for the threads of several folders, with the folder ids, the
/// limit and the offset numbered in the order they are bound.
pub fn threads_by_folders_sql(folder_count: u64) -> (r: String)
    requires
        folder_count + 2 <= u64::MAX,
    ensures
        r@ == threads_by_folders_spec(folder_count as nat),
{
    proof {
        reveal_strlit(", ");
    }
    let separator = ", ";
    assert(separator@ =~= seq![',', ' ']);
    let mut sql = String::from_str(THREADS_BY_FOLDERS_HEAD);
    let placeholders = numbered_placeholders(1, folder_count, separator);
    sql.append(placeholders.as_str());
    sql.append(THREADS_BY_FOLDERS_BODY);
    push_decimal(&mut sql, folder_count + 1);
    sql.append(" OFFSET ?");
    push_decimal(&mut sql, folder_count + 2);
    sql
}

} // verus!
