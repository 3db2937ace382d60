//! The rules of the message store that run around its queries: the order
//! a batch lookup answers in, how large id lists are cut into statements,
//! the cut-off for purging tombstones, which writes count as failures, and
//! how numbers are written back as text.

use crate::placeholders::{decimal, numbered_placeholders, placeholders_spec, push_decimal};
use vstd::prelude::*;

verus! {

/// The position of the last entry equal to `id`, if any.
pub open spec fn last_index_of(found: Seq<Seq<char>>, id: Seq<char>) -> Option<int>
    decreases found.len(),
{
    if found.len() == 0 {
        None
    } else if found.last() == id {
        Some(found.len() - 1)
    } else {
        last_index_of(found.drop_last(), id)
    }
}

/// The rows a batch lookup answers with, as positions into the rows the
/// store found: one per requested id, in the order requested, the first
/// time that id is requested, when the store found it. An id requested
/// twice is answered once; one the store does not hold is left out.
pub open spec fn batch_order(requested: Seq<Seq<char>>, found: Seq<Seq<char>>) -> Seq<int>
    decreases requested.len(),
{
    if requested.len() == 0 {
        Seq::empty()
    } else {
        let init = batch_order(requested.drop_last(), found);
        let id = requested.last();
        if requested.drop_last().contains(id) {
            init
        } else {
            match last_index_of(found, id) {
                Some(k) => init.push(k),
                None => init,
            }
        }
    }
}

/// Where `last_index_of` points: at an entry equal to `id`; and it finds
/// nothing only when no entry is.
pub proof fn lemma_last_index_of_bounds(found: Seq<Seq<char>>, id: Seq<char>)
    ensures
        last_index_of(found, id) matches Some(k) ==> 0 <= k < found.len() && found[k] == id,
        last_index_of(found, id) is None ==> !found.contains(id),
    decreases found.len(),
{
    if found.len() > 0 && found.last() != id {
        lemma_last_index_of_bounds(found.drop_last(), id);
        if found.contains(id) {
            let k = choose|k: int| 0 <= k < found.len() && found[k] == id;
            assert(found.drop_last()[k] == id);
        }
    }
}

/// The ids of the rows a batch lookup answers with, in order.
pub open spec fn batch_answers(requested: Seq<Seq<char>>, found: Seq<Seq<char>>) -> Seq<Seq<char>> {
    batch_order(requested, found).map_values(|k: int| found[k])
}

/// A batch lookup answers with each message at most once, and with
/// exactly the ids that were asked for and that the store holds: every
/// answered row is one the store found, nothing asked for and found is
/// left out, and nothing is answered that was not asked for.
pub proof fn lemma_batch_answers_each_found_id_once(requested: Seq<Seq<char>>, found: Seq<Seq<char>>)
    ensures
        forall|p: int| 0 <= p < batch_order(requested, found).len() ==> 0 <= #[trigger] batch_order(requested, found)[p]
            < found.len(),
        batch_answers(requested, found).no_duplicates(),
        forall|id: Seq<char>| #[trigger] batch_answers(requested, found).contains(id) <==> (requested.contains(id)
            && found.contains(id)),
    decreases requested.len(),
{
    let r = batch_order(requested, found);
    let a = batch_answers(requested, found);
    if requested.len() > 0 {
        let init = requested.drop_last();
        let id = requested.last();
        lemma_batch_answers_each_found_id_once(init, found);
        lemma_last_index_of_bounds(found, id);
        let ri = batch_order(init, found);
        let ai = batch_answers(init, found);
        assert forall|x: Seq<char>| requested.contains(x) <==> (init.contains(x) || x == id) by {
            if requested.contains(x) && x != id {
                let j = choose|j: int| 0 <= j < requested.len() && requested[j] == x;
                assert(init[j] == x);
            }
            if init.contains(x) {
                let j = choose|j: int| 0 <= j < init.len() && init[j] == x;
                assert(requested[j] == x);
            }
            if x == id {
                assert(requested[requested.len() - 1] == x);
            }
        }
        if !init.contains(id) && last_index_of(found, id) is Some {
            let k = last_index_of(found, id)->0;
            assert(r == ri.push(k));
            assert(a =~= ai.push(found[k]));
            assert(!ai.contains(id));
            assert forall|x: Seq<char>| a.contains(x) <==> (ai.contains(x) || x == id) by {
                if a.contains(x) && x != id {
                    let j = choose|j: int| 0 <= j < a.len() && a[j] == x;
                    assert(ai[j] == x);
                }
                if ai.contains(x) {
                    let j = choose|j: int| 0 <= j < ai.len() && ai[j] == x;
                    assert(a[j] == x);
                }
                if x == id {
                    assert(a[a.len() - 1] == x);
                }
            }
            assert forall|p: int, q: int| 0 <= p < a.len() && 0 <= q < a.len() && p != q implies a[p] != a[q] by {
                if p < ai.len() && q < ai.len() {
                    assert(a[p] == ai[p] && a[q] == ai[q]);
                } else if p < ai.len() {
                    assert(a[p] == ai[p]);
                    assert(ai.contains(a[p]));
                } else {
                    assert(a[q] == ai[q]);
                    assert(ai.contains(a[q]));
                }
            }
        } else {
            assert(r == ri);
            assert(a =~= ai);
        }
    } else {
        assert(a =~= Seq::<Seq<char>>::empty());
    }
}

/// Whether `ids` holds `id` among its first `end` entries.
fn holds_before(ids: &Vec<String>, end: usize, id: &String) -> (r: bool)
    requires
        end <= ids@.len(),
    ensures
        r == ids.deep_view().take(end as int).contains(id@),
{
    let mut i: usize = 0;
    while i < end
        invariant
            end <= ids@.len(),
            0 <= i <= end,
            forall|k: int| 0 <= k < i ==> ids.deep_view()[k] != id@,
        decreases end - i,
    {
        if ids[i] == *id {
            assert(ids.deep_view().take(end as int)[i as int] == id@);
            return true;
        }
        i = i + 1;
    }
    proof {
        if ids.deep_view().take(end as int).contains(id@) {
            let k = choose|k: int| 0 <= k < end && ids.deep_view().take(end as int)[k] == id@;
            assert(ids.deep_view()[k] != id@);
        }
    }
    false
}

/// The position of the last entry of `found` equal to `id`.
fn last_position(found: &Vec<String>, id: &String) -> (r: Option<usize>)
    ensures
        r matches Some(k) ==> last_index_of(found.deep_view(), id@) == Some(k as int),
        r is None ==> last_index_of(found.deep_view(), id@) is None,
{
    let mut j: usize = found.len();
    assert(found.deep_view().take(j as int) =~= found.deep_view());
    while j > 0
        invariant
            0 <= j <= found@.len(),
            last_index_of(found.deep_view(), id@) == last_index_of(found.deep_view().take(j as int), id@),
        decreases j,
    {
        assert(found.deep_view().take(j as int).drop_last() =~= found.deep_view().take(j as int - 1));
        if found[j - 1] == *id {
            return Some(j - 1);
        }
        j = j - 1;
    }
    None
}

/// The rows of a batch lookup, as positions into what the store found, in
/// the order the ids were requested.
pub fn batch_positions(requested: &Vec<String>, found: &Vec<String>) -> (r: Vec<usize>)
    ensures
        r@.map_values(|k: usize| k as int) == batch_order(requested.deep_view(), found.deep_view()),
        forall|p: int| 0 <= p < r@.len() ==> #[trigger] r@[p] < found@.len(),
{
    let mut r: Vec<usize> = Vec::new();
    let mut i: usize = 0;
    assert(found.deep_view().take(found@.len() as int) =~= found.deep_view());
    while i < requested.len()
        invariant
            0 <= i <= requested@.len(),
            r@.map_values(|k: usize| k as int) == batch_order(requested.deep_view().take(i as int), found.deep_view()),
            forall|p: int| 0 <= p < r@.len() ==> #[trigger] r@[p] < found@.len(),
        decreases requested@.len() - i,
    {
        let ghost before = r@.map_values(|k: usize| k as int);
        let ghost t = requested.deep_view().take(i as int + 1);
        assert(t.drop_last() =~= requested.deep_view().take(i as int));
        assert(t.last() == requested@[i as int]@);
        if !holds_before(requested, i, &requested[i]) {
            match last_position(found, &requested[i]) {
                Some(k) => {
                    proof {
                        lemma_last_index_of_bounds(found.deep_view(), requested@[i as int]@);
                    }
                    r.push(k);
                    assert(r@.map_values(|k: usize| k as int) =~= before.push(k as int));
                },
                None => {},
            }
        }
        i = i + 1;
    }
    assert(requested.deep_view().take(requested@.len() as int) =~= requested.deep_view());
    r
}

/// The ranges `[start, end)` a list of `len` ids is cut into, `size` at a
/// time from `start` on, the last one possibly shorter.
pub open spec fn chunks_from(start: int, len: int, size: int) -> Seq<(int, int)>
    decreases len - start,
{
    if start >= len || size <= 0 {
        Seq::empty()
    } else if start + size >= len {
        seq![(start, len)]
    } else {
        seq![(start, start + size)] + chunks_from(start + size, len, size)
    }
}

/// Cutting ids `start..len` into chunks of at most `size` covers each id
/// exactly once, in order: no chunk is empty or longer than `size`, the
/// first starts at `start`, each starts where the one before ends, and the
/// last ends at `len`.
pub proof fn lemma_chunks_cover_every_id_once(start: int, len: int, size: int)
    requires
        0 <= start <= len,
        size > 0,
    ensures
        chunks_from(start, len, size).len() == 0 <==> start == len,
        chunks_from(start, len, size).len() > 0 ==> chunks_from(start, len, size)[0].0 == start
            && chunks_from(start, len, size).last().1 == len,
        forall|p: int| 0 <= p < chunks_from(start, len, size).len() ==> #[trigger] chunks_from(start, len, size)[p].0
            < chunks_from(start, len, size)[p].1 <= chunks_from(start, len, size)[p].0 + size,
        forall|p: int| 0 <= p < chunks_from(start, len, size).len() - 1 ==> #[trigger] chunks_from(start, len, size)[p].1
            == chunks_from(start, len, size)[p + 1].0,
    decreases len - start,
{
    let c = chunks_from(start, len, size);
    if start < len && start + size < len {
        lemma_chunks_cover_every_id_once(start + size, len, size);
        let rest = chunks_from(start + size, len, size);
        assert(c == seq![(start, start + size)] + rest);
        assert forall|p: int| 0 <= p < c.len() implies #[trigger] c[p].0 < c[p].1 <= c[p].0 + size by {
            if p > 0 {
                assert(c[p] == rest[p - 1]);
            }
        }
        assert forall|p: int| 0 <= p < c.len() - 1 implies #[trigger] c[p].1 == c[p + 1].0 by {
            assert(c[p + 1] == rest[p]);
            if p > 0 {
                assert(c[p] == rest[p - 1]);
            }
        }
        assert(c.last() == rest.last());
    }
}

/// The ranges a list of `len` ids is cut into, `size` at a time, so that
/// no statement binds more parameters than the store allows.
pub fn chunk_ranges(len: usize, size: usize) -> (r: Vec<(usize, usize)>)
    requires
        size > 0,
        len + size <= usize::MAX,
    ensures
        r@.map_values(|c: (usize, usize)| (c.0 as int, c.1 as int)) == chunks_from(0, len as int, size as int),
{
    let mut r: Vec<(usize, usize)> = Vec::new();
    let mut start: usize = 0;
    while start < len
        invariant
            size > 0,
            len + size <= usize::MAX,
            start <= len + size,
            start < len ==> start + size <= usize::MAX,
            r@.map_values(|c: (usize, usize)| (c.0 as int, c.1 as int)) + chunks_from(start as int, len as int, size as int)
                == chunks_from(0, len as int, size as int),
        decreases len + size - start,
    {
        let ghost before = r@.map_values(|c: (usize, usize)| (c.0 as int, c.1 as int));
        let end = if start + size <= len { start + size } else { len };
        r.push((start, end));
        assert(r@.map_values(|c: (usize, usize)| (c.0 as int, c.1 as int)) =~= before.push((start as int, end as int)));
        assert(before.push((start as int, end as int)) + chunks_from(start + size, len as int, size as int) =~= before + (
        seq![(start as int, end as int)] + chunks_from(start + size, len as int, size as int)));
        assert(start + size >= len ==> chunks_from(start + size, len as int, size as int) =~= Seq::<(int, int)>::empty());
        start = start + size;
    }
    r
}

/// The time before which a tombstone is old enough to purge.
pub fn tombstone_cutoff(now: i64, older_than_secs: i64) -> (r: i64)
    requires
        i64::MIN <= now - older_than_secs <= i64::MAX,
    ensures
        r == now - older_than_secs,
{
    now - older_than_secs
}

/// Whether removing a message from one folder leaves it as a tombstone:
/// only when no folder holds it any more.
pub fn leaves_tombstone(remaining_folder_count: i64) -> (r: bool)
    ensures
        r == (remaining_folder_count == 0),
{
    remaining_folder_count == 0
}

/// An error of the message store.
#[derive(Debug, PartialEq, Eq)]
pub enum StoreError {
    /// The store could not do what was asked.
    Storage(String),
    /// The store was asked about something it does not hold.
    Internal(String),
}

/// The text of an error, as its `Display` gives it.
pub open spec fn error_text(e: StoreError) -> Seq<char> {
    match e {
        StoreError::Storage(s) => s@,
        StoreError::Internal(s) => s@,
    }
}

/// Completing a prepared send must touch exactly its one operation row;
/// anything else means the operation is gone, and the send fails.
pub fn check_prepared_send(updated_rows: usize, op_id: &str) -> (r: Result<(), StoreError>)
    ensures
        updated_rows == 1 <==> r is Ok,
        r matches Err(e) ==> (e is Storage && error_text(e) == "Prepared send operation not found: "@ + op_id@),
{
    if updated_rows != 1 {
        let mut text = String::from_str("Prepared send operation not found: ");
        text.append(op_id);
        return Err(StoreError::Storage(text));
    }
    Ok(())
}

/// Giving a message a new remote id fails when no message has that id.
pub fn check_remote_id_update(changed_rows: usize, message_id: &str) -> (r: Result<(), StoreError>)
    ensures
        changed_rows != 0 <==> r is Ok,
        r matches Err(e) ==> (e is Internal && error_text(e) == "Message not found for remote_id update: "@
            + message_id@),
{
    if changed_rows == 0 {
        let mut text = String::from_str("Message not found for remote_id update: ");
        text.append(message_id);
        return Err(StoreError::Internal(text));
    }
    Ok(())
}

/// A signed number written in decimal, as `i64::to_string` writes it.
pub open spec fn signed_decimal(v: int) -> Seq<char> {
    if v < 0 { seq!['-'] + decimal((-v) as nat) } else { decimal(v as nat) }
}

/// The highest numeric remote id of a folder, as the text the sync code
/// compares remote ids in.
pub fn max_remote_id_text(max: Option<i64>) -> (r: Option<String>)
    ensures
        r is None <==> max is None,
        r matches Some(s) ==> s@ == signed_decimal(max->0 as int),
{
    match max {
        None => None,
        Some(v) => {
            let mut s = String::new();
            if v < 0 {
                proof {
                    reveal_strlit("-");
                }
                s.append("-");
                let magnitude: u64 = if v == i64::MIN { 9223372036854775808u64 } else { (-v) as u64 };
                push_decimal(&mut s, magnitude);
                assert(s@ =~= seq!['-'] + decimal((-v) as nat));
            } else {
                push_decimal(&mut s, v as u64);
                assert(s@ =~= decimal(v as nat));
            }
            Some(s)
        },
    }
}

/// The head of the query for rows that claim attachments but have none,
/// before the optional folder join.
pub const INCOMPLETE_ATTACHMENTS_HEAD: &'static str = "SELECT m.remote_id, m.id\n                 FROM messages m\n                 ";

/// After the folder join: the account condition, the account id bound as
/// `?1`.
pub const INCOMPLETE_ATTACHMENTS_ACCOUNT: &'static str = "\n                 WHERE m.account_id = ?1\n                   ";

/// After the optional folder condition, up to the remote ids.
pub const INCOMPLETE_ATTACHMENTS_REMOTE_IDS: &'static str = "\n                   AND m.remote_id IN (";

/// The rest of the query: live rows that claim attachments and have no
/// attachment record.
pub const INCOMPLETE_ATTACHMENTS_TAIL: &'static str = ")\n                   AND m.is_deleted = 0\n                   AND m.has_attachments = 1\n                   AND NOT EXISTS (\n                       SELECT 1 FROM attachments a WHERE a.message_id = m.id\n                   )";

/// The join that scopes the query to one folder.
pub const INCOMPLETE_ATTACHMENTS_FOLDER_JOIN: &'static str = "JOIN message_folders mf ON mf.message_id = m.id";

/// The condition that scopes the query to one folder, bound as `?2`.
pub const INCOMPLETE_ATTACHMENTS_FOLDER_FILTER: &'static str = "AND mf.folder_id = ?2";

/// The query for the rows among `remote_id_count` remote ids that claim
/// attachments but have no attachment record, for one account (`?1`) and,
/// when `in_folder`, one folder (`?2`); the remote ids are bound after
/// those, so from `?3` in a folder and from `?2` account-wide.
pub open spec fn incomplete_attachments_spec(in_folder: bool, remote_id_count: nat) -> Seq<char> {
    let first: nat = if in_folder { 3 } else { 2 };
    INCOMPLETE_ATTACHMENTS_HEAD@ + (if in_folder { INCOMPLETE_ATTACHMENTS_FOLDER_JOIN@ } else { Seq::empty() })
        + INCOMPLETE_ATTACHMENTS_ACCOUNT@ + (if in_folder { INCOMPLETE_ATTACHMENTS_FOLDER_FILTER@ } else { Seq::empty() })
        + INCOMPLETE_ATTACHMENTS_REMOTE_IDS@ + placeholders_spec(first, remote_id_count, seq![',', ' '])
        + INCOMPLETE_ATTACHMENTS_TAIL@
}

/// The query finding half-written rows among the given remote ids, which
/// sync must fetch again rather than count as stored.
pub fn incomplete_attachments_sql(in_folder: bool, remote_id_count: u64) -> (r: String)
    requires
        remote_id_count + 3 <= u64::MAX,
    ensures
        r@ == incomplete_attachments_spec(in_folder, remote_id_count as nat),
{
    proof {
        reveal_strlit(", ");
    }
    let separator = ", ";
    assert(separator@ =~= seq![',', ' ']);
    let first: u64 = if in_folder { 3 } else { 2 };
    let mut sql = String::from_str(INCOMPLETE_ATTACHMENTS_HEAD);
    if in_folder {
        sql.append(INCOMPLETE_ATTACHMENTS_FOLDER_JOIN);
    }
    sql.append(INCOMPLETE_ATTACHMENTS_ACCOUNT);
    if in_folder {
        sql.append(INCOMPLETE_ATTACHMENTS_FOLDER_FILTER);
    }
    sql.append(INCOMPLETE_ATTACHMENTS_REMOTE_IDS);
    let placeholders = numbered_placeholders(first, remote_id_count, separator);
    sql.append(placeholders.as_str());
    sql.append(INCOMPLETE_ATTACHMENTS_TAIL);
    assert(sql@ =~= incomplete_attachments_spec(in_folder, remote_id_count as nat));
    sql
}

} // verus!
