//! Flag updates on stored messages: the statement that sets the read and
//! starred flags a caller asked for, together with the time of the change.

use vstd::prelude::*;

verus! {

/// What a parameter of a flag update is bound to, in order.
#[derive(Debug, Clone, Copy, PartialEq, Eq, Structural)]
pub enum FlagParam {
    /// A flag value, as the 0 or 1 the column stores.
    Flag(i32),
    /// The time of the change.
    UpdatedAt,
    /// The id of the message.
    MessageId,
}

/// A flag update statement and the values it binds, in order.
pub struct FlagUpdate {
    pub sql: String,
    pub params: Vec<FlagParam>,
}

/// The stored form of a flag.
pub open spec fn flag_value(b: bool) -> i32 {
    if b { 1 } else { 0 }
}

/// The statement for the flags asked for, or `None` when none was asked
/// for, in which case nothing is written (not even the time).
pub open spec fn flag_update_spec(is_read: Option<bool>, is_starred: Option<bool>) -> Option<(Seq<char>, Seq<FlagParam>)> {
    match (is_read, is_starred) {
        (None, None) => None,
        (Some(r), Some(s)) => Some((
            "UPDATE messages SET is_read = ?1, is_starred = ?2, updated_at = ?3 WHERE id = ?4"@,
            seq![FlagParam::Flag(flag_value(r)), FlagParam::Flag(flag_value(s)), FlagParam::UpdatedAt, FlagParam::MessageId],
        )),
        (Some(r), None) => Some((
            "UPDATE messages SET is_read = ?1, updated_at = ?2 WHERE id = ?3"@,
            seq![FlagParam::Flag(flag_value(r)), FlagParam::UpdatedAt, FlagParam::MessageId],
        )),
        (None, Some(s)) => Some((
            "UPDATE messages SET is_starred = ?1, updated_at = ?2 WHERE id = ?3"@,
            seq![FlagParam::Flag(flag_value(s)), FlagParam::UpdatedAt, FlagParam::MessageId],
        )),
    }
}

/// The statement text of an update that asks for something.
pub open spec fn spec_sql(u: Option<(Seq<char>, Seq<FlagParam>)>) -> Seq<char> {
    match u {
        Some(p) => p.0,
        None => Seq::empty(),
    }
}

/// The bound values of an update that asks for something.
pub open spec fn spec_params(u: Option<(Seq<char>, Seq<FlagParam>)>) -> Seq<FlagParam> {
    match u {
        Some(p) => p.1,
        None => Seq::empty(),
    }
}

/// The update for the read and starred flags asked for; `None` asks for
/// no change.
pub fn message_flag_update(is_read: Option<bool>, is_starred: Option<bool>) -> (r: Option<FlagUpdate>)
    ensures
        r is None <==> flag_update_spec(is_read, is_starred) is None,
        r matches Some(u) ==> flag_update_spec(is_read, is_starred) == Some((u.sql@, u.params@)),
        r is None <==> (is_read is None && is_starred is None),
        is_read matches Some(b) ==> (r matches Some(u) && u.params@.len() >= 3 && u.params@[0] == FlagParam::Flag(
            if b { 1 } else { 0 },
        )),
        is_starred matches Some(b) ==> (r matches Some(u) && u.params@.len() >= 3 && u.params@[if is_read is Some {
            1int
        } else {
            0int
        }] == FlagParam::Flag(if b { 1 } else { 0 })),
        r matches Some(u) ==> u.params@.len() >= 3 && u.params@[u.params@.len() - 2] == FlagParam::UpdatedAt
            && u.params@[u.params@.len() - 1] == FlagParam::MessageId,
{
    match (is_read, is_starred) {
        (None, None) => None,
        (Some(r), Some(s)) => {
            let params = vec![
                FlagParam::Flag(if r { 1 } else { 0 }),
                FlagParam::Flag(if s { 1 } else { 0 }),
                FlagParam::UpdatedAt,
                FlagParam::MessageId,
            ];
            let u = FlagUpdate {
                sql: String::from_str(
                    "UPDATE messages SET is_read = ?1, is_starred = ?2, updated_at = ?3 WHERE id = ?4",
                ),
                params,
            };
            assert(u.params@ =~= spec_params(flag_update_spec(is_read, is_starred)));
            Some(u)
        },
        (Some(r), None) => {
            let params = vec![FlagParam::Flag(if r { 1 } else { 0 }), FlagParam::UpdatedAt, FlagParam::MessageId];
            let u = FlagUpdate {
                sql: String::from_str("UPDATE messages SET is_read = ?1, updated_at = ?2 WHERE id = ?3"),
                params,
            };
            assert(u.params@ =~= spec_params(flag_update_spec(is_read, is_starred)));
            Some(u)
        },
        (None, Some(s)) => {
            let params = vec![FlagParam::Flag(if s { 1 } else { 0 }), FlagParam::UpdatedAt, FlagParam::MessageId];
            let u = FlagUpdate {
                sql: String::from_str("UPDATE messages SET is_starred = ?1, updated_at = ?2 WHERE id = ?3"),
                params,
            };
            assert(u.params@ =~= spec_params(flag_update_spec(is_read, is_starred)));
            Some(u)
        },
    }
}

/// One requested change of a batch: a message id and the flags to set.
pub struct FlagChange {
    pub message_id: String,
    pub is_read: Option<bool>,
    pub is_starred: Option<bool>,
}

/// The updates a batch of flag changes runs, in order, each with the
/// message it applies to. Changes that ask for nothing are skipped.
pub fn bulk_flag_updates(changes: &Vec<FlagChange>) -> (r: Vec<(String, FlagUpdate)>)
    ensures
        r@.map_values(|u: (String, FlagUpdate)| (u.0@, u.1.sql@, u.1.params@)) == bulk_spec(changes@),
{
    let mut r: Vec<(String, FlagUpdate)> = Vec::new();
    let mut k: usize = 0;
    while k < changes.len()
        invariant
            0 <= k <= changes@.len(),
            r@.map_values(|u: (String, FlagUpdate)| (u.0@, u.1.sql@, u.1.params@)) == bulk_spec(changes@.take(k as int)),
        decreases changes@.len() - k,
    {
        let ghost before = r@.map_values(|u: (String, FlagUpdate)| (u.0@, u.1.sql@, u.1.params@));
        assert(changes@.take(k as int + 1).drop_last() =~= changes@.take(k as int));
        match message_flag_update(changes[k].is_read, changes[k].is_starred) {
            Some(u) => {
                let id = changes[k].message_id.clone();
                r.push((id, u));
                assert(r@.map_values(|u: (String, FlagUpdate)| (u.0@, u.1.sql@, u.1.params@)) =~= before.push(
                    (changes@[k as int].message_id@, spec_sql(flag_update_spec(changes@[k as int].is_read, changes@[k as int].is_starred)),
                    spec_params(flag_update_spec(changes@[k as int].is_read, changes@[k as int].is_starred))),
                ));
            },
            None => {},
        }
        k = k + 1;
    }
    assert(changes@.take(changes@.len() as int) =~= changes@);
    r
}

/// The statements a batch runs: for each change that asks for something,
/// its message id, statement and bound values.
pub open spec fn bulk_spec(changes: Seq<FlagChange>) -> Seq<(Seq<char>, Seq<char>, Seq<FlagParam>)>
    decreases changes.len(),
{
    if changes.len() == 0 {
        Seq::empty()
    } else {
        let init = bulk_spec(changes.drop_last());
        let c = changes.last();
        match flag_update_spec(c.is_read, c.is_starred) {
            Some((sql, params)) => init.push((c.message_id@, sql, params)),
            None => init,
        }
    }
}


/// A flag update writes exactly what was asked: the read flag asked for is
/// the first value bound, the starred flag asked for comes next (first
/// when the read flag is left alone), each as 1 for set and 0 for clear;
/// then the time of the change and the message id; and asking for nothing
/// writes nothing. A batch runs these same statements.
pub proof fn lemma_flag_update_writes_what_was_asked(is_read: Option<bool>, is_starred: Option<bool>)
    ensures
        flag_update_spec(is_read, is_starred) is None <==> (is_read is None && is_starred is None),
        is_read matches Some(b) ==> spec_params(flag_update_spec(is_read, is_starred))[0] == FlagParam::Flag(
            if b { 1 } else { 0 },
        ),
        is_starred matches Some(b) ==> spec_params(flag_update_spec(is_read, is_starred))[if is_read is Some {
            1int
        } else {
            0int
        }] == FlagParam::Flag(if b { 1 } else { 0 }),
        flag_update_spec(is_read, is_starred) is Some ==> {
            let p = spec_params(flag_update_spec(is_read, is_starred));
            &&& p.len() == (if is_read is Some { 1int } else { 0int }) + (if is_starred is Some { 1int } else { 0int }) + 2
            &&& p[p.len() - 2] == FlagParam::UpdatedAt
            &&& p[p.len() - 1] == FlagParam::MessageId
        },
{
}

} // verus!
