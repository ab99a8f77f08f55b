//! What the answers of the date store mean. The store holds each date once,
//! under its written form as key; it is asked to insert a date, to delete
//! one, and to list its keys in ascending order.

use vstd::prelude::*;

verus! {

/// What the store answered to a request to insert a date.
#[derive(Clone, Copy, Debug, PartialEq, Eq, Structural)]
pub enum InsertReply {
    /// The date was not in the store and now is.
    Inserted,
    /// The date was in the store already, and the store is as it was.
    AlreadyPresent,
    /// The store failed.
    Failed,
}

/// What the store answered to a request to delete a date.
#[derive(Clone, Copy, Debug, PartialEq, Eq, Structural)]
pub enum DeleteReply {
    /// The date was in the store and no longer is.
    Deleted,
    /// The date was not in the store, and the store is as it was.
    Absent,
    /// The store failed.
    Failed,
}

/// What a delete that removed `rows` keys means: the date was absent where
/// it removed none.
pub open spec fn delete_reply_of(rows: int) -> DeleteReply {
    if rows == 0 {
        DeleteReply::Absent
    } else {
        DeleteReply::Deleted
    }
}

/// Whether an insert is reported as a success: a date that was there
/// already counts as added.
pub open spec fn insert_succeeded(reply: InsertReply) -> bool {
    reply != InsertReply::Failed
}

/// Whether a delete is reported as a success: a date that was not there
/// counts as deleted.
pub open spec fn delete_succeeded(reply: DeleteReply) -> bool {
    reply != DeleteReply::Failed
}

/// What a delete that removed `rows` keys means.
pub fn delete_reply(rows: usize) -> (reply: DeleteReply)
    ensures
        reply == delete_reply_of(rows as int),
{
    if rows == 0 {
        DeleteReply::Absent
    } else {
        DeleteReply::Deleted
    }
}

/// Whether the insert that the store answered with `reply` is a success.
pub fn insert_is_success(reply: InsertReply) -> (success: bool)
    ensures
        success == insert_succeeded(reply),
        reply == InsertReply::AlreadyPresent ==> success,
{
    match reply {
        InsertReply::Inserted => true,
        InsertReply::AlreadyPresent => true,
        InsertReply::Failed => false,
    }
}

/// Whether the delete that the store answered with `reply` is a success.
pub fn delete_is_success(reply: DeleteReply) -> (success: bool)
    ensures
        success == delete_succeeded(reply),
        reply == DeleteReply::Absent ==> success,
{
    match reply {
        DeleteReply::Deleted => true,
        DeleteReply::Absent => true,
        DeleteReply::Failed => false,
    }
}

} // verus!
