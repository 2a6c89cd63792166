//! The behaviour records that user actions on photos leave behind.
use vstd::prelude::*;

verus! {

/// A user action that the behaviour audit records.
#[derive(Debug, Clone, Copy, PartialEq, Eq, Structural)]
pub enum BehaviorAction {
    Like,
    Unlike,
    Collect,
    Uncollect,
}

/// One behaviour record, before it is written.
#[derive(Debug)]
pub struct BehaviorRecordReq {
    pub user_id: i64,
    pub action: BehaviorAction,
    /// The photo acted on.
    pub photo_id: Option<i64>,
    /// The collection named in the record's detail.
    pub collection_id: Option<i64>,
    /// The client address, when known.
    pub ip: Option<String>,
}

/// `ip` by its characters.
pub open spec fn ip_view(ip: Option<String>) -> Option<Seq<char>> {
    match ip {
        Some(s) => Some(s@),
        None => None,
    }
}

/// The record matches the fields given.
pub open spec fn record_is(
    r: BehaviorRecordReq,
    user_id: i64,
    action: BehaviorAction,
    photo_id: Option<i64>,
    collection_id: Option<i64>,
    ip: Option<Seq<char>>,
) -> bool {
    &&& r.user_id == user_id
    &&& r.action == action
    &&& r.photo_id == photo_id
    &&& r.collection_id == collection_id
    &&& ip_view(r.ip) == ip
}

fn copy_ip(ip: &Option<String>) -> (copy: Option<String>)
    ensures
        ip_view(copy) == ip_view(*ip),
{
    match ip {
        Some(s) => Some(s.clone()),
        None => None,
    }
}

/// Handlers for the photos of a collection.
pub struct CollectionPhotoController;

impl CollectionPhotoController {
    /// The records of a batch add or remove: one per photo, in order, each
    /// naming the collection.
    pub fn batch_records(
        user_id: i64,
        action: BehaviorAction,
        collection_id: i64,
        photo_ids: &Vec<i64>,
        ip: &Option<String>,
    ) -> (records: Vec<BehaviorRecordReq>)
        ensures
            records@.len() == photo_ids@.len(),
            forall|k: int|
                0 <= k < photo_ids@.len() ==> record_is(
                    #[trigger] records@[k],
                    user_id,
                    action,
                    Some(photo_ids@[k]),
                    Some(collection_id),
                    ip_view(*ip),
                ),
    {
        let mut records: Vec<BehaviorRecordReq> = Vec::new();
        let mut k: usize = 0;
        while k < photo_ids.len()
            invariant
                k <= photo_ids@.len(),
                records@.len() == k,
                forall|x: int|
                    0 <= x < k ==> record_is(
                        #[trigger] records@[x],
                        user_id,
                        action,
                        Some(photo_ids@[x]),
                        Some(collection_id),
                        ip_view(*ip),
                    ),
            decreases photo_ids.len() - k,
        {
            records.push(
                BehaviorRecordReq {
                    user_id,
                    action,
                    photo_id: Some(photo_ids[k]),
                    collection_id: Some(collection_id),
                    ip: copy_ip(ip),
                },
            );
            k = k + 1;
        }
        records
    }

    /// The record of removing one photo from a collection.
    pub fn remove_record(user_id: i64, collection_id: i64, photo_id: i64, ip: Option<String>) -> (record:
        BehaviorRecordReq)
        ensures
            record_is(
                record,
                user_id,
                BehaviorAction::Uncollect,
                Some(photo_id),
                Some(collection_id),
                ip_view(ip),
            ),
    {
        BehaviorRecordReq {
            user_id,
            action: BehaviorAction::Uncollect,
            photo_id: Some(photo_id),
            collection_id: Some(collection_id),
            ip,
        }
    }
}

/// Handlers for photo likes.
pub struct PhotoLikeController;

impl PhotoLikeController {
    /// The record of liking (`liked`) or unliking a photo.
    pub fn like_record(user_id: i64, photo_id: i64, liked: bool, ip: Option<String>) -> (record:
        BehaviorRecordReq)
        ensures
            record_is(
                record,
                user_id,
                if liked {
                    BehaviorAction::Like
                } else {
                    BehaviorAction::Unlike
                },
                Some(photo_id),
                None,
                ip_view(ip),
            ),
    {
        BehaviorRecordReq {
            user_id,
            action: if liked {
                BehaviorAction::Like
            } else {
                BehaviorAction::Unlike
            },
            photo_id: Some(photo_id),
            collection_id: None,
            ip,
        }
    }
}

} // verus!
