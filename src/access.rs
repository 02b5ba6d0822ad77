use vstd::prelude::*;
use crate::error::ServiceError;
use crate::metainfo::bytes_eq;

verus! {

/// The user a request was made by.
pub struct User {
    pub username: Vec<u8>,
    pub administrator: bool,
}

/// A description may be changed by the torrent's uploader or by an administrator.
pub open spec fn may_update(user: Option<User>, uploader: Seq<u8>) -> bool {
    user matches Some(u) && (u.username@ == uploader || u.administrator)
}

/// A torrent may be deleted by an administrator only.
pub open spec fn may_delete(user: Option<User>) -> bool {
    user matches Some(u) && u.administrator
}

/// A personalized download needs a known user.
pub open spec fn may_download(user: Option<User>) -> bool {
    user is Some
}

/// Decides an update of a torrent uploaded by `uploader`.
pub fn authorize_update(user: &Option<User>, uploader: &[u8]) -> (r: Result<(), ServiceError>)
    ensures
        r is Ok <==> may_update(*user, uploader@),
        r matches Err(e) ==> e == ServiceError::Unauthorized,
{
    match user {
        Some(u) => {
            if bytes_eq(u.username.as_slice(), uploader) || u.administrator {
                Ok(())
            } else {
                Err(ServiceError::Unauthorized)
            }
        },
        None => Err(ServiceError::Unauthorized),
    }
}

/// Decides a deletion.
pub fn authorize_delete(user: &Option<User>) -> (r: Result<(), ServiceError>)
    ensures
        r is Ok <==> may_delete(*user),
        r matches Err(e) ==> e == ServiceError::Unauthorized,
{
    match user {
        Some(u) => if u.administrator {
            Ok(())
        } else {
            Err(ServiceError::Unauthorized)
        },
        None => Err(ServiceError::Unauthorized),
    }
}

/// Decides a download.
pub fn authorize_download(user: &Option<User>) -> (r: Result<(), ServiceError>)
    ensures
        r is Ok <==> may_download(*user),
        r matches Err(e) ==> e == ServiceError::Unauthorized,
{
    match user {
        Some(_) => Ok(()),
        None => Err(ServiceError::Unauthorized),
    }
}

/// The outcome of a statement that changes one row: a failed statement, or one
/// that touched no row, means the torrent does not exist.
pub fn row_outcome(affected: Option<u64>) -> (r: Result<(), ServiceError>)
    ensures
        r is Ok <==> (affected matches Some(n) && n > 0),
        r matches Err(e) ==> e == ServiceError::TorrentNotFound,
{
    match affected {
        Some(n) => if n > 0 {
            Ok(())
        } else {
            Err(ServiceError::TorrentNotFound)
        },
        None => Err(ServiceError::TorrentNotFound),
    }
}

} // verus!
