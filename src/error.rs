use vstd::prelude::*;

verus! {

/// The kinds of failure a request can end in.
#[derive(Debug, Clone, Copy, PartialEq, Eq, Structural)]
pub enum ServiceError {
    BadRequest,
    Unauthorized,
    InvalidCategory,
    InvalidFileType,
    InvalidTorrentFile,
    TorrentNotFound,
    TrackerUnavailable,
    InternalServerError,
}

pub open spec fn status_spec(e: ServiceError) -> u16 {
    match e {
        ServiceError::BadRequest => 400,
        ServiceError::Unauthorized => 401,
        ServiceError::InvalidCategory => 400,
        ServiceError::InvalidFileType => 400,
        ServiceError::InvalidTorrentFile => 400,
        ServiceError::TorrentNotFound => 404,
        ServiceError::TrackerUnavailable => 502,
        ServiceError::InternalServerError => 500,
    }
}

impl ServiceError {
    /// The HTTP status code that the error is reported with.
    pub fn status_code(&self) -> (r: u16)
        ensures
            r == status_spec(*self),
    {
        match self {
            ServiceError::BadRequest => 400,
            ServiceError::Unauthorized => 401,
            ServiceError::InvalidCategory => 400,
            ServiceError::InvalidFileType => 400,
            ServiceError::InvalidTorrentFile => 400,
            ServiceError::TorrentNotFound => 404,
            ServiceError::TrackerUnavailable => 502,
            ServiceError::InternalServerError => 500,
        }
    }
}

} // verus!
