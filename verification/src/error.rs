//! Error taxonomy of the authority and its mapping to HTTP status codes.
use vstd::prelude::*;

verus! {

/// Everything a flow or the per-request pipeline can fail with.
///
/// `BadRequest` carries the validation message that was detected at the
/// boundary; `Internal` carries the infrastructure cause. The bare variants
/// are deliberately message-free: credential and session failures must not
/// leak which check failed.
#[derive(Debug)]
pub enum Error {
    BadRequest(String),
    Internal(String),
    Forbidden,
    InvalidCredentials,
    NotFound,
    Unauthorized,
}

impl Error {
    /// The HTTP status this error surfaces as.
    pub fn status_code(&self) -> (code: u16)
        ensures
            code == self.spec_status_code(),
    {
        match self {
            Error::BadRequest(_) => 400,
            Error::Internal(_) => 500,
            Error::Forbidden => 403,
            Error::InvalidCredentials => 401,
            Error::NotFound => 404,
            Error::Unauthorized => 401,
        }
    }

    pub open spec fn spec_status_code(&self) -> u16 {
        match self {
            Error::BadRequest(_) => 400u16,
            Error::Internal(_) => 500u16,
            Error::Forbidden => 403u16,
            Error::InvalidCredentials => 401u16,
            Error::NotFound => 404u16,
            Error::Unauthorized => 401u16,
        }
    }

    /// The server-side message: the carried cause for `BadRequest` and
    /// `Internal`, a generic reason phrase otherwise.
    pub fn message(&self) -> (msg: String)
        ensures
            msg@ == self.spec_message(),
    {
        match self {
            Error::BadRequest(err) => err.clone(),
            Error::Internal(err) => err.clone(),
            Error::Forbidden => "Forbidden".to_owned(),
            Error::InvalidCredentials => "Invalid Credentials".to_owned(),
            Error::NotFound => "Not Found".to_owned(),
            Error::Unauthorized => "Unauthorized".to_owned(),
        }
    }

    pub open spec fn spec_message(&self) -> Seq<char> {
        match self {
            Error::BadRequest(err) => err@,
            Error::Internal(err) => err@,
            Error::Forbidden => "Forbidden"@,
            Error::InvalidCredentials => "Invalid Credentials"@,
            Error::NotFound => "Not Found"@,
            Error::Unauthorized => "Unauthorized"@,
        }
    }

    /// The message shown to the client. Outside of development builds an
    /// internal failure is replaced by a generic phrase so that
    /// infrastructure causes are never shown verbatim.
    pub fn client_message(&self, dev_build: bool) -> (msg: String)
        ensures
            self matches Error::Internal(_) && !dev_build ==> msg@ == "Internal Server Error"@,
            !(self matches Error::Internal(_) && !dev_build) ==> msg@ == self.spec_message(),
    {
        if !dev_build {
            if let Error::Internal(_) = self {
                return "Internal Server Error".to_owned();
            }
        }
        self.message()
    }
}

} // verus!
