//! The statuses the server answers with.

use vstd::prelude::*;

verus! {

/// A response status.
pub enum StatusCode {
    Success,
    NoContent,
    BadRequest,
    NotFound,
}

/// The status line of a status.
pub open spec fn status_line_of(code: StatusCode) -> Seq<char> {
    match code {
        StatusCode::Success => "HTTP/1.1 200 OK"@,
        StatusCode::NoContent => "HTTP/1.1 204 No Content"@,
        StatusCode::BadRequest => "HTTP/1.1 400 Bad Request"@,
        StatusCode::NotFound => "HTTP/1.1 404 Not Found"@,
    }
}

impl StatusCode {
    /// The status line, as the first line of a response.
    pub fn status_line(&self) -> (s: String)
        ensures
            s@ == status_line_of(*self),
    {
        match self {
            StatusCode::Success => "HTTP/1.1 200 OK".to_owned(),
            StatusCode::NoContent => "HTTP/1.1 204 No Content".to_owned(),
            StatusCode::BadRequest => "HTTP/1.1 400 Bad Request".to_owned(),
            StatusCode::NotFound => "HTTP/1.1 404 Not Found".to_owned(),
        }
    }
}

} // verus!
