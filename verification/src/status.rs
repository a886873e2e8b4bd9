//! HTTP status codes with their numeric values and reason phrases.

use vstd::prelude::*;

verus! {

/// The status codes the server emits.
#[derive(Debug, Clone, Copy, PartialEq, Eq, Structural)]
pub enum Status {
    OK,
    Created,
    NoContent,
    BadRequest,
    Unauthorized,
    Forbidden,
    NotFound,
    MethodNotAllowed,
    TooManyRequests,
    InternalServerError,
}

/// The numeric code of a status.
pub open spec fn status_code(s: Status) -> u16 {
    match s {
        Status::OK => 200,
        Status::Created => 201,
        Status::NoContent => 204,
        Status::BadRequest => 400,
        Status::Unauthorized => 401,
        Status::Forbidden => 403,
        Status::NotFound => 404,
        Status::MethodNotAllowed => 405,
        Status::TooManyRequests => 429,
        Status::InternalServerError => 500,
    }
}

/// The reason phrase of a status, as bytes.
pub open spec fn status_text_bytes(s: Status) -> Seq<u8> {
    match s {
        Status::OK => seq![79u8, 75u8],  // "OK"
        Status::Created => seq![67u8, 114u8, 101u8, 97u8, 116u8, 101u8, 100u8],  // "Created"
        // "No Content"
        Status::NoContent => seq![78u8, 111u8, 32u8, 67u8, 111u8, 110u8, 116u8, 101u8, 110u8, 116u8],
        // "Bad Request"
        Status::BadRequest => seq![66u8, 97u8, 100u8, 32u8, 82u8, 101u8, 113u8, 117u8, 101u8, 115u8, 116u8],
        // "Unauthorized"
        Status::Unauthorized => seq![85u8, 110u8, 97u8, 117u8, 116u8, 104u8, 111u8, 114u8, 105u8, 122u8, 101u8, 100u8],
        // "Forbidden"
        Status::Forbidden => seq![70u8, 111u8, 114u8, 98u8, 105u8, 100u8, 100u8, 101u8, 110u8],
        // "Not Found"
        Status::NotFound => seq![78u8, 111u8, 116u8, 32u8, 70u8, 111u8, 117u8, 110u8, 100u8],
        // "Method Not Allowed"
        Status::MethodNotAllowed => seq![
            77u8, 101u8, 116u8, 104u8, 111u8, 100u8, 32u8, 78u8, 111u8, 116u8, 32u8, 65u8, 108u8,
            108u8, 111u8, 119u8, 101u8, 100u8,
        ],
        // "Too Many Requests"
        Status::TooManyRequests => seq![
            84u8, 111u8, 111u8, 32u8, 77u8, 97u8, 110u8, 121u8, 32u8, 82u8, 101u8, 113u8, 117u8,
            101u8, 115u8, 116u8, 115u8,
        ],
        // "Internal Server Error"
        Status::InternalServerError => seq![
            73u8, 110u8, 116u8, 101u8, 114u8, 110u8, 97u8, 108u8, 32u8, 83u8, 101u8, 114u8, 118u8,
            101u8, 114u8, 32u8, 69u8, 114u8, 114u8, 111u8, 114u8,
        ],
    }
}

impl Status {
    /// The numeric code of this status.
    pub fn code(&self) -> (r: u16)
        ensures
            r == status_code(*self),
    {
        match self {
            Status::OK => 200,
            Status::Created => 201,
            Status::NoContent => 204,
            Status::BadRequest => 400,
            Status::Unauthorized => 401,
            Status::Forbidden => 403,
            Status::NotFound => 404,
            Status::MethodNotAllowed => 405,
            Status::TooManyRequests => 429,
            Status::InternalServerError => 500,
        }
    }

    /// The reason phrase, for display.
    pub fn text(&self) -> &'static str {
        match self {
            Status::OK => "OK",
            Status::Created => "Created",
            Status::NoContent => "No Content",
            Status::BadRequest => "Bad Request",
            Status::Unauthorized => "Unauthorized",
            Status::Forbidden => "Forbidden",
            Status::NotFound => "Not Found",
            Status::MethodNotAllowed => "Method Not Allowed",
            Status::TooManyRequests => "Too Many Requests",
            Status::InternalServerError => "Internal Server Error",
        }
    }

    /// The reason phrase as owned bytes, for serialization.
    pub fn text_vec(&self) -> (r: Vec<u8>)
        ensures
            r@ == status_text_bytes(*self),
    {
        let s: &[u8] = match self {
            Status::OK => &[79, 75],
            Status::Created => &[67, 114, 101, 97, 116, 101, 100],
            Status::NoContent => &[78, 111, 32, 67, 111, 110, 116, 101, 110, 116],
            Status::BadRequest => &[66, 97, 100, 32, 82, 101, 113, 117, 101, 115, 116],
            Status::Unauthorized => &[85, 110, 97, 117, 116, 104, 111, 114, 105, 122, 101, 100],
            Status::Forbidden => &[70, 111, 114, 98, 105, 100, 100, 101, 110],
            Status::NotFound => &[78, 111, 116, 32, 70, 111, 117, 110, 100],
            Status::MethodNotAllowed => &[
                77, 101, 116, 104, 111, 100, 32, 78, 111, 116, 32, 65, 108, 108, 111, 119, 101,
                100,
            ],
            Status::TooManyRequests => &[
                84, 111, 111, 32, 77, 97, 110, 121, 32, 82, 101, 113, 117, 101, 115, 116, 115,
            ],
            Status::InternalServerError => &[
                73, 110, 116, 101, 114, 110, 97, 108, 32, 83, 101, 114, 118, 101, 114, 32, 69,
                114, 114, 111, 114,
            ],
        };
        let r = vstd::slice::slice_to_vec(s);
        proof {
            assert(r@ =~= status_text_bytes(*self));
        }
        r
    }
}

} // verus!
