//! The header that travels with every request and response.
use vstd::prelude::*;

use crate::protocol::{StatusType, status_text};
use crate::text::{chars_of, decimal, push_decimal, push_signed_decimal, signed_decimal, string_of};

verus! {

/// A request or response header.
pub struct Header {
    pub request_id: u64,
    pub status: StatusType,
    pub success: bool,
    pub user: i32,
    pub user_name: String,
    pub channel: String,
}

/// The abstract content of a header, strings taken as character sequences.
pub struct HeaderView {
    pub request_id: u64,
    pub status: StatusType,
    pub success: bool,
    pub user: i32,
    pub user_name: Seq<char>,
    pub channel: Seq<char>,
}

impl View for Header {
    type V = HeaderView;

    open spec fn view(&self) -> HeaderView {
        HeaderView {
            request_id: self.request_id,
            status: self.status,
            success: self.success,
            user: self.user,
            user_name: self.user_name@,
            channel: self.channel@,
        }
    }
}

/// `true` or `false`.
pub open spec fn bool_text(b: bool) -> Seq<char> {
    if b { "true"@ } else { "false"@ }
}

/// The text of a header as it is written on the wire: a JSON-like object with
/// the request id, status, success flag, user id and user name, in that
/// order. The user name is written as it is, without escaping; the channel is
/// not written.
pub open spec fn header_text(h: HeaderView) -> Seq<char> {
    "{ \"request_id\": "@ + decimal(h.request_id as nat) + ", \"status\": \""@ + status_text(h.status)
        + "\", \"success\": "@ + bool_text(h.success) + ", \"user\": "@ + signed_decimal(h.user as int)
        + ", \"user_name\": \""@ + h.user_name + "\" }"@
}

impl Header {
    /// The wire text of the header (see `header_text`).
    pub fn to_string(&self) -> (s: String)
        ensures
            s@ == header_text(self@),
    {
        let mut out: Vec<char> = chars_of("{ \"request_id\": ");
        push_decimal(self.request_id, &mut out);
        let mut part = chars_of(", \"status\": \"");
        out.append(&mut part);
        let mut part = chars_of(self.status.as_text());
        out.append(&mut part);
        let mut part = chars_of("\", \"success\": ");
        out.append(&mut part);
        let mut part = if self.success { chars_of("true") } else { chars_of("false") };
        out.append(&mut part);
        let mut part = chars_of(", \"user\": ");
        out.append(&mut part);
        push_signed_decimal(self.user as i64, &mut out);
        let mut part = chars_of(", \"user_name\": \"");
        out.append(&mut part);
        let mut part = chars_of(self.user_name.as_str());
        out.append(&mut part);
        let mut part = chars_of("\" }");
        out.append(&mut part);
        let s = string_of(&out);
        assert(s@ =~= header_text(self@));
        s
    }
}

} // verus!
