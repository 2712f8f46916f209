//! The request/response protocol: status and request kinds, the response
//! record and its wire text.
use vstd::prelude::*;

use crate::dto::header::{Header, HeaderView, header_text};
use crate::models::User;
use crate::payload::{Payload, json_object_text, lemma_json_object_text_no_breaks};
use crate::dto::command::{Command, CommandTypes, StoreReply, header_after, payload_after, reply_fits};
use crate::framing::{
    decode_lossy, lemma_encode_no_breaks, lemma_three_lines, line_text, lines, no_line_breaks,
    remove_all, remove_all_occurrences, split_lines,
};
use crate::payload::lookup;
use crate::text::{chars_of, decimal, signed_decimal, string_of};
use vstd::utf8::{encode_utf8, encode_utf8_valid_utf8, encode_utf8_decode_utf8};

verus! {

/// Outcome status carried in a header.
#[derive(Clone, Copy, Debug, PartialEq, Eq, Structural)]
pub enum StatusType {
    Okay,
    Error,
    MissingArg,
}

/// The name of a status as it is written on the wire.
pub open spec fn status_text(s: StatusType) -> Seq<char> {
    match s {
        StatusType::Okay => "Okay"@,
        StatusType::Error => "Error"@,
        StatusType::MissingArg => "MissingArg"@,
    }
}

impl StatusType {
    /// The wire name of the status.
    pub fn as_text(&self) -> (s: &'static str)
        ensures
            s@ == status_text(*self),
    {
        match self {
            StatusType::Okay => "Okay",
            StatusType::Error => "Error",
            StatusType::MissingArg => "MissingArg",
        }
    }

    /// The wire name of the status, as an owned string.
    pub fn to_string(&self) -> (s: String)
        ensures
            s@ == status_text(*self),
    {
        crate::payload::string_from(self.as_text())
    }
}

/// Whether a response goes to the whole channel (`Send`) or only back to the
/// connection that asked (`Receive`).
#[derive(Clone, Copy, Debug)]
pub enum RequestType {
    Receive,
    Send,
}

/// The name of a request kind as it is written on the wire.
pub open spec fn request_type_text(r: RequestType) -> Seq<char> {
    match r {
        RequestType::Receive => "RECEIVE"@,
        RequestType::Send => "SEND"@,
    }
}

impl RequestType {
    /// The wire name of the request kind.
    pub fn as_text(&self) -> (s: &'static str)
        ensures
            s@ == request_type_text(*self),
    {
        match self {
            RequestType::Receive => "RECEIVE",
            RequestType::Send => "SEND",
        }
    }

    /// The wire name of the request kind, as an owned string.
    pub fn to_string(&self) -> (s: String)
        ensures
            s@ == request_type_text(*self),
    {
        crate::payload::string_from(self.as_text())
    }
}

impl PartialEq for RequestType {
    fn eq(&self, other: &Self) -> (r: bool) {
        match (self, other) {
            (RequestType::Receive, RequestType::Receive) => true,
            (RequestType::Send, RequestType::Send) => true,
            _ => false,
        }
    }
}

impl vstd::std_specs::cmp::PartialEqSpecImpl for RequestType {
    open spec fn obeys_eq_spec() -> bool {
        true
    }

    open spec fn eq_spec(&self, other: &RequestType) -> bool {
        match (*self, *other) {
            (RequestType::Receive, RequestType::Receive) => true,
            (RequestType::Send, RequestType::Send) => true,
            _ => false,
        }
    }
}

/// A response (or a request a client builds): its kind, header and payload.
pub struct HeaderSend {
    pub req_type: RequestType,
    pub header: Header,
    pub payload: Payload,
}

/// The wire text of a response: the kind, the header text and the payload's
/// JSON text, on three lines separated by CR LF, the last one prefixed with
/// `Payload: `.
pub open spec fn wire_text(req_type: RequestType, header: HeaderView, payload: Seq<(Seq<char>, Seq<char>)>) -> Seq<char> {
    request_type_text(req_type) + "\r\n"@ + header_text(header) + "\r\nPayload: "@ + json_object_text(payload)
}

impl HeaderSend {
    /// The wire text (see `wire_text`).
    pub fn to_string(&self) -> (s: String)
        ensures
            s@ == wire_text(self.req_type, self.header@, self.payload@),
            no_line_breaks(json_object_text(self.payload@)),
    {
        proof {
            lemma_json_object_text_no_breaks(self.payload@);
        }
        let mut out = chars_of(self.req_type.as_text());
        let mut part = chars_of("\r\n");
        out.append(&mut part);
        let h = self.header.to_string();
        let mut part = chars_of(h.as_str());
        out.append(&mut part);
        let mut part = chars_of("\r\nPayload: ");
        out.append(&mut part);
        let p = self.payload.to_string();
        let mut part = chars_of(p.as_str());
        out.append(&mut part);
        let s = string_of(&out);
        assert(s@ =~= wire_text(self.req_type, self.header@, self.payload@));
        s
    }
}

/// The header text and the payload text of a request buffer: the second
/// and third of its non-empty lines, decoded, with every `Payload:` removed
/// from the third; nothing when the buffer has fewer than three lines.
pub open spec fn request_sections(buf: Seq<u8>) -> Option<(Seq<char>, Seq<char>)> {
    let ls = lines(buf);
    if ls.len() >= 3 {
        Some((line_text(ls[1]), remove_all(line_text(ls[2]), "Payload:"@)))
    } else {
        None
    }
}

/// The bytes of `SEND`.
pub open spec fn send_marker() -> Seq<u8> {
    seq![83u8, 69u8, 78u8, 68u8]
}

/// The kind of response to a command whose payload is `payload`: it goes to
/// the channel exactly when the payload names one.
pub open spec fn response_kind(payload: Seq<(Seq<char>, Seq<char>)>) -> RequestType {
    if lookup(payload, "channel"@) is Some {
        RequestType::Send
    } else {
        RequestType::Receive
    }
}

/// Entry points of the protocol.
pub struct Protocol {}

impl Protocol {
    /// The request a client sends for `user`: a `Send` request on channel `/`
    /// with status `Okay`, marked successful, carrying the user's id and
    /// nickname, the given request id and the payload.
    pub fn build(user: User, payload: Payload, request_id: u64) -> (r: HeaderSend)
        ensures
            r.req_type == RequestType::Send,
            r.header.user == user.id,
            r.header.user_name@ == user.nickname@,
            r.header.status == StatusType::Okay,
            r.header.request_id == request_id,
            r.header.success,
            r.header.channel@ == "/"@,
            r.payload@ == payload@,
    {
        let header = Header {
            user: user.id,
            user_name: user.nickname,
            status: StatusType::Okay,
            request_id,
            success: true,
            channel: crate::payload::string_from("/"),
        };
        HeaderSend { req_type: RequestType::Send, header, payload }
    }

    /// Whether the buffer starts with `SEND`: the server refuses such a
    /// buffer as a request.
    pub fn is_send_request(buf: &[u8]) -> (r: bool)
        ensures
            r == (buf@.len() >= 4 && buf@.take(4) == send_marker()),
    {
        if buf.len() < 4 {
            return false;
        }
        let r = buf[0] == 83u8 && buf[1] == 69u8 && buf[2] == 78u8 && buf[3] == 68u8;
        assert(r ==> buf@.take(4) =~= send_marker());
        assert(buf@.take(4) == send_marker() ==> buf@.take(4)[0] == 83u8 && buf@.take(4)[1] == 69u8
            && buf@.take(4)[2] == 78u8 && buf@.take(4)[3] == 68u8);
        r
    }

    /// Reads the header text and the payload text out of a request buffer
    /// (see `request_sections`).
    pub fn read_sections(buf: &[u8]) -> (r: Option<(String, String)>)
        ensures
            match r {
                Some((h, p)) => request_sections(buf@) == Some((h@, p@)),
                None => request_sections(buf@) is None,
            },
    {
        let rows = split_lines(buf);
        if rows.len() < 3 {
            return None;
        }
        let header = decode_lossy(rows[1].as_slice());
        let payload = decode_lossy(rows[2].as_slice());
        let payload_chars = chars_of(payload.as_str());
        let marker = chars_of("Payload:");
        let stripped = remove_all_occurrences(&payload_chars, &marker);
        let payload = string_of(&stripped);
        assert(rows@[1]@ == lines(buf@)[1]);
        assert(rows@[2]@ == lines(buf@)[2]);
        Some((header, payload))
    }

    /// Answers a parsed request: handles the command against the header and
    /// the user store's reply, and sends the answer to the channel when its
    /// payload names one, otherwise back to the requester.
    pub fn answer(header: Header, command: Command, reply: StoreReply) -> (r: HeaderSend)
        requires
            reply_fits(command.command, reply),
        ensures
            r.header@ == header_after(command.command, command.input@, header@, reply),
            r.payload@ == payload_after(command.command, command.input@, header@, reply),
            r.req_type == response_kind(r.payload@),
            (r.req_type == RequestType::Send) <==> (command.command == CommandTypes::Message),
    {
        let ghost c = command.command;
        let mut header = header;
        let payload = command.handle_command(&mut header, reply);
        let req_type = if payload.contains_key("channel") {
            RequestType::Send
        } else {
            RequestType::Receive
        };
        proof {
            lemma_channel_only_in_messages(c, command.input@, header@, reply);
        }
        HeaderSend { req_type, header, payload }
    }
}

/// Only the answer to a message names a channel.
proof fn lemma_channel_only_in_messages(c: CommandTypes, input: Seq<char>, h: HeaderView, reply: StoreReply)
    ensures
        (lookup(payload_after(c, input, h, reply), "channel"@) is Some) <==> c == CommandTypes::Message,
{
    reveal_strlit("channel");
    reveal_strlit("status");
    reveal_strlit("message");
    reveal_strlit("user_name");
    assert("channel"@[0] != "status"@[0]);
    assert("channel"@[0] != "message"@[0]);
    assert("channel"@[0] != "user_name"@[0]);
    let p = payload_after(c, input, h, reply);
    if c == CommandTypes::Message {
        assert(p.last().0 == "channel"@);
    } else {
        assert(lookup(p, "channel"@) is None) by {
            reveal_with_fuel(lookup, 3);
        }
    }
}

/// The decimal digits of a number hold no line break.
proof fn lemma_decimal_no_breaks(n: nat)
    ensures
        no_line_breaks(decimal(n)),
    decreases n,
{
    if n >= 10 {
        lemma_decimal_no_breaks(n / 10);
    }
}

/// A header's text is never empty, and holds a line break only where its
/// user name does.
pub proof fn lemma_header_text_no_breaks(h: HeaderView)
    requires
        no_line_breaks(h.user_name),
    ensures
        no_line_breaks(header_text(h)),
        header_text(h).len() > 0,
{
    reveal_strlit("{ \"request_id\": ");
    reveal_strlit(", \"status\": \"");
    reveal_strlit("\", \"success\": ");
    reveal_strlit(", \"user\": ");
    reveal_strlit(", \"user_name\": \"");
    reveal_strlit("\" }");
    reveal_strlit("true");
    reveal_strlit("false");
    reveal_strlit("Okay");
    reveal_strlit("Error");
    reveal_strlit("MissingArg");
    lemma_decimal_no_breaks(h.request_id as nat);
    if h.user < 0 {
        lemma_decimal_no_breaks((-h.user) as nat);
    } else {
        lemma_decimal_no_breaks(h.user as nat);
    }
    assert(no_line_breaks(signed_decimal(h.user as int))) by {
        if h.user < 0 {
            let d = decimal((-(h.user as int)) as nat);
            assert forall|i: int| 0 <= i < (seq!['-'] + d).len() implies #[trigger] (seq!['-'] + d)[i] != '\r'
                && (seq!['-'] + d)[i] != '\n' by {
                if i > 0 {
                    assert((seq!['-'] + d)[i] == d[i - 1]);
                }
            }
        }
    }
    let t = header_text(h);
    assert(no_line_breaks(t));
}

/// What a client writes is what the server reads: a request whose first
/// line is any non-empty text, followed by a header's text and a payload
/// line, encoded as UTF-8, yields the header's text and the payload line
/// with the `Payload:` marker removed, when the first line, the user name
/// and the payload text hold no line break.
pub proof fn lemma_wire_round_trip(first: Seq<char>, header: HeaderView, payload_text: Seq<char>)
    requires
        first.len() > 0,
        no_line_breaks(first),
        no_line_breaks(header.user_name),
        no_line_breaks(payload_text),
    ensures
        request_sections(encode_utf8(first + "\r\n"@ + header_text(header) + "\r\nPayload: "@ + payload_text))
            == Some((header_text(header), remove_all("Payload: "@ + payload_text, "Payload:"@))),
{
    reveal_strlit("\r\n");
    reveal_strlit("\r\nPayload: ");
    reveal_strlit("Payload: ");
    let b = header_text(header);
    let c = "Payload: "@ + payload_text;
    lemma_header_text_no_breaks(header);
    assert(no_line_breaks(c)) by {
        assert forall|i: int| 0 <= i < c.len() implies #[trigger] c[i] != '\r' && c[i] != '\n' by {
            if i >= 9 {
                assert(c[i] == payload_text[i - 9]);
            }
        }
    }
    assert("\r\nPayload: "@ =~= "\r\n"@ + "Payload: "@);
    assert(first + "\r\n"@ + b + "\r\nPayload: "@ + payload_text =~= first + "\r\n"@ + b + "\r\n"@ + c);
    lemma_three_lines(first, b, c);
    encode_utf8_valid_utf8(b);
    encode_utf8_valid_utf8(c);
    encode_utf8_decode_utf8(b);
    encode_utf8_decode_utf8(c);
}

/// A response's wire text reads back as its header's text and its payload's
/// JSON text after `Payload: ` with the marker removed, whenever the user
/// name holds no line break.
pub proof fn lemma_response_round_trip(req_type: RequestType, header: HeaderView, payload: Seq<(Seq<char>, Seq<char>)>)
    requires
        no_line_breaks(header.user_name),
    ensures
        request_sections(encode_utf8(wire_text(req_type, header, payload))) == Some(
            (header_text(header), remove_all("Payload: "@ + json_object_text(payload), "Payload:"@)),
        ),
{
    reveal_strlit("RECEIVE");
    reveal_strlit("SEND");
    lemma_json_object_text_no_breaks(payload);
    lemma_wire_round_trip(request_type_text(req_type), header, json_object_text(payload));
}

} // verus!
