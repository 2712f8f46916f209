//! Commands a client sends, and what the server does with each.
use vstd::prelude::*;

use crate::dto::header::{Header, HeaderView};
use crate::models::User;
use crate::payload::{Payload, string_from, str_eq, lemma_store_empty, lemma_store_fresh, lookup};
use crate::protocol::StatusType;

verus! {

/// The commands of the chat protocol.
#[derive(Clone, Copy, Debug, PartialEq, Eq, Structural)]
pub enum CommandTypes {
    Register,
    Login,
    Join,
    Message,
    Whisper,
    Exit,
}

/// The name by which a command is written in a request.
pub open spec fn command_name(c: CommandTypes) -> Seq<char> {
    match c {
        CommandTypes::Register => "/register"@,
        CommandTypes::Login => "/login"@,
        CommandTypes::Join => "/join"@,
        CommandTypes::Message => "/message"@,
        CommandTypes::Whisper => "/whisper"@,
        CommandTypes::Exit => "/exit"@,
    }
}

/// The command written as `name`, if there is one.
pub open spec fn command_named(name: Seq<char>) -> Option<CommandTypes> {
    if name == "/register"@ {
        Some(CommandTypes::Register)
    } else if name == "/login"@ {
        Some(CommandTypes::Login)
    } else if name == "/join"@ {
        Some(CommandTypes::Join)
    } else if name == "/message"@ {
        Some(CommandTypes::Message)
    } else if name == "/whisper"@ {
        Some(CommandTypes::Whisper)
    } else if name == "/exit"@ {
        Some(CommandTypes::Exit)
    } else {
        None
    }
}

/// A request's command name that names no command.
pub struct UnknownCommand {
    pub name: String,
}

impl CommandTypes {
    /// The name by which the command is written in a request.
    pub fn as_str(&self) -> (s: &'static str)
        ensures
            s@ == command_name(*self),
    {
        match self {
            CommandTypes::Register => "/register",
            CommandTypes::Login => "/login",
            CommandTypes::Join => "/join",
            CommandTypes::Message => "/message",
            CommandTypes::Whisper => "/whisper",
            CommandTypes::Exit => "/exit",
        }
    }

    /// Reads a command from its name; any other text is refused with the
    /// text itself.
    pub fn from_name(name: &str) -> (r: Result<CommandTypes, UnknownCommand>)
        ensures
            match r {
                Ok(c) => command_named(name@) == Some(c),
                Err(e) => command_named(name@) is None && e.name@ == name@,
            },
    {
        if str_eq(name, "/register") {
            Ok(CommandTypes::Register)
        } else if str_eq(name, "/login") {
            Ok(CommandTypes::Login)
        } else if str_eq(name, "/join") {
            Ok(CommandTypes::Join)
        } else if str_eq(name, "/message") {
            Ok(CommandTypes::Message)
        } else if str_eq(name, "/whisper") {
            Ok(CommandTypes::Whisper)
        } else if str_eq(name, "/exit") {
            Ok(CommandTypes::Exit)
        } else {
            Err(UnknownCommand { name: string_from(name) })
        }
    }
}

/// Reading a command's name gives the command back, and a name that reads
/// as a command is that command's name.
pub proof fn lemma_command_name_round_trip(c: CommandTypes, name: Seq<char>)
    ensures
        command_named(command_name(c)) == Some(c),
        command_named(name) == Some(c) ==> command_name(c) == name,
{
    reveal_strlit("/register");
    reveal_strlit("/login");
    reveal_strlit("/join");
    reveal_strlit("/message");
    reveal_strlit("/whisper");
    reveal_strlit("/exit");
    assert("/register"@[1] == 'r');
    assert("/login"@[1] == 'l');
    assert("/join"@[1] == 'j');
    assert("/message"@[1] == 'm');
    assert("/whisper"@[1] == 'w');
    assert("/exit"@[1] == 'e');
}

/// A command and its argument, as a client sends them.
pub struct Command {
    pub command: CommandTypes,
    pub input: String,
}

/// What a command needs from the user store before it can be answered.
pub enum StoreRequest {
    /// Nothing: the command is answered without the store.
    Nothing,
    /// Create a user with this nickname.
    Register(String),
    /// Look up the user with this nickname.
    FindUser(String),
}

/// What the user store answered.
pub enum StoreReply {
    /// The store was not asked.
    Nothing,
    /// The user that was created or found.
    Stored(User),
    /// No user was found; the store's message says why.
    Missing(String),
}

/// The store's reply is one that the command can be answered with: a
/// registration needs the created user, a login a user or a failure.
pub open spec fn reply_fits(c: CommandTypes, reply: StoreReply) -> bool {
    match c {
        CommandTypes::Register => reply is Stored,
        CommandTypes::Login => reply is Stored || reply is Missing,
        _ => true,
    }
}

/// The header after a command was handled.
pub open spec fn header_after(c: CommandTypes, input: Seq<char>, h: HeaderView, reply: StoreReply) -> HeaderView {
    match c {
        CommandTypes::Register | CommandTypes::Login => match reply {
            StoreReply::Stored(u) => HeaderView { user: u.id, user_name: u.nickname@, ..h },
            StoreReply::Missing(_) => HeaderView {
                user: 0,
                user_name: Seq::empty(),
                success: false,
                status: StatusType::Error,
                ..h
            },
            StoreReply::Nothing => h,
        },
        _ => h,
    }
}

/// The payload answered to a command.
pub open spec fn payload_after(c: CommandTypes, input: Seq<char>, h: HeaderView, reply: StoreReply) -> Seq<(Seq<char>, Seq<char>)> {
    match c {
        CommandTypes::Register => seq![("status"@, "success"@)],
        CommandTypes::Login => match reply {
            StoreReply::Missing(msg) => seq![("status"@, "error"@), ("message"@, msg@)],
            StoreReply::Stored(u) => seq![("status"@, "success"@), ("user_name"@, u.nickname@)],
            StoreReply::Nothing => seq![("status"@, "success"@)],
        },
        CommandTypes::Message => seq![("message"@, input), ("channel"@, h.channel)],
        _ => seq![("status"@, "not_implemented"@)],
    }
}

/// Handling a command never changes the request id or the channel, and
/// only a login the store refused marks the header as failed.
pub proof fn lemma_handling_keeps_request_and_channel(c: CommandTypes, input: Seq<char>, h: HeaderView, reply: StoreReply)
    requires
        reply_fits(c, reply),
    ensures
        header_after(c, input, h, reply).request_id == h.request_id,
        header_after(c, input, h, reply).channel == h.channel,
        header_after(c, input, h, reply).success != h.success ==> c == CommandTypes::Login && reply is Missing,
{
}

/// What handling a command does to the header: the request id and the
/// channel never change; the status and the success flag change only for a
/// login the store refused, which marks them `Error` and `false` and clears
/// the user; a registration or a login the store answered takes the user's
/// id and nickname; the other commands leave the header as it was.
pub proof fn lemma_handling_header_effect(c: CommandTypes, input: Seq<char>, h: HeaderView, reply: StoreReply)
    requires
        reply_fits(c, reply),
    ensures
        header_after(c, input, h, reply).request_id == h.request_id,
        header_after(c, input, h, reply).channel == h.channel,
        header_after(c, input, h, reply).status == (if c == CommandTypes::Login && reply is Missing {
            StatusType::Error
        } else {
            h.status
        }),
        header_after(c, input, h, reply).success == (if c == CommandTypes::Login && reply is Missing {
            false
        } else {
            h.success
        }),
        (c == CommandTypes::Register || c == CommandTypes::Login) && reply is Stored ==> header_after(c, input, h, reply).user
            == reply->Stored_0.id && header_after(c, input, h, reply).user_name == reply->Stored_0.nickname@,
        c == CommandTypes::Login && reply is Missing ==> header_after(c, input, h, reply).user == 0
            && header_after(c, input, h, reply).user_name.len() == 0,
        c != CommandTypes::Register && c != CommandTypes::Login ==> header_after(c, input, h, reply) == h,
{
}

/// What each answer says: registration and a login the store answered
/// report `success` (a login also gives the user name), a refused login
/// reports `error` with the store's message, a message carries its text and
/// channel and no status, and the other commands report `not_implemented`.
pub proof fn lemma_answer_fields(c: CommandTypes, input: Seq<char>, h: HeaderView, reply: StoreReply)
    requires
        reply_fits(c, reply),
    ensures
        c == CommandTypes::Register ==> lookup(payload_after(c, input, h, reply), "status"@) == Some("success"@),
        c == CommandTypes::Login && reply is Stored ==> lookup(payload_after(c, input, h, reply), "status"@) == Some(
            "success"@,
        ) && lookup(payload_after(c, input, h, reply), "user_name"@) == Some(reply->Stored_0.nickname@),
        c == CommandTypes::Login && reply is Missing ==> lookup(payload_after(c, input, h, reply), "status"@) == Some(
            "error"@,
        ) && lookup(payload_after(c, input, h, reply), "message"@) == Some(reply->Missing_0@),
        c == CommandTypes::Message ==> lookup(payload_after(c, input, h, reply), "message"@) == Some(input)
            && lookup(payload_after(c, input, h, reply), "channel"@) == Some(h.channel) && lookup(
            payload_after(c, input, h, reply),
            "status"@,
        ) is None,
        c == CommandTypes::Join || c == CommandTypes::Whisper || c == CommandTypes::Exit ==> lookup(
            payload_after(c, input, h, reply),
            "status"@,
        ) == Some("not_implemented"@),
{
    reveal_strlit("status");
    reveal_strlit("message");
    reveal_strlit("channel");
    reveal_strlit("user_name");
    assert("status"@[0] != "message"@[0]);
    assert("status"@[0] != "channel"@[0]);
    assert("status"@[0] != "user_name"@[0]);
    assert("message"@[0] != "channel"@[0]);
    reveal_with_fuel(lookup, 3);
}

impl Command {
    /// What the command needs from the user store: registration creates a
    /// user named by the input, login looks one up by the input, the other
    /// commands need nothing.
    pub fn store_request(&self) -> (r: StoreRequest)
        ensures
            match r {
                StoreRequest::Register(n) => self.command == CommandTypes::Register && n@ == self.input@,
                StoreRequest::FindUser(n) => self.command == CommandTypes::Login && n@ == self.input@,
                StoreRequest::Nothing => self.command != CommandTypes::Register && self.command != CommandTypes::Login,
            },
    {
        match self.command {
            CommandTypes::Register => StoreRequest::Register(self.input.clone()),
            CommandTypes::Login => StoreRequest::FindUser(self.input.clone()),
            _ => StoreRequest::Nothing,
        }
    }

    /// Handles the command: updates the header and returns the payload of
    /// the answer (see `header_after` and `payload_after`).
    pub fn handle_command(self, header: &mut Header, reply: StoreReply) -> (p: Payload)
        requires
            reply_fits(self.command, reply),
        ensures
            final(header)@ == header_after(self.command, self.input@, old(header)@, reply),
            p@ == payload_after(self.command, self.input@, old(header)@, reply),
    {
        match self.command {
            CommandTypes::Register => Self::register(self, header, reply),
            CommandTypes::Login => Self::login(self, header, reply),
            CommandTypes::Join => Self::join(),
            CommandTypes::Message => Self::message(self, header),
            CommandTypes::Whisper => Self::whisper(),
            CommandTypes::Exit => Self::exit(),
        }
    }

    fn register(self, header: &mut Header, reply: StoreReply) -> (p: Payload)
        requires
            self.command == CommandTypes::Register,
            reply is Stored,
        ensures
            final(header)@ == header_after(self.command, self.input@, old(header)@, reply),
            p@ == payload_after(self.command, self.input@, old(header)@, reply),
    {
        if let StoreReply::Stored(user) = reply {
            header.user = user.id;
            header.user_name = user.nickname;
        }
        status_payload("success")
    }

    fn login(self, header: &mut Header, reply: StoreReply) -> (p: Payload)
        requires
            self.command == CommandTypes::Login,
            reply is Stored || reply is Missing,
        ensures
            final(header)@ == header_after(self.command, self.input@, old(header)@, reply),
            p@ == payload_after(self.command, self.input@, old(header)@, reply),
    {
        let mut p = Payload::new();
        proof {
            lemma_store_empty("status"@, "success"@);
            lemma_store_empty("status"@, "error"@);
        }
        match reply {
            StoreReply::Stored(user) => {
                let user_name = user.nickname.clone();
                header.user = user.id;
                header.user_name = user.nickname;
                p.insert("status", string_from("success"));
                p.insert("user_name", user_name);
                proof {
                    reveal_strlit("status");
                    reveal_strlit("user_name");
                    assert("status"@[0] != "user_name"@[0]);
                }
            },
            StoreReply::Missing(message) => {
                header.user = 0;
                header.user_name = String::new();
                header.success = false;
                header.status = StatusType::Error;
                p.insert("status", string_from("error"));
                p.insert("message", message);
                proof {
                    reveal_strlit("status");
                    reveal_strlit("message");
                    assert("status"@[0] != "message"@[0]);
                }
            },
            StoreReply::Nothing => {},
        }
        p
    }

    fn join() -> (p: Payload)
        ensures
            p@ == seq![("status"@, "not_implemented"@)],
    {
        status_payload("not_implemented")
    }

    fn message(self, header: &mut Header) -> (p: Payload)
        ensures
            final(header)@ == old(header)@,
            p@ == seq![("message"@, self.input@), ("channel"@, old(header)@.channel)],
    {
        let mut p = Payload::new();
        p.insert("message", self.input);
        p.insert("channel", header.channel.clone());
        proof {
            reveal_strlit("message");
            reveal_strlit("channel");
            assert("message"@[0] != "channel"@[0]);
            lemma_store_empty("message"@, self.input@);
            lemma_store_fresh(seq![("message"@, self.input@)], "channel"@, old(header)@.channel);
        }
        p
    }

    fn whisper() -> (p: Payload)
        ensures
            p@ == seq![("status"@, "not_implemented"@)],
    {
        status_payload("not_implemented")
    }

    fn exit() -> (p: Payload)
        ensures
            p@ == seq![("status"@, "not_implemented"@)],
    {
        status_payload("not_implemented")
    }
}

/// An object with the single field `status`.
fn status_payload(status: &str) -> (p: Payload)
    ensures
        p@ == seq![("status"@, status@)],
{
    let mut p = Payload::new();
    p.insert("status", string_from(status));
    assert(p@ =~= seq![("status"@, status@)]);
    p
}

} // verus!
