//! Server-side logic of a small chat protocol: request framing, command
//! handling, response rendering, channel subscriptions and the input line of
//! the terminal client.
pub mod text;
pub mod models;
pub mod payload;
pub mod framing;
pub mod protocol;
pub mod dto;
pub mod channel_manager;
pub mod json;
pub mod components;

use vstd::prelude::*;

use crate::channel_manager::{ChannelManager, subscribers};
use crate::protocol::{HeaderSend, RequestType};

verus! {

/// The connections that receive the answer to a request on connection
/// `connection`: the connection first joins the answer's channel; a `Send`
/// answer then goes to every subscriber of that channel, any other answer
/// only back to the connection.
pub fn dispatch(manager: &mut ChannelManager, connection: u64, response: &HeaderSend) -> (to: Vec<u64>)
    ensures
        subscribers(final(manager)@, response.header.channel@) == subscribers(
            old(manager)@,
            response.header.channel@,
        ).push(connection),
        forall|other: Seq<char>|
            other != response.header.channel@ ==> subscribers(final(manager)@, other) == subscribers(
                old(manager)@,
                other,
            ),
        response.req_type == RequestType::Send ==> to@ == subscribers(final(manager)@, response.header.channel@),
        response.req_type == RequestType::Receive ==> to@ == seq![connection],
{
    manager.subscribe(response.header.channel.clone(), connection);
    match response.req_type {
        RequestType::Send => manager.send_to_channel(response.header.channel.as_str()),
        RequestType::Receive => {
            let mut to: Vec<u64> = Vec::new();
            to.push(connection);
            to
        },
    }
}

/// A channel message reaches the connection that sent it, after everyone
/// who joined the channel before.
pub proof fn lemma_sender_hears_own_message(
    before: Seq<(Seq<char>, Seq<u64>)>,
    after: Seq<(Seq<char>, Seq<u64>)>,
    channel: Seq<char>,
    connection: u64,
    to: Seq<u64>,
)
    requires
        subscribers(after, channel) == subscribers(before, channel).push(connection),
        to == subscribers(after, channel),
    ensures
        to.len() == subscribers(before, channel).len() + 1,
        to.last() == connection,
        to.drop_last() == subscribers(before, channel),
{
    assert(to.drop_last() =~= subscribers(before, channel));
}

} // verus!
