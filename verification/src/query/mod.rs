//! Requests, the reassembly of replies, the challenge handshake and the decoders.
//!
//! A query is a short conversation. `Session` holds where it stands and says what to
//! send; `transport::Transfer` turns the datagrams that come back into the payload of
//! one reply; the decoders of `info`, `players` and `rules` read that payload.

pub mod info;
pub mod players;
pub mod rules;
pub mod transport;

use crate::error::Error;
use crate::query::info::{parse_info, Info, InfoView};
use crate::query::players::{parse_players, Players, PlayersView, PLAYERS_REQUEST_HEADER};
use crate::query::rules::{parse_rules, Rules, RulesView, RULES_REQUEST_HEADER};
use crate::reader::{Reader, Scan};
use crate::wire::{i32_le_bytes, le_i32, lemma_read_then_write, write_i32};
use vstd::prelude::*;

verus! {

/// The header byte of an information request, `T`.
pub const INFO_REQUEST_HEADER: u8 = 0x54;

/// The header byte of the reply that carries a challenge token, `A`.
pub const CHALLENGE_HEADER: u8 = 0x41;

/// The token of a request that has none yet.
pub const NO_CHALLENGE: i32 = -1;

/// The information request: the single packet marker, the header byte `T`, the text
/// `Source Engine Query` and a zero byte.
pub const INFO_REQUEST: [u8; 25] = [
    0xFF,
    0xFF,
    0xFF,
    0xFF,
    0x54,
    0x53,
    0x6F,
    0x75,
    0x72,
    0x63,
    0x65,
    0x20,
    0x45,
    0x6E,
    0x67,
    0x69,
    0x6E,
    0x65,
    0x20,
    0x51,
    0x75,
    0x65,
    0x72,
    0x79,
    0x00,
];

/// The request of a query that needs a challenge: the single packet marker, the header
/// byte of the query, and the token in four bytes, least significant first.
pub open spec fn challenge_request(header: u8, token: i32) -> Seq<u8> {
    seq![0xFFu8, 0xFFu8, 0xFFu8, 0xFFu8, header] + i32_le_bytes(token)
}

/// The token that a challenge reply carries: the header byte `A`, then the token in
/// four bytes, least significant first.
pub open spec fn challenge_token(reply: Seq<u8>) -> Result<i32, Error> {
    let at_header = Scan::start(reply);
    let at_token = at_header.skip(1).require(
        at_header.byte() == CHALLENGE_HEADER,
        Error::InvalidResponse,
    );
    match at_token.skip(4).failure {
        Some(e) => Err(e),
        None => Ok(at_token.int32()),
    }
}

/// The three queries.
#[derive(Debug, Clone, Copy, PartialEq, Eq)]
pub enum Request {
    Info,
    Players,
    Rules,
}

impl Request {
    /// The header byte of the request.
    pub open spec fn header(self) -> u8 {
        match self {
            Request::Info => INFO_REQUEST_HEADER,
            Request::Players => PLAYERS_REQUEST_HEADER,
            Request::Rules => RULES_REQUEST_HEADER,
        }
    }

    /// The header byte of the request.
    pub fn header_byte(&self) -> (header: u8)
        ensures
            header == self.header(),
    {
        match self {
            Request::Info => INFO_REQUEST_HEADER,
            Request::Players => PLAYERS_REQUEST_HEADER,
            Request::Rules => RULES_REQUEST_HEADER,
        }
    }

    /// Builds the request with the token `token` in it.
    pub fn with_challenge(&self, token: i32) -> (request: Vec<u8>)
        ensures
            request@ == challenge_request(self.header(), token),
    {
        let mut request: Vec<u8> = Vec::new();
        request.push(0xFF);
        request.push(0xFF);
        request.push(0xFF);
        request.push(0xFF);
        request.push(self.header_byte());
        let field = write_i32(token);
        let mut i: usize = 0;
        while i < 4
            invariant
                i <= 4,
                field@ == i32_le_bytes(token),
                request@ == seq![0xFFu8, 0xFFu8, 0xFFu8, 0xFFu8, self.header()]
                    + i32_le_bytes(token).take(i as int),
            decreases 4 - i,
        {
            request.push(field[i]);
            assert(i32_le_bytes(token).take(i + 1) =~= i32_le_bytes(token).take(i as int).push(
                field@[i as int],
            ));
            i = i + 1;
        }
        assert(i32_le_bytes(token).take(4) =~= i32_le_bytes(token));
        request
    }
}

/// Reads the token out of a challenge reply.
pub fn read_challenge(reply: &[u8]) -> (r: Result<i32, Error>)
    ensures
        r == challenge_token(reply@),
{
    let mut reader = Reader::new(reply);
    let header = reader.read_u8()?;
    if header != CHALLENGE_HEADER {
        return Err(Error::InvalidResponse);
    }
    let token = reader.read_i32()?;
    Ok(token)
}

/// Where a query stands.
#[derive(Debug, Clone, Copy, PartialEq, Eq)]
pub enum Session {
    /// The request went out without a token; the reply should bring one.
    Challenge(Request),
    /// The request went out in its final form; the reply should be the answer.
    Answer(Request),
}

/// The answer to a query.
#[derive(Debug, Clone, PartialEq, Eq)]
pub enum Response {
    Info(Info),
    Players(Players),
    Rules(Rules),
}

/// A `Response` as a mathematical value.
pub enum ResponseView {
    Info(InfoView),
    Players(PlayersView),
    Rules(RulesView),
}

impl View for Response {
    type V = ResponseView;

    open spec fn view(&self) -> ResponseView {
        match self {
            Response::Info(info) => ResponseView::Info(info@),
            Response::Players(players) => ResponseView::Players(players@),
            Response::Rules(rules) => ResponseView::Rules(rules@),
        }
    }
}

/// What to do next in a query.
#[derive(Debug)]
pub enum Turn {
    /// Send these bytes, and come back with the payload of the reply.
    Send(Session, Vec<u8>),
    /// The query is answered.
    Done(Response),
}

/// A `Turn` as a mathematical value.
pub enum TurnView {
    Send(Session, Seq<u8>),
    Done(ResponseView),
}

impl View for Turn {
    type V = TurnView;

    open spec fn view(&self) -> TurnView {
        match self {
            Turn::Send(session, request) => TurnView::Send(*session, request@),
            Turn::Done(response) => TurnView::Done(response@),
        }
    }
}

/// The first turn of a query. The information query needs no challenge and goes out
/// at once; the two others first ask for a token.
pub open spec fn opening(request: Request) -> TurnView {
    match request {
        Request::Info => TurnView::Send(Session::Answer(Request::Info), INFO_REQUEST@),
        _ => TurnView::Send(
            Session::Challenge(request),
            challenge_request(request.header(), NO_CHALLENGE),
        ),
    }
}

/// The answer that the payload of a final reply holds.
pub open spec fn answer(request: Request, payload: Seq<u8>) -> Result<ResponseView, Error> {
    match request {
        Request::Info => match parse_info(payload) {
            Ok(info) => Ok(ResponseView::Info(info)),
            Err(e) => Err(e),
        },
        Request::Players => match parse_players(payload) {
            Ok(players) => Ok(ResponseView::Players(players)),
            Err(e) => Err(e),
        },
        Request::Rules => match parse_rules(payload) {
            Ok(rules) => Ok(ResponseView::Rules(rules)),
            Err(e) => Err(e),
        },
    }
}

/// The turn that follows the payload of a reply. A challenge reply is answered by the
/// same request with the token in it; the reply to that is decoded. The information
/// query has no challenge: a session that awaits one for it is refused with
/// `InvalidResponse`, whatever the payload holds.
pub open spec fn reply(session: Session, payload: Seq<u8>) -> Result<TurnView, Error> {
    match session {
        Session::Challenge(Request::Info) => Err(Error::InvalidResponse),
        Session::Challenge(request) => match challenge_token(payload) {
            Ok(token) => Ok(
                TurnView::Send(
                    Session::Answer(request),
                    challenge_request(request.header(), token),
                ),
            ),
            Err(e) => Err(e),
        },
        Session::Answer(request) => match answer(request, payload) {
            Ok(response) => Ok(TurnView::Done(response)),
            Err(e) => Err(e),
        },
    }
}

impl Session {
    /// Opens a query: the first bytes to send, and the session that awaits the reply.
    pub fn open(request: Request) -> (first: Turn)
        ensures
            first@ == opening(request),
    {
        match request {
            Request::Info => {
                let mut bytes: Vec<u8> = Vec::new();
                let mut i: usize = 0;
                while i < 25
                    invariant
                        i <= 25,
                        bytes@ == INFO_REQUEST@.take(i as int),
                    decreases 25 - i,
                {
                    bytes.push(INFO_REQUEST[i]);
                    assert(INFO_REQUEST@.take(i + 1) =~= INFO_REQUEST@.take(i as int).push(
                        INFO_REQUEST@[i as int],
                    ));
                    i = i + 1;
                }
                assert(INFO_REQUEST@.take(25) =~= INFO_REQUEST@);
                Turn::Send(Session::Answer(Request::Info), bytes)
            },
            _ => Turn::Send(Session::Challenge(request), request.with_challenge(NO_CHALLENGE)),
        }
    }

    /// Takes the payload of a reply and says what follows. An error ends the query.
    pub fn reply(self, payload: &[u8]) -> (r: Result<Turn, Error>)
        ensures
            match reply(self, payload@) {
                Ok(view) => r matches Ok(turn) && turn@ == view,
                Err(e) => r matches Err(f) && f == e,
            },
    {
        match self {
            Session::Challenge(Request::Info) => Err(Error::InvalidResponse),
            Session::Challenge(request) => {
                let token = read_challenge(payload)?;
                Ok(Turn::Send(Session::Answer(request), request.with_challenge(token)))
            },
            Session::Answer(Request::Info) => Ok(Turn::Done(Response::Info(Info::decode(payload)?))),
            Session::Answer(Request::Players) => Ok(
                Turn::Done(Response::Players(Players::decode(payload)?)),
            ),
            Session::Answer(Request::Rules) => Ok(
                Turn::Done(Response::Rules(Rules::decode(payload)?)),
            ),
        }
    }
}

/// The handshake sends the token back as it came: where the first reply to a player
/// list or rules query opens with `A`, the second request is the marker, the header
/// byte of the query, and the four bytes that followed the `A`.
pub proof fn lemma_token_echo(request: Request, first_reply: Seq<u8>)
    requires
        request != Request::Info,
        first_reply.len() >= 5,
        first_reply[0] == CHALLENGE_HEADER,
    ensures
        reply(Session::Challenge(request), first_reply) == Ok::<TurnView, Error>(
            TurnView::Send(
                Session::Answer(request),
                seq![0xFFu8, 0xFFu8, 0xFFu8, 0xFFu8, request.header()] + first_reply.subrange(
                    1,
                    5,
                ),
            ),
        ),
{
    let field = first_reply.subrange(1, 5);
    lemma_read_then_write(field);
    assert(le_i32(first_reply.skip(1)) == le_i32(field));
}

} // verus!
