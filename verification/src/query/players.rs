//! The player list query.

use crate::error::Error;
use crate::reader::{Reader, Scan};
use vstd::prelude::*;

verus! {

/// The header byte of a player list request, `U`.
pub const PLAYERS_REQUEST_HEADER: u8 = 0x55;

/// The header byte of a player list response, `D`.
pub const PLAYERS_RESPONSE_HEADER: u8 = 0x44;

/// One player on the server.
#[derive(Debug, Clone, PartialEq, Eq)]
pub struct PlayerInfo {
    pub index: u8,
    pub name: String,
    pub score: i32,
    /// The time the player has been connected, in seconds: the bits of an IEEE 754
    /// single precision number, as `f32::from_bits` takes them.
    pub duration_bits: u32,
}

/// A `PlayerInfo` with its name as a sequence of characters.
pub struct PlayerInfoView {
    pub index: u8,
    pub name: Seq<char>,
    pub score: i32,
    pub duration_bits: u32,
}

impl View for PlayerInfo {
    type V = PlayerInfoView;

    open spec fn view(&self) -> PlayerInfoView {
        PlayerInfoView {
            index: self.index,
            name: self.name@,
            score: self.score,
            duration_bits: self.duration_bits,
        }
    }
}

/// The players on a server.
#[derive(Debug, Clone, PartialEq, Eq)]
pub struct Players {
    pub header: u8,
    pub nb_players: u8,
    pub players: Vec<PlayerInfo>,
}

/// A `Players` with its records as a sequence of views.
pub struct PlayersView {
    pub header: u8,
    pub nb_players: u8,
    pub players: Seq<PlayerInfoView>,
}

/// The views of the records of `players`, in order.
pub open spec fn player_views(players: Seq<PlayerInfo>) -> Seq<PlayerInfoView> {
    Seq::new(players.len(), |i: int| players[i]@)
}

impl View for Players {
    type V = PlayersView;

    open spec fn view(&self) -> PlayersView {
        PlayersView {
            header: self.header,
            nb_players: self.nb_players,
            players: player_views(self.players@),
        }
    }
}

/// The player record that stands at `c`: slot index, name, score, connection time.
pub open spec fn player_at(c: Scan) -> PlayerInfoView {
    PlayerInfoView {
        index: c.byte(),
        name: c.skip(1).text(),
        score: c.skip(1).skip_text().int32(),
        duration_bits: c.skip(1).skip_text().skip(4).uint32(),
    }
}

/// The scan after the player record at `c` was taken.
pub open spec fn after_player(c: Scan) -> Scan {
    c.skip(1).skip_text().skip(4).skip(4)
}

/// The `n` player records that stand at `c`, in order.
pub open spec fn players_at(c: Scan, n: nat) -> Seq<PlayerInfoView>
    decreases n,
{
    if n == 0 {
        Seq::empty()
    } else {
        seq![player_at(c)] + players_at(after_player(c), (n - 1) as nat)
    }
}

/// The scan after `n` player records were taken from `c`, or the scan at which reading
/// them stopped.
pub open spec fn after_players(c: Scan, n: nat) -> Scan
    decreases n,
{
    if n == 0 || !c.ok() {
        c
    } else {
        after_players(after_player(c), (n - 1) as nat)
    }
}

/// What the bytes of a player list response mean: the header byte `D`, a count of one
/// byte, and that many records. Bytes after the last record are not looked at.
pub open spec fn parse_players(bytes: Seq<u8>) -> Result<PlayersView, Error> {
    let at_header = Scan::start(bytes);
    let header = at_header.byte();
    let at_count = at_header.skip(1).require(
        header == PLAYERS_RESPONSE_HEADER,
        Error::InvalidResponse,
    );
    let count = at_count.byte();
    let at_records = at_count.skip(1);
    outcome(header, count, at_records)
}

/// The list of `count` records that stand at `at_records`, or the error that stops
/// the reading of them.
pub open spec fn outcome(header: u8, count: u8, at_records: Scan) -> Result<PlayersView, Error> {
    match after_players(at_records, count as nat).failure {
        Some(e) => Err(e),
        None => Ok(
            PlayersView {
                header,
                nb_players: count,
                players: players_at(at_records, count as nat),
            },
        ),
    }
}

/// A successfully decoded list holds as many records as its count says, so a count
/// of zero gives an empty list.
pub proof fn lemma_players_count(bytes: Seq<u8>)
    requires
        parse_players(bytes) is Ok,
    ensures
        parse_players(bytes).unwrap().players.len() == parse_players(bytes).unwrap().nb_players,
{
    let at_records = Scan::start(bytes).skip(1).require(
        Scan::start(bytes).byte() == PLAYERS_RESPONSE_HEADER,
        Error::InvalidResponse,
    ).skip(1);
    lemma_players_len(at_records, parse_players(bytes).unwrap().nb_players as nat);
}

/// A count of zero gives an empty list and no error, whatever follows the count.
pub proof fn lemma_no_players(bytes: Seq<u8>)
    requires
        bytes.len() >= 2,
        bytes[0] == PLAYERS_RESPONSE_HEADER,
        bytes[1] == 0,
    ensures
        parse_players(bytes) == Ok::<PlayersView, Error>(
            PlayersView { header: PLAYERS_RESPONSE_HEADER, nb_players: 0, players: Seq::empty() },
        ),
{
}

proof fn lemma_players_len(c: Scan, n: nat)
    ensures
        players_at(c, n).len() == n,
    decreases n,
{
    if n > 0 {
        lemma_players_len(after_player(c), (n - 1) as nat);
    }
}

fn read_player(reader: &mut Reader) -> (r: Result<PlayerInfo, Error>)
    ensures
        match r {
            Ok(player) => after_player(old(reader).scan()).ok() && player@ == player_at(
                old(reader).scan(),
            ) && final(reader)@ == after_player(old(reader).scan()).rest,
            Err(e) => after_player(old(reader).scan()).failure == Some(e),
        },
{
    let index = reader.read_u8()?;
    let name = reader.read_cstring()?;
    let score = reader.read_i32()?;
    let duration_bits = reader.read_u32()?;
    Ok(PlayerInfo { index, name, score, duration_bits })
}

impl Players {
    /// Decodes the payload of a player list response.
    pub fn decode(data: &[u8]) -> (r: Result<Players, Error>)
        ensures
            match parse_players(data@) {
                Ok(view) => r matches Ok(list) && list@ == view,
                Err(e) => r matches Err(f) && f == e,
            },
    {
        let mut reader = Reader::new(data);
        let header = reader.read_u8()?;
        if header != PLAYERS_RESPONSE_HEADER {
            return Err(Error::InvalidResponse);
        }
        let nb_players = reader.read_u8()?;
        let ghost at_records = reader.scan();
        let mut players: Vec<PlayerInfo> = Vec::new();
        let mut i: u8 = 0;
        while i < nb_players
            invariant
                i <= nb_players,
                parse_players(data@) == outcome(header, nb_players, at_records),
                players@.len() == i,
                after_players(at_records, nb_players as nat) == after_players(
                    reader.scan(),
                    (nb_players - i) as nat,
                ),
                players_at(at_records, nb_players as nat) == player_views(players@) + players_at(
                    reader.scan(),
                    (nb_players - i) as nat,
                ),
            decreases nb_players - i,
        {
            let ghost before = reader.scan();
            let ghost earlier = player_views(players@);
            match read_player(&mut reader) {
                Err(e) => {
                    assert(after_players(after_player(before), (nb_players - i - 1) as nat)
                        == after_player(before));
                    assert(after_players(before, (nb_players - i) as nat) == after_player(before));
                    return Err(e);
                },
                Ok(player) => {
                    players.push(player);
                    assert(player_views(players@) =~= earlier + seq![player@]);
                    assert(earlier + (seq![player@] + players_at(
                        reader.scan(),
                        (nb_players - i - 1) as nat,
                    )) =~= (earlier + seq![player@]) + players_at(
                        reader.scan(),
                        (nb_players - i - 1) as nat,
                    ));
                },
            }
            i = i + 1;
        }
        assert(player_views(players@) + Seq::<PlayerInfoView>::empty() =~= player_views(players@));
        Ok(Players { header, nb_players, players })
    }
}

} // verus!
