//! The server information query.

use crate::error::Error;
use crate::reader::{Reader, Scan};
use vstd::prelude::*;

verus! {

/// The header byte of an information response, `I`.
pub const INFO_RESPONSE_HEADER: u8 = 0x49;

/// The extra data flag bit that announces the game port.
pub const FLAG_GAME_PORT: u8 = 0x80;

/// The extra data flag bit that announces the Steam identifier.
pub const FLAG_STEAM_ID: u8 = 0x10;

/// The extra data flag bit that announces the SourceTV port and name.
pub const FLAG_SOURCETV: u8 = 0x40;

/// The extra data flag bit that announces the keywords.
pub const FLAG_KEYWORDS: u8 = 0x20;

/// The extra data flag bit that announces the 64 bit game identifier.
pub const FLAG_GAME_ID: u8 = 0x01;

/// What kind of server answered.
#[derive(Debug, Clone, Copy, PartialEq, Eq)]
pub enum Type {
    Dedicated,
    NonDedicated,
    Proxy,
}

/// The operating system the server runs on.
#[derive(Debug, Clone, Copy, PartialEq, Eq)]
pub enum Environment {
    Linux,
    Windows,
    Mac,
}

/// Whether the server asks for a password.
#[derive(Debug, Clone, Copy, PartialEq, Eq)]
pub enum Visibility {
    Public,
    Private,
}

/// Whether the server is protected by the anti-cheat system.
#[derive(Debug, Clone, Copy, PartialEq, Eq)]
pub enum Vac {
    Unsecured,
    Secured,
}

impl Type {
    /// The server type that a tag byte stands for: `d`, `i` or `p`.
    pub open spec fn of_byte(tag: u8) -> Option<Type> {
        if tag == 0x64 {
            Some(Type::Dedicated)
        } else if tag == 0x69 {
            Some(Type::NonDedicated)
        } else if tag == 0x70 {
            Some(Type::Proxy)
        } else {
            None
        }
    }

    /// Maps a tag byte to its server type; any byte but `d`, `i`, `p` is an error.
    pub fn from_byte(tag: u8) -> (r: Result<Type, Error>)
        ensures
            match Type::of_byte(tag) {
                Some(t) => r == Ok::<Type, Error>(t),
                None => r == Err::<Type, Error>(Error::InvalidServerType),
            },
    {
        match tag {
            0x64 => Ok(Type::Dedicated),
            0x69 => Ok(Type::NonDedicated),
            0x70 => Ok(Type::Proxy),
            _ => Err(Error::InvalidServerType),
        }
    }
}

impl Environment {
    /// The environment that a tag byte stands for: `l`, `w`, and `m` or `o` for Mac.
    pub open spec fn of_byte(tag: u8) -> Option<Environment> {
        if tag == 0x6C {
            Some(Environment::Linux)
        } else if tag == 0x77 {
            Some(Environment::Windows)
        } else if tag == 0x6D || tag == 0x6F {
            Some(Environment::Mac)
        } else {
            None
        }
    }

    /// Maps a tag byte to its environment; any byte but `l`, `w`, `m`, `o` is an error.
    pub fn from_byte(tag: u8) -> (r: Result<Environment, Error>)
        ensures
            match Environment::of_byte(tag) {
                Some(t) => r == Ok::<Environment, Error>(t),
                None => r == Err::<Environment, Error>(Error::InvalidEnvironment),
            },
    {
        match tag {
            0x6C => Ok(Environment::Linux),
            0x77 => Ok(Environment::Windows),
            0x6D | 0x6F => Ok(Environment::Mac),
            _ => Err(Error::InvalidEnvironment),
        }
    }
}

impl Visibility {
    /// The visibility that a tag byte stands for: 0 is public, 1 is private.
    pub open spec fn of_byte(tag: u8) -> Option<Visibility> {
        if tag == 0 {
            Some(Visibility::Public)
        } else if tag == 1 {
            Some(Visibility::Private)
        } else {
            None
        }
    }

    /// Maps a tag byte to its visibility; any byte but 0 and 1 is an error.
    pub fn from_byte(tag: u8) -> (r: Result<Visibility, Error>)
        ensures
            match Visibility::of_byte(tag) {
                Some(t) => r == Ok::<Visibility, Error>(t),
                None => r == Err::<Visibility, Error>(Error::InvalidVisibility),
            },
    {
        match tag {
            0 => Ok(Visibility::Public),
            1 => Ok(Visibility::Private),
            _ => Err(Error::InvalidVisibility),
        }
    }
}

impl Vac {
    /// The anti-cheat state that a tag byte stands for: 0 is unsecured, 1 is secured.
    pub open spec fn of_byte(tag: u8) -> Option<Vac> {
        if tag == 0 {
            Some(Vac::Unsecured)
        } else if tag == 1 {
            Some(Vac::Secured)
        } else {
            None
        }
    }

    /// Maps a tag byte to its anti-cheat state; any byte but 0 and 1 is an error.
    pub fn from_byte(tag: u8) -> (r: Result<Vac, Error>)
        ensures
            match Vac::of_byte(tag) {
                Some(t) => r == Ok::<Vac, Error>(t),
                None => r == Err::<Vac, Error>(Error::InvalidVac),
            },
    {
        match tag {
            0 => Ok(Vac::Unsecured),
            1 => Ok(Vac::Secured),
            _ => Err(Error::InvalidVac),
        }
    }
}

/// What a server says of itself.
#[derive(Debug, Clone, PartialEq, Eq)]
pub struct Info {
    pub header: u8,
    pub protocol: u8,
    pub name: String,
    pub map: String,
    pub folder: String,
    pub game: String,
    pub id: i16,
    pub players: u8,
    pub max_players: u8,
    pub bots: u8,
    pub server_type: Type,
    pub environment: Environment,
    pub visibility: Visibility,
    pub vac: Vac,
    pub version: String,
    pub extra_data_flag: u8,
    // optional fields, each present where its bit of `extra_data_flag` is set
    pub game_port: Option<i16>,
    pub steam_id: Option<u64>,
    pub sourcetv_port: Option<i16>,
    pub sourcetv_name: Option<String>,
    pub keywords: Option<String>,
    pub game_id_u64: Option<u64>,
}

/// An `Info` with its text fields as sequences of characters.
pub struct InfoView {
    pub header: u8,
    pub protocol: u8,
    pub name: Seq<char>,
    pub map: Seq<char>,
    pub folder: Seq<char>,
    pub game: Seq<char>,
    pub id: i16,
    pub players: u8,
    pub max_players: u8,
    pub bots: u8,
    pub server_type: Type,
    pub environment: Environment,
    pub visibility: Visibility,
    pub vac: Vac,
    pub version: Seq<char>,
    pub extra_data_flag: u8,
    pub game_port: Option<i16>,
    pub steam_id: Option<u64>,
    pub sourcetv_port: Option<i16>,
    pub sourcetv_name: Option<Seq<char>>,
    pub keywords: Option<Seq<char>>,
    pub game_id_u64: Option<u64>,
}

/// The characters of a text field that may be absent.
pub open spec fn text_view(text: Option<String>) -> Option<Seq<char>> {
    match text {
        Some(t) => Some(t@),
        None => None,
    }
}

impl View for Info {
    type V = InfoView;

    open spec fn view(&self) -> InfoView {
        InfoView {
            header: self.header,
            protocol: self.protocol,
            name: self.name@,
            map: self.map@,
            folder: self.folder@,
            game: self.game@,
            id: self.id,
            players: self.players,
            max_players: self.max_players,
            bots: self.bots,
            server_type: self.server_type,
            environment: self.environment,
            visibility: self.visibility,
            vac: self.vac,
            version: self.version@,
            extra_data_flag: self.extra_data_flag,
            game_port: self.game_port,
            steam_id: self.steam_id,
            sourcetv_port: self.sourcetv_port,
            sourcetv_name: text_view(self.sourcetv_name),
            keywords: text_view(self.keywords),
            game_id_u64: self.game_id_u64,
        }
    }
}

/// Whether `flag` has the bit `bit` set.
pub open spec fn has_flag(flag: u8, bit: u8) -> bool {
    flag & bit != 0
}

/// `value` where `present` holds, else nothing.
pub open spec fn when<T>(present: bool, value: T) -> Option<T> {
    if present {
        Some(value)
    } else {
        None
    }
}

/// Where each field of an information response stands: the scan in front of it.
pub struct Layout {
    pub header: Scan,
    pub protocol: Scan,
    pub name: Scan,
    pub map: Scan,
    pub folder: Scan,
    pub game: Scan,
    pub id: Scan,
    pub players: Scan,
    pub max_players: Scan,
    pub bots: Scan,
    pub server_type: Scan,
    pub environment: Scan,
    pub visibility: Scan,
    pub vac: Scan,
    pub version: Scan,
    /// The scan after the version, where the extra data flag stands if there is one.
    pub flag: Scan,
    /// The extra data flag, or 0 where the bytes end after the version.
    pub extra_data_flag: u8,
    pub game_port: Scan,
    pub steam_id: Scan,
    pub sourcetv_port: Scan,
    pub sourcetv_name: Scan,
    pub keywords: Scan,
    pub game_id: Scan,
    /// The scan after the last field.
    pub end: Scan,
}

/// The layout of an information response.
///
/// The fields stand in a fixed order. The response must open with the header byte
/// `I`. The extra data flag is optional: where the bytes end right after the version,
/// it counts as 0. Each optional field stands there where its bit of the flag is set,
/// in the order game port, Steam identifier, SourceTV port and name, keywords, game
/// identifier. A scan that has stopped stays stopped, so `end` holds the error of the
/// first field that cannot be read.
pub open spec fn layout(bytes: Seq<u8>) -> Layout {
    let header = Scan::start(bytes);
    let protocol = header.skip(1).require(
        header.byte() == INFO_RESPONSE_HEADER,
        Error::InvalidResponse,
    );
    let name = protocol.skip(1);
    let map = name.skip_text();
    let folder = map.skip_text();
    let game = folder.skip_text();
    let id = game.skip_text();
    let players = id.skip(2);
    let max_players = players.skip(1);
    let bots = max_players.skip(1);
    let server_type = bots.skip(1);
    let environment = server_type.skip(1).require(
        Type::of_byte(server_type.byte()) is Some,
        Error::InvalidServerType,
    );
    let visibility = environment.skip(1).require(
        Environment::of_byte(environment.byte()) is Some,
        Error::InvalidEnvironment,
    );
    let vac = visibility.skip(1).require(
        Visibility::of_byte(visibility.byte()) is Some,
        Error::InvalidVisibility,
    );
    let version = vac.skip(1).require(Vac::of_byte(vac.byte()) is Some, Error::InvalidVac);
    let flag = version.skip_text();
    let flag_present = flag.rest.len() > 0;
    let extra_data_flag = if flag_present {
        flag.byte()
    } else {
        0u8
    };
    let game_port = flag.skip_if(flag_present, 1);
    let steam_id = game_port.skip_if(has_flag(extra_data_flag, FLAG_GAME_PORT), 2);
    let sourcetv_port = steam_id.skip_if(has_flag(extra_data_flag, FLAG_STEAM_ID), 8);
    let sourcetv_name = sourcetv_port.skip_if(has_flag(extra_data_flag, FLAG_SOURCETV), 2);
    let keywords = sourcetv_name.skip_text_if(has_flag(extra_data_flag, FLAG_SOURCETV));
    let game_id = keywords.skip_text_if(has_flag(extra_data_flag, FLAG_KEYWORDS));
    let end = game_id.skip_if(has_flag(extra_data_flag, FLAG_GAME_ID), 8);
    Layout {
        header,
        protocol,
        name,
        map,
        folder,
        game,
        id,
        players,
        max_players,
        bots,
        server_type,
        environment,
        visibility,
        vac,
        version,
        flag,
        extra_data_flag,
        game_port,
        steam_id,
        sourcetv_port,
        sourcetv_name,
        keywords,
        game_id,
        end,
    }
}

/// What the bytes of an information response mean: the value of each field at its
/// place in the layout, or the error of the first field that cannot be read.
pub open spec fn parse_info(bytes: Seq<u8>) -> Result<InfoView, Error> {
    let at = layout(bytes);
    let flag = at.extra_data_flag;
    match at.end.failure {
        Some(e) => Err(e),
        None => Ok(
            InfoView {
                header: at.header.byte(),
                protocol: at.protocol.byte(),
                name: at.name.text(),
                map: at.map.text(),
                folder: at.folder.text(),
                game: at.game.text(),
                id: at.id.int16(),
                players: at.players.byte(),
                max_players: at.max_players.byte(),
                bots: at.bots.byte(),
                server_type: Type::of_byte(at.server_type.byte()).unwrap(),
                environment: Environment::of_byte(at.environment.byte()).unwrap(),
                visibility: Visibility::of_byte(at.visibility.byte()).unwrap(),
                vac: Vac::of_byte(at.vac.byte()).unwrap(),
                version: at.version.text(),
                extra_data_flag: flag,
                game_port: when(has_flag(flag, FLAG_GAME_PORT), at.game_port.int16()),
                steam_id: when(has_flag(flag, FLAG_STEAM_ID), at.steam_id.uint64()),
                sourcetv_port: when(has_flag(flag, FLAG_SOURCETV), at.sourcetv_port.int16()),
                sourcetv_name: when(has_flag(flag, FLAG_SOURCETV), at.sourcetv_name.text()),
                keywords: when(has_flag(flag, FLAG_KEYWORDS), at.keywords.text()),
                game_id_u64: when(has_flag(flag, FLAG_GAME_ID), at.game_id.uint64()),
            },
        ),
    }
}

/// Whether none of the six optional fields is there.
pub open spec fn no_extras(info: InfoView) -> bool {
    &&& info.game_port is None
    &&& info.steam_id is None
    &&& info.sourcetv_port is None
    &&& info.sourcetv_name is None
    &&& info.keywords is None
    &&& info.game_id_u64 is None
}

/// Whether all of the six optional fields are there.
pub open spec fn all_extras(info: InfoView) -> bool {
    &&& info.game_port is Some
    &&& info.steam_id is Some
    &&& info.sourcetv_port is Some
    &&& info.sourcetv_name is Some
    &&& info.keywords is Some
    &&& info.game_id_u64 is Some
}

/// A flag of 0 has no bit set.
proof fn lemma_no_bit_in_zero()
    ensures
        forall|bit: u8| !has_flag(0, bit),
{
    assert forall|bit: u8| !has_flag(0, bit) by {
        assert(0u8 & bit == 0) by (bit_vector);
    }
}

/// With an extra data flag of 0 none of the optional fields is there.
pub proof fn lemma_flag_clear(bytes: Seq<u8>)
    requires
        parse_info(bytes) is Ok,
        parse_info(bytes).unwrap().extra_data_flag == 0,
    ensures
        no_extras(parse_info(bytes).unwrap()),
{
    lemma_no_bit_in_zero();
}

/// With all five bits of the extra data flag set, all of the optional fields are
/// there, and they stand in the order game port, Steam identifier, SourceTV port,
/// SourceTV name, keywords, game identifier.
pub proof fn lemma_flag_full(bytes: Seq<u8>)
    requires
        parse_info(bytes) is Ok,
        parse_info(bytes).unwrap().extra_data_flag == 0xF1,
    ensures
        all_extras(parse_info(bytes).unwrap()),
        layout(bytes).steam_id == layout(bytes).game_port.skip(2),
        layout(bytes).sourcetv_port == layout(bytes).steam_id.skip(8),
        layout(bytes).sourcetv_name == layout(bytes).sourcetv_port.skip(2),
        layout(bytes).keywords == layout(bytes).sourcetv_name.skip_text(),
        layout(bytes).game_id == layout(bytes).keywords.skip_text(),
        layout(bytes).end == layout(bytes).game_id.skip(8),
{
    assert(0xF1u8 & FLAG_GAME_PORT != 0) by (bit_vector);
    assert(0xF1u8 & FLAG_STEAM_ID != 0) by (bit_vector);
    assert(0xF1u8 & FLAG_SOURCETV != 0) by (bit_vector);
    assert(0xF1u8 & FLAG_KEYWORDS != 0) by (bit_vector);
    assert(0xF1u8 & FLAG_GAME_ID != 0) by (bit_vector);
}

/// A response that ends right after the version is no error: its extra data flag is 0
/// and none of the optional fields is there.
pub proof fn lemma_flag_absent(bytes: Seq<u8>)
    requires
        layout(bytes).flag.ok(),
        layout(bytes).flag.rest.len() == 0,
    ensures
        parse_info(bytes) is Ok,
        parse_info(bytes).unwrap().extra_data_flag == 0,
        no_extras(parse_info(bytes).unwrap()),
{
    lemma_no_bit_in_zero();
}

/// A tag byte that stands for no value of its enumeration is an error and never a
/// guess: where the fields before a tag can be read and the tag is not one of its
/// letters or numbers, the response is refused with the error of that tag.
pub proof fn lemma_tag_refused(bytes: Seq<u8>)
    ensures
        layout(bytes).server_type.skip(1).ok() && Type::of_byte(layout(bytes).server_type.byte())
            is None ==> parse_info(bytes) == Err::<InfoView, Error>(Error::InvalidServerType),
        layout(bytes).environment.skip(1).ok() && Environment::of_byte(
            layout(bytes).environment.byte(),
        ) is None ==> parse_info(bytes) == Err::<InfoView, Error>(Error::InvalidEnvironment),
        layout(bytes).visibility.skip(1).ok() && Visibility::of_byte(
            layout(bytes).visibility.byte(),
        ) is None ==> parse_info(bytes) == Err::<InfoView, Error>(Error::InvalidVisibility),
        layout(bytes).vac.skip(1).ok() && Vac::of_byte(layout(bytes).vac.byte()) is None
            ==> parse_info(bytes) == Err::<InfoView, Error>(Error::InvalidVac),
        parse_info(bytes) is Ok ==> Type::of_byte(layout(bytes).server_type.byte()) == Some(
            parse_info(bytes).unwrap().server_type,
        ),
{
}

impl Info {
    /// Decodes the payload of an information response.
    pub fn decode(data: &[u8]) -> (r: Result<Info, Error>)
        ensures
            match parse_info(data@) {
                Ok(view) => r matches Ok(info) && info@ == view,
                Err(e) => r matches Err(f) && f == e,
            },
    {
        let mut reader = Reader::new(data);
        let header = reader.read_u8()?;
        if header != INFO_RESPONSE_HEADER {
            return Err(Error::InvalidResponse);
        }
        let protocol = reader.read_u8()?;
        let name = reader.read_cstring()?;
        let map = reader.read_cstring()?;
        let folder = reader.read_cstring()?;
        let game = reader.read_cstring()?;
        let id = reader.read_i16()?;
        let players = reader.read_u8()?;
        let max_players = reader.read_u8()?;
        let bots = reader.read_u8()?;
        let server_type = Type::from_byte(reader.read_u8()?)?;
        let environment = Environment::from_byte(reader.read_u8()?)?;
        let visibility = Visibility::from_byte(reader.read_u8()?)?;
        let vac = Vac::from_byte(reader.read_u8()?)?;
        let version = reader.read_cstring()?;
        let extra_data_flag = if reader.remaining() == 0 {
            0u8
        } else {
            reader.read_u8()?
        };
        let game_port = if extra_data_flag & FLAG_GAME_PORT != 0 {
            Some(reader.read_i16()?)
        } else {
            None
        };
        let steam_id = if extra_data_flag & FLAG_STEAM_ID != 0 {
            Some(reader.read_u64()?)
        } else {
            None
        };
        let sourcetv_port = if extra_data_flag & FLAG_SOURCETV != 0 {
            Some(reader.read_i16()?)
        } else {
            None
        };
        let sourcetv_name = if extra_data_flag & FLAG_SOURCETV != 0 {
            Some(reader.read_cstring()?)
        } else {
            None
        };
        let keywords = if extra_data_flag & FLAG_KEYWORDS != 0 {
            Some(reader.read_cstring()?)
        } else {
            None
        };
        let game_id_u64 = if extra_data_flag & FLAG_GAME_ID != 0 {
            Some(reader.read_u64()?)
        } else {
            None
        };
        Ok(
            Info {
                header,
                protocol,
                name,
                map,
                folder,
                game,
                id,
                players,
                max_players,
                bots,
                server_type,
                environment,
                visibility,
                vac,
                version,
                extra_data_flag,
                game_port,
                steam_id,
                sourcetv_port,
                sourcetv_name,
                keywords,
                game_id_u64,
            },
        )
    }
}

} // verus!
