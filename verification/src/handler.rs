//! Request dispatch: which file a data command asks for, and what is sent
//! back when it is found or not. Loading the file is the application's part,
//! between `begin` and `finish`.

use vstd::prelude::*;
use crate::config::{resolve_pattern, FreightConfig, PathsConfig};
use crate::data::{version_from_file, version_value};
use crate::protocol::{
    be_bytes_i16, be_bytes_i32, byte_or_zero, cmd, int_at, short_at, Message, MessageReader,
    MessageWriter,
};

verus! {

/// A decoded data request.
pub enum Request {
    Icon(i32),
    EffData(i16),
    MapTemplate(i8),
    NpcTemplate(i8),
    ImageSource,
    ImageSource2,
    Background(i8),
    TileSet(i8),
    SmallImageVersion,
    BgItemVersion,
    /// A command this server does not serve.
    Unknown(i8),
}

/// How a request went, for the session's counters.
pub enum Outcome {
    /// Answered with the file's data (version requests always count so).
    Found,
    /// The file was not found; a fallback answer was sent.
    NotFound,
    /// Unknown command: nothing was sent.
    Unanswered,
}

/// The request a message makes: the command and, for most, the id read
/// from the start of the payload.
pub open spec fn decode_request(command: i8, data: Seq<u8>) -> Request {
    if command == cmd::REQUEST_ICON {
        Request::Icon(int_at(data, 0))
    } else if command == cmd::GET_EFFDATA {
        Request::EffData(short_at(data, 0))
    } else if command == cmd::REQUEST_MAPTEMPLATE {
        Request::MapTemplate(byte_or_zero(data, 0) as i8)
    } else if command == cmd::REQUEST_NPCTEMPLATE {
        Request::NpcTemplate(byte_or_zero(data, 0) as i8)
    } else if command == cmd::GET_IMAGE_SOURCE {
        Request::ImageSource
    } else if command == cmd::GET_IMAGE_SOURCE2 {
        Request::ImageSource2
    } else if command == cmd::BACKGROUND_TEMPLATE {
        Request::Background(byte_or_zero(data, 0) as i8)
    } else if command == cmd::TILE_SET {
        Request::TileSet(byte_or_zero(data, 0) as i8)
    } else if command == cmd::SMALLIMAGE_VERSION {
        Request::SmallImageVersion
    } else if command == cmd::BGITEM_VERSION {
        Request::BgItemVersion
    } else {
        Request::Unknown(command)
    }
}

/// The file a request reads, at the given zoom level.
pub open spec fn request_path(paths: PathsConfig, req: Request, zoom: u8) -> Option<Seq<char>> {
    let b = paths.base_dir@;
    match req {
        Request::Icon(id) => Some(resolve_pattern(paths.icon@, b, zoom, Some(id))),
        Request::EffData(id) => Some(resolve_pattern(paths.effect@, b, zoom, Some(id as i32))),
        Request::MapTemplate(id) => Some(resolve_pattern(paths.map@, b, zoom, Some(id as i32))),
        Request::NpcTemplate(id) => Some(resolve_pattern(paths.npc@, b, zoom, Some(id as i32))),
        Request::ImageSource => Some(resolve_pattern(paths.image_source@, b, zoom, None)),
        Request::ImageSource2 => Some(resolve_pattern(paths.image_source2@, b, zoom, None)),
        Request::Background(id) => Some(resolve_pattern(paths.background@, b, zoom, Some(id as i32))),
        Request::TileSet(id) => Some(resolve_pattern(paths.tileset@, b, zoom, Some(id as i32))),
        Request::SmallImageVersion => Some(resolve_pattern(paths.smallimage_version@, b, zoom, None)),
        Request::BgItemVersion => Some(resolve_pattern(paths.bgitem_version@, b, zoom, None)),
        Request::Unknown(_) => None,
    }
}

/// The command byte a request is answered with.
pub open spec fn answer_command(req: Request) -> i8 {
    match req {
        Request::Icon(_) => cmd::REQUEST_ICON,
        Request::EffData(_) => cmd::GET_EFFDATA,
        Request::MapTemplate(_) => cmd::REQUEST_MAPTEMPLATE,
        Request::NpcTemplate(_) => cmd::REQUEST_NPCTEMPLATE,
        Request::ImageSource => cmd::GET_IMAGE_SOURCE,
        Request::ImageSource2 => cmd::GET_IMAGE_SOURCE2,
        Request::Background(_) => cmd::BACKGROUND_TEMPLATE,
        Request::TileSet(_) => cmd::TILE_SET,
        Request::SmallImageVersion => cmd::SMALLIMAGE_VERSION,
        Request::BgItemVersion => cmd::BGITEM_VERSION,
        Request::Unknown(c) => c,
    }
}

/// The payload sent when the file of a request is not found: the id and a
/// 0 byte for icons, effects, maps and NPCs; nothing for the others.
pub open spec fn not_found_payload(req: Request) -> Seq<u8> {
    match req {
        Request::Icon(id) => be_bytes_i32(id) + seq![0u8],
        Request::EffData(id) => be_bytes_i16(id) + seq![0u8],
        Request::MapTemplate(id) => seq![id as u8, 0u8],
        Request::NpcTemplate(id) => seq![id as u8, 0u8],
        _ => Seq::empty(),
    }
}

/// Whether a request asks for a version number rather than a file's data.
pub open spec fn is_version_request(req: Request) -> bool {
    req is SmallImageVersion || req is BgItemVersion
}

/// The payload of the answer, given what loading the file gave.
pub open spec fn answer_payload(req: Request, loaded: Option<Seq<u8>>) -> Seq<u8> {
    if is_version_request(req) {
        be_bytes_i32(version_value(loaded))
    } else {
        match loaded {
            Some(d) => d,
            None => not_found_payload(req),
        }
    }
}

/// How the request counts for the session.
pub open spec fn answer_outcome(req: Request, loaded: Option<Seq<u8>>) -> Outcome {
    if req is Unknown {
        Outcome::Unanswered
    } else if is_version_request(req) || loaded is Some {
        Outcome::Found
    } else {
        Outcome::NotFound
    }
}

/// Handles the data requests of a session.
pub struct Handler {
    pub config: FreightConfig,
}

impl Handler {
    pub fn new(config: FreightConfig) -> (h: Self)
        ensures
            h.config == config,
    {
        Handler { config }
    }

    /// Reads the request out of a message.
    pub fn decode(msg: &Message) -> (req: Request)
        ensures
            req == decode_request(msg.command, msg.data@),
    {
        let mut reader = MessageReader::new(msg.data.as_slice());
        match msg.command {
            cmd::REQUEST_ICON => Request::Icon(reader.read_int()),
            cmd::GET_EFFDATA => Request::EffData(reader.read_short()),
            cmd::REQUEST_MAPTEMPLATE => Request::MapTemplate(reader.read_byte()),
            cmd::REQUEST_NPCTEMPLATE => Request::NpcTemplate(reader.read_byte()),
            cmd::GET_IMAGE_SOURCE => Request::ImageSource,
            cmd::GET_IMAGE_SOURCE2 => Request::ImageSource2,
            cmd::BACKGROUND_TEMPLATE => Request::Background(reader.read_byte()),
            cmd::TILE_SET => Request::TileSet(reader.read_byte()),
            cmd::SMALLIMAGE_VERSION => Request::SmallImageVersion,
            cmd::BGITEM_VERSION => Request::BgItemVersion,
            _ => Request::Unknown(msg.command),
        }
    }

    /// The file to load for a request at zoom level `zoom` (none for an
    /// unknown command).
    pub fn file_path(&self, req: &Request, zoom: u8) -> (path: Option<String>)
        ensures
            match path {
                Some(p) => request_path(self.config.paths, *req, zoom) == Some(p@),
                None => request_path(self.config.paths, *req, zoom) is None,
            },
            *req matches Request::Icon(id) ==> path matches Some(p) && p@ == resolve_pattern(
                self.config.paths.icon@,
                self.config.paths.base_dir@,
                zoom,
                Some(id),
            ),
            *req matches Request::EffData(id) ==> path matches Some(p) && p@ == resolve_pattern(
                self.config.paths.effect@,
                self.config.paths.base_dir@,
                zoom,
                Some(id as i32),
            ),
            *req matches Request::MapTemplate(id) ==> path matches Some(p) && p@ == resolve_pattern(
                self.config.paths.map@,
                self.config.paths.base_dir@,
                zoom,
                Some(id as i32),
            ),
            *req matches Request::NpcTemplate(id) ==> path matches Some(p) && p@ == resolve_pattern(
                self.config.paths.npc@,
                self.config.paths.base_dir@,
                zoom,
                Some(id as i32),
            ),
            *req matches Request::Background(id) ==> path matches Some(p) && p@ == resolve_pattern(
                self.config.paths.background@,
                self.config.paths.base_dir@,
                zoom,
                Some(id as i32),
            ),
            *req matches Request::TileSet(id) ==> path matches Some(p) && p@ == resolve_pattern(
                self.config.paths.tileset@,
                self.config.paths.base_dir@,
                zoom,
                Some(id as i32),
            ),
            *req matches Request::ImageSource ==> path matches Some(p) && p@ == resolve_pattern(
                self.config.paths.image_source@,
                self.config.paths.base_dir@,
                zoom,
                None,
            ),
            *req matches Request::ImageSource2 ==> path matches Some(p) && p@ == resolve_pattern(
                self.config.paths.image_source2@,
                self.config.paths.base_dir@,
                zoom,
                None,
            ),
            *req matches Request::SmallImageVersion ==> path matches Some(p) && p@ == resolve_pattern(
                self.config.paths.smallimage_version@,
                self.config.paths.base_dir@,
                zoom,
                None,
            ),
            *req matches Request::BgItemVersion ==> path matches Some(p) && p@ == resolve_pattern(
                self.config.paths.bgitem_version@,
                self.config.paths.base_dir@,
                zoom,
                None,
            ),
            *req is Unknown ==> path is None,
    {
        let paths = &self.config.paths;
        match req {
            Request::Icon(id) => Some(paths.icon_path(zoom, *id)),
            Request::EffData(id) => Some(paths.effect_path(zoom, *id as i32)),
            Request::MapTemplate(id) => Some(paths.map_path(zoom, *id as i32)),
            Request::NpcTemplate(id) => Some(paths.npc_path(zoom, *id as i32)),
            Request::ImageSource => Some(paths.image_source_path(zoom)),
            Request::ImageSource2 => Some(paths.image_source2_path(zoom)),
            Request::Background(id) => Some(paths.background_path(zoom, *id as i32)),
            Request::TileSet(id) => Some(paths.tileset_path(zoom, *id as i32)),
            Request::SmallImageVersion => Some(paths.smallimage_version_path(zoom)),
            Request::BgItemVersion => Some(paths.bgitem_version_path(zoom)),
            Request::Unknown(_) => None,
        }
    }

    /// Decodes a message and names the file it needs at zoom level `zoom`.
    pub fn begin(&self, msg: &Message, zoom: u8) -> (r: (Request, Option<String>))
        ensures
            r.0 == decode_request(msg.command, msg.data@),
            match r.1 {
                Some(p) => request_path(self.config.paths, r.0, zoom) == Some(p@),
                None => request_path(self.config.paths, r.0, zoom) is None,
            },
            r.0 matches Request::Icon(id) ==> r.1 matches Some(p) && p@ == resolve_pattern(
                self.config.paths.icon@,
                self.config.paths.base_dir@,
                zoom,
                Some(id),
            ),
            r.0 matches Request::EffData(id) ==> r.1 matches Some(p) && p@ == resolve_pattern(
                self.config.paths.effect@,
                self.config.paths.base_dir@,
                zoom,
                Some(id as i32),
            ),
            r.0 matches Request::MapTemplate(id) ==> r.1 matches Some(p) && p@ == resolve_pattern(
                self.config.paths.map@,
                self.config.paths.base_dir@,
                zoom,
                Some(id as i32),
            ),
            r.0 matches Request::NpcTemplate(id) ==> r.1 matches Some(p) && p@ == resolve_pattern(
                self.config.paths.npc@,
                self.config.paths.base_dir@,
                zoom,
                Some(id as i32),
            ),
            r.0 matches Request::Background(id) ==> r.1 matches Some(p) && p@ == resolve_pattern(
                self.config.paths.background@,
                self.config.paths.base_dir@,
                zoom,
                Some(id as i32),
            ),
            r.0 matches Request::TileSet(id) ==> r.1 matches Some(p) && p@ == resolve_pattern(
                self.config.paths.tileset@,
                self.config.paths.base_dir@,
                zoom,
                Some(id as i32),
            ),
            r.0 matches Request::ImageSource ==> r.1 matches Some(p) && p@ == resolve_pattern(
                self.config.paths.image_source@,
                self.config.paths.base_dir@,
                zoom,
                None,
            ),
            r.0 matches Request::ImageSource2 ==> r.1 matches Some(p) && p@ == resolve_pattern(
                self.config.paths.image_source2@,
                self.config.paths.base_dir@,
                zoom,
                None,
            ),
            r.0 matches Request::SmallImageVersion ==> r.1 matches Some(p) && p@ == resolve_pattern(
                self.config.paths.smallimage_version@,
                self.config.paths.base_dir@,
                zoom,
                None,
            ),
            r.0 matches Request::BgItemVersion ==> r.1 matches Some(p) && p@ == resolve_pattern(
                self.config.paths.bgitem_version@,
                self.config.paths.base_dir@,
                zoom,
                None,
            ),
            r.0 is Unknown ==> r.1 is None,
    {
        let req = Self::decode(msg);
        let path = self.file_path(&req, zoom);
        (req, path)
    }

    /// The answer to a request once its file was loaded (`None`: not
    /// found): at most one message, and how the request counts.
    pub fn finish(req: &Request, loaded: Option<Vec<u8>>) -> (r: (Vec<(i8, Vec<u8>)>, Outcome))
        ensures
            r.1 == answer_outcome(
                *req,
                match loaded {
                    Some(d) => Some(d@),
                    None => None,
                },
            ),
            *req is Unknown ==> r.0@.len() == 0,
            !(*req is Unknown) ==> r.0@.len() == 1 && r.0@[0].0 == answer_command(*req) && r.0@[0].1@
                == answer_payload(
                *req,
                match loaded {
                    Some(d) => Some(d@),
                    None => None,
                },
            ),
    {
        match req {
            Request::SmallImageVersion | Request::BgItemVersion => {
                let version = match &loaded {
                    Some(d) => version_from_file(Some(d.as_slice())),
                    None => version_from_file(None),
                };
                let mut w = MessageWriter::new();
                w.write_int(version);
                let command = answer_command_of(req);
                let mut out: Vec<(i8, Vec<u8>)> = Vec::new();
                out.push((command, w.into_bytes()));
                (out, Outcome::Found)
            },
            Request::Unknown(_) => (Vec::new(), Outcome::Unanswered),
            _ => {
                let command = answer_command_of(req);
                match loaded {
                    Some(data) => {
                        let mut out: Vec<(i8, Vec<u8>)> = Vec::new();
                        out.push((command, data));
                        (out, Outcome::Found)
                    },
                    None => {
                        let payload = not_found_answer(req);
                        let mut out: Vec<(i8, Vec<u8>)> = Vec::new();
                        out.push((command, payload));
                        (out, Outcome::NotFound)
                    },
                }
            },
        }
    }
}

/// The command byte a request is answered with.
fn answer_command_of(req: &Request) -> (c: i8)
    ensures
        c == answer_command(*req),
{
    match req {
        Request::Icon(_) => cmd::REQUEST_ICON,
        Request::EffData(_) => cmd::GET_EFFDATA,
        Request::MapTemplate(_) => cmd::REQUEST_MAPTEMPLATE,
        Request::NpcTemplate(_) => cmd::REQUEST_NPCTEMPLATE,
        Request::ImageSource => cmd::GET_IMAGE_SOURCE,
        Request::ImageSource2 => cmd::GET_IMAGE_SOURCE2,
        Request::Background(_) => cmd::BACKGROUND_TEMPLATE,
        Request::TileSet(_) => cmd::TILE_SET,
        Request::SmallImageVersion => cmd::SMALLIMAGE_VERSION,
        Request::BgItemVersion => cmd::BGITEM_VERSION,
        Request::Unknown(c) => *c,
    }
}

/// The fallback payload of a request whose file was not found.
fn not_found_answer(req: &Request) -> (payload: Vec<u8>)
    ensures
        payload@ == not_found_payload(*req),
{
    match req {
        Request::Icon(id) => {
            let mut w = MessageWriter::new();
            w.write_int(*id);
            w.write_byte(0);
            w.into_bytes()
        },
        Request::EffData(id) => {
            let mut w = MessageWriter::new();
            w.write_short(*id);
            w.write_byte(0);
            w.into_bytes()
        },
        Request::MapTemplate(id) | Request::NpcTemplate(id) => {
            let mut w = MessageWriter::new();
            w.write_byte(*id);
            w.write_byte(0);
            proof {
                assert(w@ =~= seq![*id as u8, 0u8]);
            }
            w.into_bytes()
        },
        _ => Vec::new(),
    }
}

/// Every request reads its own template, filled in for the zoom level and
/// its id: an icon request the icon template, an NPC request the NPC
/// template, and so on; an unknown command reads no file.
pub proof fn lemma_each_request_reads_its_own_template(paths: PathsConfig, zoom: u8, id: i32, small: i16, b: i8)
    ensures
        request_path(paths, Request::Icon(id), zoom) == Some(resolve_pattern(paths.icon@, paths.base_dir@, zoom, Some(id))),
        request_path(paths, Request::EffData(small), zoom) == Some(
            resolve_pattern(paths.effect@, paths.base_dir@, zoom, Some(small as i32)),
        ),
        request_path(paths, Request::MapTemplate(b), zoom) == Some(
            resolve_pattern(paths.map@, paths.base_dir@, zoom, Some(b as i32)),
        ),
        request_path(paths, Request::NpcTemplate(b), zoom) == Some(
            resolve_pattern(paths.npc@, paths.base_dir@, zoom, Some(b as i32)),
        ),
        request_path(paths, Request::Background(b), zoom) == Some(
            resolve_pattern(paths.background@, paths.base_dir@, zoom, Some(b as i32)),
        ),
        request_path(paths, Request::TileSet(b), zoom) == Some(
            resolve_pattern(paths.tileset@, paths.base_dir@, zoom, Some(b as i32)),
        ),
        request_path(paths, Request::ImageSource, zoom) == Some(
            resolve_pattern(paths.image_source@, paths.base_dir@, zoom, None),
        ),
        request_path(paths, Request::ImageSource2, zoom) == Some(
            resolve_pattern(paths.image_source2@, paths.base_dir@, zoom, None),
        ),
        request_path(paths, Request::SmallImageVersion, zoom) == Some(
            resolve_pattern(paths.smallimage_version@, paths.base_dir@, zoom, None),
        ),
        request_path(paths, Request::BgItemVersion, zoom) == Some(
            resolve_pattern(paths.bgitem_version@, paths.base_dir@, zoom, None),
        ),
        request_path(paths, Request::Unknown(b), zoom) is None,
{
}

/// A request is answered under the command it was asked with, and only the
/// commands this server serves decode to a request.
pub proof fn lemma_answer_under_asked_command(command: i8, data: Seq<u8>)
    ensures
        answer_command(decode_request(command, data)) == command,
        decode_request(command, data) is Unknown <==> !(command == cmd::REQUEST_ICON || command == cmd::GET_EFFDATA
            || command == cmd::REQUEST_MAPTEMPLATE || command == cmd::REQUEST_NPCTEMPLATE || command
            == cmd::GET_IMAGE_SOURCE || command == cmd::GET_IMAGE_SOURCE2 || command == cmd::BACKGROUND_TEMPLATE
            || command == cmd::TILE_SET || command == cmd::SMALLIMAGE_VERSION || command == cmd::BGITEM_VERSION),
{
}

/// The id of a request is read from the start of its payload: four bytes
/// big-endian for an icon, two for an effect, one (signed) for the others
/// that carry an id.
pub proof fn lemma_request_ids_come_from_the_payload(data: Seq<u8>)
    ensures
        decode_request(cmd::REQUEST_ICON, data) == Request::Icon(int_at(data, 0)),
        decode_request(cmd::GET_EFFDATA, data) == Request::EffData(short_at(data, 0)),
        decode_request(cmd::REQUEST_MAPTEMPLATE, data) == Request::MapTemplate(byte_or_zero(data, 0) as i8),
        decode_request(cmd::REQUEST_NPCTEMPLATE, data) == Request::NpcTemplate(byte_or_zero(data, 0) as i8),
        decode_request(cmd::BACKGROUND_TEMPLATE, data) == Request::Background(byte_or_zero(data, 0) as i8),
        decode_request(cmd::TILE_SET, data) == Request::TileSet(byte_or_zero(data, 0) as i8),
{
}

/// The fallback answer for a missing file names the id that was asked for,
/// as the reader reads it back, and ends with a 0 byte; the requests without
/// an id get an empty answer.
pub proof fn lemma_not_found_names_the_id(id: i32, small: i16, b: i8)
    ensures
        not_found_payload(Request::Icon(id)).len() == 5,
        int_at(not_found_payload(Request::Icon(id)), 0) == id,
        not_found_payload(Request::Icon(id))[4] == 0,
        not_found_payload(Request::EffData(small)).len() == 3,
        short_at(not_found_payload(Request::EffData(small)), 0) == small,
        not_found_payload(Request::EffData(small))[2] == 0,
        not_found_payload(Request::MapTemplate(b)) == seq![b as u8, 0u8],
        not_found_payload(Request::NpcTemplate(b)) == seq![b as u8, 0u8],
        byte_or_zero(not_found_payload(Request::MapTemplate(b)), 0) as i8 == b,
        not_found_payload(Request::ImageSource).len() == 0,
        not_found_payload(Request::ImageSource2).len() == 0,
        not_found_payload(Request::Background(b)).len() == 0,
        not_found_payload(Request::TileSet(b)).len() == 0,
{
    crate::protocol::lemma_read_back_int(Seq::empty(), id, seq![0u8]);
    assert(Seq::<u8>::empty() + be_bytes_i32(id) + seq![0u8] =~= not_found_payload(Request::Icon(id)));
    crate::protocol::lemma_read_back_short(Seq::empty(), small, seq![0u8]);
    assert(Seq::<u8>::empty() + be_bytes_i16(small) + seq![0u8] =~= not_found_payload(Request::EffData(small)));
    assert(((b as u8) as i8) == b) by (bit_vector);
}

/// A version file of four bytes or more holds its number big-endian in the
/// first four: a number written with `write_int` is read back, whatever follows.
pub proof fn lemma_version_read_back(v: i32, rest: Seq<u8>)
    ensures
        version_value(Some(be_bytes_i32(v) + rest)) == v,
{
    crate::protocol::lemma_read_back_int(Seq::empty(), v, rest);
    let d = be_bytes_i32(v) + rest;
    assert(Seq::<u8>::empty() + be_bytes_i32(v) + rest =~= d);
}

} // verus!
