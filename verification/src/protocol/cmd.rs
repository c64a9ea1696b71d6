//! Command bytes of the data/asset requests.

use vstd::prelude::*;

verus! {

pub const GET_SESSION_ID: i8 = -27;
/// Sent by the client after the key exchange, carrying its zoom level.
pub const FREIGHT_INIT: i8 = 1;
pub const REQUEST_ICON: i8 = -67;
pub const GET_EFFDATA: i8 = -66;
pub const GET_IMAGE_SOURCE: i8 = -74;
pub const GET_IMAGE_SOURCE2: i8 = -111;
pub const REQUEST_MAPTEMPLATE: i8 = 10;
pub const REQUEST_NPCTEMPLATE: i8 = 11;
pub const BACKGROUND_TEMPLATE: i8 = -32;
pub const ITEM_BACKGROUND: i8 = -31;
pub const SMALLIMAGE_VERSION: i8 = -77;
pub const BGITEM_VERSION: i8 = -93;
pub const TILE_SET: i8 = -82;
/// Server notice shown to the player (sent when the server is full).
pub const SERVER_NOTICE: i8 = -26;

/// The commands whose responses carry a 3-byte length.
pub open spec fn spec_big_data_cmds() -> Seq<i8> {
    seq![-32i8, -66i8, 11i8, -67i8, -74i8, -87i8, 66i8, 12i8]
}

/// Whether responses to `command` carry a 3-byte length.
pub fn is_big_data_cmd(command: i8) -> (r: bool)
    ensures
        r == spec_big_data_cmds().contains(command),
{
    let r = command == -32 || command == -66 || command == 11 || command == -67 || command == -74
        || command == -87 || command == 66 || command == 12;
    proof {
        let s = spec_big_data_cmds();
        if r {
            if command == -32 { assert(s[0] == command); }
            if command == -66 { assert(s[1] == command); }
            if command == 11 { assert(s[2] == command); }
            if command == -67 { assert(s[3] == command); }
            if command == -74 { assert(s[4] == command); }
            if command == -87 { assert(s[5] == command); }
            if command == 66 { assert(s[6] == command); }
            if command == 12 { assert(s[7] == command); }
        }
    }
    r
}

} // verus!
