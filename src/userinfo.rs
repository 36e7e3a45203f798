use vstd::prelude::*;

use crate::entity::EntityId;
use vstd::utf8::{decode_utf8, valid_utf8};

verus! {

/// The text that std makes of a run of bytes, each invalid UTF-8 sequence
/// replaced by U+FFFD.
pub uninterp spec fn utf8_lossy(bytes: Seq<u8>) -> Seq<char>;

/// Relies on std's `String::from_utf8_lossy`: the text of the bytes, a
/// function of the bytes alone; valid UTF-8 is decoded unchanged, and no
/// bytes give the empty text.
#[verifier::external_body]
fn text_of(bytes: &Vec<u8>) -> (r: String)
    ensures
        r@ == utf8_lossy(bytes@),
        valid_utf8(bytes@) ==> r@ == decode_utf8(bytes@),
        bytes@.len() == 0 ==> r@.len() == 0,
{
    String::from_utf8_lossy(bytes.as_slice()).into_owned()
}

/// Bytes of a `userinfo` string-table entry: a 32-byte name, a 32-bit
/// little-endian user id and a 33-byte steam id, the texts padded with zeros.
pub const USER_INFO_LEN: usize = 69;

/// The position of the first zero byte of `b` from `i` on, else its length.
pub open spec fn nul_position(b: Seq<u8>, i: int) -> int
    decreases b.len() - i,
{
    if i < 0 || i >= b.len() {
        b.len() as int
    } else if b[i] == 0 {
        i
    } else {
        nul_position(b, i + 1)
    }
}

/// The bytes of a zero-padded text field.
pub open spec fn field_text(b: Seq<u8>) -> Seq<u8> {
    b.take(nul_position(b, 0))
}

/// A user's identity as a `userinfo` entry states it.
pub struct PlayerInfoView {
    pub name: Seq<char>,
    pub user_id: u16,
    pub steam_id: Seq<char>,
    pub entity_id: EntityId,
}

/// A user's identity, read from a `userinfo` entry.
#[derive(Debug)]
pub struct PlayerInfo {
    pub name: String,
    pub user_id: u16,
    pub steam_id: String,
    pub entity_id: EntityId,
}

impl View for PlayerInfo {
    type V = PlayerInfoView;

    open spec fn view(&self) -> PlayerInfoView {
        PlayerInfoView {
            name: self.name@,
            user_id: self.user_id,
            steam_id: self.steam_id@,
            entity_id: self.entity_id,
        }
    }
}

/// Why a `userinfo` entry could not be read.
#[derive(Clone, Copy, Debug, PartialEq, Eq, Structural)]
pub enum ReadError {
    /// The entry holds fewer bytes than the record needs.
    NotEnoughData,
}

/// What the `userinfo` entry at `index` with `data` states: nothing without
/// data or with an empty steam id; the entity is the slot after `index`; the
/// user id is the low 16 bits of the stored 32-bit id.
pub open spec fn player_info(index: u16, data: Option<Seq<u8>>) -> Result<Option<PlayerInfoView>, ReadError> {
    match data {
        None => Ok(None),
        Some(d) => if d.len() < USER_INFO_LEN {
            Err(ReadError::NotEnoughData)
        } else {
            let steam = field_text(d.subrange(36, 69));
            if steam.len() == 0 {
                Ok(None)
            } else {
                Ok(
                    Some(
                        PlayerInfoView {
                            name: utf8_lossy(field_text(d.subrange(0, 32))),
                            user_id: (d[32] as u16 + 256 * (d[33] as u16)) as u16,
                            steam_id: utf8_lossy(steam),
                            entity_id: EntityId((index as u32 + 1) as u32),
                        },
                    ),
                )
            }
        },
    }
}

pub open spec fn bytes_of(data: Option<&Vec<u8>>) -> Option<Seq<u8>> {
    match data {
        Some(d) => Some(d@),
        None => None,
    }
}

fn read_field(data: &Vec<u8>, start: usize, len: usize) -> (r: Vec<u8>)
    requires
        start as int + len as int <= data@.len(),
    ensures
        r@ == field_text(data@.subrange(start as int, start + len)),
{
    let ghost b = data@.subrange(start as int, start + len);
    let n = data.len();
    let mut out: Vec<u8> = Vec::new();
    let mut i: usize = 0;
    while i < len
        invariant
            start as int + len as int <= data@.len(),
            n == data@.len(),
            b == data@.subrange(start as int, start + len),
            i <= len,
            out@ == b.take(i as int),
            nul_position(b, 0) == nul_position(b, i as int),
        decreases len - i,
    {
        let x = data[start + i];
        assert(b[i as int] == x);
        if x == 0 {
            return out;
        }
        out.push(x);
        assert(out@ =~= b.take(i + 1));
        i = i + 1;
    }
    out
}

/// Reads the `userinfo` string-table entry at `index`.
pub fn parse_player_info(index: u16, data: Option<&Vec<u8>>) -> (r: Result<Option<PlayerInfo>, ReadError>)
    ensures
        match player_info(index, bytes_of(data)) {
            Ok(Some(v)) => r matches Ok(Some(info)) && info@ == v,
            Ok(None) => r matches Ok(None),
            Err(e) => r == Err::<Option<PlayerInfo>, ReadError>(e),
        },
{
    match data {
        None => Ok(None),
        Some(d) => {
            if d.len() < USER_INFO_LEN {
                return Err(ReadError::NotEnoughData);
            }
            let steam = read_field(d, 36, 33);
            if steam.len() == 0 {
                return Ok(None);
            }
            let name = read_field(d, 0, 32);
            let user_id = (d[32] as u16 + 256 * (d[33] as u16)) as u16;
            Ok(
                Some(
                    PlayerInfo {
                        name: text_of(&name),
                        user_id,
                        steam_id: text_of(&steam),
                        entity_id: EntityId(index as u32 + 1),
                    },
                ),
            )
        },
    }
}

} // verus!
