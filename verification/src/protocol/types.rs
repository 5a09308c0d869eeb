//! Small value types that appear directly in packet fields.

use vstd::prelude::*;

use crate::protocol::error::{ProtocolError, Result};
use crate::protocol::wire::read_be128;
use crate::protocol::wire;
use crate::protocol::writer::PacketWrite;

verus! {

/// A block position in world space.
///
/// On the wire this is packed into a single `i64` as 26 bits of X, 26 bits of
/// Z and 12 bits of Y, in that order from the most significant bit.
#[derive(Debug, Clone, Copy, PartialEq, Eq, Hash, Structural)]
pub struct BlockPos {
    pub x: i32,
    pub y: i32,
    pub z: i32,
}

/// The packed form of a block position: each field in two's complement, cut to
/// its width.
pub open spec fn packed_block_pos(pos: BlockPos) -> i64 {
    ((pos.x as i64 & 0x3FF_FFFF) << 38) | ((pos.z as i64 & 0x3FF_FFFF) << 12) | (pos.y as i64
        & 0xFFF)
}

/// The block position that a packed form stands for, each field sign-extended.
pub open spec fn unpacked_block_pos(packed: i64) -> BlockPos {
    BlockPos {
        x: (packed >> 38) as i32,
        y: ((packed << 52) >> 52) as i32,
        z: ((packed << 26) >> 38) as i32,
    }
}

impl BlockPos {
    #[inline]
    #[must_use]
    pub fn new(x: i32, y: i32, z: i32) -> (pos: Self)
        ensures
            pos == (BlockPos { x, y, z }),
    {
        Self { x, y, z }
    }

    /// Packs into the wire representation.
    #[inline]
    #[must_use]
    pub fn encode(self) -> (packed: i64)
        ensures
            packed == packed_block_pos(self),
    {
        ((self.x as i64 & 0x3FF_FFFF) << 38) | ((self.z as i64 & 0x3FF_FFFF) << 12) | (self.y as i64
            & 0xFFF)
    }

    /// Unpacks from the wire representation, sign-extending each field.
    #[inline]
    #[must_use]
    pub fn decode(packed: i64) -> (pos: Self)
        ensures
            pos == unpacked_block_pos(packed),
    {
        Self {
            x: (packed >> 38) as i32,
            y: ((packed << 52) >> 52) as i32,
            z: ((packed << 26) >> 38) as i32,
        }
    }

    /// The chunk column containing this block: both coordinates divided by 16,
    /// rounded toward negative infinity.
    #[inline]
    #[must_use]
    pub fn chunk(self) -> (pos: ChunkPos)
        ensures
            pos.x == self.x as int / 16,
            pos.z == self.z as int / 16,
    {
        proof {
            let (x, z) = (self.x, self.z);
            assert(x >> 4 == x / 16 && z >> 4 == z / 16) by (bit_vector);
        }
        ChunkPos { x: self.x >> 4, z: self.z >> 4 }
    }
}

impl Default for BlockPos {
    fn default() -> (pos: Self)
        ensures
            pos == (BlockPos { x: 0, y: 0, z: 0 }),
    {
        BlockPos { x: 0, y: 0, z: 0 }
    }
}

/// A chunk column coordinate, i.e. a block position divided by 16.
#[derive(Debug, Clone, Copy, PartialEq, Eq, Hash, PartialOrd, Ord, Structural)]
pub struct ChunkPos {
    pub x: i32,
    pub z: i32,
}

/// Both chunk coordinates in one number: X in the low half, Z in the high half.
pub open spec fn packed_chunk_pos(pos: ChunkPos) -> i64 {
    (pos.x as i64 & 0xFFFF_FFFF) | ((pos.z as i64 & 0xFFFF_FFFF) << 32)
}

/// The chunk position that a packed form stands for.
pub open spec fn unpacked_chunk_pos(packed: i64) -> ChunkPos {
    ChunkPos { x: packed as i32, z: (packed >> 32) as i32 }
}

/// The absolute difference of two numbers.
pub open spec fn distance(a: int, b: int) -> int {
    if a >= b {
        a - b
    } else {
        b - a
    }
}

/// How far two chunks are apart on the axis on which they are further.
pub open spec fn chebyshev(a: ChunkPos, b: ChunkPos) -> int {
    let dx = distance(a.x as int, b.x as int);
    let dz = distance(a.z as int, b.z as int);
    if dx > dz {
        dx
    } else {
        dz
    }
}

/// A chunk lies within a distance of another just where it lies in the square
/// that reaches as far on both axes; the distance is the same both ways, and
/// none just between a chunk and itself.
pub proof fn law_distance_is_a_square(a: ChunkPos, b: ChunkPos, reach: int)
    ensures
        chebyshev(a, b) <= reach <==> -reach <= a.x - b.x <= reach && -reach <= a.z - b.z <= reach,
        chebyshev(a, b) == chebyshev(b, a),
        chebyshev(a, b) == 0 <==> a == b,
{
}

impl ChunkPos {
    #[inline]
    #[must_use]
    pub fn new(x: i32, z: i32) -> (pos: Self)
        ensures
            pos == (ChunkPos { x, z }),
    {
        Self { x, z }
    }

    /// Packs both coordinates into one `i64`, the form used as a hash key for
    /// chunk maps.
    #[inline]
    #[must_use]
    pub fn to_long(self) -> (packed: i64)
        ensures
            packed == packed_chunk_pos(self),
    {
        (self.x as i64 & 0xFFFF_FFFF) | ((self.z as i64 & 0xFFFF_FFFF) << 32)
    }

    #[inline]
    #[must_use]
    pub fn from_long(packed: i64) -> (pos: Self)
        ensures
            pos == unpacked_chunk_pos(packed),
    {
        Self { x: packed as i32, z: (packed >> 32) as i32 }
    }

    /// Chebyshev distance in chunks, which is how view distance is measured.
    #[inline]
    #[must_use]
    pub fn chebyshev_distance(self, other: Self) -> (chunks: i32)
        requires
            distance(self.x as int, other.x as int) <= i32::MAX,
            distance(self.z as int, other.z as int) <= i32::MAX,
        ensures
            chunks == {
                let dx = distance(self.x as int, other.x as int);
                let dz = distance(self.z as int, other.z as int);
                if dx > dz { dx } else { dz }
            },
            chunks == chebyshev(self, other),
    {
        let dx: i32 = if self.x >= other.x { self.x - other.x } else { other.x - self.x };
        let dz: i32 = if self.z >= other.z { self.z - other.z } else { other.z - self.z };
        if dx > dz {
            dx
        } else {
            dz
        }
    }
}

impl Default for ChunkPos {
    fn default() -> (pos: Self)
        ensures
            pos == (ChunkPos { x: 0, z: 0 }),
    {
        ChunkPos { x: 0, z: 0 }
    }
}

/// A packed block position holds X above 26 bits of Z above 12 bits of Y, and
/// unpacking gives back every position whose fields fit their widths.
pub proof fn law_block_pos_round_trip(pos: BlockPos)
    requires
        -0x200_0000 <= pos.x < 0x200_0000,
        -0x800 <= pos.y < 0x800,
        -0x200_0000 <= pos.z < 0x200_0000,
    ensures
        unpacked_block_pos(packed_block_pos(pos)) == pos,
        packed_block_pos(pos) == pos.x * 0x40_0000_0000 + (pos.z as int % 0x400_0000) * 0x1000
            + pos.y as int % 0x1000,
{
    let (x, y, z) = (pos.x, pos.y, pos.z);
    let packed = packed_block_pos(pos);
    let (low, mid) = (y as i64 & 0xFFF, z as i64 & 0x3FF_FFFF);
    assert((packed >> 38) as i32 == x && ((packed << 52) >> 52) as i32 == y && ((packed << 26)
        >> 38) as i32 == z && packed - (x as i64) * 0x40_0000_0000 - mid * 0x1000 - low == 0 && (y
        >= 0 ==> low - y as i64 == 0) && (y < 0 ==> low - y as i64 == 0x1000) && (z >= 0 ==> mid
        - z as i64 == 0) && (z < 0 ==> mid - z as i64 == 0x400_0000)) by (bit_vector)
        requires
            -0x200_0000 <= x < 0x200_0000,
            -0x800 <= y < 0x800,
            -0x200_0000 <= z < 0x200_0000,
            low == y as i64 & 0xFFF,
            mid == z as i64 & 0x3FF_FFFF,
            packed == ((x as i64 & 0x3FF_FFFF) << 38) | ((z as i64 & 0x3FF_FFFF) << 12) | (y as i64
                & 0xFFF),
    ;
}

/// Every 64-bit number is the packed form of the block position it stands for.
pub proof fn law_block_pos_packs_back(packed: i64)
    ensures
        packed_block_pos(unpacked_block_pos(packed)) == packed,
{
    let (x, y, z) = ((packed >> 38) as i32, ((packed << 52) >> 52) as i32, ((packed << 26)
        >> 38) as i32);
    assert(packed == ((x as i64 & 0x3FF_FFFF) << 38) | ((z as i64 & 0x3FF_FFFF) << 12) | (y as i64
        & 0xFFF)) by (bit_vector)
        requires
            x == (packed >> 38) as i32,
            y == ((packed << 52) >> 52) as i32,
            z == ((packed << 26) >> 38) as i32,
    ;
}

/// A packed chunk position holds Z above 32 bits of X, and packing and
/// unpacking undo each other, in both directions and for every value.
pub proof fn law_chunk_pos_round_trip(pos: ChunkPos, long: i64)
    ensures
        packed_chunk_pos(pos) == pos.z * 0x1_0000_0000 + pos.x as int % 0x1_0000_0000,
        unpacked_chunk_pos(packed_chunk_pos(pos)) == pos,
        packed_chunk_pos(unpacked_chunk_pos(long)) == long,
{
    let (x, z) = (pos.x, pos.z);
    let packed = packed_chunk_pos(pos);
    let (u, w) = (long as i32, (long >> 32) as i32);
    let low = x as i64 & 0xFFFF_FFFF;
    assert(packed as i32 == x && (packed >> 32) as i32 == z && (u as i64 & 0xFFFF_FFFF) | ((
    w as i64 & 0xFFFF_FFFF) << 32) == long && packed - (z as i64) * 0x1_0000_0000 - low == 0 && (x
        >= 0 ==> low - x as i64 == 0) && (x < 0 ==> low - x as i64 == 0x1_0000_0000))
        by (bit_vector)
        requires
            low == x as i64 & 0xFFFF_FFFF,
            packed == (x as i64 & 0xFFFF_FFFF) | ((z as i64 & 0xFFFF_FFFF) << 32),
            u == long as i32,
            w == (long >> 32) as i32,
    ;
}

/// A player's interaction mode.
#[derive(Debug, Clone, Copy, PartialEq, Eq, Hash, Structural)]
pub enum GameMode {
    Survival,
    Creative,
    Adventure,
    Spectator,
}

/// The number of a game mode on the wire.
pub open spec fn game_mode_id(mode: GameMode) -> u8 {
    match mode {
        GameMode::Survival => 0,
        GameMode::Creative => 1,
        GameMode::Adventure => 2,
        GameMode::Spectator => 3,
    }
}

/// The game mode that a number stands for.
pub open spec fn parse_game_mode(id: i32) -> Result<GameMode> {
    if id == 0 {
        Ok(GameMode::Survival)
    } else if id == 1 {
        Ok(GameMode::Creative)
    } else if id == 2 {
        Ok(GameMode::Adventure)
    } else if id == 3 {
        Ok(GameMode::Spectator)
    } else {
        Err(ProtocolError::InvalidEnum { kind: "GameMode", value: id as i64 })
    }
}

impl GameMode {
    #[inline]
    pub fn from_id(id: i32) -> (mode: Result<Self>)
        ensures
            mode == parse_game_mode(id),
    {
        match id {
            0 => Ok(GameMode::Survival),
            1 => Ok(GameMode::Creative),
            2 => Ok(GameMode::Adventure),
            3 => Ok(GameMode::Spectator),
            other => Err(ProtocolError::InvalidEnum { kind: "GameMode", value: other as i64 }),
        }
    }

    #[inline]
    #[must_use]
    pub fn id(self) -> (id: u8)
        ensures
            id == game_mode_id(self),
    {
        match self {
            GameMode::Survival => 0,
            GameMode::Creative => 1,
            GameMode::Adventure => 2,
            GameMode::Spectator => 3,
        }
    }

    #[must_use]
    pub fn name(self) -> (name: &'static str)
        ensures
            name@ == (match self {
                GameMode::Survival => "survival"@,
                GameMode::Creative => "creative"@,
                GameMode::Adventure => "adventure"@,
                GameMode::Spectator => "spectator"@,
            }),
    {
        match self {
            GameMode::Survival => "survival",
            GameMode::Creative => "creative",
            GameMode::Adventure => "adventure",
            GameMode::Spectator => "spectator",
        }
    }
}

impl Default for GameMode {
    fn default() -> (mode: Self)
        ensures
            mode == GameMode::Survival,
    {
        GameMode::Survival
    }
}

/// World difficulty.
#[derive(Debug, Clone, Copy, PartialEq, Eq, Hash, Structural)]
pub enum Difficulty {
    Peaceful,
    Easy,
    Normal,
    Hard,
}

/// The number of a difficulty on the wire.
pub open spec fn difficulty_id(difficulty: Difficulty) -> u8 {
    match difficulty {
        Difficulty::Peaceful => 0,
        Difficulty::Easy => 1,
        Difficulty::Normal => 2,
        Difficulty::Hard => 3,
    }
}

/// The difficulty that a number stands for.
pub open spec fn parse_difficulty(id: u8) -> Result<Difficulty> {
    if id == 0 {
        Ok(Difficulty::Peaceful)
    } else if id == 1 {
        Ok(Difficulty::Easy)
    } else if id == 2 {
        Ok(Difficulty::Normal)
    } else if id == 3 {
        Ok(Difficulty::Hard)
    } else {
        Err(ProtocolError::InvalidEnum { kind: "Difficulty", value: id as i64 })
    }
}

impl Difficulty {
    #[inline]
    pub fn from_id(id: u8) -> (difficulty: Result<Self>)
        ensures
            difficulty == parse_difficulty(id),
    {
        match id {
            0 => Ok(Difficulty::Peaceful),
            1 => Ok(Difficulty::Easy),
            2 => Ok(Difficulty::Normal),
            3 => Ok(Difficulty::Hard),
            other => Err(ProtocolError::InvalidEnum { kind: "Difficulty", value: other as i64 }),
        }
    }

    #[inline]
    #[must_use]
    pub fn id(self) -> (id: u8)
        ensures
            id == difficulty_id(self),
    {
        match self {
            Difficulty::Peaceful => 0,
            Difficulty::Easy => 1,
            Difficulty::Normal => 2,
            Difficulty::Hard => 3,
        }
    }
}

impl Default for Difficulty {
    fn default() -> (difficulty: Self)
        ensures
            difficulty == Difficulty::Easy,
    {
        Difficulty::Easy
    }
}

/// A number names a game mode or a difficulty exactly when it is the number of
/// that variant.
pub proof fn law_mode_ids_round_trip(mode: GameMode, difficulty: Difficulty, id: i32, small: u8)
    ensures
        parse_game_mode(game_mode_id(mode) as i32) == Ok::<GameMode, ProtocolError>(mode),
        parse_difficulty(difficulty_id(difficulty)) == Ok::<Difficulty, ProtocolError>(difficulty),
        parse_game_mode(id) matches Ok(m) ==> game_mode_id(m) == id,
        parse_difficulty(small) matches Ok(d) ==> difficulty_id(d) == small,
{
}

/// A single-precision number, held as its IEEE 754 bit pattern.
#[derive(Debug, Clone, Copy)]
pub struct Float32 {
    pub bits: u32,
}

/// Whether two bit patterns stand for equal single-precision numbers: nothing
/// equals what is not a number, and the two zeros are equal.
pub open spec fn equal32(a: u32, b: u32) -> bool {
    let (a_size, b_size) = (a % 0x8000_0000, b % 0x8000_0000);
    &&& a_size <= 0x7F80_0000
    &&& b_size <= 0x7F80_0000
    &&& a == b || (a_size == 0 && b_size == 0)
}

impl PartialEq for Float32 {
    fn eq(&self, other: &Self) -> (equal: bool) {
        let size: u32 = self.bits % 0x8000_0000;
        let other_size: u32 = other.bits % 0x8000_0000;
        size <= 0x7F80_0000 && other_size <= 0x7F80_0000 && (self.bits == other.bits || (size == 0
            && other_size == 0))
    }
}

impl vstd::std_specs::cmp::PartialEqSpecImpl for Float32 {
    open spec fn obeys_eq_spec() -> bool {
        true
    }

    open spec fn eq_spec(&self, other: &Self) -> bool {
        equal32(self.bits, other.bits)
    }
}

/// A double-precision number, held as its IEEE 754 bit pattern.
#[derive(Debug, Clone, Copy)]
pub struct Float64 {
    pub bits: u64,
}

/// Whether two bit patterns stand for equal double-precision numbers: nothing
/// equals what is not a number, and the two zeros are equal.
pub open spec fn equal64(a: u64, b: u64) -> bool {
    let (a_size, b_size) = (a % 0x8000_0000_0000_0000, b % 0x8000_0000_0000_0000);
    &&& a_size <= 0x7FF0_0000_0000_0000
    &&& b_size <= 0x7FF0_0000_0000_0000
    &&& a == b || (a_size == 0 && b_size == 0)
}

impl PartialEq for Float64 {
    fn eq(&self, other: &Self) -> (equal: bool) {
        let size: u64 = self.bits % 0x8000_0000_0000_0000;
        let other_size: u64 = other.bits % 0x8000_0000_0000_0000;
        size <= 0x7FF0_0000_0000_0000 && other_size <= 0x7FF0_0000_0000_0000 && (self.bits
            == other.bits || (size == 0 && other_size == 0))
    }
}

impl vstd::std_specs::cmp::PartialEqSpecImpl for Float64 {
    open spec fn obeys_eq_spec() -> bool {
        true
    }

    open spec fn eq_spec(&self, other: &Self) -> bool {
        equal64(self.bits, other.bits)
    }
}

/// The place of a double-precision number that is one among all of them: its
/// size, counted down from zero where its sign is set.
pub open spec fn place64(bits: u64) -> int {
    let size = bits % 0x8000_0000_0000_0000;
    if bits < 0x8000_0000_0000_0000 {
        size as int
    } else {
        -(size as int)
    }
}

/// Whether two bit patterns stand for double-precision numbers of which the
/// first is no larger. Nothing is so of what is not a number.
pub open spec fn at_most64(a: u64, b: u64) -> bool {
    &&& a % 0x8000_0000_0000_0000 <= 0x7FF0_0000_0000_0000
    &&& b % 0x8000_0000_0000_0000 <= 0x7FF0_0000_0000_0000
    &&& place64(a) <= place64(b)
}

impl Float64 {
    /// Whether this number is no larger than another, which nothing is that is
    /// not a number.
    #[must_use]
    pub fn at_most(self, other: Float64) -> (ordered: bool)
        ensures
            ordered == at_most64(self.bits, other.bits),
    {
        let sign: u64 = 0x8000_0000_0000_0000;
        let size: u64 = self.bits % sign;
        let other_size: u64 = other.bits % sign;
        if size > 0x7FF0_0000_0000_0000 || other_size > 0x7FF0_0000_0000_0000 {
            return false;
        }
        match (self.bits >= sign, other.bits >= sign) {
            (false, false) => size <= other_size,
            (false, true) => size == 0 && other_size == 0,
            (true, false) => true,
            (true, true) => size >= other_size,
        }
    }
}

/// A 128-bit universally unique identifier.
#[derive(Debug, Clone, Copy, PartialEq, Eq, Hash, Structural)]
pub struct Uuid {
    pub value: u128,
}

/// The lower-case hexadecimal digit of `n`, which is below 16.
pub open spec fn hex_digit(n: u128) -> char {
    if n < 10 {
        ('0' as u32 + n) as char
    } else {
        ('a' as u32 + (n - 10)) as char
    }
}

/// The hexadecimal digit of `value` at place `k`, counted from the most
/// significant of 32.
pub open spec fn uuid_digit(value: u128, k: int) -> char {
    hex_digit((value >> ((4 * (31 - k)) as u128)) & 0xf)
}

/// The text of a UUID: 32 hexadecimal digits in groups of 8, 4, 4, 4 and 12,
/// joined by hyphens.
pub open spec fn uuid_text(value: u128) -> Seq<char> {
    Seq::new(
        36,
        |i: int|
            if i < 8 {
                uuid_digit(value, i)
            } else if i == 8 || i == 13 || i == 18 || i == 23 {
                '-'
            } else if i < 13 {
                uuid_digit(value, i - 1)
            } else if i < 18 {
                uuid_digit(value, i - 2)
            } else if i < 23 {
                uuid_digit(value, i - 3)
            } else {
                uuid_digit(value, i - 4)
            },
    )
}

impl Uuid {
    #[inline]
    #[must_use]
    pub fn from_u128(value: u128) -> (uuid: Self)
        ensures
            uuid == (Uuid { value }),
    {
        Uuid { value }
    }

    #[inline]
    #[must_use]
    pub fn as_u128(&self) -> (value: u128)
        ensures
            value == self.value,
    {
        self.value
    }

    /// The UUID with every bit clear.
    #[inline]
    #[must_use]
    pub fn nil() -> (uuid: Self)
        ensures
            uuid.value == 0,
    {
        Uuid { value: 0 }
    }

    /// The UUID whose bytes, most significant first, are `bytes`.
    #[must_use]
    pub fn from_bytes(bytes: [u8; 16]) -> (uuid: Self)
        ensures
            uuid.value == wire::from_be128(bytes@),
    {
        Uuid { value: read_be128(bytes.as_slice()) }
    }

    /// The 16 bytes of the UUID, most significant first.
    #[must_use]
    pub fn as_bytes(&self) -> (bytes: Vec<u8>)
        ensures
            bytes@ == wire::be128(self.value),
    {
        let mut bytes: Vec<u8> = Vec::new();
        bytes.write_uuid(*self);
        assert(bytes@ =~= wire::be128(self.value));
        bytes
    }

    /// The version number, from the four bits that hold it.
    #[must_use]
    pub fn get_version_num(&self) -> (version: usize)
        ensures
            version == (self.value >> 76) & 0xf,
    {
        let v: u128 = self.value;
        assert((v >> 76) & 0xf <= 0xf) by (bit_vector);
        ((v >> 76) & 0xf) as usize
    }

    /// The hyphenated text of the UUID.
    #[must_use]
    pub fn to_string(&self) -> (text: String)
        ensures
            text@ == uuid_text(self.value),
    {
        hyphenated(self.value)
    }
}

/// Calls `to_string` of `uuid::Uuid`, which writes 32 lower-case hexadecimal
/// digits, most significant first, in groups of 8, 4, 4, 4 and 12 with a hyphen
/// between them.
#[verifier::external_body]
fn hyphenated(value: u128) -> (text: String)
    ensures
        text@ == uuid_text(value),
{
    uuid::Uuid::from_u128(value).to_string()
}

/// Double-precision numbers are ordered as their values are: those without a
/// sign by their bits, those with one the other way round, every signed one
/// before every unsigned one, and the two zeros alike. What is not a number is
/// in no order, not even with itself.
pub proof fn law_order_of_doubles(a: u64, b: u64)
    ensures
        ({
            let sign = 0x8000_0000_0000_0000u64;
            let infinity = 0x7FF0_0000_0000_0000u64;
            let nan = |bits: u64|
                infinity < bits < sign || bits > sign + infinity;
            &&& nan(a) || nan(b) ==> !at_most64(a, b)
            &&& a <= infinity && b <= infinity ==> (at_most64(a, b) <==> a <= b)
            &&& sign <= a <= sign + infinity && sign <= b <= sign + infinity ==> (at_most64(a, b)
                <==> a >= b)
            &&& sign <= a <= sign + infinity && b <= infinity ==> at_most64(a, b)
            &&& a <= infinity && sign <= b <= sign + infinity ==> (at_most64(a, b) <==> a == 0 && b
                == sign)
        }),
{
}

/// Numbers are equal just where each is at most the other; so nothing equals
/// what is not a number, and the two zeros are equal.
pub proof fn law_equal_doubles(a: u64, b: u64)
    ensures
        equal64(a, b) <==> at_most64(a, b) && at_most64(b, a),
{
}

/// Single-precision numbers are equal just where their bits are, but for what is
/// not a number, which equals nothing, and for the two zeros, which are equal.
pub proof fn law_equal_singles(a: u32, b: u32)
    ensures
        ({
            let nan = |bits: u32| 0x7F80_0000 < bits < 0x8000_0000 || bits > 0xFF80_0000;
            let zero = |bits: u32| bits == 0 || bits == 0x8000_0000;
            equal32(a, b) <==> !nan(a) && !nan(b) && (a == b || (zero(a) && zero(b)))
        }),
{
}

} // verus!
