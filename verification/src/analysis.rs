//! The record type, the domain constants, and the binary encoding.

use vstd::bytes::lemma_auto_spec_u64_to_from_le_bytes;
use vstd::bytes::spec_u64_from_le_bytes;
use vstd::bytes::spec_u64_to_le_bytes;
use vstd::bytes::spec_u64_to_le_bytes_to_open;
use vstd::prelude::*;

verus! {

/// Number of cells on the board, and also the magnitude limit on a score
/// bound (a score counts cells).
pub const BOARD_SIZE: i8 = 64;

/// Largest search depth a record may report; doubles as the exact number of
/// empty cells every archived position must have.
pub const DEPTH_LIMIT: u8 = 36;

/// Largest search strength a record may report.
pub const STRENGTH_LIMIT: u8 = 100;

/// Exclusive magnitude bound on the node count: 2^47.
pub const NODE_BOUND: i64 = 0x8000_0000_0000;

/// Number of placeholder (empty-cell) characters a valid entry name's board
/// signature must contain.
pub const NAME_PLACEHOLDERS: usize = 50;

/// One parsed analysis record: which cells each side occupies, the search
/// settings used, the score bounds found, and the nodes spent.
#[derive(Debug, PartialEq, Eq)]
pub struct OthelloAnalysis {
    /// `board[0]`: bitmask of cells occupied by side "O";
    /// `board[1]`: bitmask of cells occupied by side "X".
    pub board: [u64; 2],
    /// `settings[0]`: search depth used; `settings[1]`: search strength used.
    pub settings: [u8; 2],
    /// `bounds[0]`: lower score bound; `bounds[1]`: upper score bound.
    pub bounds: [i8; 2],
    /// Count of search nodes expended.
    pub nodes: i64,
}

impl OthelloAnalysis {
    /// A record is eligible for output exactly when it represents a
    /// maximal-effort, fully-searched position.
    pub open spec fn spec_selected(self) -> bool {
        self.settings[0] == DEPTH_LIMIT && self.settings[1] == STRENGTH_LIMIT
    }

    /// Decides eligibility for output.
    pub fn selected(&self) -> (r: bool)
        ensures
            r == self.spec_selected(),
    {
        self.settings[0] == DEPTH_LIMIT && self.settings[1] == STRENGTH_LIMIT
    }

    /// The 18-byte wire form: each board mask in little-endian order, then
    /// the two bounds with their two's-complement bit patterns kept.
    pub open spec fn spec_to_bytes(self) -> Seq<u8> {
        spec_u64_to_le_bytes(self.board[0]) + spec_u64_to_le_bytes(self.board[1]) + seq![
            as_unsigned_byte(self.bounds[0]),
            as_unsigned_byte(self.bounds[1]),
        ]
    }

    /// Serializes the record to its fixed 18-byte little-endian layout.
    pub fn to_bytes(&self) -> (bytes: [u8; 18])
        ensures
            bytes@ == self.spec_to_bytes(),
            bytes@[16] == as_unsigned_byte(self.bounds[0]),
            bytes@[17] == as_unsigned_byte(self.bounds[1]),
    {
        let b0 = self.board[0];
        let b1 = self.board[1];
        let bytes: [u8; 18] = [
            b0 as u8,
            (b0 >> 8u64) as u8,
            (b0 >> 16u64) as u8,
            (b0 >> 24u64) as u8,
            (b0 >> 32u64) as u8,
            (b0 >> 40u64) as u8,
            (b0 >> 48u64) as u8,
            (b0 >> 56u64) as u8,
            b1 as u8,
            (b1 >> 8u64) as u8,
            (b1 >> 16u64) as u8,
            (b1 >> 24u64) as u8,
            (b1 >> 32u64) as u8,
            (b1 >> 40u64) as u8,
            (b1 >> 48u64) as u8,
            (b1 >> 56u64) as u8,
            self.bounds[0] as u8,
            self.bounds[1] as u8,
        ];
        proof {
            lemma_as_unsigned_byte(self.bounds[0]);
            lemma_as_unsigned_byte(self.bounds[1]);
            lemma_le_byte_masks(b0);
            lemma_le_byte_masks(b1);
            spec_u64_to_le_bytes_to_open(b0);
            spec_u64_to_le_bytes_to_open(b1);
            lemma_auto_spec_u64_to_from_le_bytes();
            assert(bytes@ =~= self.spec_to_bytes());
        }
        bytes
    }
}

/// The unsigned-byte reinterpretation of a signed byte: the value of its
/// two's-complement bit pattern read as unsigned.
pub open spec fn as_unsigned_byte(b: i8) -> u8 {
    ((b as int) % 256) as u8
}

/// A truncating cast of a signed byte to `u8` yields exactly its
/// two's-complement unsigned reinterpretation.
proof fn lemma_as_unsigned_byte(b: i8)
    by (bit_vector)
    ensures
        b as u8 == ((b as int) % 256) as u8,
{
}

/// Masking a 64-bit word's shifted low byte with `0xff` does not change what
/// a truncating cast to `u8` keeps.
proof fn lemma_le_byte_masks(x: u64)
    by (bit_vector)
    ensures
        x as u8 == (x & 0xff) as u8,
        (x >> 8u64) as u8 == ((x >> 8u64) & 0xff) as u8,
        (x >> 16u64) as u8 == ((x >> 16u64) & 0xff) as u8,
        (x >> 24u64) as u8 == ((x >> 24u64) & 0xff) as u8,
        (x >> 32u64) as u8 == ((x >> 32u64) & 0xff) as u8,
        (x >> 40u64) as u8 == ((x >> 40u64) & 0xff) as u8,
        (x >> 48u64) as u8 == ((x >> 48u64) & 0xff) as u8,
        (x >> 56u64) as u8 == ((x >> 56u64) & 0xff) as u8,
{
}

/// Law: decoding the two 8-byte halves of an encoded record as little-endian
/// 64-bit integers reproduces the two board masks exactly, for every record.
pub proof fn lemma_board_round_trip(rec: OthelloAnalysis)
    ensures
        spec_u64_from_le_bytes(rec.spec_to_bytes().subrange(0, 8)) == rec.board[0],
        spec_u64_from_le_bytes(rec.spec_to_bytes().subrange(8, 16)) == rec.board[1],
{
    lemma_auto_spec_u64_to_from_le_bytes();
    assert(rec.spec_to_bytes().subrange(0, 8) =~= spec_u64_to_le_bytes(rec.board[0]));
    assert(rec.spec_to_bytes().subrange(8, 16) =~= spec_u64_to_le_bytes(rec.board[1]));
}

} // verus!
