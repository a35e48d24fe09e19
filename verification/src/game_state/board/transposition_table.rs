//! Zobrist keys and the lock-free transposition table.
//!
//! The table stores each entry as two atomic words: `hash ^ data` and
//! `data`. A reader accepts an entry only when the two words it loaded XOR
//! back to the hash it looks for. What the atomics hold at any moment depends
//! on every thread that shares the table, so the contracts here speak of the
//! packing of entries, of the table's shape and of the replacement policy,
//! which are functions of the words that were read.

use rand::Rng;
use std::sync::atomic::{AtomicU64, Ordering};
use vstd::prelude::*;

verus! {

/// Pre-computed random numbers for Zobrist hashing of chess positions.
///
/// - `pieces`: 64 squares x 12 pieces random values, indexed by the
///   standard square (0 = a1) and the piece code minus one
/// - `side_to_move`: random value for the black side to move
/// - `castling_rights`: values for [White QueenSide, White KingSide,
///   Black QueenSide, Black KingSide]
/// - `en_passant`: one value for each file where en passant can occur
#[derive(Clone, Copy)]
pub struct Zobrist {
    pub pieces: [[u64; 12]; 64],
    pub side_to_move: u64,
    pub castling_rights: [u64; 4],
    pub en_passant: [u64; 8],
}

impl Default for Zobrist {
    /// New random keys (see [`Zobrist::new`]).
    fn default() -> (z: Self) {
        Zobrist::new()
    }
}

#[verifier::external_type_specification]
#[verifier::external_body]
pub struct ExThreadRng(rand::rngs::ThreadRng);

/// Calls `rand::rng()`, the handle to the thread-local random generator.
/// Nothing is claimed of the handle.
#[verifier::external_body]
fn thread_rng() -> rand::rngs::ThreadRng {
    rand::rng()
}

/// Calls `Rng::random::<u64>()` on the generator. The value is random:
/// nothing is claimed of it.
#[verifier::external_body]
fn random_key(rng: &mut rand::rngs::ThreadRng) -> u64 {
    rng.random()
}

impl Zobrist {
    /// Generates a new Zobrist structure filled with random numbers.
    ///
    /// This should be called once and shared across all board instances.
    pub fn new() -> (z: Self) {
        let mut rng = thread_rng();
        let side_to_move = random_key(&mut rng);
        let c0 = random_key(&mut rng);
        let c1 = random_key(&mut rng);
        let c2 = random_key(&mut rng);
        let c3 = random_key(&mut rng);
        let mut en_passant: [u64; 8] = [0u64; 8];
        let mut file: usize = 0;
        while file < 8
            invariant
                file <= 8,
            decreases 8 - file,
        {
            en_passant[file] = random_key(&mut rng);
            file = file + 1;
        }
        let mut zobrist = Zobrist {
            pieces: [[0u64; 12]; 64],
            side_to_move,
            castling_rights: [c0, c1, c2, c3],
            en_passant,
        };
        let mut square: usize = 0;
        while square < 64
            invariant
                square <= 64,
            decreases 64 - square,
        {
            let mut row: [u64; 12] = zobrist.pieces[square];
            let mut piece: usize = 0;
            while piece < 12
                invariant
                    piece <= 12,
                decreases 12 - piece,
            {
                row[piece] = random_key(&mut rng);
                piece = piece + 1;
            }
            zobrist.pieces[square] = row;
            square = square + 1;
        }
        zobrist
    }
}

/// Unpacked transposition table data.
///
/// Bit layout of the packed 64-bit word:
/// - Bits 0-15:   score (i16 stored as u16 using two's complement)
/// - Bits 16-23:  depth
/// - Bits 24-25:  node type (0=exact, 1=lower bound, 2=upper bound)
/// - Bits 26-41:  best move (16 bits)
/// - Bits 42-49:  age
/// - Bits 50-63:  unused
pub struct TranspositionTableData {
    pub score: i16,
    pub depth: u8,
    pub node_type: NodeType,
    pub best_move: u16,
    pub age: u8,
}

/// Classification of transposition table entries for alpha-beta search.
#[derive(Clone, Copy, Debug, PartialEq, Eq, Structural)]
pub enum NodeType {
    /// The score is an exact evaluation of the position.
    Exact,
    /// The score is a lower bound.
    LowerBound,
    /// The score is an upper bound.
    UpperBound,
}

impl NodeType {
    /// The two-bit code of a node type.
    pub open spec fn code(self) -> u64 {
        match self {
            NodeType::Exact => 0,
            NodeType::LowerBound => 1,
            NodeType::UpperBound => 2,
        }
    }

    /// The node type of a code, if the code is one.
    pub open spec fn from_code(v: u8) -> Option<NodeType> {
        if v == 0 {
            Some(NodeType::Exact)
        } else if v == 1 {
            Some(NodeType::LowerBound)
        } else if v == 2 {
            Some(NodeType::UpperBound)
        } else {
            None
        }
    }

    /// The two-bit code of this node type.
    pub fn to_code(self) -> (r: u64)
        ensures
            r == self.code(),
    {
        match self {
            NodeType::Exact => 0,
            NodeType::LowerBound => 1,
            NodeType::UpperBound => 2,
        }
    }
}

impl NodeType {
    /// The node type of a two-bit code, `None` for the unused code.
    pub fn from_bits(value: u8) -> (r: Option<NodeType>)
        ensures
            r == NodeType::from_code(value),
    {
        if value == 0 {
            Some(NodeType::Exact)
        } else if value == 1 {
            Some(NodeType::LowerBound)
        } else if value == 2 {
            Some(NodeType::UpperBound)
        } else {
            None
        }
    }
}

/// A single lock-free entry of the table: `hash_xor_data` holds
/// `hash_key ^ data` and `data` holds the packed entry.
pub struct TranspositionEntry {
    pub hash_xor_data: AtomicU64,
    pub data: AtomicU64,
}

/// Calls `std::mem::size_of::<TranspositionEntry>()`. Claimed: the result
/// is the type's size, which is not zero since the type holds two `u64`
/// atomics.
#[verifier::external_body]
fn entry_size() -> (r: usize)
    ensures
        r as nat == vstd::layout::size_of::<TranspositionEntry>(),
        r > 0,
{
    std::mem::size_of::<TranspositionEntry>()
}

/// A lock-free transposition table for caching position evaluations.
///
/// Replacement policy:
/// 1. Always replace empty slots
/// 2. For the same position: replace if deeper search, or same depth and
///    not older
/// 3. For collisions: decide by age, then depth, then node type
pub struct TranspositionTable {
    entries: Vec<TranspositionEntry>,
    size: usize,
}

/// The packed word of the data's fields (see [`TranspositionTableData`]).
pub open spec fn packed(score: i16, depth: u8, node_type: NodeType, best_move: u16, age: u8) -> u64 {
    (score as u16 as u64) | ((depth as u64) << 16u64) | (node_type.code() << 24u64) | ((
    best_move as u64) << 26u64) | ((age as u64) << 42u64)
}

/// The number of entries of a table of the given size in megabytes.
pub open spec fn entries_for_megabytes(size_mb: int) -> int {
    (size_mb * 1024 * 1024) / (vstd::layout::size_of::<TranspositionEntry>() as int)
}

/// The score field of a packed word.
pub open spec fn spec_score(data: u64) -> i16 {
    (data & 0xFFFF) as u16 as i16
}

/// The depth field of a packed word.
pub open spec fn spec_depth(data: u64) -> u8 {
    ((data >> 16u64) & 0xFF) as u8
}

/// The node type bits of a packed word.
pub open spec fn spec_node_bits(data: u64) -> u8 {
    ((data >> 24u64) & 3) as u8
}

/// The best move field of a packed word.
pub open spec fn spec_best_move(data: u64) -> u16 {
    ((data >> 26u64) & 0xFFFF) as u16
}

/// The age field of a packed word.
pub open spec fn spec_age(data: u64) -> u8 {
    ((data >> 42u64) & 0xFF) as u8
}

/// The collision policy: whether a new word takes the slot of an existing
/// word of another position. The new word, of the current search, always
/// does when the existing one is of another age; otherwise the deeper
/// search does; at equal depth the new word does unless it is a bound and
/// the existing word is exact.
pub open spec fn spec_should_replace(existing: u64, new_data: u64) -> bool {
    if spec_age(new_data) != spec_age(existing) {
        true
    } else if spec_depth(new_data) != spec_depth(existing) {
        spec_depth(new_data) > spec_depth(existing)
    } else {
        spec_node_bits(new_data) == 0 || spec_node_bits(existing) != 0
    }
}

/// The same-position policy: a new word replaces a word stored for the same
/// position when it comes from a deeper search, or from a search of the same
/// depth and an age not older.
pub open spec fn spec_same_position_replaces(existing: u64, new_data: u64) -> bool {
    spec_depth(new_data) > spec_depth(existing) || (spec_depth(new_data) == spec_depth(existing)
        && spec_age(new_data) >= spec_age(existing))
}

impl TranspositionEntry {
    /// Extracts the score from packed 64-bit data.
    pub fn score(data: u64) -> (r: i16)
        ensures
            r == spec_score(data),
    {
        ((data & 0xFFFF) as u16) as i16
    }

    /// Extracts the depth from packed 64-bit data.
    pub fn depth(data: u64) -> (r: u8)
        ensures
            r == spec_depth(data),
    {
        ((data >> 16) & 0xFF) as u8
    }

    /// Extracts the node type from packed 64-bit data. The two node type
    /// bits must hold one of the three codes.
    pub fn node_type(data: u64) -> (r: NodeType)
        requires
            spec_node_bits(data) <= 2,
        ensures
            NodeType::from_code(spec_node_bits(data)) == Some(r),
    {
        let bits = ((data >> 24) & 0b11) as u8;
        match NodeType::from_bits(bits) {
            Some(t) => t,
            None => NodeType::Exact,
        }
    }

    /// Extracts the encoded best move from packed 64-bit data.
    pub fn best_move(data: u64) -> (r: u16)
        ensures
            r == spec_best_move(data),
    {
        ((data >> 26) & 0xFFFF) as u16
    }

    /// Extracts the age of the entry from packed 64-bit data.
    pub fn age(data: u64) -> (r: u8)
        ensures
            r == spec_age(data),
    {
        ((data >> 42) & 0xFF) as u8
    }

    /// Loads the XOR verification word (relaxed ordering). Other threads
    /// may write the entry at any time: nothing is claimed of the value.
    fn get_hash_xor_data(&self) -> u64 {
        self.hash_xor_data.load(Ordering::Relaxed)
    }

    /// Loads the packed data word (relaxed ordering). Nothing is claimed of
    /// the value.
    fn get_data(&self) -> u64 {
        self.data.load(Ordering::Relaxed)
    }

    /// Stores a new XOR verification word (release ordering).
    fn set_hash_xor_data(&self, hash: u64) {
        self.hash_xor_data.store(hash, Ordering::Release);
    }

    /// Stores a new packed data word (release ordering).
    fn set_data(&self, data: u64) {
        self.data.store(data, Ordering::Release);
    }

    /// Creates a new, empty entry (both words zero).
    fn new() -> Self {
        Self { hash_xor_data: AtomicU64::new(0), data: AtomicU64::new(0) }
    }

    /// Checks whether the entry reads as empty (both words zero), with the
    /// data word and the check word it read.
    fn is_empty(&self) -> (r: (bool, Ghost<(u64, u64)>))
        ensures
            r.0 == (r.1@.0 == 0 && r.1@.1 == 0),
    {
        let data = self.data.load(Ordering::Relaxed);
        let xor = self.hash_xor_data.load(Ordering::Relaxed);
        (data == 0 && xor == 0, Ghost((data, xor)))
    }
}

/// Packs the fields of the data into one 64-bit word.
pub fn pack_data(transposition_data: &TranspositionTableData) -> (r: u64)
    ensures
        r == packed(
            transposition_data.score,
            transposition_data.depth,
            transposition_data.node_type,
            transposition_data.best_move,
            transposition_data.age,
        ),
{
    let mut data_u64: u64 = 0;
    data_u64 = data_u64 | (transposition_data.score as u16 as u64);
    data_u64 = data_u64 | ((transposition_data.depth as u64) << 16u64);
    data_u64 = data_u64 | (transposition_data.node_type.to_code() << 24u64);
    data_u64 = data_u64 | ((transposition_data.best_move as u64) << 26u64);
    data_u64 = data_u64 | ((transposition_data.age as u64) << 42u64);
    proof {
        let s = transposition_data.score;
        let d = transposition_data.depth;
        let n = transposition_data.node_type.code();
        let b = transposition_data.best_move;
        let a = transposition_data.age;
        assert(((0u64 | (s as u16 as u64)) | ((d as u64) << 16u64)) | (n << 24u64) == (s as u16
            as u64) | ((d as u64) << 16u64) | (n << 24u64)) by (bit_vector);
    }
    data_u64
}

/// The fields of a packed word, when its node type bits name a node type.
pub open spec fn unpacked(data: u64) -> Option<TranspositionTableData> {
    if spec_node_bits(data) <= 2 {
        Some(
            TranspositionTableData {
                score: spec_score(data),
                depth: spec_depth(data),
                node_type: NodeType::from_code(spec_node_bits(data))->0,
                best_move: spec_best_move(data),
                age: spec_age(data),
            },
        )
    } else {
        None
    }
}

/// Unpacks a word into table data, or `None` when its node type bits hold
/// no node type (a word that no store wrote).
pub fn unpack_data(data: u64) -> (r: Option<TranspositionTableData>)
    ensures
        r == unpacked(data),
        spec_node_bits(data) <= 2 <==> r is Some,
        r matches Some(d) ==> d.score == spec_score(data) && d.depth == spec_depth(data)
            && NodeType::from_code(spec_node_bits(data)) == Some(d.node_type) && d.best_move
            == spec_best_move(data) && d.age == spec_age(data),
{
    let bits = ((data >> 24) & 0b11) as u8;
    if bits > 2 {
        return None;
    }
    Some(
        TranspositionTableData {
            score: TranspositionEntry::score(data),
            depth: TranspositionEntry::depth(data),
            node_type: TranspositionEntry::node_type(data),
            best_move: TranspositionEntry::best_move(data),
            age: TranspositionEntry::age(data),
        },
    )
}

/// The word a slot keeps beside the data it holds for `hash`.
pub open spec fn slot_word(hash: u64, data: u64) -> u64 {
    hash ^ data
}

/// The probe's test of a slot's two words against `hash`: the data, when
/// the word and the data XOR back to `hash`.
pub open spec fn slot_check(word: u64, data: u64, hash: u64) -> Option<u64> {
    if word ^ data == hash {
        Some(data)
    } else {
        None
    }
}

/// The words a probe read from a slot: the data and check words first read
/// to tell an empty slot, then the check word and data tested.
pub struct SlotRead {
    pub index: usize,
    pub first_data: u64,
    pub first_xor: u64,
    pub xor: u64,
    pub data: u64,
}

/// What a probe finds from the words it read: nothing when the slot first
/// reads as empty (both words zero), otherwise the XOR check of the words
/// read next against `hash`.
pub open spec fn probe_outcome(read: SlotRead, hash: u64) -> Option<u64> {
    if read.first_data == 0 && read.first_xor == 0 {
        None
    } else {
        slot_check(read.xor, read.data, hash)
    }
}

/// What a store read from a slot and wrote to it: the words first read to
/// tell an empty slot, the check word and data read next, the data word the
/// collision policy read, and the check word and data written, if any.
pub struct SlotWrite {
    pub index: usize,
    pub first_data: u64,
    pub first_xor: u64,
    pub xor: u64,
    pub data: u64,
    pub policy_data: u64,
    pub written: Option<(u64, u64)>,
}

/// Whether a store of `data` for `hash` writes, from the words it read: an
/// empty slot is written; a slot whose words give back `hash` follows the
/// same-position policy; another follows the collision policy on the data
/// word it read.
pub open spec fn store_writes(w: SlotWrite, hash: u64, data: u64) -> bool {
    if w.first_data == 0 && w.first_xor == 0 {
        true
    } else if slot_word(hash, w.data) == w.xor {
        spec_same_position_replaces(w.data, data)
    } else {
        spec_should_replace(w.policy_data, data)
    }
}

/// The word to keep beside `data` in the slot of `hash`.
fn xor_word(hash: u64, data: u64) -> (r: u64)
    ensures
        r == slot_word(hash, data),
{
    hash ^ data
}

/// Tests a slot's two words against `hash`.
fn check_slot(word: u64, data: u64, hash: u64) -> (r: Option<u64>)
    ensures
        r == slot_check(word, data, hash),
{
    if (word ^ data) == hash {
        Some(data)
    } else {
        None
    }
}

/// A slot written for `hash` passes the probe's test for `hash` and for
/// no other hash, and gives back the data written.
pub proof fn lemma_slot_check(hash: u64, data: u64, other: u64)
    ensures
        slot_check(slot_word(hash, data), data, other) == if other == hash {
            Some(data)
        } else {
            None
        },
{
    assert((hash ^ data) ^ data == hash) by (bit_vector);
}

/// A store for the position a slot already holds, as
/// [`TranspositionTable::save_position`] reports it: what it writes follows
/// the depths and ages of the stored and the new data. Data from a strictly
/// deeper search is kept, and the slot is left as it was; data from a
/// shallower search gives way to a deeper one; at equal depth the new data
/// is written unless the stored data is of a later age.
pub proof fn lemma_same_position_store(w: SlotWrite, hash: u64, d: TranspositionTableData, old: TranspositionTableData)
    requires
        !(w.first_data == 0 && w.first_xor == 0),
        slot_check(w.xor, w.data, hash) == Some(w.data),
        unpacked(w.data) == Some(old),
        ({
            let data = packed(d.score, d.depth, d.node_type, d.best_move, d.age);
            w.written == (if store_writes(w, hash, data) {
                Some((slot_word(hash, data), data))
            } else {
                None
            })
        }),
    ensures
        old.depth > d.depth ==> w.written is None,
        old.depth == d.depth && old.age > d.age ==> w.written is None,
        d.depth > old.depth ==> w.written == Some(
            (
                slot_word(hash, packed(d.score, d.depth, d.node_type, d.best_move, d.age)),
                packed(d.score, d.depth, d.node_type, d.best_move, d.age),
            ),
        ),
        d.depth == old.depth && d.age >= old.age ==> w.written == Some(
            (
                slot_word(hash, packed(d.score, d.depth, d.node_type, d.best_move, d.age)),
                packed(d.score, d.depth, d.node_type, d.best_move, d.age),
            ),
        ),
{
    let x = w.xor;
    let y = w.data;
    assert(x ^ y == hash ==> hash ^ y == x) by (bit_vector);
    lemma_pack_unpack(d.score, d.depth, d.node_type, d.best_move, d.age);
}

/// A store into a slot that holds another position, as
/// [`TranspositionTable::save_position`] reports it: data of another age
/// always takes the slot; at the same age a deeper search takes it and a
/// shallower one does not; at the same age and depth the new data takes it
/// unless it is a bound and the stored data is exact.
pub proof fn lemma_collision_store(w: SlotWrite, hash: u64, d: TranspositionTableData, old: TranspositionTableData)
    requires
        !(w.first_data == 0 && w.first_xor == 0),
        slot_check(w.xor, w.data, hash) is None,
        unpacked(w.policy_data) == Some(old),
        ({
            let data = packed(d.score, d.depth, d.node_type, d.best_move, d.age);
            w.written == (if store_writes(w, hash, data) {
                Some((slot_word(hash, data), data))
            } else {
                None
            })
        }),
    ensures
        ({
            let data = packed(d.score, d.depth, d.node_type, d.best_move, d.age);
            let replaced = if d.age != old.age {
                true
            } else if d.depth != old.depth {
                d.depth > old.depth
            } else {
                d.node_type == NodeType::Exact || old.node_type != NodeType::Exact
            };
            w.written == (if replaced {
                Some((slot_word(hash, data), data))
            } else {
                None
            })
        }),
{
    let x = w.xor;
    let y = w.data;
    assert(hash ^ y == x ==> x ^ y == hash) by (bit_vector);
    lemma_pack_unpack(d.score, d.depth, d.node_type, d.best_move, d.age);
}

/// A slot left as it was gives back the data it held: a probe for the same
/// position that reads the slot's words finds the stored data unchanged.
pub proof fn lemma_kept_slot_reads_back(read: SlotRead, w: SlotWrite, hash: u64, old: TranspositionTableData)
    requires
        !(w.first_data == 0 && w.first_xor == 0),
        slot_check(w.xor, w.data, hash) == Some(w.data),
        unpacked(w.data) == Some(old),
        w.written is None,
        read.first_data == w.first_data,
        read.first_xor == w.first_xor,
        read.xor == w.xor,
        read.data == w.data,
    ensures
        (match probe_outcome(read, hash) {
            Some(d) => unpacked(d),
            None => None,
        }) == Some(old),
{
}

/// Unpacking a packed word gives back every field that was packed.
pub proof fn lemma_pack_unpack(score: i16, depth: u8, node_type: NodeType, best_move: u16, age: u8)
    ensures
        ({
            let w = packed(score, depth, node_type, best_move, age);
            &&& spec_score(w) == score
            &&& spec_depth(w) == depth
            &&& NodeType::from_code(spec_node_bits(w)) == Some(node_type)
            &&& spec_best_move(w) == best_move
            &&& spec_age(w) == age
        }),
{
    let n = node_type.code();
    assert(n <= 2);
    let w = packed(score, depth, node_type, best_move, age);
    assert(((((score as u16 as u64) | ((depth as u64) << 16u64) | (n << 24u64) | ((
    best_move as u64) << 26u64) | ((age as u64) << 42u64)) & 0xFFFF) as u16) == score as u16)
        by (bit_vector);
    assert(score as u16 as i16 == score) by (bit_vector);
    assert((((((score as u16 as u64) | ((depth as u64) << 16u64) | (n << 24u64) | ((
    best_move as u64) << 26u64) | ((age as u64) << 42u64)) >> 16u64) & 0xFF) as u8) == depth)
        by (bit_vector);
    assert(n <= 2 ==> (((((score as u16 as u64) | ((depth as u64) << 16u64) | (n << 24u64) | ((
    best_move as u64) << 26u64) | ((age as u64) << 42u64)) >> 24u64) & 3) as u8) == n as u8)
        by (bit_vector);
    assert((((((score as u16 as u64) | ((depth as u64) << 16u64) | (n << 24u64) | ((
    best_move as u64) << 26u64) | ((age as u64) << 42u64)) >> 26u64) & 0xFFFF) as u16)
        == best_move) by (bit_vector)
        requires
            n <= 2,
    ;
    assert((((((score as u16 as u64) | ((depth as u64) << 16u64) | (n << 24u64) | ((
    best_move as u64) << 26u64) | ((age as u64) << 42u64)) >> 42u64) & 0xFF) as u8) == age)
        by (bit_vector)
        requires
            n <= 2,
    ;
}

/// The collision replacement policy: whether the new word should replace
/// an existing word of another position.
///
/// 1. An entry of another age gives way to the new one, of the current
///    search.
/// 2. Otherwise the deeper search wins.
/// 3. At equal depth the new word wins unless it is a bound and the existing
///    word is exact. Node type bits that hold no node type count as a bound.
pub fn replacement_policy(existing_data_entry: u64, new_data: u64) -> (r: bool)
    ensures
        r == spec_should_replace(existing_data_entry, new_data),
{
    if TranspositionEntry::age(new_data) != TranspositionEntry::age(existing_data_entry) {
        return true;
    }
    if TranspositionEntry::depth(new_data) != TranspositionEntry::depth(existing_data_entry) {
        return TranspositionEntry::depth(new_data) > TranspositionEntry::depth(
            existing_data_entry,
        );
    }
    let new_bits = ((new_data >> 24) & 0b11) as u8;
    let existing_bits = ((existing_data_entry >> 24) & 0b11) as u8;
    new_bits == 0 || existing_bits != 0
}

/// The same-position replacement policy (see
/// [`spec_same_position_replaces`]).
pub fn same_position_replaces(existing_data: u64, data: u64) -> (r: bool)
    ensures
        r == spec_same_position_replaces(existing_data, data),
{
    TranspositionEntry::depth(data) > TranspositionEntry::depth(existing_data) || (
    TranspositionEntry::depth(data) == TranspositionEntry::depth(existing_data)
        && TranspositionEntry::age(data) >= TranspositionEntry::age(existing_data))
}

impl TranspositionTable {
    /// The table's shape: one entry per slot.
    pub closed spec fn wf(&self) -> bool {
        self.entries@.len() == self.size
    }

    /// The number of slots.
    pub closed spec fn spec_size(&self) -> usize {
        self.size
    }

    /// Creates a new transposition table with the specified size in
    /// megabytes.
    pub fn new(size_mb: usize) -> (t: Self)
        requires
            size_mb * 1024 * 1024 <= usize::MAX,
        ensures
            t.wf(),
            t.spec_size() == entries_for_megabytes(size_mb as int),
    {
        let entry_size = entry_size();
        let size = (size_mb * 1024 * 1024) / entry_size;
        let mut entries: Vec<TranspositionEntry> = Vec::new();
        let mut i: usize = 0;
        while i < size
            invariant
                i <= size,
                entries@.len() == i,
            decreases size - i,
        {
            entries.push(TranspositionEntry::new());
            i = i + 1;
        }
        Self { entries, size }
    }

    /// Resizes the table to the given size in megabytes: all existing
    /// entries are discarded and the table holds fresh empty slots. A
    /// second fresh table of the same size is returned.
    pub fn resize(&mut self, new_size_mb: usize) -> (t: Self)
        requires
            new_size_mb * 1024 * 1024 <= usize::MAX,
        ensures
            final(self).wf(),
            final(self).spec_size() == entries_for_megabytes(new_size_mb as int),
            t.wf(),
            t.spec_size() == entries_for_megabytes(new_size_mb as int),
    {
        *self = TranspositionTable::new(new_size_mb);
        TranspositionTable::new(new_size_mb)
    }

    /// Probes the table at the slot of `hash` (see [`SlotRead`] and
    /// [`probe_outcome`]).
    fn probe(&self, hash: u64) -> (r: (Option<u64>, Ghost<SlotRead>))
        requires
            self.wf(),
            self.size > 0,
        ensures
            r.1@.index == hash as int % self.spec_size() as int,
            r.0 == probe_outcome(r.1@, hash),
    {
        let index = (hash % (self.size as u64)) as usize;
        let (empty, first) = self.entries[index].is_empty();
        if !empty {
            let entry = &self.entries[index];
            let entry_xor = entry.get_hash_xor_data();
            let entry_data = entry.get_data();
            let ghost read = SlotRead { index, first_data: first@.0, first_xor: first@.1, xor: entry_xor, data: entry_data };
            return (check_slot(entry_xor, entry_data, hash), Ghost(read));
        }
        (None, Ghost(SlotRead { index, first_data: first@.0, first_xor: first@.1, xor: 0, data: 0 }))
    }

    /// Stores a packed word for `hash` (see [`SlotWrite`] and
    /// [`store_writes`]): an empty slot is always written; a slot whose
    /// stored words give back `hash` holds the same position and follows
    /// [`same_position_replaces`]; a slot of another position follows
    /// [`TranspositionTable::should_replace`]. A write puts the check word
    /// `hash ^ data` and `data` in the slot.
    fn store(&self, hash: u64, data: u64) -> (r: Ghost<SlotWrite>)
        requires
            self.wf(),
            self.size > 0,
        ensures
            r@.index == hash as int % self.spec_size() as int,
            r@.written == (if store_writes(r@, hash, data) {
                Some((slot_word(hash, data), data))
            } else {
                None
            }),
    {
        let index = (hash % (self.size as u64)) as usize;
        let hash_xor_data = xor_word(hash, data);
        let (empty, first) = self.entries[index].is_empty();
        let mut write = true;
        let mut existing_xor: u64 = 0;
        let mut existing_data: u64 = 0;
        let ghost mut policy_data: u64 = 0;
        if !empty {
            let existing = &self.entries[index];
            existing_xor = existing.get_hash_xor_data();
            existing_data = existing.get_data();
            if xor_word(hash, existing_data) == existing_xor {
                write = same_position_replaces(existing_data, data);
            } else {
                let (replace, loaded) = self.should_replace(existing, data);
                write = replace;
                proof {
                    policy_data = loaded@;
                }
            }
        }
        if write {
            self.entries[index].set_hash_xor_data(hash_xor_data);
            self.entries[index].set_data(data);
        }
        let ghost written = if write {
            Some((hash_xor_data, data))
        } else {
            None
        };
        Ghost(
            SlotWrite {
                index,
                first_data: first@.0,
                first_xor: first@.1,
                xor: existing_xor,
                data: existing_data,
                policy_data,
                written,
            },
        )
    }

    /// Loads the existing entry's data word and applies
    /// [`replacement_policy`] to it; the word loaded comes with the answer.
    fn should_replace(&self, existing: &TranspositionEntry, new_data: u64) -> (r: (bool, Ghost<u64>))
        ensures
            r.0 == spec_should_replace(r.1@, new_data),
    {
        let existing_data_entry = existing.get_data();
        (replacement_policy(existing_data_entry, new_data), Ghost(existing_data_entry))
    }

    /// Stores a position evaluation in the transposition table: the packed
    /// data of the evaluation (see [`packed`]) is stored for `hash` (see
    /// [`TranspositionTable::store`]); what was read and written comes back.
    pub fn save_position(&self, hash: u64, transposition_data: &TranspositionTableData) -> (r: Ghost<SlotWrite>)
        requires
            self.wf(),
            self.spec_size() > 0,
        ensures
            r@.index == hash as int % self.spec_size() as int,
            ({
                let data = packed(
                    transposition_data.score,
                    transposition_data.depth,
                    transposition_data.node_type,
                    transposition_data.best_move,
                    transposition_data.age,
                );
                r@.written == (if store_writes(r@, hash, data) {
                    Some((slot_word(hash, data), data))
                } else {
                    None
                })
            }),
    {
        let data_u64 = pack_data(transposition_data);
        self.store(hash, data_u64)
    }

    /// Retrieves a position evaluation from the transposition table at the
    /// slot of `hash`, with the words read: nothing when the slot reads as
    /// empty or its words fail the XOR check, otherwise the unpacked data
    /// (see [`probe_outcome`] and [`unpacked`]).
    pub fn retrieve_position_read(&self, hash: u64) -> (r: (Option<TranspositionTableData>, Ghost<SlotRead>))
        requires
            self.wf(),
            self.spec_size() > 0,
        ensures
            r.1@.index == hash as int % self.spec_size() as int,
            r.0 == (match probe_outcome(r.1@, hash) {
                Some(d) => unpacked(d),
                None => None,
            }),
    {
        let (word, read) = self.probe(hash);
        if let Some(data) = word {
            return (unpack_data(data), read);
        }
        (None, read)
    }

    /// Retrieves a position evaluation from the transposition table: the
    /// unpacked word of the slot of `hash` when it passes the XOR check
    /// (see [`TranspositionTable::retrieve_position_read`]).
    pub fn retrieve_position(&self, hash: u64) -> (r: Option<TranspositionTableData>)
        requires
            self.wf(),
            self.spec_size() > 0,
        ensures
            exists|read: SlotRead| {
                &&& read.index == hash as int % self.spec_size() as int
                &&& r == match probe_outcome(read, hash) {
                    Some(d) => unpacked(d),
                    None => None,
                }
            },
    {
        let (r, read) = self.retrieve_position_read(hash);
        proof {
            let w = read@;
            assert(w.index == hash as int % self.spec_size() as int);
        }
        r
    }
}

} // verus!
