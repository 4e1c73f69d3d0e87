//! Cutting a file into upload parts.
//!
//! Every file goes up in parts of at most [`PART_SIZE`] bytes, numbered from 1.
//! A wrong offset here would store a corrupted file without any error, so the
//! laws at the end state that the parts tile the file.

use vstd::prelude::*;

use crate::text::same;

verus! {

/// The size of every part but the last.
pub const PART_SIZE: u64 = 64 * 1024 * 1024;

/// The smallest part that the storage accepts, the last one excepted.
pub const MIN_PART_SIZE: u64 = 5 * 1024 * 1024;

/// The least number of pieces of size `piece` that hold `total` bytes.
pub open spec fn pieces(total: int, piece: int) -> int {
    (total + piece - 1) / piece
}

/// The place of part `n` in a file of `total` bytes, as (offset, length);
/// `None` where the file has no such part.
pub open spec fn range_of(n: int, total: int) -> Option<(int, int)> {
    let offset = (n - 1) * PART_SIZE;
    if n <= 0 || offset >= total {
        None
    } else if total - offset < PART_SIZE {
        Some((offset, total - offset))
    } else {
        Some((offset, PART_SIZE as int))
    }
}

/// The most bytes that the upload slot `fkey` takes.
pub open spec fn slot_limit(fkey: Seq<char>) -> u64 {
    if fkey == "stems"@ {
        0x8000_0000
    } else {
        0x4000_0000
    }
}

/// The name of the limit of the upload slot `fkey`.
pub open spec fn slot_limit_label(fkey: Seq<char>) -> Seq<char> {
    if fkey == "stems"@ {
        "2GB"@
    } else {
        "1GB"@
    }
}

/// `pieces` is the least number whose pieces cover `total`.
proof fn lemma_pieces(total: int, piece: int)
    requires
        0 <= total,
        0 < piece,
    ensures
        0 <= pieces(total, piece),
        (pieces(total, piece) - 1) * piece < total,
        total <= pieces(total, piece) * piece,
{
    let q = pieces(total, piece);
    assert(q * piece <= total + piece - 1 < (q + 1) * piece && 0 <= q) by (nonlinear_arith)
        requires
            q == (total + piece - 1) / piece,
            0 < piece,
            0 <= total,
    ;
    assert((q - 1) * piece == q * piece - piece && (q + 1) * piece == q * piece + piece) by (nonlinear_arith);
}

/// The interval (offset, length) of part `part_n`; `None` where the part lies
/// outside the file.
pub fn part_range(part_n: u32, total: u64) -> (r: Option<(u64, u64)>)
    ensures
        r is Some == range_of(part_n as int, total as int) is Some,
        r matches Some((offset, len)) ==> range_of(part_n as int, total as int) == Some((offset as int, len as int)),
{
    if part_n == 0 {
        return None;
    }
    assert((part_n - 1) * PART_SIZE <= 0x1_0000_0000 * 0x400_0000) by (nonlinear_arith)
        requires
            1 <= part_n <= 0xffff_ffff,
            PART_SIZE == 0x400_0000,
    ;
    let offset: u64 = (part_n as u64 - 1) * PART_SIZE;
    if offset >= total {
        return None;
    }
    let rest: u64 = total - offset;
    if rest < PART_SIZE {
        Some((offset, rest))
    } else {
        Some((offset, PART_SIZE))
    }
}

/// How many parts a file of `total` bytes has. The count is kept in 32 bits: a
/// file of more than `u32::MAX` parts is counted modulo 2^32.
pub fn part_count(total: u64) -> (r: u32)
    ensures
        r == pieces(total as int, PART_SIZE as int) % 0x1_0000_0000,
        total <= u32::MAX * PART_SIZE ==> r == pieces(total as int, PART_SIZE as int),
{
    let whole: u64 = total / PART_SIZE;
    let n: u64 = if total % PART_SIZE == 0 {
        whole
    } else {
        whole + 1
    };
    assert(n == pieces(total as int, PART_SIZE as int)) by (nonlinear_arith)
        requires
            PART_SIZE == 0x400_0000,
            whole == total / PART_SIZE,
            n == if total % PART_SIZE == 0 { whole as int } else { whole + 1 },
    ;
    let r: u32 = #[verifier::truncate]
    (n as u32);
    assert(r == n % 0x1_0000_0000) by (bit_vector)
        requires
            r == n as u32,
    ;
    r
}

/// The most bytes that the upload slot `fkey` takes: 2 GiB of stems, 1 GiB of
/// anything else.
pub fn max_bytes_for(fkey: &str) -> (r: u64)
    ensures
        r == slot_limit(fkey@),
{
    if same(fkey, "stems") {
        2 * 1024 * 1024 * 1024
    } else {
        1024 * 1024 * 1024
    }
}

/// The limit of the upload slot `fkey`, as the producer reads it.
pub fn max_label_for(fkey: &str) -> (r: &'static str)
    ensures
        r@ == slot_limit_label(fkey@),
{
    if same(fkey, "stems") {
        "2GB"
    } else {
        "1GB"
    }
}

/// The bytes of part `n` of a file.
pub open spec fn part_bytes(file: Seq<u8>, n: int) -> Seq<u8> {
    match range_of(n, file.len() as int) {
        Some((offset, len)) => file.subrange(offset, offset + len),
        None => seq![],
    }
}

/// The bytes of the parts 1 to `n` of a file, one after the other.
pub open spec fn joined_parts(file: Seq<u8>, n: nat) -> Seq<u8>
    decreases n,
{
    if n == 0 {
        seq![]
    } else {
        joined_parts(file, (n - 1) as nat) + part_bytes(file, n as int)
    }
}

/// The parts 1 to `pieces(total)` exist, are not empty, are no longer than
/// [`PART_SIZE`], and each begins where the one before it ends; all but the last
/// are full, the last ends with the file, and no other part exists.
pub proof fn lemma_parts_tile(total: int, n: int)
    requires
        0 <= total,
    ensures
        range_of(n, total) is Some <==> 1 <= n <= pieces(total, PART_SIZE as int),
        range_of(n, total) matches Some((offset, len)) ==> {
            &&& 0 < len <= PART_SIZE
            &&& offset == (n - 1) * PART_SIZE
            &&& n < pieces(total, PART_SIZE as int) ==> {
                &&& len == PART_SIZE
                &&& range_of(n + 1, total) matches Some((next, _))
                &&& next == offset + len
            }
            &&& n == pieces(total, PART_SIZE as int) ==> offset + len == total
        },
{
    let count = pieces(total, PART_SIZE as int);
    lemma_pieces(total, PART_SIZE as int);
    lemma_below(n - 1, count, total);
    lemma_below(n, count, total);
    assert(n * PART_SIZE == (n - 1) * PART_SIZE + PART_SIZE) by (nonlinear_arith);
}

/// The first `k` pieces end before the end of the file exactly where there are
/// more than `k` pieces.
proof fn lemma_below(k: int, count: int, total: int)
    requires
        (count - 1) * PART_SIZE < total,
        total <= count * PART_SIZE,
    ensures
        k * PART_SIZE < total <==> k < count,
{
    assert(k < count ==> k * PART_SIZE <= (count - 1) * PART_SIZE) by (nonlinear_arith);
    assert(k >= count ==> k * PART_SIZE >= count * PART_SIZE) by (nonlinear_arith);
}

/// Joining the first `n` parts gives the file up to the end of part `n`.
proof fn lemma_joined_prefix(file: Seq<u8>, n: nat)
    requires
        n <= pieces(file.len() as int, PART_SIZE as int),
    ensures
        n < pieces(file.len() as int, PART_SIZE as int) ==> n * PART_SIZE < file.len() && joined_parts(file, n) == file.take(n * PART_SIZE),
        n == pieces(file.len() as int, PART_SIZE as int) ==> joined_parts(file, n) == file,
    decreases n,
{
    let total = file.len() as int;
    lemma_parts_tile(total, n as int);
    lemma_parts_tile(total, n as int + 1);
    assert(0 * PART_SIZE == 0) by (nonlinear_arith);
    lemma_pieces(total, PART_SIZE as int);
    if n == 0 {
        assert(joined_parts(file, 0) == file.take(0));
        if pieces(total, PART_SIZE as int) == 0 {
            assert(file.take(0) == file);
        }
    } else {
        lemma_joined_prefix(file, (n - 1) as nat);
        assert(joined_parts(file, n) == joined_parts(file, (n - 1) as nat) + part_bytes(file, n as int));
        let (offset, len) = range_of(n as int, total)->0;
        assert(file.take(offset) + file.subrange(offset, offset + len) == file.take(offset + len));
        if n == pieces(total, PART_SIZE as int) {
            assert(file.take(total) == file);
        }
    }
}

/// The parts of a file, joined in order, are the file byte for byte.
pub proof fn lemma_parts_rebuild_file(file: Seq<u8>)
    ensures
        joined_parts(file, pieces(file.len() as int, PART_SIZE as int) as nat) == file,
{
    lemma_pieces(file.len() as int, PART_SIZE as int);
    lemma_joined_prefix(file, pieces(file.len() as int, PART_SIZE as int) as nat);
}

/// A file that its slot accepts has no more parts than the server signs, which
/// is the number of smallest parts that the slot's limit allows.
pub proof fn lemma_slot_fits_server(fkey: Seq<char>, total: int)
    requires
        0 <= total <= slot_limit(fkey),
    ensures
        MIN_PART_SIZE <= PART_SIZE,
        pieces(total, PART_SIZE as int) <= pieces(slot_limit(fkey) as int, MIN_PART_SIZE as int),
        pieces(total, PART_SIZE as int) <= 32,
{
    let limit = slot_limit(fkey) as int;
    lemma_pieces(total, PART_SIZE as int);
    lemma_pieces(limit, MIN_PART_SIZE as int);
    let signed = pieces(limit, MIN_PART_SIZE as int);
    assert(signed * MIN_PART_SIZE <= signed * PART_SIZE) by (nonlinear_arith)
        requires
            0 <= signed,
            MIN_PART_SIZE <= PART_SIZE,
    ;
    lemma_below(signed, pieces(total, PART_SIZE as int), total);
    lemma_below(32, pieces(total, PART_SIZE as int), total);
}

/// Parts have 64 MiB; the storage takes parts from 5 MiB on.
pub proof fn lemma_size_of_parts()
    ensures
        PART_SIZE == 67_108_864,
        MIN_PART_SIZE == 5_242_880,
{
}

/// Stems may have 2 GiB, any other file 1 GiB, and the labels say so.
pub proof fn lemma_limits_of_slots(fkey: Seq<char>)
    ensures
        fkey == "stems"@ ==> slot_limit(fkey) == 2_147_483_648 && slot_limit_label(fkey) == "2GB"@,
        fkey != "stems"@ ==> slot_limit(fkey) == 1_073_741_824 && slot_limit_label(fkey) == "1GB"@,
{
}

/// There are as many parts as are needed to hold the file, and no more.
pub proof fn lemma_number_of_parts(total: int)
    requires
        0 <= total,
    ensures
        ({
            let n = pieces(total, PART_SIZE as int);
            &&& 0 <= n
            &&& total <= n * 67_108_864
            &&& (n - 1) * 67_108_864 < total
        }),
{
    lemma_pieces(total, PART_SIZE as int);
}

} // verus!
