use vstd::prelude::*;
use crate::grid::{Grid, GridView};

verus! {

#[verifier::external_type_specification]
#[verifier::external_body]
pub struct ExIoError(std::io::Error);

/// Why a grid could not be read back.
#[derive(Debug)]
pub enum GridIoError {
    /// The underlying storage failed.
    Io(std::io::Error),
    /// The first four bytes are not the format's magic.
    BadMagic,
    /// The format version is not the one this library writes.
    UnsupportedVersion(u8),
    /// The width or the height is zero.
    BadSize,
}

/// Relies on `std::io::Error::from(std::io::ErrorKind::UnexpectedEof)`: the
/// error that a read reports when the data ends too early.
#[verifier::external_body]
fn unexpected_eof() -> (r: std::io::Error) {
    std::io::Error::from(std::io::ErrorKind::UnexpectedEof)
}

pub const MAGIC_0: u8 = 0x43;
pub const MAGIC_1: u8 = 0x41;
pub const MAGIC_2: u8 = 0x47;
pub const MAGIC_3: u8 = 0x52;
pub const VERSION: u8 = 1;
pub const HEADER_LEN: usize = 13;

/// The four magic bytes, "CAGR".
pub open spec fn magic() -> Seq<u8> {
    seq![MAGIC_0, MAGIC_1, MAGIC_2, MAGIC_3]
}

/// The little-endian value of four bytes.
pub open spec fn le_u32(b0: u8, b1: u8, b2: u8, b3: u8) -> u32 {
    (b0 as u32) | ((b1 as u32) << 8u32) | ((b2 as u32) << 16u32) | ((b3 as u32) << 24u32)
}

/// The four little-endian bytes of `v`.
pub open spec fn le_bytes(v: u32) -> Seq<u8> {
    seq![(v & 0xff) as u8, ((v >> 8u32) & 0xff) as u8, ((v >> 16u32) & 0xff) as u8, ((v >> 24u32) & 0xff) as u8]
}

/// The value of the four bytes of `b` from `off` on.
pub open spec fn read_u32(b: Seq<u8>, off: int) -> u32 {
    le_u32(b[off], b[off + 1], b[off + 2], b[off + 3])
}

/// The stored form of a grid: magic, version, width, height, then the cells.
pub open spec fn encoding(g: GridView) -> Seq<u8> {
    magic() + seq![VERSION] + le_bytes(g.w as u32) + le_bytes(g.h as u32) + g.cells
}

pub open spec fn has_magic(b: Seq<u8>) -> bool {
    b.len() >= 4 && b.subrange(0, 4) == magic()
}

pub open spec fn stored_width(b: Seq<u8>) -> nat {
    read_u32(b, 5) as nat
}

pub open spec fn stored_height(b: Seq<u8>) -> nat {
    read_u32(b, 9) as nat
}

/// Which kind of error (numbered as in `error_kind`) `decode` reports for
/// `b`, if any. Bytes that end before the header or the cells are a failed
/// read, as a short read from storage would be.
pub open spec fn decode_error_kind(b: Seq<u8>) -> Option<int> {
    if b.len() < 4 {
        Some(0)
    } else if !has_magic(b) {
        Some(1)
    } else if b.len() < 5 {
        Some(0)
    } else if b[4] != VERSION {
        Some(2)
    } else if b.len() < HEADER_LEN {
        Some(0)
    } else if stored_width(b) == 0 || stored_height(b) == 0 {
        Some(3)
    } else if b.len() - HEADER_LEN < stored_width(b) * stored_height(b) {
        Some(0)
    } else {
        None
    }
}

/// The grid that `b` holds when it decodes without error.
pub open spec fn decoded(b: Seq<u8>) -> GridView {
    let w = stored_width(b);
    let h = stored_height(b);
    GridView { w, h, cells: b.subrange(HEADER_LEN as int, HEADER_LEN + w * h) }
}

/// A number for each kind of error.
pub open spec fn error_kind(e: GridIoError) -> int {
    match e {
        GridIoError::Io(_) => 0,
        GridIoError::BadMagic => 1,
        GridIoError::UnsupportedVersion(_) => 2,
        GridIoError::BadSize => 3,
    }
}

fn push_le(out: &mut Vec<u8>, v: u32)
    ensures
        final(out)@ == old(out)@ + le_bytes(v),
{
    out.push((v & 0xff) as u8);
    out.push(((v >> 8u32) & 0xff) as u8);
    out.push(((v >> 16u32) & 0xff) as u8);
    out.push(((v >> 24u32) & 0xff) as u8);
    assert(final(out)@ =~= old(out)@ + le_bytes(v));
}

/// The stored form of `grid`.
pub fn encode(grid: &Grid) -> (r: Vec<u8>)
    requires
        grid@.wf(),
        grid@.w <= u32::MAX,
        grid@.h <= u32::MAX,
    ensures
        r@ == encoding(grid@),
{
    let mut out: Vec<u8> = Vec::new();
    out.push(MAGIC_0);
    out.push(MAGIC_1);
    out.push(MAGIC_2);
    out.push(MAGIC_3);
    out.push(VERSION);
    push_le(&mut out, grid.width() as u32);
    push_le(&mut out, grid.height() as u32);
    let ghost head = out@;
    assert(head =~= magic() + seq![VERSION] + le_bytes(grid@.w as u32) + le_bytes(grid@.h as u32));
    let cells = grid.as_slice();
    let n = cells.len();
    let mut i: usize = 0;
    while i < n
        invariant
            i <= n,
            n == cells@.len(),
            out@ == head + cells@.subrange(0, i as int),
        decreases n - i,
    {
        out.push(cells[i]);
        i = i + 1;
        assert(out@ =~= head + cells@.subrange(0, i as int));
    }
    assert(cells@.subrange(0, n as int) =~= cells@);
    out
}

fn read_le(b: &[u8], off: usize) -> (r: u32)
    requires
        off + 4 <= b@.len(),
    ensures
        r == read_u32(b@, off as int),
{
    (b[off] as u32) | ((b[off + 1] as u32) << 8u32) | ((b[off + 2] as u32) << 16u32) | ((b[off + 3] as u32) << 24u32)
}

/// Reads a grid back from its stored form; bytes past the cells are ignored.
pub fn decode(bytes: &[u8]) -> (r: Result<Grid, GridIoError>)
    ensures
        r is Ok <==> decode_error_kind(bytes@) is None,
        r is Ok ==> r->Ok_0@ == decoded(bytes@) && r->Ok_0@.wf(),
        r is Err ==> decode_error_kind(bytes@) == Some(error_kind(r->Err_0)),
        r matches Err(GridIoError::UnsupportedVersion(v)) ==> v == bytes@[4],
{
    let len = bytes.len();
    if len < 4 {
        return Err(GridIoError::Io(unexpected_eof()));
    }
    if bytes[0] != MAGIC_0 || bytes[1] != MAGIC_1 || bytes[2] != MAGIC_2 || bytes[3] != MAGIC_3 {
        assert(bytes@.subrange(0, 4) != magic()) by {
            if bytes@.subrange(0, 4) == magic() {
                assert(bytes@[0] == bytes@.subrange(0, 4)[0]);
                assert(bytes@[1] == bytes@.subrange(0, 4)[1]);
                assert(bytes@[2] == bytes@.subrange(0, 4)[2]);
                assert(bytes@[3] == bytes@.subrange(0, 4)[3]);
            }
        }
        return Err(GridIoError::BadMagic);
    }
    assert(bytes@.subrange(0, 4) =~= magic());
    if len < 5 {
        return Err(GridIoError::Io(unexpected_eof()));
    }
    let version = bytes[4];
    if version != VERSION {
        return Err(GridIoError::UnsupportedVersion(version));
    }
    if len < HEADER_LEN {
        return Err(GridIoError::Io(unexpected_eof()));
    }
    let w32 = read_le(bytes, 5);
    let h32 = read_le(bytes, 9);
    if w32 == 0 || h32 == 0 {
        return Err(GridIoError::BadSize);
    }
    assert((w32 as u64) * (h32 as u64) <= u64::MAX) by (nonlinear_arith)
        requires w32 <= u32::MAX, h32 <= u32::MAX;
    let n64: u64 = (w32 as u64) * (h32 as u64);
    let avail: usize = len - HEADER_LEN;
    if (avail as u64) < n64 {
        return Err(GridIoError::Io(unexpected_eof()));
    }
    let n: usize = n64 as usize;
    let w: usize = w32 as usize;
    let h: usize = h32 as usize;
    let mut cells: Vec<u8> = Vec::new();
    let mut i: usize = 0;
    while i < n
        invariant
            i <= n,
            n <= avail,
            avail == len - HEADER_LEN,
            len == bytes@.len(),
            cells@ == bytes@.subrange(HEADER_LEN as int, HEADER_LEN + i),
        decreases n - i,
    {
        cells.push(bytes[HEADER_LEN + i]);
        i = i + 1;
        assert(cells@ =~= bytes@.subrange(HEADER_LEN as int, HEADER_LEN + i));
    }
    Ok(Grid::from_cells(w, h, cells))
}

/// Storing a grid and reading it back gives the same grid.
pub proof fn lemma_round_trip(g: GridView)
    requires
        g.wf(),
        g.w <= u32::MAX,
        g.h <= u32::MAX,
    ensures
        decode_error_kind(encoding(g)) is None,
        decoded(encoding(g)) == g,
{
    let b = encoding(g);
    let w = g.w as u32;
    let h = g.h as u32;
    assert(b.subrange(0, 4) =~= magic());
    assert(le_u32((w & 0xff) as u8, ((w >> 8u32) & 0xff) as u8, ((w >> 16u32) & 0xff) as u8, ((w >> 24u32) & 0xff) as u8)
        == w) by (bit_vector);
    assert(le_u32((h & 0xff) as u8, ((h >> 8u32) & 0xff) as u8, ((h >> 16u32) & 0xff) as u8, ((h >> 24u32) & 0xff) as u8)
        == h) by (bit_vector);
    assert(b[5] == (w & 0xff) as u8 && b[6] == ((w >> 8u32) & 0xff) as u8 && b[7] == ((w >> 16u32) & 0xff) as u8 && b[8]
        == ((w >> 24u32) & 0xff) as u8);
    assert(b[9] == (h & 0xff) as u8 && b[10] == ((h >> 8u32) & 0xff) as u8 && b[11] == ((h >> 16u32) & 0xff) as u8
        && b[12] == ((h >> 24u32) & 0xff) as u8);
    assert(stored_width(b) == g.w);
    assert(stored_height(b) == g.h);
    assert(b.subrange(HEADER_LEN as int, HEADER_LEN + g.w * g.h) =~= g.cells);
}

} // verus!
