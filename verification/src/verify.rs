//! Checks on an archive file before it is read: its magic number and
//! whether its tail was ever written.

use vstd::prelude::*;

verus! {

/// The number that the first four bytes of an archive hold, low byte
/// first.
pub const ZIM_MAGIC_NUMBER: u32 = 72_173_914;

/// The least size in bytes of a file that holds an archive header.
pub const MIN_ARCHIVE_BYTES: u64 = 80;

/// What is checked.
#[derive(Debug, Clone)]
pub struct VerifyOptions {
    pub checksum: bool,
    pub tail_window_bytes: usize,
}

/// The number that four bytes hold, low byte first.
pub open spec fn le_u32(bytes: Seq<u8>) -> int {
    bytes[0] as int + bytes[1] as int * 0x100 + bytes[2] as int * 0x1_0000 + bytes[3] as int
        * 0x100_0000
}

/// Whether a file starts with the magic number of an archive.
pub fn magic_ok(head: &[u8; 4]) -> (r: bool)
    ensures
        r == (le_u32(head@) == ZIM_MAGIC_NUMBER),
{
    head[0] == 0x5A && head[1] == 0x49 && head[2] == 0x4D && head[3] == 0x04
}

/// How many bytes of the end of a file of `size_bytes` bytes are looked
/// at: the window asked for, 64 at least, and no more than the file has.
pub open spec fn tail_length(window: usize, size_bytes: u64) -> u64 {
    let wanted = if window < 64 {
        64u64
    } else {
        window as u64
    };
    if wanted < size_bytes {
        wanted
    } else {
        size_bytes
    }
}

/// How many bytes of the end of a file of `size_bytes` bytes are looked
/// at.
pub fn tail_read_length(options: &VerifyOptions, size_bytes: u64) -> (r: u64)
    ensures
        r == tail_length(options.tail_window_bytes, size_bytes),
{
    let wanted: u64 = if options.tail_window_bytes < 64 {
        64
    } else {
        options.tail_window_bytes as u64
    };
    if wanted < size_bytes {
        wanted
    } else {
        size_bytes
    }
}

/// The number of zero bytes in `bytes`.
pub open spec fn zero_count(bytes: Seq<u8>) -> nat
    decreases bytes.len(),
{
    if bytes.len() == 0 {
        0
    } else {
        zero_count(bytes.drop_last()) + if bytes.last() == 0 {
            1nat
        } else {
            0nat
        }
    }
}

/// The number of zero bytes in `bytes`.
pub fn count_zero_bytes(bytes: &Vec<u8>) -> (n: usize)
    ensures
        n == zero_count(bytes@),
        n <= bytes.len(),
{
    let mut n: usize = 0;
    let mut i: usize = 0;
    assert(bytes@.take(0) =~= Seq::empty());
    while i < bytes.len()
        invariant
            i <= bytes.len(),
            n <= i,
            n == zero_count(bytes@.take(i as int)),
        decreases bytes.len() - i,
    {
        proof {
            assert(bytes@.take(i + 1).drop_last() =~= bytes@.take(i as int));
            assert(bytes@.take(i + 1).last() == bytes@[i as int]);
        }
        if bytes[i] == 0 {
            n += 1;
        }
        i += 1;
    }
    assert(bytes@.take(i as int) =~= bytes@);
    n
}

/// Whether the tail of a file holds zero bytes only, as the tail of a
/// download that was never finished does.
pub fn tail_all_zero(tail: &Vec<u8>) -> (r: bool)
    ensures
        r == (zero_count(tail@) == tail@.len()),
{
    count_zero_bytes(tail) == tail.len()
}


/// What the look at an archive file comes to.
#[derive(Debug, Clone, Copy, PartialEq, Eq, Structural)]
pub enum ArchiveState {
    /// The file is too small to hold a header.
    TooSmall,
    /// The file does not start with the magic number; this is the number
    /// it starts with.
    WrongMagic(u32),
    /// The tail of the file holds zero bytes only: a download that was
    /// never finished.
    ZeroedTail,
    /// The file can be read as an archive; whether its checksum is to be
    /// verified then.
    Readable { verify_checksum: bool },
}

/// The number that four bytes hold, low byte first.
pub fn read_le_u32(head: &[u8; 4]) -> (r: u32)
    ensures
        r == le_u32(head@),
{
    head[0] as u32 + head[1] as u32 * 0x100 + head[2] as u32 * 0x1_0000 + head[3] as u32
        * 0x100_0000
}

/// What the look at an archive file comes to, given its size, its first
/// four bytes and its tail: the size is looked at first, then the magic
/// number, then the tail.
pub open spec fn archive_state(
    size_bytes: u64,
    head: Seq<u8>,
    tail: Seq<u8>,
    options: &VerifyOptions,
) -> ArchiveState {
    if size_bytes < MIN_ARCHIVE_BYTES {
        ArchiveState::TooSmall
    } else if le_u32(head) != ZIM_MAGIC_NUMBER {
        ArchiveState::WrongMagic(le_u32(head) as u32)
    } else if zero_count(tail) == tail.len() {
        ArchiveState::ZeroedTail
    } else {
        ArchiveState::Readable { verify_checksum: options.checksum }
    }
}

/// Looks at an archive file: at its size, its first four bytes and its
/// tail, of which `tail_read_length` says how long it is.
pub fn assess_archive(size_bytes: u64, head: &[u8; 4], tail: &Vec<u8>, options: &VerifyOptions) -> (state:
    ArchiveState)
    ensures
        state == archive_state(size_bytes, head@, tail@, options),
{
    if size_bytes < MIN_ARCHIVE_BYTES {
        ArchiveState::TooSmall
    } else if !magic_ok(head) {
        ArchiveState::WrongMagic(read_le_u32(head))
    } else if tail_all_zero(tail) {
        ArchiveState::ZeroedTail
    } else {
        ArchiveState::Readable { verify_checksum: options.checksum }
    }
}

} // verus!
