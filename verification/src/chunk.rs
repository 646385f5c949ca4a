//! The chunks of a MIDI file: where they stand, and how its headers read.
//!
//! A header may count time in frames, and then holds the negative of its frame
//! rate in one byte. The byte of -128 is the one whose negative does not fit.

use vstd::prelude::*;

verus! {

/// How a header reads.
#[derive(Clone, Copy, Debug, PartialEq, Eq, Structural)]
pub enum HeaderKind {
    Sound,
    Broken,
    /// The negative of its frame rate does not fit a byte.
    NoNegative,
}

/// Four letters stand at position `i`.
pub open spec fn stands_at(bytes: Seq<u8>, i: int, id: [u8; 4]) -> bool {
    bytes[i] == id[0] && bytes[i + 1] == id[1] && bytes[i + 2] == id[2] && bytes[i + 3] == id[3]
}

/// The length that the chunk at position `i` gives for itself.
pub open spec fn chunk_len(bytes: Seq<u8>, i: int) -> int {
    bytes[i + 4] * 0x100_0000 + bytes[i + 5] * 0x1_0000 + bytes[i + 6] * 0x100 + bytes[i + 7]
}

/// The same in a container, which writes lengths the other way round.
pub open spec fn wrapped_len(bytes: Seq<u8>, i: int) -> int {
    bytes[i + 7] * 0x100_0000 + bytes[i + 6] * 0x1_0000 + bytes[i + 5] * 0x100 + bytes[i + 4]
}

/// Where a chunk of length `len` at position `i` stops, at `end` at the latest.
pub open spec fn chunk_stop(i: int, len: int, end: int) -> int {
    if i + 8 + len < end {
        i + 8 + len
    } else {
        end
    }
}

/// How the header at position `i` reads, which stops at `stop`: its format is
/// 0, 1 or 2, and its frame rate, if it has one, 24, 25, 29 or 30.
pub open spec fn header_kind(bytes: Seq<u8>, i: int, stop: int) -> HeaderKind {
    if stop < i + 14 || bytes[i + 8] != 0 || bytes[i + 9] > 2 {
        HeaderKind::Broken
    } else if bytes[i + 12] == 0x80 {
        HeaderKind::NoNegative
    } else if bytes[i + 12] < 0x80 || bytes[i + 12] == 0xE8 || bytes[i + 12] == 0xE7 || bytes[i + 12] == 0xE3
        || bytes[i + 12] == 0xE2 {
        HeaderKind::Sound
    } else {
        HeaderKind::Broken
    }
}

pub const HEADER_ID: [u8; 4] = [0x4D, 0x54, 0x68, 0x64];

pub const TRACK_ID: [u8; 4] = [0x4D, 0x54, 0x72, 0x6B];

pub const CONTAINER_ID: [u8; 4] = [0x52, 0x49, 0x46, 0x46];

pub const FORM_ID: [u8; 4] = [0x52, 0x4D, 0x49, 0x44];

pub const DATA_ID: [u8; 4] = [0x64, 0x61, 0x74, 0x61];

/// The header whose frame rate has no negative that reading the chunks one by
/// one, from position `i` on, comes to: where it stands, and whether a header was
/// read before it. A broken header ends the reading, and so does a track where no
/// header came before it.
pub open spec fn bad_header_from(bytes: Seq<u8>, i: int, end: int, started: bool) -> Option<(int, bool)>
    decreases
        (if i > end {
            0int
        } else {
            end - i + 1
        }),
{
    if i < 0 || i + 8 > end {
        None
    } else {
        let stop = chunk_stop(i, chunk_len(bytes, i), end);
        if stands_at(bytes, i, HEADER_ID) {
            match header_kind(bytes, i, stop) {
                HeaderKind::Sound => bad_header_from(bytes, stop, end, true),
                HeaderKind::Broken => None,
                HeaderKind::NoNegative => Some((i, started)),
            }
        } else if stands_at(bytes, i, TRACK_ID) && !started {
            None
        } else {
            bad_header_from(bytes, stop, end, started)
        }
    }
}

/// Where the data chunk among the chunks of a container lies, from position `i`
/// on. A chunk of odd length is followed by a byte of padding.
pub open spec fn data_from(bytes: Seq<u8>, i: int, end: int) -> Option<(int, int)>
    decreases
        (if i > end {
            0int
        } else {
            end - i + 1
        }),
{
    if i < 0 || i + 8 > end {
        None
    } else {
        let len = wrapped_len(bytes, i);
        let stop = chunk_stop(i, len, end);
        if stands_at(bytes, i, DATA_ID) {
            Some((i + 8, stop))
        } else if len % 2 == 1 && stop < end {
            data_from(bytes, stop + 1, end)
        } else {
            data_from(bytes, stop, end)
        }
    }
}

/// Where the chunks of a file lie: all of it, or the data of a container.
pub open spec fn chunks_of(bytes: Seq<u8>) -> Option<(int, int)> {
    if bytes.len() >= 4 && stands_at(bytes, 0, HEADER_ID) {
        Some((0, bytes.len() as int))
    } else if bytes.len() >= 8 && stands_at(bytes, 0, CONTAINER_ID) {
        let end = chunk_stop(0, wrapped_len(bytes, 0), bytes.len() as int);
        if end >= 12 && stands_at(bytes, 8, FORM_ID) {
            data_from(bytes, 12, end)
        } else {
            None
        }
    } else {
        None
    }
}

/// The header whose frame rate has no negative that reading the file comes to.
pub open spec fn bad_header(bytes: Seq<u8>) -> Option<(int, bool)> {
    match chunks_of(bytes) {
        Some(range) => bad_header_from(bytes, range.0, range.1, false),
        None => None,
    }
}

/// Reading the file comes to a header whose frame rate has no negative.
pub open spec fn bad_rate(bytes: Seq<u8>) -> bool {
    bad_header(bytes) is Some
}

/// The part of a file that can be read: all of it, or what stands before the
/// header whose frame rate has no negative. There is none where that header is
/// the first one.
pub open spec fn readable(bytes: Seq<u8>) -> Option<Seq<u8>> {
    match bad_header(bytes) {
        Some((at, true)) => Some(bytes.take(at)),
        Some((at, false)) => None,
        None => Some(bytes),
    }
}

/// Up to the header that it comes to, the reading goes the same way where the
/// bytes end there.
proof fn lemma_before_bad_header(bytes: Seq<u8>, i: int, end: int, started: bool)
    requires
        0 <= i,
        end <= bytes.len(),
        bad_header_from(bytes, i, end, started) is Some,
    ensures
        i <= bad_header_from(bytes, i, end, started).unwrap().0,
        bad_header_from(bytes, i, end, started).unwrap().0 + 8 <= end,
        ({
            let at = bad_header_from(bytes, i, end, started).unwrap().0;
            bad_header_from(bytes.take(at), i, at, started) is None
        }),
    decreases end - i,
{
    let at = bad_header_from(bytes, i, end, started).unwrap().0;
    let stop = chunk_stop(i, chunk_len(bytes, i), end);
    let part = bytes.take(at);
    let bad = stands_at(bytes, i, HEADER_ID) && header_kind(bytes, i, stop) == HeaderKind::NoNegative;
    if !bad {
        let next = started || stands_at(bytes, i, HEADER_ID);
        lemma_before_bad_header(bytes, stop, end, next);
        assert(stop < end && stop <= at);
        assert(chunk_len(part, i) == chunk_len(bytes, i));
        assert(chunk_stop(i, chunk_len(part, i), at) == stop);
        assert(header_kind(part, i, stop) == header_kind(bytes, i, stop));
        assert(stands_at(part, i, HEADER_ID) == stands_at(bytes, i, HEADER_ID));
        assert(stands_at(part, i, TRACK_ID) == stands_at(bytes, i, TRACK_ID));
    }
}

/// The data of a container whose bytes end inside them end there.
proof fn lemma_data_ends(bytes: Seq<u8>, i: int, end: int, at: int)
    requires
        0 <= i,
        end <= bytes.len(),
        data_from(bytes, i, end) is Some,
        data_from(bytes, i, end).unwrap().0 <= at <= data_from(bytes, i, end).unwrap().1,
    ensures
        i + 8 <= data_from(bytes, i, end).unwrap().0,
        data_from(bytes, i, end).unwrap().1 <= end,
        data_from(bytes.take(at), i, at) == Some((data_from(bytes, i, end).unwrap().0, at)),
    decreases end - i,
{
    let len = wrapped_len(bytes, i);
    let stop = chunk_stop(i, len, end);
    let part = bytes.take(at);
    if !stands_at(bytes, i, DATA_ID) {
        let next = if len % 2 == 1 && stop < end {
            stop + 1
        } else {
            stop
        };
        lemma_data_ends(bytes, next, end, at);
    }
    assert(wrapped_len(part, i) == len);
    assert(stands_at(part, i, DATA_ID) == stands_at(bytes, i, DATA_ID));
}

/// The part of a file that can be read comes to no header whose frame rate has
/// no negative.
pub proof fn readable_part_is_sound(bytes: Seq<u8>)
    requires
        readable(bytes) is Some,
    ensures
        !bad_rate(readable(bytes).unwrap()),
{
    if let Some((at, true)) = bad_header(bytes) {
        let range = chunks_of(bytes).unwrap();
        let part = bytes.take(at);
        if bytes.len() >= 4 && stands_at(bytes, 0, HEADER_ID) {
            lemma_before_bad_header(bytes, 0, range.1, false);
            assert(bad_header_from(bytes, 0, range.1, false) == Some((at, true)));
            lemma_started(bytes, 0, range.1, false);
            assert(chunks_of(part) == Some((0int, at)));
        } else {
            let end = chunk_stop(0, wrapped_len(bytes, 0), bytes.len() as int);
            lemma_data_range(bytes, 12, end);
            lemma_before_bad_header(bytes, range.0, range.1, false);
            lemma_data_ends(bytes, 12, end, at);
            assert(wrapped_len(part, 0) == wrapped_len(bytes, 0));
            assert(stands_at(part, 0, CONTAINER_ID) && stands_at(part, 8, FORM_ID));
            assert(!stands_at(part, 0, HEADER_ID));
            assert(chunk_stop(0, wrapped_len(part, 0), at) == at);
            assert(chunks_of(part) == Some((range.0, at)));
        }
    }
}

/// A header before which one was read stands behind that one.
proof fn lemma_started(bytes: Seq<u8>, i: int, end: int, started: bool)
    requires
        0 <= i,
        end <= bytes.len(),
        bad_header_from(bytes, i, end, started) is Some,
    ensures
        bad_header_from(bytes, i, end, started).unwrap().1 && !started ==> i + 8 <= bad_header_from(
            bytes,
            i,
            end,
            started,
        ).unwrap().0,
{
    let stop = chunk_stop(i, chunk_len(bytes, i), end);
    if stands_at(bytes, i, HEADER_ID) {
        if header_kind(bytes, i, stop) == HeaderKind::Sound {
            lemma_before_bad_header(bytes, stop, end, true);
        }
    } else {
        lemma_before_bad_header(bytes, stop, end, started);
    }
}

/// The data of a container lie inside it.
proof fn lemma_data_range(bytes: Seq<u8>, i: int, end: int)
    requires
        0 <= i,
        data_from(bytes, i, end) is Some,
    ensures
        i + 8 <= data_from(bytes, i, end).unwrap().0,
        data_from(bytes, i, end).unwrap().0 <= data_from(bytes, i, end).unwrap().1 <= end,
    decreases end - i,
{
    let len = wrapped_len(bytes, i);
    let stop = chunk_stop(i, len, end);
    if !stands_at(bytes, i, DATA_ID) {
        let next = if len % 2 == 1 && stop < end {
            stop + 1
        } else {
            stop
        };
        lemma_data_range(bytes, next, end);
    }
}

fn is_at(bytes: &[u8], i: usize, id: [u8; 4]) -> (r: bool)
    requires
        i + 4 <= bytes@.len(),
    ensures
        r == stands_at(bytes@, i as int, id),
{
    bytes[i] == id[0] && bytes[i + 1] == id[1] && bytes[i + 2] == id[2] && bytes[i + 3] == id[3]
}

/// Where a chunk of length `len` stops.
fn stop_of(i: usize, len: u32, end: usize) -> (r: usize)
    requires
        i + 8 <= end,
    ensures
        r == chunk_stop(i as int, len as int, end as int),
        i + 8 <= r <= end,
{
    let rest: usize = end - i - 8;
    if (len as u64) < rest as u64 {
        i + 8 + len as usize
    } else {
        end
    }
}

/// A length of four bytes, the highest first.
fn length(a: u8, b: u8, c: u8, d: u8) -> (r: u32)
    ensures
        r == a * 0x100_0000 + b * 0x1_0000 + c * 0x100 + d,
{
    a as u32 * 0x100_0000 + b as u32 * 0x1_0000 + c as u32 * 0x100 + d as u32
}

/// How the header at position `i` reads.
fn read_header(bytes: &[u8], i: usize, stop: usize) -> (r: HeaderKind)
    requires
        i + 8 <= stop <= bytes@.len(),
    ensures
        r == header_kind(bytes@, i as int, stop as int),
{
    if stop - i < 14 || bytes[i + 8] != 0 || bytes[i + 9] > 2 {
        return HeaderKind::Broken;
    }
    let rate: u8 = bytes[i + 12];
    if rate == 0x80 {
        HeaderKind::NoNegative
    } else if rate < 0x80 || rate == 0xE8 || rate == 0xE7 || rate == 0xE3 || rate == 0xE2 {
        HeaderKind::Sound
    } else {
        HeaderKind::Broken
    }
}

/// Where the chunks of a file lie.
fn find_chunks(bytes: &[u8]) -> (r: Option<(usize, usize)>)
    ensures
        r matches Some(range) ==> chunks_of(bytes@) == Some((range.0 as int, range.1 as int)) && range.0 <= range.1
            <= bytes@.len(),
        r is None ==> chunks_of(bytes@) is None,
{
    let n: usize = bytes.len();
    if n >= 4 && is_at(bytes, 0, HEADER_ID) {
        return Some((0, n));
    }
    if n < 8 || !is_at(bytes, 0, CONTAINER_ID) {
        return None;
    }
    let end: usize = stop_of(0, length(bytes[7], bytes[6], bytes[5], bytes[4]), n);
    if end < 12 || !is_at(bytes, 8, FORM_ID) {
        return None;
    }
    let mut at: usize = 12;
    while end - at >= 8
        invariant
            at <= end <= n,
            n == bytes@.len(),
            chunks_of(bytes@) == data_from(bytes@, at as int, end as int),
        decreases end - at,
    {
        let len: u32 = length(bytes[at + 7], bytes[at + 6], bytes[at + 5], bytes[at + 4]);
        let stop: usize = stop_of(at, len, end);
        if is_at(bytes, at, DATA_ID) {
            return Some((at + 8, stop));
        }
        at =
        if len % 2 == 1 && stop < end {
            stop + 1
        } else {
            stop
        };
    }
    None
}

/// The header whose frame rate has no negative that reading the file comes to:
/// where it stands, and whether a header was read before it.
pub fn find_bad_header(bytes: &[u8]) -> (r: Option<(usize, bool)>)
    ensures
        r matches Some(found) ==> bad_header(bytes@) == Some((found.0 as int, found.1)) && found.0 <= bytes@.len(),
        r is None ==> bad_header(bytes@) is None,
{
    let (start, end): (usize, usize) = match find_chunks(bytes) {
        Some(range) => range,
        None => {
            return None;
        },
    };
    let mut at: usize = start;
    let mut started: bool = false;
    while end - at >= 8
        invariant
            at <= end <= bytes@.len(),
            bad_header(bytes@) == bad_header_from(bytes@, at as int, end as int, started),
        decreases end - at,
    {
        let len: u32 = length(bytes[at + 4], bytes[at + 5], bytes[at + 6], bytes[at + 7]);
        let stop: usize = stop_of(at, len, end);
        if is_at(bytes, at, HEADER_ID) {
            match read_header(bytes, at, stop) {
                HeaderKind::Sound => {
                    started = true;
                },
                HeaderKind::Broken => {
                    return None;
                },
                HeaderKind::NoNegative => {
                    return Some((at, started));
                },
            }
        } else if is_at(bytes, at, TRACK_ID) && !started {
            return None;
        }
        at = stop;
    }
    None
}

/// Only a header with the byte of -128 in it ever keeps anything from being read,
/// and then what stands before that header is read.
pub proof fn files_are_read_in_full(bytes: Seq<u8>)
    ensures
        (forall|i: int|
            0 <= i && i + 14 <= bytes.len() && #[trigger] stands_at(bytes, i, HEADER_ID) ==> bytes[i + 12] != 0x80)
            ==> readable(bytes) == Some(bytes),
        readable(bytes) matches Some(part) ==> part == bytes.take(part.len() as int) && part.len() <= bytes.len(),
        readable(bytes) matches Some(part) ==> part.len() < bytes.len() ==> {
            let at = part.len() as int;
            at + 14 <= bytes.len() && stands_at(bytes, at, HEADER_ID) && bytes[at + 12] == 0x80
        },
{
    assert(bytes.take(bytes.len() as int) =~= bytes);
    match chunks_of(bytes) {
        Some(range) => {
            lemma_chunks_lie_inside(bytes);
            if bad_header_from(bytes, range.0, range.1, false) is Some {
                lemma_bad_headers_are_bad(bytes, range.0, range.1, false);
            }
        },
        None => {},
    }
}

proof fn lemma_data_lies_inside(bytes: Seq<u8>, i: int, end: int)
    requires
        0 <= i,
        end <= bytes.len(),
    ensures
        data_from(bytes, i, end) matches Some(range) ==> 0 <= range.0 && range.1 <= end,
    decreases
        (if i > end {
            0int
        } else {
            end - i + 1
        }),
{
    if i + 8 <= end && !stands_at(bytes, i, DATA_ID) {
        let len = wrapped_len(bytes, i);
        let stop = chunk_stop(i, len, end);
        if len % 2 == 1 && stop < end {
            lemma_data_lies_inside(bytes, stop + 1, end);
        } else {
            lemma_data_lies_inside(bytes, stop, end);
        }
    }
}

proof fn lemma_chunks_lie_inside(bytes: Seq<u8>)
    ensures
        chunks_of(bytes) matches Some(range) ==> 0 <= range.0 && range.1 <= bytes.len(),
{
    if bytes.len() >= 8 && stands_at(bytes, 0, CONTAINER_ID) {
        lemma_data_lies_inside(bytes, 12, chunk_stop(0, wrapped_len(bytes, 0), bytes.len() as int));
    }
}

proof fn lemma_bad_headers_are_bad(bytes: Seq<u8>, i: int, end: int, started: bool)
    requires
        0 <= i,
        end <= bytes.len(),
        bad_header_from(bytes, i, end, started) is Some,
    ensures
        ({
            let at = bad_header_from(bytes, i, end, started).unwrap().0;
            0 <= at && at + 14 <= end && stands_at(bytes, at, HEADER_ID) && bytes[at + 12] == 0x80
        }),
    decreases end - i,
{
    let stop = chunk_stop(i, chunk_len(bytes, i), end);
    if !(stands_at(bytes, i, HEADER_ID) && header_kind(bytes, i, stop) == HeaderKind::NoNegative) {
        lemma_bad_headers_are_bad(bytes, stop, end, started || stands_at(bytes, i, HEADER_ID));
    }
}

/// A file whose own header has that byte is refused, whatever comes after: the
/// header of six bytes at its start, of one of the three formats.
pub proof fn bad_files_are_refused(bytes: Seq<u8>)
    requires
        bytes.len() >= 14,
        bytes[0] == 0x4D && bytes[1] == 0x54 && bytes[2] == 0x68 && bytes[3] == 0x64,
        bytes[4] == 0 && bytes[5] == 0 && bytes[6] == 0 && bytes[7] == 6,
        bytes[8] == 0 && bytes[9] <= 2,
        bytes[12] == 0x80,
    ensures
        readable(bytes) is None,
{
    assert(chunk_len(bytes, 0) == 6);
    assert(stands_at(bytes, 0, HEADER_ID));
    assert(bad_header_from(bytes, 0, bytes.len() as int, false) == Some((0int, false)));
}

/// Reading goes chunk by chunk: past a sound header and past any chunk of another
/// name, over as many bytes as the chunk gives for itself, highest first; it ends
/// at a broken header, at a track that no header came before, and where no chunk
/// fits.
pub proof fn chunks_are_read_in_turn(bytes: Seq<u8>, i: int, end: int, started: bool)
    requires
        0 <= i,
        end <= bytes.len(),
    ensures
        i + 8 > end ==> bad_header_from(bytes, i, end, started) is None,
        i + 8 <= end ==> ({
            let len = bytes[i + 4] * 0x100_0000 + bytes[i + 5] * 0x1_0000 + bytes[i + 6] * 0x100 + bytes[i + 7];
            let next = if i + 8 + len < end {
                i + 8 + len
            } else {
                end
            };
            let header = bytes[i] == 0x4D && bytes[i + 1] == 0x54 && bytes[i + 2] == 0x68 && bytes[i + 3] == 0x64;
            let track = bytes[i] == 0x4D && bytes[i + 1] == 0x54 && bytes[i + 2] == 0x72 && bytes[i + 3] == 0x6B;
            let whole = i + 14 <= next && bytes[i + 8] == 0 && bytes[i + 9] <= 2;
            let rate = bytes[i + 12];
            let sound = rate < 0x80 || rate == 0xE8 || rate == 0xE7 || rate == 0xE3 || rate == 0xE2;
            let rest = bad_header_from(bytes, next, end, started || header);
            let found = bad_header_from(bytes, i, end, started);
            &&& header && whole && rate == 0x80 ==> found == Some((i, started))
            &&& header && whole && sound ==> found == rest
            &&& header && whole && rate != 0x80 && !sound ==> found is None
            &&& header && !whole ==> found is None
            &&& track && !started ==> found is None
            &&& !header && (!track || started) ==> found == rest
        }),
{
}

/// A container is read the same way, but for its lengths, which have the lowest
/// byte first, and for a byte of padding after a chunk of odd length; its data
/// are what is read of it.
pub proof fn containers_hold_their_data(bytes: Seq<u8>, i: int, end: int)
    requires
        0 <= i,
        end <= bytes.len(),
    ensures
        i + 8 > end ==> data_from(bytes, i, end) is None,
        i + 8 <= end ==> ({
            let len = bytes[i + 4] + bytes[i + 5] * 0x100 + bytes[i + 6] * 0x1_0000 + bytes[i + 7] * 0x100_0000;
            let stop = if i + 8 + len < end {
                i + 8 + len
            } else {
                end
            };
            let data = bytes[i] == 0x64 && bytes[i + 1] == 0x61 && bytes[i + 2] == 0x74 && bytes[i + 3] == 0x61;
            &&& data ==> data_from(bytes, i, end) == Some((i + 8, stop))
            &&& !data && i + 8 + len < end && len % 2 == 1 ==> data_from(bytes, i, end) == data_from(
                bytes,
                i + 8 + len + 1,
                end,
            )
            &&& !data && i + 8 + len < end && len % 2 == 0 ==> data_from(bytes, i, end) == data_from(
                bytes,
                i + 8 + len,
                end,
            )
        }),
{
}

/// A file starts with a header, and is then read from there; or it is a container
/// of the right form, and is then read from its data; else nothing is looked for.
pub proof fn files_start_with_a_header_or_a_container(bytes: Seq<u8>)
    ensures
        bytes.len() < 4 ==> chunks_of(bytes) is None,
        bytes.len() >= 4 && bytes[0] == 0x4D && bytes[1] == 0x54 && bytes[2] == 0x68 && bytes[3] == 0x64 ==> chunks_of(
            bytes,
        ) == Some((0int, bytes.len() as int)),
        bytes.len() >= 12 && bytes[0] == 0x52 && bytes[1] == 0x49 && bytes[2] == 0x46 && bytes[3] == 0x46 && bytes[8]
            == 0x52 && bytes[9] == 0x4D && bytes[10] == 0x49 && bytes[11] == 0x44 ==> ({
            let len = bytes[4] + bytes[5] * 0x100 + bytes[6] * 0x1_0000 + bytes[7] * 0x100_0000;
            let end = if 8 + len < bytes.len() {
                8 + len
            } else {
                bytes.len() as int
            };
            end >= 12 ==> chunks_of(bytes) == data_from(bytes, 12, end)
        }),
        bytes.len() >= 4 && bytes[0] != 0x4D && bytes[0] != 0x52 ==> chunks_of(bytes) is None,
{
}

} // verus!
