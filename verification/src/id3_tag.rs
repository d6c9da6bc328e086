//! ID3 tags in front of a clip, as Symphonia's reader of them takes them.
//!
//! What a tag says is not used. It has to be skipped, and there are two things
//! in it on which its reader panics.
use vstd::prelude::*;

verus! {

/// Where the tag at `at` ends, by the length in its header: seven bits of each
/// byte, highest first.
pub open spec fn tag_end(data: Seq<u8>, at: int) -> int {
    at + 10 + 0x20_0000 * (data[at + 6] % 128) + 0x4000 * (data[at + 7] % 128) + 0x80 * (data[at
        + 8] % 128) + data[at + 9] % 128
}

/// Whether the tag at `at`, of version 4, says in its extended header that its
/// texts are restricted in their encoding: the reader takes the flag of that
/// for an impossible value. The flag stands behind what the header says of the
/// tag being an update and of its checksum.
pub open spec fn restricts_texts(data: Seq<u8>, at: int) -> bool {
    let flags = data[at + 15];
    let checksum = at + 16 + if (flags & 0x40) != 0 {
        1int
    } else {
        0
    };
    let restrictions = checksum + if (flags & 0x20) != 0 {
        6int
    } else {
        0
    };
    &&& data[at + 3] == 4 && data[at + 4] != 0xff && (data[at + 5] & 0x40) != 0
    &&& restrictions + 2 <= tag_end(data, at) && restrictions + 2 <= data.len()
    &&& data[at + 14] == 1
    &&& (flags & 0x40) != 0 ==> data[at + 16] == 1
    &&& (flags & 0x20) != 0 ==> data[checksum] == 5
    &&& (flags & 0x10) != 0 && data[restrictions] == 1 && (data[restrictions + 1] & 0x40) != 0
}

/// The name of a frame is made of capital letters and digits.
pub open spec fn is_name_byte(byte: u8) -> bool {
    0x30 <= byte <= 0x39 || 0x41 <= byte <= 0x5a
}

/// Whether the name of a frame stands at `at`.
pub open spec fn names_frame(data: Seq<u8>, at: int) -> bool {
    &&& is_name_byte(data[at])
    &&& is_name_byte(data[at + 1])
    &&& is_name_byte(data[at + 2])
    &&& is_name_byte(data[at + 3])
}

/// The length of the frame at `at`, highest byte first.
pub open spec fn frame_len(data: Seq<u8>, at: int) -> int {
    0x100_0000 * data[at + 4] + 0x1_0000 * data[at + 5] + 0x100 * data[at + 6] + data[at + 7]
}

/// Whether room can be made for each of the frames from `at` to `end`, where
/// addresses have 32 bits.
pub open spec fn frames_fit(data: Seq<u8>, at: int, end: int) -> bool
    decreases end - at,
{
    if at + 10 > end || at + 10 > data.len() || !names_frame(data, at) {
        true
    } else if frame_len(data, at) >= 0x8000_0000 {
        false
    } else if at + 10 + frame_len(data, at) > end {
        true
    } else {
        frames_fit(data, at + 10 + frame_len(data, at), end)
    }
}

/// Where the frames of the tag at `at`, of version 3, begin: behind an extended
/// header, which is longer with a checksum in it.
pub open spec fn frames_start(data: Seq<u8>, at: int) -> int {
    if (data[at + 5] & 0x40) == 0 {
        at + 10
    } else if data[at + 13] == 10 && (data[at + 14] & 0x80) != 0 {
        at + 24
    } else {
        at + 20
    }
}

/// Whether a frame for which no room can be made might begin between `from` and
/// `end`. Zeroes that are dropped from a tag stand before names alone.
pub open spec fn may_hold_huge_frame(data: Seq<u8>, from: int, end: int) -> bool {
    exists|at: int|
        from <= at && at + 5 <= end && at + 5 <= data.len() && #[trigger] names_frame(data, at)
            && data[at + 4] >= 0x80
}

/// Whether room can be made for the frames of the tag at `at`, where addresses
/// have 32 bits. Only version 3 has frames of that length. Where zeroes are to be
/// dropped from the tag, frames are looked for everywhere in it.
pub open spec fn tag_fits(data: Seq<u8>, at: int) -> bool {
    if data[at + 3] != 3 {
        true
    } else if (data[at + 5] & 0x80) != 0 {
        !may_hold_huge_frame(data, at + 10, tag_end(data, at))
    } else {
        frames_fit(data, frames_start(data, at), tag_end(data, at))
    }
}

/// Whether the tag at `at` can be read. One that is in error counts as read.
pub open spec fn tag_is_readable(data: Seq<u8>, at: int) -> bool {
    &&& !restricts_texts(data, at)
    &&& usize::MAX <= 0xffff_ffff ==> tag_fits(data, at)
}

/// The length of the tag at `at`, without its header.
fn tag_len(data: &[u8], at: usize) -> (r: usize)
    requires
        at + 16 <= data@.len(),
    ensures
        at + 10 + r == tag_end(data@, at as int),
        r <= 0xfff_ffff,
{
    let bound = data.len();
    assert(at + 16 <= bound);
    0x20_0000 * (data[at + 6] % 128) as usize + 0x4000 * (data[at + 7] % 128) as usize + 0x80 * (
    data[at + 8] % 128) as usize + (data[at + 9] % 128) as usize
}

/// Where the tag at `at` ends, where the clip reaches that far.
pub fn find_tag_end(data: &[u8], at: usize) -> (r: Option<usize>)
    requires
        at + 16 <= data@.len(),
    ensures
        match r {
            Some(end) => end == tag_end(data@, at as int) && end <= data@.len(),
            None => tag_end(data@, at as int) > data@.len(),
        },
{
    let bound = data.len();
    assert(at + 16 <= bound);
    let len = tag_len(data, at);
    if len <= bound - at - 10 {
        Some(at + 10 + len)
    } else {
        None
    }
}

/// How much of the tag at `at` the clip has, header included.
fn tag_bound(data: &[u8], at: usize) -> (r: usize)
    requires
        at + 16 <= data@.len(),
    ensures
        r <= data@.len(),
        r == data@.len() || r == tag_end(data@, at as int),
        r <= tag_end(data@, at as int),
{
    match find_tag_end(data, at) {
        Some(end) => end,
        None => data.len(),
    }
}

/// Whether the tag at `at` restricts the encoding of its texts.
fn is_restricting(data: &[u8], at: usize) -> (r: bool)
    requires
        at + 16 <= data@.len(),
    ensures
        r == restricts_texts(data@, at as int),
{
    let bound = data.len();
    assert(at + 16 <= bound);
    let flags = data[at + 15];
    let checksum: usize = 16 + if (flags & 0x40) != 0 {
        1
    } else {
        0
    };
    let restrictions: usize = checksum + if (flags & 0x20) != 0 {
        6
    } else {
        0
    };
    if tag_bound(data, at) - at < restrictions + 2 {
        return false;
    }
    data[at + 3] == 4 && data[at + 4] != 0xff && (data[at + 5] & 0x40) != 0 && data[at + 14] == 1
        && ((flags & 0x40) == 0 || data[at + 16] == 1) && ((flags & 0x20) == 0 || data[at + checksum]
        == 5) && (flags & 0x10) != 0 && data[at + restrictions] == 1 && (data[at + restrictions + 1]
        & 0x40) != 0
}

/// Whether a byte can be part of the name of a frame.
fn can_name(byte: u8) -> (r: bool)
    ensures
        r == is_name_byte(byte),
{
    0x30 <= byte && byte <= 0x39 || 0x41 <= byte && byte <= 0x5a
}

/// Whether the name of a frame stands at `at`.
fn is_frame_name(data: &[u8], at: usize) -> (r: bool)
    requires
        at + 4 <= data@.len(),
    ensures
        r == names_frame(data@, at as int),
{
    let bound = data.len();
    assert(at + 4 <= bound);
    can_name(data[at]) && can_name(data[at + 1]) && can_name(data[at + 2]) && can_name(data[at + 3])
}

/// Whether room can be made for the frames from `from` to the end of the tag
/// at `at`.
fn are_fitting(data: &[u8], from: usize, at: usize) -> (r: bool)
    requires
        at + 16 <= data@.len(),
        from <= at + 24,
    ensures
        r == frames_fit(data@, from as int, tag_end(data@, at as int)),
{
    let end = tag_bound(data, at);
    let mut frame = from;
    while end >= 10 && frame <= end - 10
        invariant
            end <= data@.len(),
            end == data@.len() || end == tag_end(data@, at as int),
            end <= tag_end(data@, at as int),
            frames_fit(data@, from as int, tag_end(data@, at as int)) == frames_fit(
                data@,
                frame as int,
                tag_end(data@, at as int),
            ),
        decreases end - frame,
    {
        if !is_frame_name(data, frame) {
            return true;
        }
        if data[frame + 4] >= 0x80 {
            return false;
        }
        let len = 0x100_0000 * (data[frame + 4] as usize) + 0x1_0000 * (data[frame + 5] as usize)
            + 0x100 * (data[frame + 6] as usize) + data[frame + 7] as usize;
        if len > end - frame - 10 {
            assert(frames_fit(data@, frame + 10 + len, tag_end(data@, at as int)));
            return true;
        }
        frame = frame + 10 + len;
    }
    true
}

/// Whether a frame for which no room can be made might begin in the tag at `at`.
fn may_be_huge(data: &[u8], at: usize) -> (r: bool)
    requires
        at + 16 <= data@.len(),
    ensures
        r == may_hold_huge_frame(data@, at + 10, tag_end(data@, at as int)),
{
    let bound = data.len();
    assert(at + 16 <= bound);
    let end = tag_bound(data, at);
    let mut frame = at + 10;
    while end >= 5 && frame <= end - 5
        invariant
            end <= data@.len(),
            end == data@.len() || end == tag_end(data@, at as int),
            end <= tag_end(data@, at as int),
            at + 10 <= frame,
            forall|k: int|
                at + 10 <= k < frame && #[trigger] names_frame(data@, k) ==> data@[k + 4] < 0x80,
        decreases end - frame,
    {
        if is_frame_name(data, frame) && data[frame + 4] >= 0x80 {
            return true;
        }
        frame = frame + 1;
    }
    false
}

/// Whether the tag at `at` can be read.
pub fn is_readable_tag(data: &[u8], at: usize) -> (r: bool)
    requires
        at + 16 <= data@.len(),
    ensures
        r == tag_is_readable(data@, at as int),
{
    let bound = data.len();
    assert(at + 16 <= bound);
    if is_restricting(data, at) {
        return false;
    }
    if usize::MAX as u64 > 0xffff_ffff || data[at + 3] != 3 {
        return true;
    }
    if (data[at + 5] & 0x80) != 0 {
        return !may_be_huge(data, at);
    }
    if (data[at + 5] & 0x40) == 0 {
        are_fitting(data, at + 10, at)
    } else if data[at + 13] == 10 && (data[at + 14] & 0x80) != 0 {
        if bound - at < 24 {
            return true;
        }
        are_fitting(data, at + 24, at)
    } else {
        if bound - at < 20 {
            return true;
        }
        are_fitting(data, at + 20, at)
    }
}

} // verus!
