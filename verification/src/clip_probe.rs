//! Which clips can be handed to Symphonia's probe.
//!
//! The probe looks for the beginning of a WAV stream, skipping the ID3 tags it
//! meets, and has the chunks of the stream read. On a few clips one of the
//! readers panics. Clips are examined for what brings that about, and for
//! nothing else, before they are probed.
use crate::bytes::read_u32;
use crate::bytes::u16_at;
use crate::bytes::u32_at;
use crate::id3_tag::find_tag_end;
use crate::id3_tag::is_readable_tag;
use crate::id3_tag::tag_end;
use crate::id3_tag::tag_is_readable;
use crate::wav_chunks::chunks_are_readable;
use crate::wav_chunks::is_readable_stream;
use crate::wav_chunks::law_chunks_break_only_where_one_trips;
use crate::wav_chunks::stream_is_readable;
use crate::wav_chunks::FORMAT;
use crate::wav_chunks::SAMPLES;
use crate::wav_chunks::WAVE;
use crate::wav_format::law_plain_format_needs_a_rate;
use crate::wav_format::trips_the_reader;
use vstd::prelude::*;

verus! {

/// The tag of a RIFF stream: `RIFF`.
pub const RIFF: u32 = 0x4646_4952;

/// The probe looks no further than this for a beginning.
pub const SEARCH_LIMIT: usize = 1_048_576;

/// A RIFF stream begins at `at`.
pub open spec fn starts_stream(data: Seq<u8>, at: int) -> bool {
    u32_at(data, at) == RIFF
}

/// An ID3 tag begins at `at`.
pub open spec fn starts_tag(data: Seq<u8>, at: int) -> bool {
    data[at] == 0x49 && data[at + 1] == 0x44 && data[at + 2] == 0x33
}

/// The first beginning from `at` on, within `limit` bytes. The probe looks at
/// sixteen bytes at a time, and takes two of them in before it does.
pub open spec fn first_mark(data: Seq<u8>, at: int, limit: int) -> Option<int>
    decreases data.len() - at,
{
    if limit < 2 || at + 16 > data.len() {
        None
    } else if starts_stream(data, at) || starts_tag(data, at) {
        Some(at)
    } else {
        first_mark(data, at + 1, limit - 1)
    }
}

/// A beginning lies where it was looked for, sixteen bytes before the end of the
/// clip.
pub proof fn lemma_first_mark(data: Seq<u8>, at: int, limit: int)
    ensures
        first_mark(data, at, limit) matches Some(mark) ==> {
            &&& at <= mark
            &&& mark + 16 <= data.len()
            &&& starts_stream(data, mark) || starts_tag(data, mark)
        },
    decreases data.len() - at,
{
    if limit >= 2 && at + 16 <= data.len() {
        lemma_first_mark(data, at + 1, limit - 1);
    }
}

/// Whether the clip can be probed from `from` on. Behind a tag the search begins
/// anew; a tag that the clip ends in is an error.
pub open spec fn can_be_probed_from(data: Seq<u8>, from: int) -> bool
    decreases data.len() - from,
{
    match first_mark(data, from, SEARCH_LIMIT as int) {
        None => true,
        Some(at) => if starts_stream(data, at) {
            stream_is_readable(data, at)
        } else if !tag_is_readable(data, at) {
            false
        } else if tag_end(data, at) > data.len() {
            true
        } else {
            proof {
                lemma_first_mark(data, from, SEARCH_LIMIT as int);
            }
            can_be_probed_from(data, tag_end(data, at))
        },
    }
}

/// Whether the clip can be probed.
pub open spec fn can_be_probed(data: Seq<u8>) -> bool {
    can_be_probed_from(data, 0)
}

/// What the reader of ID3 tags panics on in the tag at `at`: a restriction in the
/// extended header of version 4; where addresses have 32 bits, also a frame of
/// version 3.
pub open spec fn trips_the_tag_reader(data: Seq<u8>, at: int) -> bool {
    ||| data[at + 3] == 4 && (data[at + 5] & 0x40) != 0 && (data[at + 15] & 0x10) != 0
    ||| data[at + 3] == 3 && usize::MAX <= 0xffff_ffff
}

/// What the reader of WAV streams panics on in the length of the stream at `at`.
pub open spec fn trips_the_stream_reader(data: Seq<u8>, at: int) -> bool {
    ||| u32_at(data, at + 4) >= 0xffff_fff0
    ||| u32_at(data, at + 4) >= 0x8000_0000 && usize::MAX <= 0xffff_ffff
}

proof fn lemma_refusal(data: Seq<u8>, from: int)
    requires
        0 <= from,
        !can_be_probed_from(data, from),
    ensures
        (exists|at: int|
            0 <= at && at + 16 <= data.len() && starts_tag(data, at)
                && #[trigger] trips_the_tag_reader(data, at)) || (exists|at: int|
            0 <= at && at + 16 <= data.len() && u32_at(data, at) == 0x4646_4952
                && #[trigger] trips_the_stream_reader(data, at)) || (exists|at: int|
            0 <= at && at + 24 <= data.len() && u32_at(data, at) == 0x2074_6d66
                && #[trigger] trips_the_reader(data, at + 8)),
    decreases data.len() - from,
{
    lemma_first_mark(data, from, SEARCH_LIMIT as int);
    let at = first_mark(data, from, SEARCH_LIMIT as int)->0;
    if starts_stream(data, at) {
        let len = u32_at(data, at + 4);
        law_chunks_break_only_where_one_trips(data, at + 12, 0, len);
        if len < 0xffff_fff0 && !(usize::MAX <= 0xffff_ffff && len >= 0x8000_0000) {
            let k = choose|k: int|
                at + 12 <= k && k + 24 <= data.len() && u32_at(data, k) == 0x2074_6d66
                    && #[trigger] trips_the_reader(data, k + 8);
            assert(trips_the_reader(data, k + 8));
        } else {
            assert(trips_the_stream_reader(data, at));
        }
    } else if !tag_is_readable(data, at) {
        assert(trips_the_tag_reader(data, at));
    } else {
        lemma_refusal(data, tag_end(data, at));
    }
}

/// No clip is refused but one that a reader would panic on: it holds an ID3 tag, a
/// length of a stream or a format chunk that trips the reader of it.
pub proof fn law_refused_clip_trips_a_reader(data: Seq<u8>)
    requires
        !can_be_probed(data),
    ensures
        (exists|at: int|
            0 <= at && at + 16 <= data.len() && starts_tag(data, at)
                && #[trigger] trips_the_tag_reader(data, at)) || (exists|at: int|
            0 <= at && at + 16 <= data.len() && u32_at(data, at) == 0x4646_4952
                && #[trigger] trips_the_stream_reader(data, at)) || (exists|at: int|
            0 <= at && at + 24 <= data.len() && u32_at(data, at) == 0x2074_6d66
                && #[trigger] trips_the_reader(data, at + 8)),
{
    lemma_refusal(data, 0);
}

/// A clip of plain samples without a sample rate is refused.
pub proof fn law_plain_clip_without_a_rate_is_refused(data: Seq<u8>)
    requires
        data.len() >= 44,
        u32_at(data, 0) == RIFF,
        24 <= u32_at(data, 4) <= 0xffff_ffff,
        u32_at(data, 8) == WAVE,
        u32_at(data, 12) == FORMAT,
        u32_at(data, 16) == 16,
        u16_at(data, 20) == 1,
        1 <= u16_at(data, 22) <= 26,
        u16_at(data, 34) == 8 || u16_at(data, 34) == 16 || u16_at(data, 34) == 24 || u16_at(
            data,
            34,
        ) == 32,
        u32_at(data, 24) == 0,
    ensures
        !can_be_probed(data),
{
    assert(first_mark(data, 0, SEARCH_LIMIT as int) == Some(0int));
    law_plain_format_needs_a_rate(data, 20, 16);
    assert(!chunks_are_readable(data, 12, 0, u32_at(data, 4)));
}

/// A tag that restricts its texts cannot be read, and a clip that begins with one
/// is refused.
pub proof fn law_restricted_texts_are_refused(data: Seq<u8>, tag: int)
    requires
        0 <= tag,
        tag + 16 <= data.len(),
        data[tag] == 0x49 && data[tag + 1] == 0x44 && data[tag + 2] == 0x33,
        data[tag + 3] == 4 && data[tag + 4] != 0xff && (data[tag + 5] & 0x40) != 0,
        data[tag + 14] == 1,
        (data[tag + 15] & 0x10) != 0,
        ({
            let update = (data[tag + 15] & 0x40) != 0;
            let checksum = (data[tag + 15] & 0x20) != 0;
            let at = tag + 16 + (if update {
                1int
            } else {
                0
            }) + (if checksum {
                6int
            } else {
                0
            });
            &&& at + 2 <= data.len()
            &&& at + 2 <= tag + 10 + 2_097_152 * (data[tag + 6] % 128) + 16_384 * (data[tag + 7]
                % 128) + 128 * (data[tag + 8] % 128) + data[tag + 9] % 128
            &&& update ==> data[tag + 16] == 1
            &&& checksum && update ==> data[tag + 17] == 5
            &&& checksum && !update ==> data[tag + 16] == 5
            &&& data[at] == 1
            &&& (data[at + 1] & 0x40) != 0
        }),
    ensures
        !tag_is_readable(data, tag),
        tag == 0 ==> !can_be_probed(data),
{
    assert(!tag_is_readable(data, tag));
    if tag == 0 {
        assert(first_mark(data, 0, SEARCH_LIMIT as int) == Some(0int));
    }
}

/// A tag that does not trip its reader can be read, and ends where its header
/// says. One in front of a clip is skipped: behind it the clip is looked for as
/// if it began there.
pub proof fn law_clip_behind_a_tag_is_judged_by_itself(data: Seq<u8>, tag: int)
    requires
        0 <= tag,
        tag + 16 <= data.len(),
        data[tag] == 0x49 && data[tag + 1] == 0x44 && data[tag + 2] == 0x33,
        !trips_the_tag_reader(data, tag),
    ensures
        ({
            let end = tag + 10 + 2_097_152 * (data[tag + 6] % 128) + 16_384 * (data[tag + 7] % 128)
                + 128 * (data[tag + 8] % 128) + data[tag + 9] % 128;
            &&& tag_is_readable(data, tag)
            &&& tag_end(data, tag) == end
            &&& can_be_probed_from(data, tag) == (end > data.len() || can_be_probed_from(data, end))
        }),
{
    assert(first_mark(data, tag, SEARCH_LIMIT as int) == Some(tag));
    assert(tag_is_readable(data, tag));
}

/// Where a stream or a tag begins is looked for byte by byte, and the first that
/// is found counts.
pub proof fn law_clip_is_found_behind_other_bytes(data: Seq<u8>, from: int, at: int)
    requires
        0 <= from <= at <= data.len() - 16,
        at - from + 2 <= 1_048_576,
        starts_stream(data, at) || starts_tag(data, at),
        forall|i: int|
            #![trigger starts_stream(data, i)]
            #![trigger starts_tag(data, i)]
            from <= i < at ==> !starts_stream(data, i) && !starts_tag(data, i),
    ensures
        starts_stream(data, at) ==> can_be_probed_from(data, from) == stream_is_readable(data, at),
        !starts_stream(data, at) ==> can_be_probed_from(data, from) == (tag_is_readable(data, at)
            && (tag_end(data, at) > data.len() || can_be_probed_from(data, tag_end(data, at)))),
{
    lemma_nothing_before(data, from, at, SEARCH_LIMIT as int);
}

/// A clip in which nothing begins within reach is left to the probe to turn down.
pub proof fn law_nothing_to_find_is_no_reason_to_refuse(data: Seq<u8>, from: int)
    requires
        0 <= from,
        forall|i: int|
            #![trigger starts_stream(data, i)]
            #![trigger starts_tag(data, i)]
            from <= i <= data.len() - 16 && i - from + 2 <= 1_048_576 ==> !starts_stream(data, i)
                && !starts_tag(data, i),
    ensures
        can_be_probed_from(data, from),
{
    lemma_first_mark(data, from, SEARCH_LIMIT as int);
    lemma_mark_in_reach(data, from, SEARCH_LIMIT as int);
    if let Some(at) = first_mark(data, from, SEARCH_LIMIT as int) {
        assert(!starts_stream(data, at));
    }
}

proof fn lemma_mark_in_reach(data: Seq<u8>, at: int, limit: int)
    ensures
        first_mark(data, at, limit) matches Some(mark) ==> mark - at + 2 <= limit,
    decreases data.len() - at,
{
    if limit >= 2 && at + 16 <= data.len() {
        lemma_mark_in_reach(data, at + 1, limit - 1);
    }
}

proof fn lemma_nothing_before(data: Seq<u8>, from: int, at: int, limit: int)
    requires
        0 <= from <= at <= data.len() - 16,
        at - from + 2 <= limit,
        starts_stream(data, at) || starts_tag(data, at),
        forall|i: int|
            #![trigger starts_stream(data, i)]
            #![trigger starts_tag(data, i)]
            from <= i < at ==> !starts_stream(data, i) && !starts_tag(data, i),
    ensures
        first_mark(data, from, limit) == Some(at),
    decreases at - from,
{
    if from < at {
        assert(!starts_tag(data, from));
        lemma_nothing_before(data, from + 1, at, limit - 1);
    }
}

/// A clip of plain samples whose format and samples follow on its beginning, and
/// which gives its sample rate, can be probed, whatever else is in it.
pub proof fn law_plain_clip_can_be_probed(data: Seq<u8>)
    requires
        data.len() >= 44,
        u32_at(data, 0) == RIFF,
        u32_at(data, 8) == WAVE,
        u32_at(data, 12) == FORMAT,
        u32_at(data, 16) == 16,
        u16_at(data, 20) == 1 || u16_at(data, 20) == 3,
        u32_at(data, 24) > 0,
        u32_at(data, 36) == SAMPLES,
    ensures
        can_be_probed(data),
{
    let len = u32_at(data, 4);
    assert(first_mark(data, 0, SEARCH_LIMIT as int) == Some(0int));
    assert(chunks_are_readable(data, 36, 24, len));
    assert(chunks_are_readable(data, 12, 0, len));
}

/// Finds the first beginning from `from` on.
fn find_mark(data: &[u8], from: usize) -> (r: Option<usize>)
    requires
        from <= data@.len(),
    ensures
        first_mark(data@, from as int, SEARCH_LIMIT as int) == (match r {
            Some(at) => Some(at as int),
            None => None,
        }),
{
    let end = data.len();
    let mut at = from;
    let mut limit = SEARCH_LIMIT;
    while limit >= 2 && end - at >= 16
        invariant
            at <= end,
            end == data@.len(),
            first_mark(data@, at as int, limit as int) == first_mark(
                data@,
                from as int,
                SEARCH_LIMIT as int,
            ),
        decreases end - at,
    {
        if read_u32(data, at) == RIFF || data[at] == 0x49 && data[at + 1] == 0x44 && data[at + 2]
            == 0x33 {
            return Some(at);
        }
        at = at + 1;
        limit = limit - 1;
    }
    None
}

/// Whether the clip can be probed.
pub fn is_probeable(data: &[u8]) -> (r: bool)
    ensures
        r == can_be_probed(data@),
{
    let mut from: usize = 0;
    loop
        invariant
            from <= data@.len(),
            can_be_probed_from(data@, from as int) == can_be_probed(data@),
        decreases data@.len() - from,
    {
        proof {
            lemma_first_mark(data@, from as int, SEARCH_LIMIT as int);
        }
        match find_mark(data, from) {
            None => {
                return true;
            },
            Some(at) => {
                if read_u32(data, at) == RIFF {
                    return is_readable_stream(data, at);
                }
                if !is_readable_tag(data, at) {
                    return false;
                }
                match find_tag_end(data, at) {
                    None => {
                        return true;
                    },
                    Some(end) => {
                        from = end;
                    },
                }
            },
        }
    }
}

} // verus!
