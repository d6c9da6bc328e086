//! The chunks of a WAV clip, as Symphonia's WAV reader walks them.
//!
//! A chunk ends where its reader stopped, which need not be where its length
//! says, so that what the next chunk is depends on what all those before it
//! held.
use crate::bytes::read_u32;
use crate::bytes::u32_at;
use crate::wav_format::format_read;
use crate::wav_format::law_format_breaks_only_where_it_trips;
use crate::wav_format::read_format;
use crate::wav_format::trips_the_reader;
use crate::wav_format::Reading;
use vstd::prelude::*;

verus! {

/// The form of a RIFF stream that holds audio: `WAVE`.
pub const WAVE: u32 = 0x4556_4157;

/// The tag of a format chunk: `fmt `.
pub const FORMAT: u32 = 0x2074_6d66;

/// The tag of a list: `LIST`.
pub const LIST: u32 = 0x5453_494c;

/// The form of a list of texts: `INFO`.
pub const INFO: u32 = 0x4f46_4e49;

/// The tag of the chunk with the number of frames: `fact`.
pub const FACT: u32 = 0x7463_6166;

/// The tag of the chunk with the samples: `data`.
pub const SAMPLES: u32 = 0x6174_6164;

/// The largest length of a chunk. As the length of a stream it says that the
/// length was not known when it was written.
pub const MAX_LEN: u32 = 0xffff_ffff;

/// Reading on in a list of texts `len` bytes long, at `at`, with `consumed` of
/// them behind. Room for a text is made before it is read, which fails where
/// addresses have 32 bits and the text takes half of them. Behind the last text
/// comes the rest of the list, and a byte of padding.
pub open spec fn texts_read(data: Seq<u8>, at: int, consumed: int, len: int) -> Reading<int>
    decreases data.len() - at,
{
    let start = at + consumed % 2;
    let begun = consumed + consumed % 2;
    let size = u32_at(data, start + 4);
    let rest = if begun < len {
        len - begun
    } else {
        0
    };
    if start > data.len() {
        Reading::Ends
    } else if begun + 8 > MAX_LEN {
        Reading::Breaks
    } else if begun + 8 > len {
        if start + rest + len % 2 <= data.len() {
            Reading::GoesOn(start + rest + len % 2)
        } else {
            Reading::Ends
        }
    } else if start + 8 > data.len() || begun + 8 + size > len {
        Reading::Ends
    } else if usize::MAX <= MAX_LEN && size >= 0x8000_0000 {
        Reading::Breaks
    } else if start + 8 + size > data.len() {
        Reading::Ends
    } else {
        texts_read(data, start + 8 + size, begun + 8 + size, len)
    }
}

/// Reading a list of `len` bytes that begins at `at`. One of another form than
/// texts is skipped, padding included.
pub open spec fn list_read(data: Seq<u8>, at: int, len: int) -> Reading<int> {
    if len < 4 || at + 4 > data.len() {
        Reading::Ends
    } else if u32_at(data, at) == INFO {
        texts_read(data, at + 4, 0, len - 4)
    } else if at + len + len % 2 <= data.len() {
        Reading::GoesOn(at + len + len % 2)
    } else {
        Reading::Ends
    }
}

/// Reading the chunk at `at`, of `len` bytes behind its header.
pub open spec fn chunk_read(data: Seq<u8>, at: int, len: int) -> Reading<int> {
    let tag = u32_at(data, at);
    let body = at + 8;
    if tag == FORMAT {
        format_read(data, body, len)
    } else if tag == LIST {
        list_read(data, body, len)
    } else if tag == FACT && len != 4 || tag == SAMPLES || body + len > data.len() {
        Reading::Ends
    } else {
        Reading::GoesOn(body + len)
    }
}

proof fn lemma_texts_read(data: Seq<u8>, at: int, consumed: int, len: int)
    requires
        consumed >= 0,
        len >= 0,
    ensures
        texts_read(data, at, consumed, len) matches Reading::GoesOn(next) ==> at <= next
            <= data.len(),
    decreases data.len() - at,
{
    let start = at + consumed % 2;
    let begun = consumed + consumed % 2;
    let size = u32_at(data, start + 4);
    if start + 8 + size <= data.len() {
        lemma_texts_read(data, start + 8 + size, begun + 8 + size, len);
    }
}

/// Whatever a chunk holds, reading goes on behind its header.
pub proof fn lemma_chunk_read(data: Seq<u8>, at: int, len: int)
    requires
        0 <= len,
    ensures
        chunk_read(data, at, len) matches Reading::GoesOn(next) ==> at + 8 <= next <= data.len(),
{
    if len >= 4 {
        lemma_texts_read(data, at + 12, 0, len - 4);
    }
}

/// Whether the chunks from `at` on can be read, in a stream `len` bytes long of
/// which `consumed` are behind. A chunk begins on an even byte and lies within
/// the stream, as far as the length of the stream is known; what is behind is
/// counted in 32 bits.
pub open spec fn chunks_are_readable(data: Seq<u8>, at: int, consumed: int, len: int) -> bool
    decreases data.len() - at,
{
    let start = at + consumed % 2;
    let begun = consumed + consumed % 2;
    let size = u32_at(data, start + 4);
    if start > data.len() {
        true
    } else if begun + 8 > MAX_LEN {
        false
    } else if begun + 8 > len || start + 8 > data.len() {
        true
    } else if begun + 8 + size > len && !(len == MAX_LEN && size == MAX_LEN) {
        true
    } else {
        match chunk_read(data, start, size) {
            Reading::Ends => true,
            Reading::Breaks => false,
            Reading::GoesOn(next) => {
                let behind = if begun + 8 + size <= MAX_LEN {
                    begun + 8 + size
                } else {
                    MAX_LEN as int
                };
                proof {
                    lemma_chunk_read(data, start, size);
                }
                chunks_are_readable(data, next, behind, len)
            },
        }
    }
}

/// Whether the RIFF stream at `at` can be read. One that does not hold audio is
/// an error.
pub open spec fn stream_is_readable(data: Seq<u8>, at: int) -> bool {
    u32_at(data, at + 8) == WAVE ==> chunks_are_readable(
        data,
        at + 12,
        0,
        u32_at(data, at + 4),
    )
}

// ------------------------------------------------------------------
// Laws
// ------------------------------------------------------------------
proof fn lemma_texts_break(data: Seq<u8>, at: int, consumed: int, len: int)
    requires
        0 <= consumed <= len,
        texts_read(data, at, consumed, len) is Breaks,
    ensures
        len >= 0xffff_fff0 || usize::MAX <= 0xffff_ffff && len >= 0x8000_0000,
    decreases data.len() - at,
{
    let start = at + consumed % 2;
    let begun = consumed + consumed % 2;
    let size = u32_at(data, start + 4);
    if begun + 8 <= MAX_LEN && !(usize::MAX <= MAX_LEN && size >= 0x8000_0000) {
        lemma_texts_break(data, start + 8 + size, begun + 8 + size, len);
    }
}

/// Where the chunks of a stream cannot be read, one of them is a format chunk that
/// trips its reader, or the length of the stream is close to what 32 bits hold;
/// where addresses have 32 bits, to what can be addressed.
pub proof fn law_chunks_break_only_where_one_trips(
    data: Seq<u8>,
    at: int,
    consumed: int,
    len: int,
)
    requires
        0 <= at,
        0 <= consumed <= len <= 0xffff_ffff,
        !chunks_are_readable(data, at, consumed, len),
    ensures
        len >= 0xffff_fff0 || usize::MAX <= 0xffff_ffff && len >= 0x8000_0000 || exists|k: int|
            at <= k && k + 24 <= data.len() && u32_at(data, k) == 0x2074_6d66
                && #[trigger] trips_the_reader(data, k + 8),
    decreases data.len() - at,
{
    let start = at + consumed % 2;
    let begun = consumed + consumed % 2;
    let size = u32_at(data, start + 4);
    if begun + 8 <= MAX_LEN {
        lemma_chunk_read(data, start, size);
        match chunk_read(data, start, size) {
            Reading::Ends => {},
            Reading::Breaks => {
                if u32_at(data, start) == FORMAT {
                    law_format_breaks_only_where_it_trips(data, start + 8, size);
                    assert(trips_the_reader(data, start + 8));
                } else {
                    lemma_texts_break(data, start + 12, 0, size - 4);
                }
            },
            Reading::GoesOn(next) => {
                let behind = if begun + 8 + size <= MAX_LEN {
                    begun + 8 + size
                } else {
                    MAX_LEN as int
                };
                law_chunks_break_only_where_one_trips(data, next, behind, len);
            },
        }
    }
}

proof fn lemma_texts_end(data: Seq<u8>, first: int, at: int, consumed: int, len: int)
    requires
        0 <= consumed <= len,
        at == first + consumed,
        len % 2 == 0,
    ensures
        texts_read(data, at, consumed, len) matches Reading::GoesOn(next) ==> next == first + len,
    decreases data.len() - at,
{
    let start = at + consumed % 2;
    let begun = consumed + consumed % 2;
    let size = u32_at(data, start + 4);
    if start + 8 + size <= data.len() && begun + 8 + size <= len && u32_at(data, start + 4) >= 0 {
        lemma_texts_end(data, first, start + 8 + size, begun + 8 + size, len);
    }
}

/// A list of even length that can be read ends where its length says, whether it
/// holds texts or anything else.
pub proof fn law_list_ends_where_it_says(data: Seq<u8>, at: int, len: int)
    requires
        0 <= at,
        len >= 4,
        len % 2 == 0,
    ensures
        list_read(data, at, len) matches Reading::GoesOn(next) ==> next == at + len,
        u32_at(data, at) != 0x4f46_4e49 && at + len <= data.len() ==> list_read(data, at, len)
            == Reading::GoesOn(at + len),
{
    lemma_texts_end(data, at + 4, at + 4, 0, len - 4);
}

/// A byte of padding follows a chunk of odd length.
pub proof fn law_odd_chunk_is_padded(data: Seq<u8>, at: int, consumed: int, len: int)
    requires
        0 <= at < data.len(),
        consumed % 2 == 1,
        0 <= consumed < 0xffff_ffff,
    ensures
        chunks_are_readable(data, at, consumed, len) == chunks_are_readable(
            data,
            at + 1,
            consumed + 1,
            len,
        ),
{
}

/// A chunk that is not known is skipped, whatever it holds.
pub proof fn law_unknown_chunk_is_skipped(data: Seq<u8>, at: int, consumed: int, len: int)
    requires
        0 <= at,
        at + 8 <= data.len(),
        consumed % 2 == 0,
        0 <= consumed,
        u32_at(data, at) != 0x2074_6d66,
        u32_at(data, at) != 0x5453_494c,
        u32_at(data, at) != 0x7463_6166,
        u32_at(data, at) != 0x6174_6164,
        at + 8 + u32_at(data, at + 4) <= data.len(),
        consumed + 8 + u32_at(data, at + 4) <= len <= 0xffff_ffff,
    ensures
        chunks_are_readable(data, at, consumed, len) == chunks_are_readable(
            data,
            at + 8 + u32_at(data, at + 4),
            consumed + 8 + u32_at(data, at + 4),
            len,
        ),
{
}

/// Reading goes on where a format chunk or a list ended, with the length of the
/// chunk behind it. Where one panics nothing can be read.
pub proof fn law_reading_goes_on_behind_a_chunk(data: Seq<u8>, at: int, consumed: int, len: int)
    requires
        0 <= at,
        at + 8 <= data.len(),
        consumed % 2 == 0,
        0 <= consumed,
        consumed + 8 + u32_at(data, at + 4) <= len <= 0xffff_ffff,
        u32_at(data, at) == 0x2074_6d66 || u32_at(data, at) == 0x5453_494c,
    ensures
        ({
            let size = u32_at(data, at + 4);
            let read = if u32_at(data, at) == 0x2074_6d66 {
                format_read(data, at + 8, size)
            } else {
                list_read(data, at + 8, size)
            };
            match read {
                Reading::Ends => chunks_are_readable(data, at, consumed, len),
                Reading::Breaks => !chunks_are_readable(data, at, consumed, len),
                Reading::GoesOn(next) => chunks_are_readable(data, at, consumed, len)
                    == chunks_are_readable(data, next, consumed + 8 + size, len),
            }
        }),
{
}

/// The number of frames is skipped.
pub proof fn law_number_of_frames_is_skipped(data: Seq<u8>, at: int, consumed: int, len: int)
    requires
        0 <= at,
        at + 12 <= data.len(),
        consumed % 2 == 0,
        0 <= consumed,
        consumed + 12 <= len <= 0xffff_ffff,
        u32_at(data, at) == 0x7463_6166,
        u32_at(data, at + 4) == 4,
    ensures
        chunks_are_readable(data, at, consumed, len) == chunks_are_readable(
            data,
            at + 12,
            consumed + 12,
            len,
        ),
{
}

/// Nothing is read behind the beginning of the samples.
pub proof fn law_samples_end_the_reading(data: Seq<u8>, at: int, consumed: int, len: int)
    requires
        0 <= at,
        consumed % 2 == 0,
        0 <= consumed <= 0xffff_fff0,
        u32_at(data, at) == 0x6174_6164,
    ensures
        chunks_are_readable(data, at, consumed, len),
{
}

/// Reads a list of texts `len` bytes long, from `at` on.
fn read_texts(data: &[u8], at: usize, len: u32) -> (r: Reading<usize>)
    requires
        at <= data@.len(),
    ensures
        r.shown() == texts_read(data@, at as int, 0, len as int),
{
    let end = data.len();
    let mut start = at;
    let mut begun: u64 = 0;
    loop
        invariant
            end == data@.len(),
            start <= end,
            begun <= len,
            texts_read(data@, start as int, begun as int, len as int) == texts_read(
                data@,
                at as int,
                0,
                len as int,
            ),
        decreases end - start,
    {
        if begun % 2 == 1 {
            if start == end {
                return Reading::Ends;
            }
            start = start + 1;
            begun = begun + 1;
        }
        if begun + 8 > MAX_LEN as u64 {
            return Reading::Breaks;
        }
        if begun + 8 > len as u64 {
            let rest = if begun < len as u64 {
                len as u64 - begun
            } else {
                0
            };
            let skipped = rest + (len % 2) as u64;
            return if skipped <= (end - start) as u64 {
                Reading::GoesOn(start + skipped as usize)
            } else {
                Reading::Ends
            };
        }
        if end - start < 8 {
            return Reading::Ends;
        }
        let size = read_u32(data, start + 4);
        if begun + 8 + size as u64 > len as u64 {
            return Reading::Ends;
        }
        if usize::MAX as u64 <= MAX_LEN as u64 && size >= 0x8000_0000 {
            return Reading::Breaks;
        }
        if size as u64 > (end - start - 8) as u64 {
            return Reading::Ends;
        }
        start = start + 8 + size as usize;
        begun = begun + 8 + size as u64;
    }
}

/// Reads a list of `len` bytes that begins at `at`.
fn read_list(data: &[u8], at: usize, len: u32) -> (r: Reading<usize>)
    requires
        at <= data@.len(),
    ensures
        r.shown() == list_read(data@, at as int, len as int),
{
    let rest = data.len() - at;
    if len < 4 || rest < 4 {
        return Reading::Ends;
    }
    if read_u32(data, at) == INFO {
        return read_texts(data, at + 4, len - 4);
    }
    let skipped = len as u64 + (len % 2) as u64;
    if skipped <= rest as u64 {
        Reading::GoesOn(at + skipped as usize)
    } else {
        Reading::Ends
    }
}

/// Reads the chunk at `at`, of `len` bytes behind its header.
fn read_chunk(data: &[u8], at: usize, len: u32) -> (r: Reading<usize>)
    requires
        at + 8 <= data@.len(),
    ensures
        r.shown() == chunk_read(data@, at as int, len as int),
{
    let rest = data.len() - at - 8;
    let tag = read_u32(data, at);
    if tag == FORMAT {
        return read_format(data, at + 8, len);
    }
    if tag == LIST {
        return read_list(data, at + 8, len);
    }
    if tag == FACT && len != 4 || tag == SAMPLES || len as u64 > rest as u64 {
        return Reading::Ends;
    }
    Reading::GoesOn(at + 8 + len as usize)
}

/// Whether the RIFF stream at `at` can be read.
pub fn is_readable_stream(data: &[u8], at: usize) -> (r: bool)
    requires
        at + 12 <= data@.len(),
    ensures
        r == stream_is_readable(data@, at as int),
{
    let end = data.len();
    assert(at + 12 <= end);
    if read_u32(data, at + 8) != WAVE {
        return true;
    }
    let len = read_u32(data, at + 4);
    let mut start = at + 12;
    let mut begun: u64 = 0;
    loop
        invariant
            end == data@.len(),
            start <= end,
            begun <= MAX_LEN,
            chunks_are_readable(data@, start as int, begun as int, len as int)
                == chunks_are_readable(data@, at + 12, 0, len as int),
            chunks_are_readable(data@, at + 12, 0, len as int) == stream_is_readable(
                data@,
                at as int,
            ),
        decreases end - start,
    {
        if begun % 2 == 1 {
            if start == end {
                return true;
            }
            start = start + 1;
            begun = begun + 1;
        }
        if begun + 8 > MAX_LEN as u64 {
            return false;
        }
        if begun + 8 > len as u64 || end - start < 8 {
            return true;
        }
        let size = read_u32(data, start + 4);
        if begun + 8 + size as u64 > len as u64 && !(len == MAX_LEN && size == MAX_LEN) {
            return true;
        }
        proof {
            lemma_chunk_read(data@, start as int, size as int);
        }
        match read_chunk(data, start, size) {
            Reading::Ends => {
                return true;
            },
            Reading::Breaks => {
                return false;
            },
            Reading::GoesOn(next) => {
                start = next;
                begun = if begun + 8 + size as u64 <= MAX_LEN as u64 {
                    begun + 8 + size as u64
                } else {
                    MAX_LEN as u64
                };
            },
        }
    }
}

} // verus!
