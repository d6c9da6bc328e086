//! The format chunk of a WAV clip, as Symphonia's WAV reader takes it.
//!
//! The reader trusts some of its fields: there are values on which it panics,
//! in some cases only where arithmetic overflow is checked.
use crate::bytes::read_u16;
use crate::bytes::read_u32;
use crate::bytes::u16_at;
use crate::bytes::u32_at;
use vstd::prelude::*;

verus! {

/// How reading a piece of a clip ends.
pub enum Reading<P> {
    /// Nothing is read after it: the samples have been found, or there is an
    /// error to report.
    Ends,
    /// The reader panics.
    Breaks,
    /// Reading goes on at a position.
    GoesOn(P),
}

impl Reading<usize> {
    /// The same with the position as a mathematical integer.
    pub open spec fn shown(self) -> Reading<int> {
        match self {
            Reading::Ends => Reading::Ends,
            Reading::Breaks => Reading::Breaks,
            Reading::GoesOn(at) => Reading::GoesOn(at as int),
        }
    }
}

/// The number of ones among the binary digits.
pub open spec fn ones(value: int) -> int
    decreases value,
{
    if value <= 0 {
        0
    } else {
        value % 2 + ones(value / 2)
    }
}

/// The number of binary digits.
pub open spec fn digits(value: int) -> int
    decreases value,
{
    if value <= 0 {
        0
    } else {
        1 + digits(value / 2)
    }
}

/// Whether there is a speaker for each of `channels` channels.
pub open spec fn has_speakers(channels: int) -> bool {
    1 <= channels <= 26
}

/// Whether completing a mask that has too few speakers for the channels shifts
/// by all the digits of the mask.
pub open spec fn overshifts(mask: int, channels: int) -> bool {
    let missing = channels - ones(mask);
    missing > 0 && (missing >= 32 || mask >= 0x8000_0000)
}

/// Whether the mask names known speakers alone, once it has been completed or
/// cut to the number of channels.
pub open spec fn names_speakers(mask: int, channels: int) -> bool {
    let missing = channels - ones(mask);
    if missing > 0 {
        digits(mask) + missing <= 26
    } else {
        ones(mask % 0x400_0000) >= channels
    }
}

/// Reading the fields of plain integer samples.
pub open spec fn integer_read(data: Seq<u8>, at: int, len: int) -> Reading<int> {
    let bits = u16_at(data, at + 14);
    if {
        &&& len == 16 || len == 18 || len == 40
        &&& at + len <= data.len()
        &&& bits == 8 || bits == 16 || bits == 24 || bits == 32
        &&& has_speakers(u16_at(data, at + 2))
    } {
        Reading::GoesOn(at + len)
    } else {
        Reading::Ends
    }
}

/// Reading the fields of plain floating-point samples. That the clip ends in
/// the long form is no error yet.
pub open spec fn float_read(data: Seq<u8>, at: int, len: int) -> Reading<int> {
    let bits = u16_at(data, at + 14);
    if {
        &&& len == 16 || len == 40 || {
            &&& len == 18
            &&& at + 18 <= data.len()
            &&& u16_at(data, at + 16) == 0
        }
        &&& bits == 32 || bits == 64
        &&& has_speakers(u16_at(data, at + 2))
    } {
        Reading::GoesOn(
            if at + len <= data.len() {
                at + len
            } else {
                data.len() as int
            },
        )
    } else {
        Reading::Ends
    }
}

/// Reading the fields of A-law and mu-law samples.
pub open spec fn companded_read(data: Seq<u8>, at: int, len: int) -> Reading<int> {
    if {
        &&& len == 18
        &&& at + 18 <= data.len()
        &&& at + 18 + u16_at(data, at + 16) <= data.len()
        &&& has_speakers(u16_at(data, at + 2))
    } {
        Reading::GoesOn(at + 18 + u16_at(data, at + 16))
    } else {
        Reading::Ends
    }
}

/// Reading the fields of ADPCM samples. The frames in a block are counted in 16
/// bits, from what the `head` bytes of each channel leave of the block.
pub open spec fn adpcm_read(data: Seq<u8>, at: int, len: int, microsoft: bool) -> Reading<int> {
    let channels = u16_at(data, at + 2);
    let extra = u16_at(data, at + 16);
    let head = if microsoft {
        7 * channels
    } else {
        4 * channels
    };
    if !{
        &&& u16_at(data, at + 14) == 4
        &&& len >= 20
        &&& at + 18 <= data.len()
        &&& if microsoft {
            extra >= 32
        } else {
            extra == 2
        }
        &&& at + 18 + extra <= data.len()
        &&& has_speakers(channels)
    } {
        Reading::Ends
    } else if !(head <= u16_at(data, at + 12) <= head + 0x1fff) {
        Reading::Breaks
    } else {
        Reading::GoesOn(at + 18 + extra)
    }
}

/// The end of the identifier of a standard kind of samples.
pub open spec fn is_standard(data: Seq<u8>, at: int) -> bool {
    &&& u32_at(data, at) == 0x0010_0000
    &&& u32_at(data, at + 4) == 0xaa00_0080
    &&& u32_at(data, at + 8) == 0x719b_3800
}

/// The end of the identifier of a kind of ambisonic samples.
pub open spec fn is_ambisonic(data: Seq<u8>, at: int) -> bool {
    &&& u32_at(data, at) == 0x11d3_0721
    &&& u32_at(data, at + 4) == 0xc1c8_4486
    &&& u32_at(data, at + 8) == 0x0000_00ca
}

/// Reading the fields of the extensible form: the mask of its speakers, then the
/// identifier of the kind of its samples.
pub open spec fn extensible_read(data: Seq<u8>, at: int, len: int) -> Reading<int> {
    let channels = u16_at(data, at + 2);
    let bits = u16_at(data, at + 14);
    let valid = u16_at(data, at + 18);
    let mask = u32_at(data, at + 20);
    let kind = u32_at(data, at + 24);
    let standard = is_standard(data, at + 28);
    let known = standard || is_ambisonic(data, at + 28);
    if len < 40 || at + 24 > data.len() || u16_at(data, at + 16) != 22 || bits % 8 != 0 || valid
        > bits {
        Reading::Ends
    } else if overshifts(mask, channels) {
        Reading::Breaks
    } else if !names_speakers(mask, channels) || at + 40 > data.len() {
        Reading::Ends
    } else if kind == 1 && known && bits == 0 {
        Reading::Breaks
    } else if {
        ||| kind == 1 && known && bits <= 32
        ||| kind == 3 && known && valid == bits && (bits == 32 || bits == 64)
        ||| (kind == 4 || kind == 6) && standard
    } {
        Reading::GoesOn(at + 40)
    } else {
        Reading::Ends
    }
}

/// Reading a format chunk of `len` bytes whose fields begin at `at`. The sample
/// rate must not be zero.
pub open spec fn format_read(data: Seq<u8>, at: int, len: int) -> Reading<int> {
    if len < 16 || at + 16 > data.len() {
        Reading::Ends
    } else {
        let kind = u16_at(data, at);
        let fields = if kind == 0x01 {
            integer_read(data, at, len)
        } else if kind == 0x02 || kind == 0x11 {
            adpcm_read(data, at, len, kind == 0x02)
        } else if kind == 0x03 {
            float_read(data, at, len)
        } else if kind == 0x06 || kind == 0x07 {
            companded_read(data, at, len)
        } else if kind == 0xfffe {
            extensible_read(data, at, len)
        } else {
            Reading::Ends
        };
        if fields is GoesOn && u32_at(data, at + 4) == 0 {
            Reading::Breaks
        } else {
            fields
        }
    }
}

/// Counts the ones among the binary digits.
fn count_ones(value: u32) -> (r: u32)
    ensures
        r == ones(value as int),
{
    let mut rest = value;
    let mut count: u32 = 0;
    while rest > 0
        invariant
            count + ones(rest as int) == ones(value as int),
            count + rest <= value,
        decreases rest,
    {
        count = count + rest % 2;
        rest = rest / 2;
    }
    count
}

/// Counts the binary digits.
fn count_digits(value: u32) -> (r: u32)
    ensures
        r == digits(value as int),
{
    let mut rest = value;
    let mut count: u32 = 0;
    while rest > 0
        invariant
            count + digits(rest as int) == digits(value as int),
            count + rest <= value,
        decreases rest,
    {
        count = count + 1;
        rest = rest / 2;
    }
    count
}

/// Whether completing the mask shifts too far.
fn is_overshifting(mask: u32, channels: u32) -> (r: bool)
    ensures
        r == overshifts(mask as int, channels as int),
{
    let named = count_ones(mask);
    named < channels && (channels - named >= 32 || mask >= 0x8000_0000)
}

/// Whether the mask comes to name known speakers alone.
fn is_naming_speakers(mask: u32, channels: u32) -> (r: bool)
    ensures
        r == names_speakers(mask as int, channels as int),
{
    let named = count_ones(mask);
    if named < channels {
        count_digits(mask) as u64 + (channels - named) as u64 <= 26
    } else {
        count_ones(mask % 0x400_0000) >= channels
    }
}

/// Reads the fields of plain integer samples.
fn read_integer(data: &[u8], at: usize, len: u32) -> (r: Reading<usize>)
    requires
        at + 16 <= data@.len(),
    ensures
        r.shown() == integer_read(data@, at as int, len as int),
{
    let rest = data.len() - at;
    let channels = read_u16(data, at + 2);
    let bits = read_u16(data, at + 14);
    if (len == 16 || len == 18 || len == 40) && len as usize <= rest && (bits == 8 || bits == 16
        || bits == 24 || bits == 32) && 1 <= channels && channels <= 26 {
        Reading::GoesOn(at + len as usize)
    } else {
        Reading::Ends
    }
}

/// Reads the fields of plain floating-point samples.
fn read_float(data: &[u8], at: usize, len: u32) -> (r: Reading<usize>)
    requires
        at + 16 <= data@.len(),
    ensures
        r.shown() == float_read(data@, at as int, len as int),
{
    let rest = data.len() - at;
    let channels = read_u16(data, at + 2);
    let bits = read_u16(data, at + 14);
    if (len == 16 || len == 40 || len == 18 && 18 <= rest && read_u16(data, at + 16) == 0) && (bits
        == 32 || bits == 64) && 1 <= channels && channels <= 26 {
        if len as usize <= rest {
            Reading::GoesOn(at + len as usize)
        } else {
            Reading::GoesOn(data.len())
        }
    } else {
        Reading::Ends
    }
}

/// Reads the fields of A-law and mu-law samples.
fn read_companded(data: &[u8], at: usize, len: u32) -> (r: Reading<usize>)
    requires
        at + 16 <= data@.len(),
    ensures
        r.shown() == companded_read(data@, at as int, len as int),
{
    let rest = data.len() - at;
    let channels = read_u16(data, at + 2);
    if len != 18 || rest < 18 || channels < 1 || channels > 26 {
        return Reading::Ends;
    }
    let extra = read_u16(data, at + 16) as usize;
    if rest - 18 < extra {
        return Reading::Ends;
    }
    Reading::GoesOn(at + 18 + extra)
}

/// Reads the fields of ADPCM samples.
fn read_adpcm(data: &[u8], at: usize, len: u32, microsoft: bool) -> (r: Reading<usize>)
    requires
        at + 16 <= data@.len(),
    ensures
        r.shown() == adpcm_read(data@, at as int, len as int, microsoft),
{
    let rest = data.len() - at;
    let channels = read_u16(data, at + 2);
    let block = read_u16(data, at + 12);
    let bits = read_u16(data, at + 14);
    if bits != 4 || len < 20 || rest < 18 || channels < 1 || channels > 26 {
        return Reading::Ends;
    }
    let extra = read_u16(data, at + 16) as usize;
    let fits = if microsoft {
        extra >= 32
    } else {
        extra == 2
    };
    if !fits || rest - 18 < extra {
        return Reading::Ends;
    }
    let head: u32 = if microsoft {
        7 * channels
    } else {
        4 * channels
    };
    if block < head || block > head + 0x1fff {
        return Reading::Breaks;
    }
    Reading::GoesOn(at + 18 + extra)
}

/// Reads the fields of the extensible form.
fn read_extensible(data: &[u8], at: usize, len: u32) -> (r: Reading<usize>)
    requires
        at + 16 <= data@.len(),
    ensures
        r.shown() == extensible_read(data@, at as int, len as int),
{
    let rest = data.len() - at;
    if len < 40 || rest < 24 {
        return Reading::Ends;
    }
    let channels = read_u16(data, at + 2);
    let bits = read_u16(data, at + 14);
    let valid = read_u16(data, at + 18);
    let mask = read_u32(data, at + 20);
    if read_u16(data, at + 16) != 22 || bits % 8 != 0 || valid > bits {
        return Reading::Ends;
    }
    if is_overshifting(mask, channels) {
        return Reading::Breaks;
    }
    if !is_naming_speakers(mask, channels) || rest < 40 {
        return Reading::Ends;
    }
    let kind = read_u32(data, at + 24);
    let ends = (read_u32(data, at + 28), read_u32(data, at + 32), read_u32(data, at + 36));
    let standard = ends.0 == 0x0010_0000 && ends.1 == 0xaa00_0080 && ends.2 == 0x719b_3800;
    let ambisonic = ends.0 == 0x11d3_0721 && ends.1 == 0xc1c8_4486 && ends.2 == 0x0000_00ca;
    let known = standard || ambisonic;
    if kind == 1 && known && bits == 0 {
        return Reading::Breaks;
    }
    if kind == 1 && known && bits <= 32 || kind == 3 && known && valid == bits && (bits == 32
        || bits == 64) || (kind == 4 || kind == 6) && standard {
        Reading::GoesOn(at + 40)
    } else {
        Reading::Ends
    }
}

/// Reads a format chunk of `len` bytes whose fields begin at `at`.
pub fn read_format(data: &[u8], at: usize, len: u32) -> (r: Reading<usize>)
    requires
        at <= data@.len(),
    ensures
        r.shown() == format_read(data@, at as int, len as int),
{
    if len < 16 || data.len() - at < 16 {
        return Reading::Ends;
    }
    let kind = read_u16(data, at);
    let fields = if kind == 0x01 {
        read_integer(data, at, len)
    } else if kind == 0x02 || kind == 0x11 {
        read_adpcm(data, at, len, kind == 0x02)
    } else if kind == 0x03 {
        read_float(data, at, len)
    } else if kind == 0x06 || kind == 0x07 {
        read_companded(data, at, len)
    } else if kind == 0xfffe {
        read_extensible(data, at, len)
    } else {
        Reading::Ends
    };
    match fields {
        Reading::GoesOn(next) => if read_u32(data, at + 4) == 0 {
            Reading::Breaks
        } else {
            Reading::GoesOn(next)
        },
        ended => ended,
    }
}

// ------------------------------------------------------------------
// Laws
// ------------------------------------------------------------------
/// What the reader panics on in a format chunk whose fields begin at `at`: no
/// sample rate, or, in the forms that it computes with, numbers that it does not
/// expect.
pub open spec fn trips_the_reader(data: Seq<u8>, at: int) -> bool {
    let kind = u16_at(data, at);
    let channels = u16_at(data, at + 2);
    let block = u16_at(data, at + 12);
    ||| u32_at(data, at + 4) == 0
    ||| kind == 0x02 && !(7 * channels <= block <= 7 * channels + 0x1fff)
    ||| kind == 0x11 && !(4 * channels <= block <= 4 * channels + 0x1fff)
    ||| kind == 0xfffe && (u16_at(data, at + 14) == 0 || channels >= 32 || u32_at(data, at + 20)
        >= 0x8000_0000)
}

proof fn lemma_ones(value: int)
    ensures
        0 <= ones(value),
    decreases value,
{
    if value > 0 {
        lemma_ones(value / 2);
    }
}

/// Reading a format chunk panics only where there is something in it to panic on.
pub proof fn law_format_breaks_only_where_it_trips(data: Seq<u8>, at: int, len: int)
    requires
        format_read(data, at, len) is Breaks,
    ensures
        at + 16 <= data.len(),
        trips_the_reader(data, at),
{
    lemma_ones(u32_at(data, at + 20));
}

/// A format chunk of plain samples that is in order goes on behind its fields
/// where it gives a sample rate, and panics where it gives none.
pub proof fn law_plain_format_needs_a_rate(data: Seq<u8>, at: int, len: int)
    requires
        len == 16 || len == 18 || len == 40,
        0 <= at,
        at + len <= data.len(),
        u16_at(data, at) == 1,
        1 <= u16_at(data, at + 2) <= 26,
        u16_at(data, at + 14) == 8 || u16_at(data, at + 14) == 16 || u16_at(data, at + 14) == 24
            || u16_at(data, at + 14) == 32,
    ensures
        u32_at(data, at + 4) > 0 ==> format_read(data, at, len) == Reading::GoesOn(at + len),
        u32_at(data, at + 4) == 0 ==> format_read(data, at, len) is Breaks,
{
}

/// A format chunk of plain floating-point samples, as one of integer samples.
pub proof fn law_float_format_needs_a_rate(data: Seq<u8>, at: int, len: int)
    requires
        len == 16 || len == 18 && u16_at(data, at + 16) == 0 || len == 40,
        0 <= at,
        at + len <= data.len(),
        u16_at(data, at) == 3,
        1 <= u16_at(data, at + 2) <= 26,
        u16_at(data, at + 14) == 32 || u16_at(data, at + 14) == 64,
    ensures
        u32_at(data, at + 4) > 0 ==> format_read(data, at, len) == Reading::GoesOn(at + len),
        u32_at(data, at + 4) == 0 ==> format_read(data, at, len) is Breaks,
{
}

/// A format chunk of A-law or mu-law samples goes on behind the bytes that it says
/// follow it.
pub proof fn law_companded_format_needs_a_rate(data: Seq<u8>, at: int)
    requires
        0 <= at,
        at + 18 + u16_at(data, at + 16) <= data.len(),
        at + 18 <= data.len(),
        u16_at(data, at) == 6 || u16_at(data, at) == 7,
        1 <= u16_at(data, at + 2) <= 26,
    ensures
        u32_at(data, at + 4) > 0 ==> format_read(data, at, 18) == Reading::GoesOn(
            at + 18 + u16_at(data, at + 16),
        ),
        u32_at(data, at + 4) == 0 ==> format_read(data, at, 18) is Breaks,
{
}

/// A format chunk of ADPCM samples needs a sample rate and a block that has room
/// for the heads of its channels and not much more than 16 bits can count.
pub proof fn law_adpcm_format_needs_a_rate_and_a_block(data: Seq<u8>, at: int, len: int)
    requires
        0 <= at,
        len >= 20,
        at + 18 <= data.len(),
        at + 18 + u16_at(data, at + 16) <= data.len(),
        u16_at(data, at) == 0x02 && u16_at(data, at + 16) >= 32 || u16_at(data, at) == 0x11
            && u16_at(data, at + 16) == 2,
        1 <= u16_at(data, at + 2) <= 26,
        u16_at(data, at + 14) == 4,
    ensures
        ({
            let head = (if u16_at(data, at) == 0x02 {
                7int
            } else {
                4
            }) * u16_at(data, at + 2);
            let fits = head <= u16_at(data, at + 12) <= head + 8191;
            &&& u32_at(data, at + 4) > 0 && fits ==> format_read(data, at, len)
                == Reading::GoesOn(at + 18 + u16_at(data, at + 16))
            &&& u32_at(data, at + 4) == 0 || !fits ==> format_read(data, at, len) is Breaks
        }),
{
}

/// Doubling a number adds a binary digit that is no one, and one more makes it a
/// one.
pub proof fn law_digits_of_doubled_numbers(value: int)
    requires
        value >= 0,
    ensures
        ones(0) == 0 && digits(0) == 0,
        ones(2 * value) == ones(value),
        ones(2 * value + 1) == ones(value) + 1,
        value > 0 ==> digits(2 * value) == digits(value) + 1,
        digits(2 * value + 1) == digits(value) + 1,
{
    assert((2 * value) / 2 == value && (2 * value + 1) / 2 == value);
    assert((2 * value) % 2 == 0 && (2 * value + 1) % 2 == 1);
}

/// An extensible format chunk of integer samples whose mask names its speakers
/// goes on behind its fields, unless it gives no sample rate or no width.
pub proof fn law_extensible_format_needs_a_rate_and_a_width(data: Seq<u8>, at: int, len: int)
    requires
        0 <= at,
        len >= 40,
        at + 40 <= data.len(),
        u16_at(data, at) == 0xfffe,
        u16_at(data, at + 16) == 22,
        u16_at(data, at + 14) % 8 == 0,
        u16_at(data, at + 14) <= 32,
        u16_at(data, at + 18) <= u16_at(data, at + 14),
        u16_at(data, at + 2) == ones(u32_at(data, at + 20)),
        u32_at(data, at + 20) < 0x400_0000,
        u32_at(data, at + 24) == 1,
        u32_at(data, at + 28) == 0x0010_0000,
        u32_at(data, at + 32) == 0xaa00_0080,
        u32_at(data, at + 36) == 0x719b_3800,
    ensures
        u32_at(data, at + 4) > 0 && u16_at(data, at + 14) > 0 ==> format_read(data, at, len)
            == Reading::GoesOn(at + 40),
        u32_at(data, at + 4) == 0 || u16_at(data, at + 14) == 0 ==> format_read(
            data,
            at,
            len,
        ) is Breaks,
{
}

/// Completing a mask that shifts it by all its digits panics.
pub proof fn law_overshifted_mask_breaks(data: Seq<u8>, at: int, len: int)
    requires
        0 <= at,
        len >= 40,
        at + 24 <= data.len(),
        u16_at(data, at) == 0xfffe,
        u16_at(data, at + 16) == 22,
        u16_at(data, at + 14) % 8 == 0,
        u16_at(data, at + 18) <= u16_at(data, at + 14),
        u16_at(data, at + 2) > ones(u32_at(data, at + 20)),
        u32_at(data, at + 20) >= 0x8000_0000 || u16_at(data, at + 2) >= 32 + ones(
            u32_at(data, at + 20),
        ),
    ensures
        format_read(data, at, len) is Breaks,
{
}

} // verus!
