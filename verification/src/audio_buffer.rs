//! Rearranging decoded audio for an output device.
//!
//! Everything here moves samples and never looks inside one, so the sample
//! type is left open.
use vstd::arithmetic::div_mod::lemma_div_by_multiple;
use vstd::arithmetic::div_mod::lemma_div_pos_is_pos;
use vstd::arithmetic::div_mod::lemma_fundamental_div_mod;
use vstd::arithmetic::div_mod::lemma_fundamental_div_mod_converse;
use vstd::arithmetic::mul::lemma_mul_is_commutative;
use vstd::prelude::*;

verus! {

// ------------------------------------------------------------------
// Planes to frames
// ------------------------------------------------------------------
/// The contents of each plane.
pub open spec fn plane_views<T>(planes: Seq<Vec<T>>) -> Seq<Seq<T>> {
    Seq::new(planes.len(), |i: int| planes[i]@)
}

/// The first `frames` samples of every plane, frame by frame: the samples of
/// one frame stand together, in the order of the planes.
pub open spec fn interleaved<T>(planes: Seq<Seq<T>>, frames: nat) -> Seq<T> {
    Seq::new(
        frames * planes.len(),
        |k: int| planes[k % (planes.len() as int)][k / (planes.len() as int)],
    )
}

/// One frame: sample `frame` of the first `upto` planes.
spec fn frame_prefix<T>(planes: Seq<Seq<T>>, frame: int, upto: nat) -> Seq<T> {
    Seq::new(upto, |ch: int| planes[ch][frame])
}

proof fn lemma_next_frame<T>(planes: Seq<Seq<T>>, frame: nat)
    ensures
        interleaved(planes, (frame + 1) as nat) =~= interleaved(planes, frame) + frame_prefix(
            planes,
            frame as int,
            planes.len(),
        ),
{
    let n = planes.len();
    assert((frame + 1) * n == frame * n + n) by (nonlinear_arith);
    let longer = interleaved(planes, (frame + 1) as nat);
    let parts = interleaved(planes, frame) + frame_prefix(planes, frame as int, n);
    assert forall|k: int| 0 <= k < (frame + 1) * n implies longer[k] == parts[k] by {
        if k >= frame * n {
            let j = k - frame * n;
            lemma_fundamental_div_mod_converse(k, n as int, frame as int, j);
        }
    }
}

/// Appends the first `frames` samples of every plane to `samples`, frame by
/// frame.
pub fn append_frames<T: Copy>(samples: &mut Vec<T>, planes: &Vec<Vec<T>>, frames: usize)
    requires
        forall|ch: int| 0 <= ch < planes@.len() ==> frames <= (#[trigger] planes@[ch])@.len(),
    ensures
        final(samples)@ == old(samples)@ + interleaved(plane_views(planes@), frames as nat),
        final(samples)@.len() == old(samples)@.len() + frames * planes@.len(),
        forall|k: int|
            0 <= k < old(samples)@.len() ==> #[trigger] final(samples)@[k] == old(samples)@[k],
        forall|frame: int, ch: int|
            0 <= frame < frames && 0 <= ch < planes@.len() ==> final(samples)@[old(samples)@.len()
                + frame * planes@.len() + ch] == #[trigger] planes@[ch]@[frame],
{
    let ghost before = samples@;
    let ghost views = plane_views(planes@);
    assert(before + interleaved(views, 0) =~= before) by {
        assert(0 * views.len() == 0);
    }
    for frame in 0..frames
        invariant
            views == plane_views(planes@),
            forall|ch: int| 0 <= ch < planes@.len() ==> frames <= (#[trigger] planes@[ch])@.len(),
            samples@ == before + interleaved(views, frame as nat),
    {
        let ghost done = samples@;
        for ch in 0..planes.len()
            invariant
                frame < frames,
                views == plane_views(planes@),
                forall|c: int|
                    0 <= c < planes@.len() ==> frames <= (#[trigger] planes@[c])@.len(),
                samples@ == done + frame_prefix(views, frame as int, ch as nat),
        {
            let plane = &planes[ch];
            samples.push(plane[frame]);
            assert(frame_prefix(views, frame as int, ch as nat).push(plane@[frame as int])
                =~= frame_prefix(views, frame as int, (ch + 1) as nat));
            assert(samples@ =~= done + frame_prefix(views, frame as int, (ch + 1) as nat));
        }
        proof {
            lemma_next_frame(views, frame as nat);
            assert(samples@ =~= before + interleaved(views, (frame + 1) as nat));
        }
    }
    proof {
        assert forall|frame: int, ch: int| 0 <= frame < frames && 0 <= ch < planes@.len() implies
            samples@[before.len() + frame * planes@.len() + ch] == #[trigger] planes@[ch]@[frame] by {
            law_frames_stand_together(views, frames as nat, frame, ch);
        }
    }
}

// ------------------------------------------------------------------
// Channel count
// ------------------------------------------------------------------
/// The source channel that feeds channel `ch` of the destination: the same
/// one where it exists, the last one otherwise.
pub open spec fn feeding_channel(ch: int, src_channels: int) -> int {
    if ch < src_channels {
        ch
    } else {
        src_channels - 1
    }
}

/// Every whole frame of `samples` spread over `dst_channels` channels.
pub open spec fn respread<T>(samples: Seq<T>, src_channels: int, dst_channels: int) -> Seq<T> {
    Seq::new(
        ((samples.len() as int / src_channels) * dst_channels) as nat,
        |k: int|
            samples[(k / dst_channels) * src_channels + feeding_channel(
                k % dst_channels,
                src_channels,
            )],
    )
}

/// `samples` as the device takes them: unchanged where the channel counts
/// agree, every whole frame respread otherwise.
pub open spec fn with_channels<T>(samples: Seq<T>, src_channels: int, dst_channels: int) -> Seq<T> {
    if src_channels == dst_channels {
        samples
    } else {
        respread(samples, src_channels, dst_channels)
    }
}

spec fn respread_frame<T>(samples: Seq<T>, src: int, frame: int, upto: nat) -> Seq<T> {
    Seq::new(upto, |ch: int| samples[frame * src + feeding_channel(ch, src)])
}

/// The first `frames` respread frames.
spec fn respread_frames<T>(samples: Seq<T>, src: int, dst: int, frames: int) -> Seq<T> {
    Seq::new(
        (frames * dst) as nat,
        |k: int| samples[(k / dst) * src + feeding_channel(k % dst, src)],
    )
}

proof fn lemma_next_respread<T>(samples: Seq<T>, src: int, dst: int, frame: int)
    requires
        0 <= frame,
        0 <= dst,
    ensures
        respread_frames(samples, src, dst, frame + 1) =~= respread_frames(samples, src, dst, frame)
            + respread_frame(samples, src, frame, dst as nat),
{
    assert((frame + 1) * dst == frame * dst + dst) by (nonlinear_arith);
    assert(0 <= frame * dst) by (nonlinear_arith)
        requires
            0 <= frame,
            0 <= dst,
    ;
    let longer = respread_frames(samples, src, dst, frame + 1);
    let parts = respread_frames(samples, src, dst, frame) + respread_frame(
        samples,
        src,
        frame,
        dst as nat,
    );
    assert forall|k: int| 0 <= k < (frame + 1) * dst implies longer[k] == parts[k] by {
        if k >= frame * dst {
            let j = k - frame * dst;
            lemma_fundamental_div_mod_converse(k, dst, frame, j);
        }
    }
}

/// Spreads interleaved samples over another number of channels. A channel
/// the source does not have repeats its last one.
pub fn interleave_channels<T: Copy>(samples: &[T], src_channels: u16, dst_channels: u16) -> (r: Vec<
    T,
>)
    requires
        src_channels > 0 || src_channels == dst_channels,
    ensures
        r@ == with_channels(samples@, src_channels as int, dst_channels as int),
        src_channels == dst_channels ==> r@ == samples@,
        src_channels != dst_channels ==> {
            &&& r@.len() == (samples@.len() as int / src_channels as int) * dst_channels
            &&& forall|k: int|
                0 <= k < r@.len() ==> #[trigger] r@[k] == samples@[(k / dst_channels as int)
                    * src_channels + if k % (dst_channels as int) < src_channels {
                    k % (dst_channels as int)
                } else {
                    src_channels - 1
                }]
        },
{
    if src_channels == dst_channels {
        return copied(samples);
    }
    proof {
        law_respread_length(samples@, src_channels as int, dst_channels as int);
    }
    let mut out: Vec<T> = Vec::new();
    let src = src_channels as usize;
    let total = samples.len();
    let frames = total / src;
    assert(frames * src <= total) by {
        lemma_fundamental_div_mod(total as int, src as int);
        lemma_mul_is_commutative(frames as int, src as int);
    }
    assert(out@ =~= respread_frames(samples@, src as int, dst_channels as int, 0));
    for frame in 0..frames
        invariant
            src == src_channels,
            src > 0,
            total == samples@.len(),
            frames * src <= total,
            out@ == respread_frames(samples@, src as int, dst_channels as int, frame as int),
    {
        let ghost done = out@;
        assert(frame * src + src <= frames * src) by (nonlinear_arith)
            requires
                frame < frames,
        ;
        assert(0 <= frame * src) by (nonlinear_arith);
        for ch in 0..dst_channels
            invariant
                src == src_channels,
                src > 0,
                total == samples@.len(),
                0 <= frame * src,
                frame * src + src <= total,
                out@ == done + respread_frame(samples@, src as int, frame as int, ch as nat),
        {
            let feeding: u16 = if ch < src_channels {
                ch
            } else {
                src_channels - 1
            };
            let index = frame * src + feeding as usize;
            out.push(samples[index]);
            assert(out@ =~= done + respread_frame(
                samples@,
                src as int,
                frame as int,
                (ch + 1) as nat,
            ));
        }
        proof {
            lemma_next_respread(samples@, src as int, dst_channels as int, frame as int);
        }
    }
    assert(out@ =~= respread(samples@, src_channels as int, dst_channels as int));
    out
}

// ------------------------------------------------------------------
// Sample rate
// ------------------------------------------------------------------
/// For each position the sample that stands there; silence past the end.
pub open spec fn picked<T>(samples: Seq<T>, positions: Seq<usize>, silence: T) -> Seq<T> {
    Seq::new(
        positions.len(),
        |i: int|
            if positions[i] < samples.len() {
                samples[positions[i] as int]
            } else {
                silence
            },
    )
}

/// `samples` at another rate: unchanged where the rates agree, otherwise the
/// sample at each of `positions`.
pub open spec fn at_rate<T>(
    samples: Seq<T>,
    from_rate: u32,
    to_rate: u32,
    positions: Seq<usize>,
    silence: T,
) -> Seq<T> {
    if from_rate == to_rate {
        samples
    } else {
        picked(samples, positions, silence)
    }
}

/// The elements of a slice as a vector.
fn copied<T: Copy>(samples: &[T]) -> (r: Vec<T>)
    ensures
        r@ == samples@,
{
    let mut r: Vec<T> = Vec::new();
    for i in 0..samples.len()
        invariant
            r@ == samples@.take(i as int),
    {
        r.push(samples[i]);
    }
    assert(samples@.take(samples@.len() as int) =~= samples@);
    r
}

/// Resamples by picking: output `i` is the source sample at `positions[i]`.
pub fn resample<T: Copy>(
    samples: &[T],
    from_rate: u32,
    to_rate: u32,
    positions: &Vec<usize>,
    silence: T,
) -> (r: Vec<T>)
    ensures
        r@ == at_rate(samples@, from_rate, to_rate, positions@, silence),
        from_rate == to_rate ==> r@ == samples@,
        from_rate != to_rate ==> {
            &&& r@.len() == positions@.len()
            &&& forall|i: int|
                0 <= i < r@.len() ==> #[trigger] r@[i] == (if positions@[i] < samples@.len() {
                    samples@[positions@[i] as int]
                } else {
                    silence
                })
        },
{
    if from_rate == to_rate {
        return copied(samples);
    }
    let mut r: Vec<T> = Vec::new();
    let ghost all = picked(samples@, positions@, silence);
    for i in 0..positions.len()
        invariant
            all == picked(samples@, positions@, silence),
            r@ == all.take(i as int),
    {
        let position = positions[i];
        if position < samples.len() {
            r.push(samples[position]);
        } else {
            r.push(silence);
        }
        assert(r@ =~= all.take(i + 1));
    }
    assert(all.take(all.len() as int) =~= all);
    r
}

// ------------------------------------------------------------------
// The buffer a device plays
// ------------------------------------------------------------------
/// `samples` at the rate and with the channels of the device.
pub open spec fn for_device<T>(
    samples: Seq<T>,
    rate: u32,
    channels: u16,
    device_rate: u32,
    device_channels: u16,
    positions: Seq<usize>,
    silence: T,
) -> Seq<T> {
    with_channels(
        at_rate(samples, rate, device_rate, positions, silence),
        channels as int,
        device_channels as int,
    )
}

/// Fits decoded samples to a device: first its sample rate, then its
/// channels. `positions` says which source sample each resampled one takes
/// and is only read where the rates differ.
pub fn device_buffer<T: Copy>(
    samples: &[T],
    rate: u32,
    channels: u16,
    device_rate: u32,
    device_channels: u16,
    positions: &Vec<usize>,
    silence: T,
) -> (r: Vec<T>)
    requires
        channels > 0 || channels == device_channels,
    ensures
        r@ == for_device(
            samples@,
            rate,
            channels,
            device_rate,
            device_channels,
            positions@,
            silence,
        ),
        rate == device_rate && channels == device_channels ==> r@ == samples@,
        rate != device_rate && channels == device_channels ==> {
            &&& r@.len() == positions@.len()
            &&& forall|i: int|
                0 <= i < r@.len() ==> #[trigger] r@[i] == (if positions@[i] < samples@.len() {
                    samples@[positions@[i] as int]
                } else {
                    silence
                })
        },
        channels != device_channels ==> {
            let count = if rate == device_rate {
                samples@.len() as int
            } else {
                positions@.len() as int
            };
            &&& r@.len() == (count / channels as int) * device_channels
            &&& forall|k: int|
                0 <= k < r@.len() ==> #[trigger] r@[k] == ({
                    let at = (k / device_channels as int) * channels + if k % (
                    device_channels as int) < channels {
                        k % (device_channels as int)
                    } else {
                        channels - 1
                    };
                    if rate == device_rate {
                        samples@[at]
                    } else if positions@[at] < samples@.len() {
                        samples@[positions@[at] as int]
                    } else {
                        silence
                    }
                })
        },
{
    let resampled = resample(samples, rate, device_rate, positions, silence);
    if device_channels != channels {
        let r = interleave_channels(resampled.as_slice(), channels, device_channels);
        proof {
            let (src, dst) = (channels as int, device_channels as int);
            assert forall|k: int| 0 <= k < r@.len() implies #[trigger] r@[k] == ({
                let at = (k / dst) * src + if k % dst < src {
                    k % dst
                } else {
                    src - 1
                };
                if rate == device_rate {
                    samples@[at]
                } else if positions@[at] < samples@.len() {
                    samples@[positions@[at] as int]
                } else {
                    silence
                }
            }) by {
                lemma_source_is_there(resampled@.len() as int, src, dst, k);
            }
        }
        r
    } else {
        resampled
    }
}

// ------------------------------------------------------------------
// Feeding the device
// ------------------------------------------------------------------
/// What a request for `count` samples gets when `position` samples have
/// been played: the samples from there on, and nothing past the end.
pub open spec fn played<S>(buffer: Seq<S>, position: int, count: nat) -> Seq<Option<S>> {
    Seq::new(
        count,
        |i: int|
            if position + i < buffer.len() {
                Some(buffer[position + i])
            } else {
                None
            },
    )
}

/// How many samples have been played after a request for `count` more.
pub open spec fn advanced(len: int, position: int, count: int) -> int {
    if position + count <= len {
        position + count
    } else if position <= len {
        len
    } else {
        position
    }
}

/// `out` is what `convert` makes of `sample`; silence where there is none.
pub open spec fn rendered<S, D, F: Fn(S) -> D>(
    convert: F,
    sample: Option<S>,
    silence: D,
    out: D,
) -> bool {
    match sample {
        Some(s) => call_ensures(convert, (s,), out),
        None => out == silence,
    }
}

/// Answers one request of the device. A stopped playback is silent and stays
/// where it is; otherwise the request gets the next samples, converted to
/// the device's format, and silence once the buffer is used up. Returns the
/// new position.
pub fn fill_output<S: Copy, D: Copy, F: Fn(S) -> D>(
    data: &mut [D],
    buffer: &[S],
    position: usize,
    stopped: bool,
    silence: D,
    convert: F,
) -> (next: usize)
    requires
        forall|s: S| call_requires(convert, (s,)),
    ensures
        final(data)@.len() == old(data)@.len(),
        stopped ==> next == position,
        stopped ==> forall|i: int|
            0 <= i < final(data)@.len() ==> #[trigger] final(data)@[i] == silence,
        !stopped ==> next == advanced(
            buffer@.len() as int,
            position as int,
            old(data)@.len() as int,
        ),
        !stopped ==> forall|i: int|
            0 <= i < final(data)@.len() ==> rendered(
                convert,
                played(buffer@, position as int, old(data)@.len())[i],
                silence,
                #[trigger] final(data)@[i],
            ),
        !stopped ==> next == (if position + old(data)@.len() <= buffer@.len() {
            position + old(data)@.len()
        } else if position <= buffer@.len() {
            buffer@.len() as int
        } else {
            position as int
        }),
        !stopped ==> forall|i: int|
            0 <= i < final(data)@.len() && position + i < buffer@.len() ==> call_ensures(
                convert,
                (buffer@[position + i],),
                #[trigger] final(data)@[i],
            ),
        !stopped ==> forall|i: int|
            0 <= i < final(data)@.len() && position + i >= buffer@.len() ==> #[trigger] final(data)@[i] == silence,
{
    let count = data.len();
    let len = buffer.len();
    let mut index: usize = position;
    for k in 0..count
        invariant
            count == data@.len(),
            len == buffer@.len(),
            forall|s: S| call_requires(convert, (s,)),
            stopped ==> index == position,
            !stopped ==> index == advanced(len as int, position as int, k as int),
            stopped ==> forall|i: int| 0 <= i < k ==> #[trigger] data@[i] == silence,
            !stopped ==> forall|i: int|
                0 <= i < k ==> rendered(
                    convert,
                    played(buffer@, position as int, count as nat)[i],
                    silence,
                    #[trigger] data@[i],
                ),
    {
        if !stopped && index < len {
            data[k] = convert(buffer[index]);
            index = index + 1;
        } else {
            data[k] = silence;
        }
    }
    index
}

/// Silence in signed 16-bit samples.
pub const I16_SILENCE: i16 = 0;

/// Silence in unsigned 16-bit samples: the middle of their range.
pub const U16_SILENCE: u16 = 32768;

/// Answers one request of a device that takes signed 16-bit samples.
pub fn fill_output_i16<S: Copy, F: Fn(S) -> i16>(
    data: &mut [i16],
    buffer: &[S],
    position: usize,
    stopped: bool,
    convert: F,
) -> (next: usize)
    requires
        forall|s: S| call_requires(convert, (s,)),
    ensures
        final(data)@.len() == old(data)@.len(),
        stopped ==> next == position,
        stopped ==> forall|i: int|
            0 <= i < final(data)@.len() ==> #[trigger] final(data)@[i] == 0,
        !stopped ==> next == advanced(
            buffer@.len() as int,
            position as int,
            old(data)@.len() as int,
        ),
        !stopped ==> forall|i: int|
            0 <= i < final(data)@.len() ==> rendered(
                convert,
                played(buffer@, position as int, old(data)@.len())[i],
                0i16,
                #[trigger] final(data)@[i],
            ),
        !stopped ==> next == (if position + old(data)@.len() <= buffer@.len() {
            position + old(data)@.len()
        } else if position <= buffer@.len() {
            buffer@.len() as int
        } else {
            position as int
        }),
        !stopped ==> forall|i: int|
            0 <= i < final(data)@.len() && position + i < buffer@.len() ==> call_ensures(
                convert,
                (buffer@[position + i],),
                #[trigger] final(data)@[i],
            ),
        !stopped ==> forall|i: int|
            0 <= i < final(data)@.len() && position + i >= buffer@.len() ==> #[trigger] final(data)@[i] == 0,
{
    fill_output(data, buffer, position, stopped, I16_SILENCE, convert)
}

/// Answers one request of a device that takes unsigned 16-bit samples.
pub fn fill_output_u16<S: Copy, F: Fn(S) -> u16>(
    data: &mut [u16],
    buffer: &[S],
    position: usize,
    stopped: bool,
    convert: F,
) -> (next: usize)
    requires
        forall|s: S| call_requires(convert, (s,)),
    ensures
        final(data)@.len() == old(data)@.len(),
        stopped ==> next == position,
        stopped ==> forall|i: int|
            0 <= i < final(data)@.len() ==> #[trigger] final(data)@[i] == 32768,
        !stopped ==> next == advanced(
            buffer@.len() as int,
            position as int,
            old(data)@.len() as int,
        ),
        !stopped ==> forall|i: int|
            0 <= i < final(data)@.len() ==> rendered(
                convert,
                played(buffer@, position as int, old(data)@.len())[i],
                32768u16,
                #[trigger] final(data)@[i],
            ),
        !stopped ==> next == (if position + old(data)@.len() <= buffer@.len() {
            position + old(data)@.len()
        } else if position <= buffer@.len() {
            buffer@.len() as int
        } else {
            position as int
        }),
        !stopped ==> forall|i: int|
            0 <= i < final(data)@.len() && position + i < buffer@.len() ==> call_ensures(
                convert,
                (buffer@[position + i],),
                #[trigger] final(data)@[i],
            ),
        !stopped ==> forall|i: int|
            0 <= i < final(data)@.len() && position + i >= buffer@.len() ==> #[trigger] final(data)@[i] == 32768,
{
    fill_output(data, buffer, position, stopped, U16_SILENCE, convert)
}

/// Whether the playback thread keeps waiting.
pub fn still_playing(position: usize, total: usize, stopped: bool) -> (r: bool)
    ensures
        r == (position < total && !stopped),
{
    position < total && !stopped
}

// ------------------------------------------------------------------
// Laws
// ------------------------------------------------------------------
/// Two requests in a row get what one request for both would have got, so
/// however the device slices its requests it plays the buffer in order,
/// each sample once.
pub proof fn law_requests_compose<S>(buffer: Seq<S>, position: int, first: nat, second: nat)
    requires
        0 <= position <= buffer.len(),
    ensures
        played(buffer, position, first) + played(
            buffer,
            advanced(buffer.len() as int, position, first as int),
            second,
        ) == played(buffer, position, first + second),
        advanced(
            buffer.len() as int,
            advanced(buffer.len() as int, position, first as int),
            second as int,
        ) == advanced(buffer.len() as int, position, (first + second) as int),
{
    assert(played(buffer, position, first) + played(
        buffer,
        advanced(buffer.len() as int, position, first as int),
        second,
    ) =~= played(buffer, position, first + second));
}

/// A request that reaches past the end gets the whole buffer, then silence,
/// and leaves the playback finished.
pub proof fn law_whole_buffer_is_played<S>(buffer: Seq<S>, count: nat)
    requires
        count >= buffer.len(),
    ensures
        forall|i: int|
            0 <= i < count ==> #[trigger] played(buffer, 0, count)[i] == (if i < buffer.len() {
                Some(buffer[i])
            } else {
                None
            }),
        advanced(buffer.len() as int, 0, count as int) == buffer.len(),
{
}

/// The sample of every channel in every frame stands where it belongs: the
/// samples of a frame follow each other, one of each plane, and nothing else is
/// added.
pub proof fn law_frames_stand_together<T>(
    planes: Seq<Seq<T>>,
    frames: nat,
    frame: int,
    ch: int,
)
    requires
        0 <= frame < frames,
        0 <= ch < planes.len(),
    ensures
        interleaved(planes, frames).len() == frames * planes.len(),
        0 <= frame * planes.len() + ch < interleaved(planes, frames).len(),
        interleaved(planes, frames)[frame * planes.len() + ch] == planes[ch][frame],
{
    let n = planes.len() as int;
    let k = frame * n + ch;
    assert(0 <= k < frames * n) by (nonlinear_arith)
        requires
            0 <= frame < frames,
            0 <= ch < n,
            k == frame * n + ch,
    ;
    lemma_fundamental_div_mod_converse(k, n, frame, ch);
}

/// No frames, or no planes, add nothing.
pub proof fn law_nothing_interleaves_to_nothing<T>(planes: Seq<Seq<T>>, frames: nat)
    requires
        frames == 0 || planes.len() == 0,
    ensures
        interleaved(planes, frames) == Seq::<T>::empty(),
{
    assert(frames * planes.len() == 0) by (nonlinear_arith)
        requires
            frames == 0 || planes.len() == 0,
    ;
    assert(interleaved(planes, frames) =~= Seq::<T>::empty());
}

/// Where the channel counts agree nothing changes. Otherwise every channel of a
/// frame gets the sample of the same channel of that frame, and one that the
/// source does not have gets that of its last channel.
pub proof fn law_every_channel_is_fed<T>(
    samples: Seq<T>,
    src_channels: int,
    dst_channels: int,
    frame: int,
    ch: int,
)
    requires
        0 < src_channels,
        0 <= frame < samples.len() as int / src_channels,
        0 <= ch < dst_channels,
    ensures
        src_channels == dst_channels ==> with_channels(samples, src_channels, dst_channels)
            == samples,
        ch < src_channels ==> with_channels(samples, src_channels, dst_channels)[frame
            * dst_channels + ch] == samples[frame * src_channels + ch],
        ch >= src_channels ==> with_channels(samples, src_channels, dst_channels)[frame
            * dst_channels + ch] == samples[frame * src_channels + src_channels - 1],
{
    if src_channels != dst_channels {
        let frames = samples.len() as int / src_channels;
        let k = frame * dst_channels + ch;
        law_respread_length(samples, src_channels, dst_channels);
        assert(0 <= k < frames * dst_channels) by (nonlinear_arith)
            requires
                0 <= frame < frames,
                0 <= ch < dst_channels,
                k == frame * dst_channels + ch,
        ;
        lemma_fundamental_div_mod_converse(k, dst_channels, frame, ch);
    }
}

/// At the rate it has, a clip stays as it is. At any other, higher or lower, it
/// is as long as the positions say, and each of its samples is the one at the
/// position for it; silence where the clip has none.
pub proof fn law_resampling_follows_the_positions<T>(
    samples: Seq<T>,
    from_rate: u32,
    to_rate: u32,
    positions: Seq<usize>,
    silence: T,
)
    ensures
        from_rate == to_rate ==> at_rate(samples, from_rate, to_rate, positions, silence)
            == samples,
        from_rate != to_rate ==> at_rate(samples, from_rate, to_rate, positions, silence).len()
            == positions.len(),
        from_rate != to_rate ==> forall|i: int|
            0 <= i < positions.len() && positions[i] < samples.len() ==> #[trigger] at_rate(
                samples,
                from_rate,
                to_rate,
                positions,
                silence,
            )[i] == samples[positions[i] as int],
        from_rate != to_rate ==> forall|i: int|
            0 <= i < positions.len() && positions[i] >= samples.len() ==> #[trigger] at_rate(
                samples,
                from_rate,
                to_rate,
                positions,
                silence,
            )[i] == silence,
{
}

/// Which way the rates differ makes no difference: the positions alone say what
/// becomes of a clip.
pub proof fn law_rates_matter_only_by_being_equal<T>(
    samples: Seq<T>,
    from_rate: u32,
    to_rate: u32,
    other_from: u32,
    other_to: u32,
    positions: Seq<usize>,
    silence: T,
)
    requires
        from_rate == to_rate <==> other_from == other_to,
    ensures
        at_rate(samples, from_rate, to_rate, positions, silence) == at_rate(
            samples,
            other_from,
            other_to,
            positions,
            silence,
        ),
{
}

/// Whatever becomes of a sample, its source is one of the clip.
proof fn lemma_source_is_there(count: int, src: int, dst: int, k: int)
    requires
        0 <= count,
        0 < src,
        0 <= dst,
        0 <= k < (count / src) * dst,
    ensures
        0 <= (k / dst) * src + (if k % dst < src {
            k % dst
        } else {
            src - 1
        }) < count,
{
    let frames = count / src;
    assert(dst > 0) by (nonlinear_arith)
        requires
            0 <= k < frames * dst,
            0 <= dst,
    ;
    let f = k / dst;
    let c = k % dst;
    lemma_fundamental_div_mod(k, dst);
    lemma_mul_is_commutative(f, dst);
    lemma_div_pos_is_pos(k, dst);
    lemma_fundamental_div_mod(count, src);
    lemma_mul_is_commutative(frames, src);
    assert(f < frames) by (nonlinear_arith)
        requires
            k == f * dst + c,
            0 <= c,
            k < frames * dst,
            dst > 0,
    ;
    assert(0 <= f * src && f * src + src <= frames * src) by (nonlinear_arith)
        requires
            0 <= f < frames,
            0 < src,
    ;
}

/// A clip is fitted to a device sample by sample: each channel of each frame of
/// the device gets what resampling made of the sample of that frame and channel,
/// or of the last channel where the clip has fewer.
pub proof fn law_device_gets_its_own_samples<T>(
    samples: Seq<T>,
    rate: u32,
    channels: u16,
    device_rate: u32,
    device_channels: u16,
    positions: Seq<usize>,
    silence: T,
    frame: int,
    ch: int,
)
    requires
        channels > 0,
        0 <= ch < device_channels,
        0 <= frame < (if rate == device_rate {
            samples.len() as int
        } else {
            positions.len() as int
        }) / channels as int,
    ensures
        ({
            let source = frame * channels + if ch < channels {
                ch
            } else {
                channels - 1
            };
            for_device(
                samples,
                rate,
                channels,
                device_rate,
                device_channels,
                positions,
                silence,
            )[frame * device_channels + ch] == (if rate == device_rate {
                samples[source]
            } else if positions[source] < samples.len() {
                samples[positions[source] as int]
            } else {
                silence
            })
        }),
{
    let resampled = at_rate(samples, rate, device_rate, positions, silence);
    law_every_channel_is_fed(resampled, channels as int, device_channels as int, frame, ch);
    let (src, count) = (channels as int, resampled.len() as int);
    let frames = count / src;
    lemma_fundamental_div_mod(count, src);
    lemma_mul_is_commutative(frames, src);
    assert(0 <= frame * src && frame * src + src <= frames * src) by (nonlinear_arith)
        requires
            0 <= frame < frames,
            0 < src,
    ;
}

/// A request gets the samples from the position on, one after the other, and
/// silence for those past the end. It moves the position by as many samples as
/// it got.
pub proof fn law_request_gets_the_next_samples<S>(
    buffer: Seq<S>,
    position: int,
    count: nat,
    i: int,
)
    requires
        0 <= position,
        0 <= i < count,
    ensures
        played(buffer, position, count).len() == count,
        position + i < buffer.len() ==> played(buffer, position, count)[i] == Some(
            buffer[position + i],
        ),
        position + i >= buffer.len() ==> played(buffer, position, count)[i] is None,
        position + count <= buffer.len() ==> advanced(
            buffer.len() as int,
            position,
            count as int,
        ) == position + count,
        position <= buffer.len() < position + count ==> advanced(
            buffer.len() as int,
            position,
            count as int,
        ) == buffer.len(),
        position > buffer.len() ==> advanced(buffer.len() as int, position, count as int)
            == position,
{
}

/// The number of samples handed to the device is the number of whole frames
/// times its channels.
pub proof fn law_respread_length<T>(samples: Seq<T>, src_channels: int, dst_channels: int)
    requires
        src_channels > 0,
        dst_channels >= 0,
        src_channels != dst_channels,
    ensures
        with_channels(samples, src_channels, dst_channels).len() == (samples.len() as int
            / src_channels) * dst_channels,
{
    lemma_div_pos_is_pos(samples.len() as int, src_channels);
    assert(0 <= (samples.len() as int / src_channels) * dst_channels) by (nonlinear_arith)
        requires
            0 <= samples.len() as int / src_channels,
            0 <= dst_channels,
    ;
}

/// Spreading over more channels loses nothing: going back to the original
/// channel count gives every whole frame again.
pub proof fn law_spreading_is_undone<T>(samples: Seq<T>, channels: int, more: int)
    requires
        0 < channels < more,
    ensures
        with_channels(with_channels(samples, channels, more), more, channels) == samples.take(
            (samples.len() as int / channels) * channels,
        ),
{
    let frames = samples.len() as int / channels;
    let wide = with_channels(samples, channels, more);
    let back = with_channels(wide, more, channels);
    law_respread_length(samples, channels, more);
    lemma_fundamental_div_mod(samples.len() as int, channels);
    lemma_mul_is_commutative(frames, channels);
    lemma_div_pos_is_pos(samples.len() as int, channels);
    lemma_div_by_multiple(frames, more);
    law_respread_length(wide, more, channels);
    assert(wide.len() as int / more == frames);
    assert(back.len() == frames * channels);
    assert forall|k: int| 0 <= k < frames * channels implies back[k] == samples[k] by {
        let f = k / channels;
        let c = k % channels;
        lemma_fundamental_div_mod(k, channels);
        lemma_mul_is_commutative(f, channels);
        lemma_div_pos_is_pos(k, channels);
        assert(f < frames) by (nonlinear_arith)
            requires
                k == f * channels + c,
                0 <= c,
                k < frames * channels,
                channels > 0,
        ;
        let w = f * more + c;
        assert(0 <= w < frames * more) by (nonlinear_arith)
            requires
                0 <= f < frames,
                0 <= c < channels,
                channels < more,
                w == f * more + c,
        ;
        assert(back[k] == wide[w]);
        lemma_fundamental_div_mod_converse(w, more, f, c);
        assert(wide[w] == samples[f * channels + c]);
    }
    assert(back =~= samples.take(frames * channels));
}

} // verus!
