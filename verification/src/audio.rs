//! What is made of decoded audio: a waveform envelope for drawing, the
//! duration, and the plan by which mono samples are brought to 16 kHz.
//!
//! Samples are the bit patterns of single-precision numbers.
use crate::fixed::{Nanos, SECOND};
use crate::model::WorkerMsg;
use crate::sample::{magnitude, magnitude_of, numeric, INFINITY_BITS};
use crate::text::{joined, text_views, trim, trimmed};
use std::sync::Arc;
use vstd::prelude::*;

verus! {

/// Sample rate whisper expects.
pub const WHISPER_SR: u32 = 16_000;

/// Number of points in the drawn waveform envelope.
pub const WAVEFORM_BUCKETS: usize = 2000;

/// The sample rate of a track that does not tell its own.
pub const DEFAULT_SR: u32 = 44_100;

/// Decoded audio.
#[derive(Debug)]
pub struct DecodeResult {
    /// Peak-amplitude envelope for drawing.
    pub waveform: Vec<u32>,
    pub duration: Nanos,
    /// Mono PCM at 16 kHz for transcription.
    pub pcm16k: Vec<u32>,
}

/// The largest magnitude among the samples that are numbers; zero if none is.
pub open spec fn peak_of(s: Seq<u32>) -> u32
    decreases s.len(),
{
    if s.len() == 0 {
        0
    } else {
        let rest = peak_of(s.drop_last());
        if numeric(s.last()) && magnitude_of(s.last()) > rest {
            magnitude_of(s.last())
        } else {
            rest
        }
    }
}

/// How many points the envelope of `len` samples has.
pub open spec fn bucket_count(len: nat, buckets: nat) -> nat {
    if len < buckets {
        len
    } else {
        buckets
    }
}

/// The first sample of bucket `b` of `count`.
pub open spec fn bucket_start(len: nat, count: nat, b: int) -> int {
    b * (len / count) as int
}

/// The sample behind the last one of bucket `b` of `count`. The last bucket
/// takes what the others leave.
pub open spec fn bucket_end(len: nat, count: nat, b: int) -> int {
    if b + 1 == count {
        len as int
    } else {
        bucket_start(len, count, b + 1)
    }
}

/// The envelope of `mono`: the peak of each bucket.
pub open spec fn envelope_of(mono: Seq<u32>, buckets: nat) -> Seq<u32> {
    let count = bucket_count(mono.len(), buckets);
    Seq::new(
        count,
        |b: int|
            peak_of(
                mono.subrange(
                    bucket_start(mono.len(), count, b),
                    bucket_end(mono.len(), count, b),
                ),
            ),
    )
}

/// A bucket is a stretch of the samples with at least one in it.
proof fn lemma_bucket(len: nat, count: nat, b: int)
    requires
        0 < count <= len,
        0 <= b < count,
    ensures
        0 <= bucket_start(len, count, b) < bucket_end(len, count, b) <= len,
        bucket_start(len, count, b) == b * (len / count),
        b + 1 < count ==> bucket_end(len, count, b) == bucket_start(len, count, b) + len / count,
{
    let chunk = len / count;
    assert(chunk >= 1 && count * chunk <= len) by (nonlinear_arith)
        requires
            0 < count <= len,
            chunk == len / count,
    ;
    assert(0 <= b * chunk && (b + 1) * chunk == b * chunk + chunk && (b + 1) * chunk <= count
        * chunk) by (nonlinear_arith)
        requires
            0 <= b < count,
            chunk >= 1,
    ;
}

/// The largest magnitude among the samples of `mono` from `from` to before `to`.
fn peak(mono: &Vec<u32>, from: usize, to: usize) -> (r: u32)
    requires
        from <= to <= mono.len(),
    ensures
        r == peak_of(mono@.subrange(from as int, to as int)),
{
    let mut best: u32 = 0;
    let mut i: usize = from;
    assert(mono@.subrange(from as int, from as int) == Seq::<u32>::empty());
    while i < to
        invariant
            from <= i <= to <= mono.len(),
            best == peak_of(mono@.subrange(from as int, i as int)),
        decreases to - i,
    {
        assert(mono@.subrange(from as int, i + 1).drop_last() == mono@.subrange(
            from as int,
            i as int,
        ));
        let m: u32 = magnitude(mono[i]);
        if m <= INFINITY_BITS && m > best {
            best = m;
        }
        i = i + 1;
    }
    best
}

/// Peak-per-bucket envelope of `mono`, for drawing.
pub fn envelope(mono: &Vec<u32>, buckets: usize) -> (r: Vec<u32>)
    requires
        buckets > 0 || mono.len() == 0,
    ensures
        r@ == envelope_of(mono@, buckets as nat),
{
    let len: usize = mono.len();
    let mut out: Vec<u32> = Vec::new();
    if len == 0 {
        return out;
    }
    let count: usize = if len < buckets {
        len
    } else {
        buckets
    };
    let chunk: usize = len / count;
    let mut b: usize = 0;
    let mut start: usize = 0;
    while b < count
        invariant
            0 < count <= len == mono.len(),
            count == bucket_count(len as nat, buckets as nat),
            chunk == len / count,
            b <= count,
            b < count ==> start == b * chunk,
            out@ == envelope_of(mono@, buckets as nat).take(b as int),
        decreases count - b,
    {
        proof {
            lemma_bucket(len as nat, count as nat, b as int);
            if b + 1 < count {
                lemma_bucket(len as nat, count as nat, b + 1);
            }
        }
        let end: usize = if b + 1 == count {
            len
        } else {
            start + chunk
        };
        out.push(peak(mono, start, end));
        assert(envelope_of(mono@, buckets as nat).take(b + 1) == envelope_of(
            mono@,
            buckets as nat,
        ).take(b as int).push(envelope_of(mono@, buckets as nat)[b as int]));
        start = end;
        b = b + 1;
    }
    assert(envelope_of(mono@, buckets as nat).take(count as int) == envelope_of(
        mono@,
        buckets as nat,
    ));
    out
}

/// The peak is the magnitude of a sample, or zero, and no sample that is a
/// number is larger; it is itself a number.
pub proof fn law_peak(s: Seq<u32>, k: int)
    requires
        0 <= k < s.len(),
    ensures
        numeric(s[k]) ==> magnitude_of(s[k]) <= peak_of(s),
        peak_of(s) <= INFINITY_BITS,
        peak_of(s) == 0 || exists|j: int|
            0 <= j < s.len() && magnitude_of(#[trigger] s[j]) == peak_of(s),
    decreases s.len(),
{
    let rest = s.drop_last();
    if rest.len() > 0 {
        law_peak(
            rest,
            if k < rest.len() {
                k
            } else {
                0
            },
        );
        if peak_of(rest) != 0 {
            let j = choose|j: int|
                0 <= j < rest.len() && magnitude_of(#[trigger] rest[j]) == peak_of(rest);
            assert(s[j] == rest[j]);
        }
    } else {
        assert(peak_of(rest) == 0);
    }
    assert(s[s.len() - 1] == s.last());
}

/// Every sample lies in exactly one bucket, so that no peak is missed and none
/// is shown twice, and the buckets stand in the order of the samples.
pub proof fn law_buckets_part_samples(len: nat, buckets: nat, i: int)
    requires
        0 < buckets,
        0 <= i < len,
    ensures
        exists|b: int|
            0 <= b < bucket_count(len, buckets) && #[trigger] bucket_start(
                len,
                bucket_count(len, buckets),
                b,
            ) <= i < bucket_end(len, bucket_count(len, buckets), b),
        forall|a: int, b: int|
            0 <= a < b < bucket_count(len, buckets) ==> #[trigger] bucket_end(
                len,
                bucket_count(len, buckets),
                a,
            ) <= #[trigger] bucket_start(len, bucket_count(len, buckets), b),
{
    let count = bucket_count(len, buckets);
    let chunk = (len / count) as int;
    lemma_bucket(len, count, 0);
    lemma_bucket(len, count, count - 1);
    assert(chunk >= 1) by (nonlinear_arith)
        requires
            chunk == len / count,
            0 < count <= len,
    ;
    let q = i / chunk;
    let b = if q < count {
        q
    } else {
        count - 1
    };
    assert(q >= 0 && q * chunk <= i < (q + 1) * chunk) by (nonlinear_arith)
        requires
            q == i / chunk,
            chunk >= 1,
            i >= 0,
    ;
    if q >= count {
        assert((count - 1) * chunk <= q * chunk) by (nonlinear_arith)
            requires
                count - 1 <= q,
                chunk >= 1,
        ;
    }
    assert(bucket_start(len, count, b) <= i < bucket_end(len, count, b));
    assert forall|a: int, b: int| 0 <= a < b < count implies #[trigger] bucket_end(len, count, a)
        <= #[trigger] bucket_start(len, count, b) by {
        assert((a + 1) * chunk <= b * chunk) by (nonlinear_arith)
            requires
                a + 1 <= b,
                chunk >= 1,
        ;
    }
}

/// A waveform is drawn wherever there are samples, and it shows that there is a
/// signal: where a sample is a number other than zero, a point of the envelope is
/// too.
pub proof fn law_envelope_shows_signal(mono: Seq<u32>, buckets: nat, i: int)
    requires
        0 < buckets,
        0 <= i < mono.len(),
    ensures
        envelope_of(mono, buckets).len() > 0,
        numeric(mono[i]) && magnitude_of(mono[i]) > 0 ==> exists|b: int|
            0 <= b < envelope_of(mono, buckets).len() && #[trigger] envelope_of(mono, buckets)[b]
                > 0,
{
    let count = bucket_count(mono.len(), buckets);
    law_buckets_part_samples(mono.len(), buckets, i);
    let b = choose|b: int|
        0 <= b < count && #[trigger] bucket_start(mono.len(), count, b) <= i < bucket_end(
            mono.len(),
            count,
            b,
        );
    lemma_bucket(mono.len(), count, b);
    let from = bucket_start(mono.len(), count, b);
    let bucket = mono.subrange(from, bucket_end(mono.len(), count, b));
    law_peak(bucket, i - from);
    assert(bucket[i - from] == mono[i]);
    assert(envelope_of(mono, buckets)[b] == peak_of(bucket));
}

/// The duration of `len` samples at `rate` per second, rounded down to a
/// nanosecond.
pub open spec fn duration_of(len: nat, rate: nat) -> int {
    (len * SECOND as nat / rate) as int
}

/// The duration of `len` samples at `rate` per second.
pub fn duration(len: usize, rate: u32) -> (r: Nanos)
    requires
        rate > 0,
    ensures
        r == duration_of(len as nat, rate as nat),
        0 <= r,
{
    let scaled: u128 = len as u128 * 1_000_000_000u128;
    let d: u128 = scaled / (rate as u128);
    proof {
        let (s, q) = (scaled as int, rate as int);
        assert(0 <= s / q <= s) by (nonlinear_arith)
            requires
                s >= 0,
                q > 0,
        ;
    }
    d as i128
}

/// How many samples `len` samples at `rate` become at 16 kHz: the nearest
/// number, a half rounded up, but at least one.
pub open spec fn resampled_len_of(len: nat, rate: nat) -> nat {
    let rounded = (2 * len * WHISPER_SR as nat + rate) / (2 * rate);
    if rounded == 0 {
        1
    } else {
        rounded
    }
}

/// How many samples `len` samples at `rate` become at 16 kHz.
pub fn resampled_len(len: usize, rate: u32) -> (r: usize)
    requires
        rate > 0,
        resampled_len_of(len as nat, rate as nat) <= usize::MAX,
    ensures
        r == resampled_len_of(len as nat, rate as nat),
{
    let rounded: u128 = (2 * (len as u128) * 16_000u128 + rate as u128) / (2 * (rate as u128));
    if rounded == 0 {
        1
    } else {
        rounded as usize
    }
}

/// What a sample at 16 kHz is made of.
#[derive(Clone, Copy, PartialEq, Eq, Structural, Debug)]
pub enum Tap {
    /// The average of the samples from `from` to before `to`.
    Average { from: usize, to: usize },
    /// Sample `a`, moved towards sample `b` by `share` parts of [`WHISPER_SR`].
    Blend { a: usize, b: usize, share: u32 },
}

/// Where sample `i` at 16 kHz falls among samples at `rate`, rounded down.
pub open spec fn position_of(i: nat, rate: nat) -> nat {
    i * rate / WHISPER_SR as nat
}

/// What sample `i` at 16 kHz is made of, from `len` samples at `rate`: the
/// average of those between its position and the next one's when there are too
/// many, and a blend of the two around its position when there are too few.
pub open spec fn tap_of(i: nat, len: nat, rate: nat) -> Tap {
    let last = (len - 1) as nat;
    let here = if position_of(i, rate) < last {
        position_of(i, rate)
    } else {
        last
    };
    let next = position_of(i + 1, rate);
    if rate > WHISPER_SR {
        Tap::Average {
            from: here as usize,
            to: (if next < here + 1 {
                here + 1
            } else if next > len {
                len
            } else {
                next
            }) as usize,
        }
    } else {
        Tap::Blend {
            a: here as usize,
            b: (if here < last {
                here + 1
            } else {
                last
            }) as usize,
            share: (i * rate % WHISPER_SR as nat) as u32,
        }
    }
}

/// What sample `i` at 16 kHz is made of.
pub fn tap(i: usize, len: usize, rate: u32) -> (r: Tap)
    requires
        len > 0,
    ensures
        r == tap_of(i as nat, len as nat, rate as nat),
{
    let (x, y): (u128, u128) = (i as u128, rate as u128);
    proof {
        assert(0 <= x * y <= u64::MAX * u32::MAX) by (nonlinear_arith)
            requires
                0 <= x <= u64::MAX,
                0 <= y <= u32::MAX,
        ;
        assert((x + 1) * y == x * y + y) by (nonlinear_arith);
    }
    let product: u128 = x * y;
    let position: u128 = product / 16_000u128;
    let last: usize = len - 1;
    let here: usize = if position < last as u128 {
        position as usize
    } else {
        last
    };
    if rate > WHISPER_SR {
        let next: u128 = (product + y) / 16_000u128;
        let to: usize = if next < here as u128 + 1 {
            here + 1
        } else if next > len as u128 {
            len
        } else {
            next as usize
        };
        Tap::Average { from: here, to }
    } else {
        let b: usize = if here < last {
            here + 1
        } else {
            last
        };
        Tap::Blend { a: here, b, share: (product % 16_000u128) as u32 }
    }
}

/// What each sample at 16 kHz is made of, one behind the other, from `len` samples
/// at `rate`.
pub open spec fn taps_of(len: nat, rate: nat) -> Seq<Tap> {
    Seq::new(resampled_len_of(len, rate), |i: int| tap_of(i as nat, len, rate))
}

/// How `len` samples at `rate` are brought to 16 kHz: what each sample there is
/// made of, or none where they are the signal at 16 kHz as they stand.
pub fn resampling(len: usize, rate: u32) -> (r: Option<Vec<Tap>>)
    requires
        len > 0 ==> rate > 0 && resampled_len_of(len as nat, rate as nat) <= usize::MAX,
    ensures
        match r {
            None => rate == WHISPER_SR || len == 0,
            Some(v) => rate != WHISPER_SR && len > 0 && v@ == taps_of(len as nat, rate as nat),
        },
{
    if rate == WHISPER_SR || len == 0 {
        return None;
    }
    let count: usize = resampled_len(len, rate);
    let mut v: Vec<Tap> = Vec::new();
    let mut i: usize = 0;
    while i < count
        invariant
            len > 0,
            i <= count == resampled_len_of(len as nat, rate as nat),
            v@ == taps_of(len as nat, rate as nat).take(i as int),
        decreases count - i,
    {
        v.push(tap(i, len, rate));
        assert(taps_of(len as nat, rate as nat).take(i + 1) == taps_of(
            len as nat,
            rate as nat,
        ).take(i as int).push(taps_of(len as nat, rate as nat)[i as int]));
        i = i + 1;
    }
    assert(taps_of(len as nat, rate as nat).take(count as int) == taps_of(len as nat, rate as nat));
    Some(v)
}

/// A tap names samples that are there: an average takes at least one, and a
/// blend takes less than all of the second.
pub proof fn law_tap_in_range(i: nat, len: nat, rate: nat)
    requires
        0 < len <= usize::MAX,
    ensures
        match tap_of(i, len, rate) {
            Tap::Average { from, to } => from < to <= len,
            Tap::Blend { a, b, share } => a <= b < len && b <= a + 1 && share < WHISPER_SR,
        },
{
}

/// Averages follow each other without a gap and without an overlap as long as
/// they stay within the samples, and the first one starts at the first sample.
pub proof fn law_averages_are_contiguous(i: nat, len: nat, rate: nat)
    requires
        0 < len <= usize::MAX,
        WHISPER_SR < rate,
    ensures
        tap_of(0, len, rate)->from == 0,
        position_of(i + 1, rate) < len ==> tap_of(i, len, rate)->to == tap_of(
            i + 1,
            len,
            rate,
        )->from,
{
    assert((i + 1) * rate == i * rate + rate) by (nonlinear_arith);
    assert(0 * rate == 0);
}

/// The samples at 16 kHz last as long as the given ones, to within half a
/// sample; a single sample stands for anything shorter.
pub proof fn law_resampled_length_tracks_duration(len: nat, rate: nat)
    requires
        rate > 0,
    ensures
        resampled_len_of(len, rate) == 1 || {
            &&& 2 * (resampled_len_of(len, rate) * rate) <= 2 * (len * WHISPER_SR as nat) + rate
            &&& 2 * (len * WHISPER_SR as nat) <= 2 * (resampled_len_of(len, rate) * rate) + rate
        },
{
    let n = 2 * len * WHISPER_SR as nat + rate;
    let d = 2 * rate;
    let q = n / d;
    assert(q * d <= n < q * d + d) by (nonlinear_arith)
        requires
            q == n / d,
            d > 0,
    ;
    assert(q * d == 2 * (q * rate)) by (nonlinear_arith)
        requires
            d == 2 * rate,
    ;
    assert(2 * len * WHISPER_SR as nat == 2 * (len * WHISPER_SR as nat)) by (nonlinear_arith);
}

/// The pattern that four bytes hold, least significant first.
pub open spec fn le_word(b: Seq<u8>, at: int) -> u32 {
    (b[at] as int + 0x100 * b[at + 1] as int + 0x1_0000 * b[at + 2] as int + 0x100_0000 * b[at
        + 3] as int) as u32
}

/// The samples that `bytes` hold, four bytes each; bytes left over at the end
/// are none.
pub open spec fn samples_of(bytes: Seq<u8>) -> Seq<u32> {
    Seq::new(bytes.len() / 4, |i: int| le_word(bytes, 4 * i))
}

/// The samples that `bytes` hold.
pub fn samples_from_le_bytes(bytes: &Vec<u8>) -> (r: Vec<u32>)
    ensures
        r@ == samples_of(bytes@),
{
    let count: usize = bytes.len() / 4;
    let mut out: Vec<u32> = Vec::new();
    let mut i: usize = 0;
    while i < count
        invariant
            i <= count == bytes.len() / 4,
            out@ == samples_of(bytes@).take(i as int),
        decreases count - i,
    {
        let at: usize = 4 * i;
        let w: u32 = bytes[at] as u32 + 0x100 * (bytes[at + 1] as u32) + 0x1_0000 * (bytes[at
            + 2] as u32) + 0x100_0000 * (bytes[at + 3] as u32);
        out.push(w);
        assert(samples_of(bytes@).take(i + 1) == samples_of(bytes@).take(i as int).push(
            samples_of(bytes@)[i as int],
        ));
        i = i + 1;
    }
    assert(samples_of(bytes@).take(count as int) == samples_of(bytes@));
    out
}

/// Whether `r` is `mono` at `rate`, decoded, with `pcm16k` at 16 kHz.
pub open spec fn decoded_as(r: DecodeResult, mono: Seq<u32>, rate: nat, pcm16k: Seq<u32>) -> bool {
    &&& r.waveform@ == envelope_of(mono, WAVEFORM_BUCKETS as nat)
    &&& r.duration == duration_of(mono.len(), rate)
    &&& r.pcm16k@ == pcm16k
}

/// A track of a media file.
#[derive(Clone, Copy, Debug)]
pub struct Track {
    pub id: u32,
    /// Whether the track has a codec at all.
    pub decodable: bool,
    pub sample_rate: Option<u32>,
}

/// The track that is decoded.
#[derive(Clone, Copy, PartialEq, Eq, Structural, Debug)]
pub struct PickedTrack {
    pub index: usize,
    pub id: u32,
    pub sample_rate: u32,
}

/// The first track that has a codec, with its sample rate or the usual one.
pub fn pick_track(tracks: &Vec<Track>) -> (r: Result<PickedTrack, String>)
    ensures
        match r {
            Ok(p) => {
                &&& p.index < tracks.len()
                &&& tracks[p.index as int].decodable
                &&& forall|k: int| 0 <= k < p.index ==> !(#[trigger] tracks[k]).decodable
                &&& p.id == tracks[p.index as int].id
                &&& p.sample_rate == match tracks[p.index as int].sample_rate {
                    Some(rate) => rate,
                    None => DEFAULT_SR,
                }
            },
            Err(e) => e@ == "no decodable audio track found"@ && forall|k: int|
                0 <= k < tracks.len() ==> !(#[trigger] tracks[k]).decodable,
        },
{
    let mut i: usize = 0;
    while i < tracks.len()
        invariant
            i <= tracks.len(),
            forall|k: int| 0 <= k < i ==> !(#[trigger] tracks[k]).decodable,
        decreases tracks.len() - i,
    {
        if tracks[i].decodable {
            return Ok(
                PickedTrack {
                    index: i,
                    id: tracks[i].id,
                    sample_rate: match tracks[i].sample_rate {
                        Some(rate) => rate,
                        None => DEFAULT_SR,
                    },
                },
            );
        }
        i = i + 1;
    }
    Err("no decodable audio track found".to_owned())
}

/// What reading the next packet of a file gave.
#[derive(Debug)]
pub enum PacketEvent {
    Packet { track_id: u32 },
    EndOfFile,
    ResetRequired,
    Failed(String),
}

/// What to do about it.
#[derive(Debug)]
pub enum PacketStep {
    /// Decode the packet.
    Decode,
    /// Read the next packet.
    Skip,
    /// The audio is complete.
    Finish,
    /// Give up.
    Fail(String),
}

/// Packets of the track `track_id` are decoded and others skipped; the end of
/// the file, or a reset of the stream, completes the audio.
pub fn on_packet(event: PacketEvent, track_id: u32) -> (r: PacketStep)
    ensures
        r == match event {
            PacketEvent::Packet { track_id: id } => if id == track_id {
                PacketStep::Decode
            } else {
                PacketStep::Skip
            },
            PacketEvent::EndOfFile => PacketStep::Finish,
            PacketEvent::ResetRequired => PacketStep::Finish,
            PacketEvent::Failed(e) => PacketStep::Fail(e),
        },
{
    match event {
        PacketEvent::Packet { track_id: id } => if id == track_id {
            PacketStep::Decode
        } else {
            PacketStep::Skip
        },
        PacketEvent::EndOfFile => PacketStep::Finish,
        PacketEvent::ResetRequired => PacketStep::Finish,
        PacketEvent::Failed(e) => PacketStep::Fail(e),
    }
}

/// What decoding a packet gave.
#[derive(Debug)]
pub enum DecoderEvent {
    Decoded { channels: usize },
    /// The packet is corrupt.
    Corrupt,
    Failed(String),
}

/// What to do about it.
#[derive(Debug)]
pub enum DecoderStep {
    /// Mix frames of so many interleaved samples down to one sample each.
    Mix { channels: usize },
    /// Go on with the next packet.
    Skip,
    /// Give up.
    Fail(String),
}

/// What is decoded is mixed down, with frames of at least one sample; a corrupt
/// packet is skipped.
pub fn on_decoded(event: DecoderEvent) -> (r: DecoderStep)
    ensures
        r == match event {
            DecoderEvent::Decoded { channels } => DecoderStep::Mix {
                channels: if channels == 0 {
                    1
                } else {
                    channels
                },
            },
            DecoderEvent::Corrupt => DecoderStep::Skip,
            DecoderEvent::Failed(e) => DecoderStep::Fail(e),
        },
{
    match event {
        DecoderEvent::Decoded { channels } => DecoderStep::Mix {
            channels: if channels == 0 {
                1
            } else {
                channels
            },
        },
        DecoderEvent::Corrupt => DecoderStep::Skip,
        DecoderEvent::Failed(e) => DecoderStep::Fail(e),
    }
}

/// The audio of the full-rate signal `mono`. At 16 kHz it is that signal as it
/// stands, or else `resampled`, which has one sample for each tap of
/// [`resampling`].
pub fn decode_symphonia(mono: Vec<u32>, rate: u32, resampled: Vec<u32>) -> (r: Result<
    DecodeResult,
    String,
>)
    requires
        mono.len() > 0 ==> rate > 0,
        mono.len() > 0 && rate != WHISPER_SR ==> resampled.len() == taps_of(
            mono.len() as nat,
            rate as nat,
        ).len(),
    ensures
        match r {
            Ok(d) => mono.len() > 0 && decoded_as(
                d,
                mono@,
                rate as nat,
                if rate == WHISPER_SR {
                    mono@
                } else {
                    resampled@
                },
            ),
            Err(e) => mono.len() == 0 && e@ == "decoded zero audio samples"@,
        },
{
    if mono.len() == 0 {
        return Err("decoded zero audio samples".to_owned());
    }
    let waveform = envelope(&mono, WAVEFORM_BUCKETS);
    let duration: Nanos = duration(mono.len(), rate);
    Ok(
        DecodeResult {
            waveform,
            duration,
            pcm16k: if rate == WHISPER_SR {
                mono
            } else {
                resampled
            },
        },
    )
}

/// The arguments with which ffmpeg writes the audio of `path` to its standard
/// output, as 16 kHz mono samples of four bytes.
pub open spec fn ffmpeg_decode_args_of(path: Seq<char>) -> Seq<Seq<char>> {
    seq![
        "-v"@,
        "error"@,
        "-i"@,
        path,
        "-vn"@,
        "-ac"@,
        "1"@,
        "-ar"@,
        "16000"@,
        "-f"@,
        "f32le"@,
        "-"@,
    ]
}

/// The arguments with which ffmpeg decodes `path`.
pub fn ffmpeg_decode_args(path: &str) -> (r: Vec<String>)
    ensures
        text_views(r@) == ffmpeg_decode_args_of(path@),
{
    let r: Vec<String> = vec![
        "-v".to_owned(),
        "error".to_owned(),
        "-i".to_owned(),
        path.to_owned(),
        "-vn".to_owned(),
        "-ac".to_owned(),
        "1".to_owned(),
        "-ar".to_owned(),
        "16000".to_owned(),
        "-f".to_owned(),
        "f32le".to_owned(),
        "-".to_owned(),
    ];
    assert(text_views(r@) == ffmpeg_decode_args_of(path@));
    r
}

/// The audio that ffmpeg wrote, given how it ended. The waveform is built from
/// the 16 kHz signal.
pub fn decode_with_ffmpeg(success: bool, stderr: &str, stdout: &Vec<u8>) -> (r: Result<
    DecodeResult,
    String,
>)
    ensures
        match r {
            Ok(d) => success && stdout.len() >= 4 && decoded_as(
                d,
                samples_of(stdout@),
                WHISPER_SR as nat,
                samples_of(stdout@),
            ),
            Err(e) => if !success {
                e@ == "ffmpeg decode failed: "@ + trimmed(stderr@)
            } else {
                stdout.len() < 4 && e@ == "ffmpeg produced no audio samples"@
            },
        },
{
    if !success {
        return Err(joined("ffmpeg decode failed: ", trim(stderr).as_str()));
    }
    let pcm16k = samples_from_le_bytes(stdout);
    if pcm16k.len() == 0 {
        return Err("ffmpeg produced no audio samples".to_owned());
    }
    Ok(
        DecodeResult {
            waveform: envelope(&pcm16k, WAVEFORM_BUCKETS),
            duration: duration(pcm16k.len(), WHISPER_SR),
            pcm16k,
        },
    )
}

/// What to do after the first attempt to decode a file.
#[derive(Debug)]
pub enum DecodeStep {
    Done(DecodeResult),
    /// Try ffmpeg; the text says why the first attempt failed.
    Fallback(String),
}

/// A file that the first decoder cannot handle (for instance Opus audio) is left
/// to ffmpeg.
pub fn decode(symphonia: Result<DecodeResult, String>) -> (r: DecodeStep)
    ensures
        r == match symphonia {
            Ok(d) => DecodeStep::Done(d),
            Err(e) => DecodeStep::Fallback(e),
        },
{
    match symphonia {
        Ok(d) => DecodeStep::Done(d),
        Err(e) => DecodeStep::Fallback(e),
    }
}

/// What ffmpeg made of a file that the first decoder failed on for the reason
/// `first`; both reasons if it failed too.
pub fn decode_fallback(first: &str, ffmpeg: Result<DecodeResult, String>) -> (r: Result<
    DecodeResult,
    String,
>)
    ensures
        match (r, ffmpeg) {
            (Ok(d), Ok(f)) => d == f,
            (Err(e), Err(f)) => e@ == "symphonia: "@ + first@ + "; ffmpeg: "@ + f@,
            _ => false,
        },
{
    match ffmpeg {
        Ok(d) => Ok(d),
        Err(f) => {
            let mut e = joined("symphonia: ", first);
            e.append("; ffmpeg: ");
            e.append(f.as_str());
            Err(e)
        },
    }
}

/// The message that reports how decoding ended.
pub fn decode_message(result: Result<DecodeResult, String>) -> (r: WorkerMsg)
    ensures
        match result {
            Ok(d) => r matches WorkerMsg::DecodeDone { samples, duration, pcm16k } && samples
                == d.waveform && duration == d.duration && *pcm16k == d.pcm16k,
            Err(e) => r matches WorkerMsg::DecodeFailed(m) && m@ == "Decode failed: "@ + e@,
        },
{
    match result {
        Ok(d) => WorkerMsg::DecodeDone {
            samples: d.waveform,
            duration: d.duration,
            pcm16k: Arc::new(d.pcm16k),
        },
        Err(e) => WorkerMsg::DecodeFailed(joined("Decode failed: ", e.as_str())),
    }
}

/// The duration is as many nanoseconds as the samples last at their rate, and less than
/// one more.
pub proof fn law_duration(len: nat, rate: nat)
    requires
        rate > 0,
    ensures
        duration_of(len, rate) * rate <= len * 1_000_000_000 < (duration_of(len, rate) + 1) * rate,
{
    let n = len * 1_000_000_000;
    let q = n / rate;
    assert(q * rate <= n < (q + 1) * rate) by (nonlinear_arith)
        requires
            q == n / rate,
            rate > 0,
    ;
}

/// A sample at 16 kHz is made of those that are heard when it is: it falls into the
/// first one of them, and an average ends where the next one starts. A blend moves on
/// by what the sample falls behind the first of the two.
pub proof fn law_tap_is_where_it_falls(i: nat, len: nat, rate: nat)
    requires
        0 < len <= usize::MAX,
        i * rate < len * 16_000,
    ensures
        rate > 16_000 <==> tap_of(i, len, rate) is Average,
        match tap_of(i, len, rate) {
            Tap::Average { from, to } => {
                &&& from * 16_000 <= i * rate < (from + 1) * 16_000
                &&& to == len || to * 16_000 <= (i + 1) * rate < (to + 1) * 16_000
                &&& (i + 1) * rate < len * 16_000 ==> to * 16_000 <= (i + 1) * rate
            },
            Tap::Blend { a, b, share } => {
                &&& a * 16_000 + share == i * rate
                &&& share < 16_000
                &&& b == if a + 1 < len {
                    a + 1
                } else {
                    a as int
                }
            },
        },
{
    assert((i + 1) * rate == i * rate + rate) by (nonlinear_arith);
}

/// The envelope has a point for each sample up to two thousand of them, and two
/// thousand for more. No number in the signal is larger than the point of its bucket,
/// and each point is zero or the size of a sample of its bucket.
pub proof fn law_envelope_is_peaks(mono: Seq<u32>, i: int)
    requires
        0 <= i < mono.len(),
    ensures
        envelope_of(mono, WAVEFORM_BUCKETS as nat).len() == if mono.len() < 2000 {
            mono.len()
        } else {
            2000
        },
        numeric(mono[i]) ==> exists|b: int|
            0 <= b < envelope_of(mono, WAVEFORM_BUCKETS as nat).len() && magnitude_of(mono[i])
                <= #[trigger] envelope_of(mono, WAVEFORM_BUCKETS as nat)[b],
        forall|b: int|
            0 <= b < envelope_of(mono, WAVEFORM_BUCKETS as nat).len() && #[trigger] envelope_of(
                mono,
                WAVEFORM_BUCKETS as nat,
            )[b] != 0 ==> exists|k: int|
                0 <= k < mono.len() && magnitude_of(#[trigger] mono[k]) == envelope_of(
                    mono,
                    WAVEFORM_BUCKETS as nat,
                )[b],
{
    let buckets = WAVEFORM_BUCKETS as nat;
    let count = bucket_count(mono.len(), buckets);
    let points = envelope_of(mono, buckets);
    law_buckets_part_samples(mono.len(), buckets, i);
    let b = choose|b: int|
        0 <= b < count && #[trigger] bucket_start(mono.len(), count, b) <= i < bucket_end(
            mono.len(),
            count,
            b,
        );
    lemma_bucket(mono.len(), count, b);
    let from = bucket_start(mono.len(), count, b);
    let bucket = mono.subrange(from, bucket_end(mono.len(), count, b));
    law_peak(bucket, i - from);
    assert(bucket[i - from] == mono[i]);
    assert(points[b] == peak_of(bucket));
    assert forall|b: int| 0 <= b < points.len() && #[trigger] points[b] != 0 implies exists|k: int|
        0 <= k < mono.len() && magnitude_of(#[trigger] mono[k]) == points[b] by {
        lemma_bucket(mono.len(), count, b);
        let from = bucket_start(mono.len(), count, b);
        let bucket = mono.subrange(from, bucket_end(mono.len(), count, b));
        law_peak(bucket, 0);
        let j = choose|j: int|
            0 <= j < bucket.len() && magnitude_of(#[trigger] bucket[j]) == peak_of(bucket);
        assert(bucket[j] == mono[from + j]);
    }
}

/// The buckets but the last are of one size, and the last is less than a bucket for
/// each bucket longer.
pub proof fn law_buckets_are_even(len: nat, count: nat, b: int)
    requires
        0 < count <= len,
        0 <= b < count - 1,
    ensures
        bucket_start(len, count, 0) == 0,
        bucket_end(len, count, b) == bucket_start(len, count, b + 1),
        bucket_end(len, count, b) - bucket_start(len, count, b) == bucket_end(len, count, 0),
        bucket_end(len, count, count - 1) == len,
        (len - bucket_start(len, count, count - 1)) - bucket_end(len, count, 0) < count,
{
    lemma_bucket(len, count, b);
    lemma_bucket(len, count, b + 1);
    lemma_bucket(len, count, 0);
    lemma_bucket(len, count, count - 1);
    let chunk = (len / count) as int;
    assert(len < count * chunk + count && count * chunk == (count - 1) * chunk + chunk)
        by (nonlinear_arith)
        requires
            chunk == len / count,
            count > 0,
    ;
}

/// Samples are read from four bytes each, the least significant first, and what is left
/// over is less than one.
pub proof fn law_samples_of_bytes(bytes: Seq<u8>, i: int)
    requires
        0 <= i < samples_of(bytes).len(),
    ensures
        4 * samples_of(bytes).len() <= bytes.len() < 4 * samples_of(bytes).len() + 4,
        samples_of(bytes)[i] % 0x100 == bytes[4 * i],
        samples_of(bytes)[i] / 0x100 % 0x100 == bytes[4 * i + 1],
        samples_of(bytes)[i] / 0x1_0000 % 0x100 == bytes[4 * i + 2],
        samples_of(bytes)[i] / 0x100_0000 == bytes[4 * i + 3],
{
}

/// ffmpeg reads the given file and writes plain samples, one channel of them at 16000
/// to the second, to its standard output.
pub proof fn law_ffmpeg_decodes_file(path: Seq<char>)
    ensures
        ({
            let args = ffmpeg_decode_args_of(path);
            &&& args.len() == 12
            &&& args[0] == "-v"@ && args[1] == "error"@
            &&& args[2] == "-i"@ && args[3] == path
            &&& args[4] == "-vn"@
            &&& args[5] == "-ac"@ && args[6] == "1"@
            &&& args[7] == "-ar"@ && args[8] == "16000"@
            &&& args[9] == "-f"@ && args[10] == "f32le"@
            &&& args[11] == "-"@
        }),
{
}

/// What is decoded is the waveform and the length of the signal itself, at its own
/// rate, and the samples for whisper.
pub proof fn law_decoded(r: DecodeResult, mono: Seq<u32>, rate: nat, pcm16k: Seq<u32>)
    ensures
        decoded_as(r, mono, rate, pcm16k) <==> r.waveform@ == envelope_of(mono, 2000) && r.duration
            == duration_of(mono.len(), rate) && r.pcm16k@ == pcm16k,
{
}

/// There is one tap for each sample at 16 kHz, in their order.
pub proof fn law_taps(len: nat, rate: nat, i: int)
    requires
        rate > 0,
        0 <= i < resampled_len_of(len, rate),
    ensures
        taps_of(len, rate).len() == resampled_len_of(len, rate) > 0,
        taps_of(len, rate)[i] == tap_of(i as nat, len, rate),
        2 * (len * 16_000) < 2 * (resampled_len_of(len, rate) * rate) + rate,
        resampled_len_of(len, rate) > 1 ==> 2 * (resampled_len_of(len, rate) * rate) <= 2 * (len
            * 16_000) + rate,
{
    let n = 2 * len * 16_000 + rate;
    let d = 2 * rate;
    let q = n / d;
    assert(q * d <= n < q * d + d && q * d == 2 * (q * rate)) by (nonlinear_arith)
        requires
            q == n / d,
            d == 2 * rate,
            d > 0,
    ;
    if q == 0 {
        assert(1 * rate == rate);
        assert(0 * rate == 0);
    }
}

} // verus!
