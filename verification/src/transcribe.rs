//! Word-level transcripts from the segments that whisper hands back.
//!
//! Whisper reports times in hundredths of a second. It is asked for segments of
//! one word each and for per-token times aligned to the audio.
use crate::fixed::Fraction;
use crate::model::{WhisperModelKind, Word, WordView, WorkerMsg};
use crate::sample::{all_finite, finite};
use crate::text::{chars_of, joined, trim, trimmed};
use vstd::prelude::*;

verus! {

/// The longest span of a word, so that a word before a long pause does not
/// stretch across silence.
pub const MAX_WORD: i128 = 1_500_000_000;

/// The span of the last word.
pub const LAST_WORD: i128 = 500_000_000;

/// The shortest span of a word.
pub const MIN_WORD: i128 = 10_000_000;

/// A hundredth of a second.
pub const CENTISECOND: i128 = 10_000_000;

/// The time of one sample at 16 kHz.
pub const SAMPLE_16K: i128 = 62_500;

/// A segment of the recognised text.
#[derive(Clone, Debug)]
pub struct Segment {
    pub text: String,
    /// The aligned time of each token in centiseconds, below zero for a token
    /// that has none.
    pub token_times: Vec<i64>,
    /// The start of the segment in centiseconds, by whisper's own estimate.
    pub start: i64,
}

/// A spoken word and when it starts, in centiseconds.
#[derive(Clone, Debug)]
pub struct Onset {
    pub centis: i64,
    pub text: String,
}

/// An onset, with its text as characters.
pub ghost struct OnsetView {
    pub centis: int,
    pub text: Seq<char>,
}

impl View for Onset {
    type V = OnsetView;

    open spec fn view(&self) -> OnsetView {
        OnsetView { centis: self.centis as int, text: self.text@ }
    }
}

/// Whether `c` is a letter or a digit of some script, as `char::is_alphanumeric`
/// tells.
pub uninterp spec fn alphanumeric(c: char) -> bool;

/// `char::is_alphanumeric` tells by the character alone whether it is
/// alphabetic or numeric in Unicode's sense. Which characters are is left to
/// the name [`alphanumeric`].
pub assume_specification[ char::is_alphanumeric ](c: char) -> (r: bool)
    ensures
        r == alphanumeric(c),
;

/// Whether a letter or digit occurs in `s`.
pub open spec fn has_alphanumeric(s: Seq<char>) -> bool {
    exists|k: int| 0 <= k < s.len() && alphanumeric(#[trigger] s[k])
}

/// Whether `s` is enclosed in a pair of asterisks, of square or of round
/// brackets.
pub open spec fn non_speech(s: Seq<char>) -> bool {
    s.len() > 0 && {
        ||| s.first() == '*' && s.last() == '*'
        ||| s.first() == '[' && s.last() == ']'
        ||| s.first() == '(' && s.last() == ')'
    }
}

/// Whether the trimmed text `s` is spoken: not empty, no annotation, and not
/// punctuation alone.
pub open spec fn spoken(s: Seq<char>) -> bool {
    s.len() > 0 && !non_speech(s) && has_alphanumeric(s)
}

/// The least of the times that are not below zero; `i64::MAX` if there is none.
pub open spec fn earliest_of(times: Seq<i64>) -> i64
    decreases times.len(),
{
    if times.len() == 0 {
        i64::MAX
    } else {
        let rest = earliest_of(times.drop_last());
        if 0 <= times.last() < rest {
            times.last()
        } else {
            rest
        }
    }
}

/// When the word of `s` starts: at its earliest aligned token, or where whisper
/// puts the segment if no token is aligned.
pub open spec fn onset_time(s: Segment) -> i64 {
    if earliest_of(s.token_times@) != i64::MAX {
        earliest_of(s.token_times@)
    } else {
        s.start
    }
}

/// The onsets of the spoken words among `segments`, in their order.
pub open spec fn onsets_of(segments: Seq<Segment>) -> Seq<OnsetView>
    decreases segments.len(),
{
    if segments.len() == 0 {
        seq![]
    } else {
        let rest = onsets_of(segments.drop_last());
        let text = trimmed(segments.last().text@);
        if spoken(text) {
            rest.push(OnsetView { centis: onset_time(segments.last()) as int, text })
        } else {
            rest
        }
    }
}

/// The lesser of `a` and `b`.
pub open spec fn lesser(a: int, b: int) -> int {
    if a < b {
        a
    } else {
        b
    }
}

/// The greater of `a` and `b`.
pub open spec fn greater(a: int, b: int) -> int {
    if a < b {
        b
    } else {
        a
    }
}

/// When word `i` starts.
pub open spec fn word_start(onsets: Seq<OnsetView>, i: int) -> int {
    onsets[i].centis * CENTISECOND
}

/// When word `i` ends in audio of length `audio`: at the start of the next word,
/// but no later than `MAX_WORD` behind its own start; the last word `LAST_WORD`
/// behind its start, but no later than the audio. Each no sooner than `MIN_WORD`
/// behind its start.
pub open spec fn word_end(onsets: Seq<OnsetView>, audio: int, i: int) -> int {
    let start = word_start(onsets, i);
    let end = if i + 1 < onsets.len() {
        lesser(word_start(onsets, i + 1), start + MAX_WORD)
    } else {
        lesser(start + LAST_WORD, audio)
    };
    greater(end, start + MIN_WORD)
}

/// The words that start at `onsets` in audio of length `audio`.
pub open spec fn words_of(onsets: Seq<OnsetView>, audio: int) -> Seq<WordView> {
    Seq::new(
        onsets.len(),
        |i: int|
            WordView {
                start: word_start(onsets, i),
                end: word_end(onsets, audio, i),
                text: onsets[i].text,
            },
    )
}

/// What the words say.
pub open spec fn word_views(words: Seq<Word>) -> Seq<WordView> {
    words.map_values(|w: Word| w@)
}

/// What the onsets say.
pub open spec fn onset_views(onsets: Seq<Onset>) -> Seq<OnsetView> {
    onsets.map_values(|o: Onset| o@)
}

/// Whisper marks non-speech audio with bracketed or asterisked tokens such as
/// `*Music*`, `[Music]`, or `(applause)`. Any wholly-enclosed token is
/// non-speech.
pub fn is_non_speech(text: &str) -> (r: bool)
    ensures
        r == non_speech(text@),
{
    let v = chars_of(text);
    let n: usize = v.len();
    if n == 0 {
        return false;
    }
    let first: char = v[0];
    let last: char = v[n - 1];
    (first == '*' && last == '*') || (first == '[' && last == ']') || (first == '(' && last == ')')
}

/// Whether the trimmed text of a segment is spoken, given whether a letter or
/// digit occurs in it.
pub fn is_spoken(text: &str, alphanumeric: bool) -> (r: bool)
    ensures
        r == (text@.len() > 0 && !non_speech(text@) && alphanumeric),
{
    !text.is_empty() && !is_non_speech(text) && alphanumeric
}

fn any_alphanumeric(text: &str) -> (r: bool)
    ensures
        r == has_alphanumeric(text@),
{
    let v = chars_of(text);
    let mut i: usize = 0;
    while i < v.len()
        invariant
            i <= v.len(),
            v@ == text@,
            forall|k: int| 0 <= k < i ==> !alphanumeric(#[trigger] v[k]),
        decreases v.len() - i,
    {
        if v[i].is_alphanumeric() {
            assert(alphanumeric(text@[i as int]));
            return true;
        }
        i = i + 1;
    }
    false
}

/// The earliest aligned token time, in centiseconds; `i64::MAX` if no token is
/// aligned.
pub fn earliest(times: &Vec<i64>) -> (r: i64)
    ensures
        r == earliest_of(times@),
{
    let mut best: i64 = i64::MAX;
    let mut i: usize = 0;
    assert(times@.take(0) == Seq::<i64>::empty());
    while i < times.len()
        invariant
            i <= times.len(),
            best == earliest_of(times@.take(i as int)),
        decreases times.len() - i,
    {
        assert(times@.take(i + 1).drop_last() == times@.take(i as int));
        let t: i64 = times[i];
        if 0 <= t && t < best {
            best = t;
        }
        i = i + 1;
    }
    assert(times@.take(times.len() as int) == times@);
    best
}

/// The onsets of the spoken words among `segments`.
pub fn onsets(segments: &Vec<Segment>) -> (r: Vec<Onset>)
    ensures
        onset_views(r@) == onsets_of(segments@),
{
    let mut r: Vec<Onset> = Vec::new();
    let mut i: usize = 0;
    assert(segments@.take(0) == Seq::<Segment>::empty());
    assert(onset_views(r@) == Seq::<OnsetView>::empty());
    while i < segments.len()
        invariant
            i <= segments.len(),
            onset_views(r@) == onsets_of(segments@.take(i as int)),
        decreases segments.len() - i,
    {
        assert(segments@.take(i + 1).drop_last() == segments@.take(i as int));
        let text = trim(segments[i].text.as_str());
        if is_spoken(text.as_str(), any_alphanumeric(text.as_str())) {
            let aligned: i64 = earliest(&segments[i].token_times);
            let centis: i64 = if aligned != i64::MAX {
                aligned
            } else {
                segments[i].start
            };
            let ghost before = r@;
            let onset = Onset { centis, text };
            r.push(onset);
            assert(onset_views(r@) == onset_views(before).push(onset@));
        }
        i = i + 1;
    }
    assert(segments@.take(segments.len() as int) == segments@);
    r
}

/// The words that start at `onsets` in audio of `samples` samples at 16 kHz.
pub fn words(onsets: &Vec<Onset>, samples: usize) -> (r: Vec<Word>)
    ensures
        word_views(r@) == words_of(onset_views(onsets@), samples * 62_500),
{
    let audio: i128 = samples as i128 * SAMPLE_16K;
    let ghost views = onset_views(onsets@);
    let mut r: Vec<Word> = Vec::new();
    let mut i: usize = 0;
    while i < onsets.len()
        invariant
            i <= onsets.len(),
            views == onset_views(onsets@),
            audio == samples * SAMPLE_16K,
            word_views(r@) == words_of(views, audio as int).take(i as int),
        decreases onsets.len() - i,
    {
        let start: i128 = onsets[i].centis as i128 * CENTISECOND;
        assert(views[i as int] == onsets[i as int]@);
        let mut end: i128 = if i + 1 < onsets.len() {
            let next: i128 = onsets[i + 1].centis as i128 * CENTISECOND;
            assert(views[i + 1] == onsets[i + 1]@);
            if next < start + MAX_WORD {
                next
            } else {
                start + MAX_WORD
            }
        } else if start + LAST_WORD < audio {
            start + LAST_WORD
        } else {
            audio
        };
        if end < start + MIN_WORD {
            end = start + MIN_WORD;
        }
        let ghost before = r@;
        let word = Word { start, end, text: onsets[i].text.clone() };
        r.push(word);
        assert(word@ == words_of(views, audio as int)[i as int]);
        assert(word_views(r@) == word_views(before).push(word@));
        assert(words_of(views, audio as int).take(i + 1) == words_of(views, audio as int).take(
            i as int,
        ).push(word@));
        i = i + 1;
    }
    assert(words_of(views, audio as int).take(onsets.len() as int) == words_of(
        views,
        audio as int,
    ));
    r
}

/// Whether there is audio that can be transcribed: some of it, and all of it
/// finite.
pub fn check_audio(pcm16k: &Vec<u32>) -> (r: Result<(), String>)
    ensures
        match r {
            Ok(_) => pcm16k.len() > 0 && audible(pcm16k@),
            Err(e) => e@ == (if pcm16k.len() == 0 {
                "no audio to transcribe"@
            } else {
                "audio contains non-finite samples"@
            }) && !(pcm16k.len() > 0 && audible(pcm16k@)),
        },
{
    if pcm16k.len() == 0 {
        return Err("no audio to transcribe".to_owned());
    }
    if !all_finite(pcm16k) {
        return Err("audio contains non-finite samples".to_owned());
    }
    Ok(())
}

/// Whether every sample is a finite number.
pub open spec fn audible(pcm: Seq<u32>) -> bool {
    forall|k: int| 0 <= k < pcm.len() ==> finite(#[trigger] pcm[k])
}

/// The words of `pcm16k`, given what whisper recognised in it.
pub fn transcribe(pcm16k: &Vec<u32>, recognised: Result<Vec<Segment>, String>) -> (r: Result<
    Vec<Word>,
    String,
>)
    ensures
        match r {
            Ok(words) => pcm16k.len() > 0 && audible(pcm16k@) && recognised is Ok && word_views(
                words@,
            ) == words_of(onsets_of(recognised->Ok_0@), pcm16k.len() * 62_500),
            Err(e) => if pcm16k.len() == 0 {
                e@ == "no audio to transcribe"@
            } else if !audible(pcm16k@) {
                e@ == "audio contains non-finite samples"@
            } else {
                recognised == Err::<Vec<Segment>, String>(e)
            },
        },
{
    match check_audio(pcm16k) {
        Err(e) => Err(e),
        Ok(_) => match recognised {
            Err(e) => Err(e),
            Ok(segments) => Ok(words(&onsets(&segments), pcm16k.len())),
        },
    }
}

/// Every word lasts at least `MIN_WORD` and at most `MAX_WORD`, and the last one
/// at most `LAST_WORD`.
pub proof fn law_word_span(onsets: Seq<OnsetView>, audio: int, i: int)
    requires
        0 <= i < onsets.len(),
    ensures
        words_of(onsets, audio)[i].start + MIN_WORD <= words_of(onsets, audio)[i].end,
        words_of(onsets, audio)[i].end <= words_of(onsets, audio)[i].start + MAX_WORD,
        i + 1 == onsets.len() ==> words_of(onsets, audio)[i].end <= words_of(onsets, audio)[i].start
            + LAST_WORD,
{
}

/// A word ends where the next one starts when that is between `MIN_WORD` and
/// `MAX_WORD` behind its own start, and before the next one starts when that is
/// later.
pub proof fn law_words_follow_each_other(onsets: Seq<OnsetView>, audio: int, i: int)
    requires
        0 <= i,
        i + 1 < onsets.len(),
        words_of(onsets, audio)[i].start + MIN_WORD <= words_of(onsets, audio)[i + 1].start,
    ensures
        words_of(onsets, audio)[i].end <= words_of(onsets, audio)[i + 1].start,
        words_of(onsets, audio)[i + 1].start <= words_of(onsets, audio)[i].start + MAX_WORD
            ==> words_of(onsets, audio)[i].end == words_of(onsets, audio)[i + 1].start,
        words_of(onsets, audio)[i + 1].start > words_of(onsets, audio)[i].start + MAX_WORD
            ==> words_of(onsets, audio)[i].end == words_of(onsets, audio)[i].start + MAX_WORD,
{
}

/// The onsets `delay` centiseconds later.
pub open spec fn delayed(onsets: Seq<OnsetView>, delay: int) -> Seq<OnsetView> {
    onsets.map_values(|o: OnsetView| OnsetView { centis: o.centis + delay, text: o.text })
}

/// Audio that starts `delay` centiseconds later has the same words, each with
/// its span that much later, however long the delay.
pub proof fn law_delay_moves_words(onsets: Seq<OnsetView>, audio: int, delay: int)
    ensures
        words_of(delayed(onsets, delay), audio + delay * CENTISECOND) == words_of(
            onsets,
            audio,
        ).map_values(
            |w: WordView|
                WordView {
                    start: w.start + delay * CENTISECOND,
                    end: w.end + delay * CENTISECOND,
                    text: w.text,
                },
        ),
{
}

/// Only spoken words come into the transcript: each text is that of a segment
/// without the white space around it, not empty, not enclosed as an annotation,
/// and not punctuation alone.
pub proof fn law_transcript_is_speech(segments: Seq<Segment>, i: int)
    requires
        0 <= i < onsets_of(segments).len(),
    ensures
        spoken(onsets_of(segments)[i].text),
        exists|k: int|
            0 <= k < segments.len() && onsets_of(segments)[i].text == trimmed(
                (#[trigger] segments[k]).text@,
            ) && onsets_of(segments)[i].centis == onset_time(segments[k]),
    decreases segments.len(),
{
    let rest = segments.drop_last();
    if i < onsets_of(rest).len() {
        law_transcript_is_speech(rest, i);
        let k = choose|k: int|
            0 <= k < rest.len() && onsets_of(rest)[i].text == trimmed((#[trigger] rest[k]).text@)
                && onsets_of(rest)[i].centis == onset_time(rest[k]);
        assert(segments[k] == rest[k]);
    } else {
        assert(segments[segments.len() - 1] == segments.last());
    }
}

/// A spoken segment is in the transcript.
pub proof fn law_speech_is_in_transcript(segments: Seq<Segment>, k: int)
    requires
        0 <= k < segments.len(),
        spoken(trimmed(segments[k].text@)),
    ensures
        onsets_of(segments).contains(
            OnsetView {
                centis: onset_time(segments[k]) as int,
                text: trimmed(segments[k].text@),
            },
        ),
    decreases segments.len(),
{
    let rest = segments.drop_last();
    let o = OnsetView { centis: onset_time(segments[k]) as int, text: trimmed(segments[k].text@) };
    if k < rest.len() {
        law_speech_is_in_transcript(rest, k);
        assert(segments[k] == rest[k]);
        let j = choose|j: int| 0 <= j < onsets_of(rest).len() && onsets_of(rest)[j] == o;
        assert(onsets_of(segments)[j] == o);
    } else {
        assert(onsets_of(segments)[onsets_of(rest).len() as int] == o);
    }
}

/// The transcript keeps the order of the segments: what is recognised first
/// comes first, and nothing later changes it.
pub proof fn law_transcript_in_order(first: Seq<Segment>, rest_segments: Seq<Segment>)
    ensures
        onsets_of(first + rest_segments) == onsets_of(first) + onsets_of(rest_segments),
    decreases rest_segments.len(),
{
    if rest_segments.len() == 0 {
        assert(first + rest_segments == first);
    } else {
        law_transcript_in_order(first, rest_segments.drop_last());
        assert((first + rest_segments).drop_last() == first + rest_segments.drop_last());
    }
}

/// The earliest time is one of the times, and none that is aligned is earlier;
/// it is `i64::MAX` only where no aligned time is less.
pub proof fn law_earliest(times: Seq<i64>, k: int)
    requires
        0 <= k < times.len(),
    ensures
        times[k] >= 0 ==> earliest_of(times) <= times[k],
        earliest_of(times) != i64::MAX ==> times.contains(earliest_of(times)),
        0 <= earliest_of(times),
    decreases times.len(),
{
    let rest = times.drop_last();
    if rest.len() > 0 {
        if k < rest.len() {
            law_earliest(rest, k);
        } else {
            law_earliest(rest, 0);
        }
        if earliest_of(times) == earliest_of(rest) && earliest_of(rest) != i64::MAX {
            let j = choose|j: int| 0 <= j < rest.len() && rest[j] == earliest_of(rest);
            assert(times[j] == earliest_of(times));
        }
    }
    if earliest_of(times) == times.last() {
        assert(times[times.len() - 1] == earliest_of(times));
    }
    assert(earliest_of(rest) == i64::MAX || rest.len() > 0);
}

/// A word starts where the audio says: as soon as a token is aligned, the onset is
/// one of the aligned times, none that is aligned is earlier, and the start that
/// whisper guessed for the segment has no part in it.
pub proof fn law_onset_is_aligned(s: Segment, guess: i64, k: int)
    requires
        0 <= k < s.token_times.len(),
        0 <= s.token_times[k] < i64::MAX,
    ensures
        s.token_times@.contains(onset_time(s)),
        0 <= onset_time(s) <= s.token_times[k],
        forall|j: int|
            0 <= j < s.token_times.len() && #[trigger] s.token_times[j] >= 0 ==> onset_time(s)
                <= s.token_times[j],
        onset_time(Segment { start: guess, ..s }) == onset_time(s),
{
    law_earliest(s.token_times@, k);
    assert forall|j: int| 0 <= j < s.token_times.len() && #[trigger] s.token_times[j] >= 0 implies
        onset_time(s) <= s.token_times[j] by {
        law_earliest(s.token_times@, j);
    }
}

/// Only where no token is aligned does a word start where whisper puts the segment.
pub proof fn law_onset_without_alignment(s: Segment)
    requires
        forall|j: int|
            0 <= j < s.token_times.len() ==> #[trigger] s.token_times[j] < 0 || s.token_times[j]
                == i64::MAX,
    ensures
        onset_time(s) == s.start,
{
    if s.token_times.len() > 0 {
        let least = earliest_of(s.token_times@);
        law_earliest(s.token_times@, 0);
        if least != i64::MAX {
            let j = choose|j: int| 0 <= j < s.token_times.len() && s.token_times@[j] == least;
            assert(s.token_times[j] >= 0);
        }
    }
}

/// A segment is one word or none. It is none if nothing but white space is in it, if
/// its text is enclosed in asterisks or brackets, or if no letter or digit occurs in
/// it. Else the word is that text, and starts at an aligned time where there is one,
/// and where whisper puts the segment where there is none.
pub proof fn law_segment_is_word(s: Segment)
    ensures
        ({
            let text = trimmed(s.text@);
            let none = text.len() == 0 || (text[0] == '*' && text.last() == '*') || (text[0] == '['
                && text.last() == ']') || (text[0] == '(' && text.last() == ')') || !(exists|k: int|
                0 <= k < text.len() && alphanumeric(#[trigger] text[k]));
            let found = onsets_of(seq![s]);
            if none {
                found.len() == 0
            } else {
                &&& found.len() == 1
                &&& found[0].text == text
                &&& found[0].centis == s.start || exists|j: int|
                    0 <= j < s.token_times.len() && 0 <= #[trigger] s.token_times[j] < i64::MAX
                        && s.token_times[j] == found[0].centis
                &&& forall|j: int|
                    0 <= j < s.token_times.len() && 0 <= #[trigger] s.token_times[j] < i64::MAX
                        ==> 0 <= found[0].centis <= s.token_times[j]
                        && s.token_times@.contains(found[0].centis as i64)
                &&& (forall|j: int|
                    0 <= j < s.token_times.len() ==> #[trigger] s.token_times[j] < 0)
                    ==> found[0].centis == s.start
            }
        }),
{
    let one = seq![s];
    let text = trimmed(s.text@);
    assert(one.drop_last() == Seq::<Segment>::empty());
    assert(one.last() == s);
    reveal_with_fuel(onsets_of, 2);
    if spoken(text) {
        let found = onsets_of(one);
        assert forall|j: int|
            0 <= j < s.token_times.len() && 0 <= #[trigger] s.token_times[j]
                < i64::MAX implies 0 <= found[0].centis <= s.token_times[j]
            && s.token_times@.contains(found[0].centis as i64) by {
            law_onset_is_aligned(s, 0, j);
        }
        if forall|j: int|
            0 <= j < s.token_times.len() ==> !(0 <= #[trigger] s.token_times[j] < i64::MAX) {
            law_onset_without_alignment(s);
        } else {
            let j = choose|j: int|
                0 <= j < s.token_times.len() && 0 <= #[trigger] s.token_times[j] < i64::MAX;
            law_onset_is_aligned(s, 0, j);
            let i = choose|i: int|
                0 <= i < s.token_times.len() && s.token_times@[i] == onset_time(s);
            assert(s.token_times[i] == found[0].centis);
        }
    }
}

/// The time of a word, in nanoseconds. It starts at its onset, which is told in
/// hundredths of a second. It ends where the next one starts, but no sooner than 10
/// milliseconds and no later than a second and a half behind its own start; the last
/// one ends after half a second or with the audio, but again no sooner than 10
/// milliseconds.
pub proof fn law_word_times(onsets: Seq<OnsetView>, audio: int, i: int)
    requires
        0 <= i < onsets.len(),
    ensures
        words_of(onsets, audio).len() == onsets.len(),
        ({
            let word = words_of(onsets, audio)[i];
            &&& word.text == onsets[i].text
            &&& word.start == onsets[i].centis * 10_000_000
            &&& if i + 1 < onsets.len() {
                let next = words_of(onsets, audio)[i + 1].start;
                &&& next < word.start + 10_000_000 ==> word.end == word.start + 10_000_000
                &&& word.start + 10_000_000 <= next <= word.start + 1_500_000_000 ==> word.end
                    == next
                &&& next > word.start + 1_500_000_000 ==> word.end == word.start + 1_500_000_000
            } else {
                &&& audio < word.start + 10_000_000 ==> word.end == word.start + 10_000_000
                &&& word.start + 10_000_000 <= audio <= word.start + 500_000_000 ==> word.end
                    == audio
                &&& audio > word.start + 500_000_000 ==> word.end == word.start + 500_000_000
            }
        }),
{
}

/// Sixteen thousand samples are a second of audio.
pub proof fn law_sample_time()
    ensures
        16_000 * SAMPLE_16K == 1_000_000_000,
{
}

/// Text in a pair of asterisks or brackets is no speech, whatever it says; text that
/// starts with anything else may be.
pub proof fn law_enclosed_is_no_speech(inner: Seq<char>)
    ensures
        non_speech(seq!['*'] + inner + seq!['*']),
        non_speech(seq!['['] + inner + seq![']']),
        non_speech(seq!['('] + inner + seq![')']),
        inner.len() > 0 && inner[0] != '*' && inner[0] != '[' && inner[0] != '(' ==> !non_speech(
            inner,
        ),
        inner.len() > 0 && inner.last() != '*' && inner.last() != ']' && inner.last() != ')'
            ==> !non_speech(inner),
{
    let a = seq!['*'] + inner + seq!['*'];
    let b = seq!['['] + inner + seq![']'];
    let c = seq!['('] + inner + seq![')'];
    assert(a.first() == '*' && a.last() == '*');
    assert(b.first() == '[' && b.last() == ']');
    assert(c.first() == '(' && c.last() == ')');
}

/// Audio can be transcribed exactly if no sample has the exponent of infinity and of
/// what is no number, all of whose bits are set.
pub proof fn law_audible(pcm: Seq<u32>)
    ensures
        audible(pcm) <==> forall|k: int|
            0 <= k < pcm.len() ==> (#[trigger] pcm[k] as int / 0x80_0000) % 0x100 != 0xff,
{
    assert forall|k: int| 0 <= k < pcm.len() implies (finite(#[trigger] pcm[k]) <==> (pcm[k] as int
        / 0x80_0000) % 0x100 != 0xff) by {}
}

/// The weights and the alignment heads go together: those of the three models are
/// told apart.
pub proof fn law_preset_fits_model(kind: WhisperModelKind)
    ensures
        kind is Base <==> dtw_preset_of(kind) is BaseEn,
        kind is Small <==> dtw_preset_of(kind) is SmallEn,
        kind is Medium <==> dtw_preset_of(kind) is MediumEn,
{
}

/// The alignment heads that whisper is told to use.
#[derive(Clone, Copy, PartialEq, Eq, Structural, Debug)]
pub enum DtwPreset {
    BaseEn,
    SmallEn,
    MediumEn,
}

/// The alignment preset of the weights of `kind`, which are English-only.
pub open spec fn dtw_preset_of(kind: WhisperModelKind) -> DtwPreset {
    match kind {
        WhisperModelKind::Base => DtwPreset::BaseEn,
        WhisperModelKind::Small => DtwPreset::SmallEn,
        WhisperModelKind::Medium => DtwPreset::MediumEn,
    }
}

/// The alignment preset of the weights of `kind`.
pub fn dtw_preset(kind: WhisperModelKind) -> (r: DtwPreset)
    ensures
        r == dtw_preset_of(kind),
{
    match kind {
        WhisperModelKind::Base => DtwPreset::BaseEn,
        WhisperModelKind::Small => DtwPreset::SmallEn,
        WhisperModelKind::Medium => DtwPreset::MediumEn,
    }
}

/// How whisper is run.
#[derive(Debug)]
pub struct Settings {
    pub preset: DtwPreset,
    pub language: &'static str,
    /// How many candidates greedy sampling draws.
    pub best_of: i32,
    pub threads: i32,
    /// Per-token times, and segments of one word each.
    pub token_timestamps: bool,
    pub max_len: i32,
    pub split_on_word: bool,
}

/// The settings for the weights of `kind` on a machine with `available`
/// threads: English, one candidate, one word to a segment, and at most eight
/// threads, four where the number is not known.
pub fn settings(kind: WhisperModelKind, available: Option<usize>) -> (r: Settings)
    ensures
        r.preset == dtw_preset_of(kind),
        r.language@ == "en"@,
        r.best_of == 1,
        r.threads == match available {
            Some(n) => lesser(n as int, 8),
            None => 4,
        },
        r.token_timestamps && r.split_on_word && r.max_len == 1,
{
    let threads: i32 = match available {
        Some(n) => if n < 8 {
            n as i32
        } else {
            8
        },
        None => 4,
    };
    Settings {
        preset: dtw_preset(kind),
        language: "en",
        best_of: 1,
        threads,
        token_timestamps: true,
        max_len: 1,
        split_on_word: true,
    }
}

/// The message that reports that whisper is through with `percent` of the audio.
pub fn progress_message(percent: i32) -> (r: WorkerMsg)
    ensures
        r matches WorkerMsg::TranscribeProgress(f) && f.wf() && f.billionths == 10_000_000 * (
        if percent < 0 {
            0
        } else {
            lesser(percent as int, 100)
        }),
{
    let held: u32 = if percent < 0 {
        0
    } else if percent > 100 {
        100
    } else {
        percent as u32
    };
    WorkerMsg::TranscribeProgress(Fraction { billionths: held * 10_000_000 })
}

/// The message that reports how a transcription ended.
pub fn transcribe_message(result: Result<Vec<Word>, String>) -> (r: WorkerMsg)
    ensures
        match result {
            Ok(words) => r == WorkerMsg::TranscribeDone(words),
            Err(e) => r matches WorkerMsg::TranscribeFailed(m) && m@ == "Transcription failed: "@
                + e@,
        },
{
    match result {
        Ok(words) => WorkerMsg::TranscribeDone(words),
        Err(e) => WorkerMsg::TranscribeFailed(joined("Transcription failed: ", e.as_str())),
    }
}

} // verus!
