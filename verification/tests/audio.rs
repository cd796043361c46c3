use clip_extractor::audio::{
    decode, decode_fallback, decode_message, decode_symphonia, decode_with_ffmpeg, duration, envelope,
    ffmpeg_decode_args, on_decoded, on_packet, pick_track, resampled_len, resampling,
    samples_from_le_bytes, tap, DecodeStep, DecoderEvent, DecoderStep, PacketEvent, PacketStep, Tap,
    Track,
};
use clip_extractor::model::WorkerMsg;

fn bits(v: &[f32]) -> Vec<u32> {
    v.iter().map(|s| s.to_bits()).collect()
}

fn peaks(mono: &[f32], buckets: usize) -> Vec<u32> {
    let buckets = buckets.min(mono.len());
    let chunk = mono.len() / buckets;
    let mut out = Vec::new();
    for b in 0..buckets {
        let start = b * chunk;
        let end = if b + 1 == buckets { mono.len() } else { start + chunk };
        out.push(mono[start..end].iter().fold(0.0f32, |m, &s| m.max(s.abs())).to_bits());
    }
    out
}

#[test]
fn envelope_is_the_peak_of_each_bucket() {
    let signal: Vec<f32> = (0..1003).map(|i| ((i * 37 % 211) as f32 - 105.0) / 100.0).collect();
    for n in [1, 2, 7, 100, 1002, 1003, 2000] {
        assert_eq!(envelope(&bits(&signal), n), peaks(&signal, n), "{n} buckets");
    }
    let odd = [f32::NAN, -0.0, -3.5, f32::NEG_INFINITY, f32::NAN, 1e-40];
    assert_eq!(envelope(&bits(&odd), 2), peaks(&odd, 2));
    assert_eq!(envelope(&bits(&[f32::NAN]), 5), bits(&[0.0]));
    assert_eq!(envelope(&Vec::new(), 0), Vec::<u32>::new());
}

#[test]
fn quiet_and_loud_waveforms() {
    let mut signal = vec![0u32; 5_000];
    assert!(envelope(&signal, 2_000).iter().all(|&p| p == 0));
    signal[4_321] = (-0.125f32).to_bits();
    let shown = envelope(&signal, 2_000);
    assert_eq!(shown.len(), 2_000);
    assert_eq!(shown.iter().filter(|&&p| p > 0).count(), 1);
}

#[test]
fn samples_from_bytes() {
    let values = [0.0f32, -1.5, f32::MAX, 1e-30];
    let mut bytes: Vec<u8> = Vec::new();
    for v in values {
        bytes.extend_from_slice(&v.to_le_bytes());
    }
    bytes.push(7);
    assert_eq!(samples_from_le_bytes(&bytes), bits(&values));
}

#[test]
fn durations() {
    assert_eq!(duration(16_000, 16_000), 1_000_000_000);
    assert_eq!(duration(1, 44_100), 22_675);
    assert_eq!(duration(0, 1), 0);
}

#[test]
fn resampled_lengths_track_the_duration() {
    for rate in [8_000u32, 11_025, 22_050, 44_100, 48_000, 96_000] {
        for len in [1usize, 2, 3, 100, 44_100, 1_234_567] {
            let expected = (((len as f64) * 16_000.0 / rate as f64).round() as usize).max(1);
            assert_eq!(resampled_len(len, rate), expected, "{len} at {rate}");
        }
    }
}

#[test]
fn taps_when_there_are_too_many_samples() {
    assert_eq!(tap(0, 9, 48_000), Tap::Average { from: 0, to: 3 });
    assert_eq!(tap(1, 9, 48_000), Tap::Average { from: 3, to: 6 });
    assert_eq!(tap(2, 8, 48_000), Tap::Average { from: 6, to: 8 });
    assert_eq!(tap(9, 8, 48_000), Tap::Average { from: 7, to: 8 });
    assert_eq!(tap(1, 100, 44_100), Tap::Average { from: 2, to: 5 });
}

#[test]
fn taps_when_there_are_too_few_samples() {
    assert_eq!(tap(0, 4, 8_000), Tap::Blend { a: 0, b: 1, share: 0 });
    assert_eq!(tap(1, 4, 8_000), Tap::Blend { a: 0, b: 1, share: 8_000 });
    assert_eq!(tap(6, 4, 8_000), Tap::Blend { a: 3, b: 3, share: 0 });
    assert_eq!(tap(99, 4, 8_000), Tap::Blend { a: 3, b: 3, share: 8_000 });
}

#[test]
fn resampling_plans() {
    assert_eq!(resampling(4, 16_000), None);
    assert_eq!(resampling(0, 8_000), None);
    assert_eq!(resampling(0, 0), None);
    assert_eq!(
        resampling(7, 48_000),
        Some(vec![Tap::Average { from: 0, to: 3 }, Tap::Average { from: 3, to: 6 }])
    );
    let plan = resampling(1_000, 11_025).unwrap();
    assert_eq!(plan.len(), resampled_len(1_000, 11_025));
    for (i, t) in plan.iter().enumerate() {
        assert_eq!(*t, tap(i, 1_000, 11_025));
    }
}

#[test]
fn taps_name_samples_that_are_there() {
    for rate in [1u32, 8_000, 15_999, 16_001, 48_000, 192_000] {
        for len in [1usize, 2, 7, 500] {
            let mut i = 0;
            while i < resampled_len(len, rate).min(5_000) {
                match tap(i, len, rate) {
                    Tap::Average { from, to } => assert!(from < to && to <= len),
                    Tap::Blend { a, b, share } => {
                        assert!(a <= b && b < len && b <= a + 1 && share < 16_000)
                    }
                }
                i += 1;
            }
        }
    }
}

#[test]
fn averages_meet() {
    let mut i = 0;
    while i < 16_000 {
        match (tap(i, 44_200, 44_100), tap(i + 1, 44_200, 44_100)) {
            (Tap::Average { to, .. }, Tap::Average { from, .. }) => assert_eq!(to, from),
            _ => panic!("not an average"),
        }
        i += 1;
    }
}

#[test]
fn first_decodable_track() {
    let none = Track { id: 1, decodable: false, sample_rate: Some(8_000) };
    let plain = Track { id: 2, decodable: true, sample_rate: None };
    let later = Track { id: 3, decodable: true, sample_rate: Some(48_000) };
    let picked = pick_track(&vec![none, plain, later]).unwrap();
    assert_eq!((picked.index, picked.id, picked.sample_rate), (1, 2, 44_100));
    assert_eq!(pick_track(&vec![none, later]).unwrap().sample_rate, 48_000);
    assert_eq!(pick_track(&vec![none]).unwrap_err(), "no decodable audio track found");
}

#[test]
fn packets_and_their_audio() {
    assert!(matches!(on_packet(PacketEvent::Packet { track_id: 2 }, 2), PacketStep::Decode));
    assert!(matches!(on_packet(PacketEvent::Packet { track_id: 1 }, 2), PacketStep::Skip));
    assert!(matches!(on_packet(PacketEvent::EndOfFile, 2), PacketStep::Finish));
    assert!(matches!(on_packet(PacketEvent::ResetRequired, 2), PacketStep::Finish));
    assert!(matches!(on_packet(PacketEvent::Failed("x".to_owned()), 2), PacketStep::Fail(e) if e == "x"));
    assert!(matches!(on_decoded(DecoderEvent::Decoded { channels: 0 }), DecoderStep::Mix { channels: 1 }));
    assert!(matches!(on_decoded(DecoderEvent::Decoded { channels: 2 }), DecoderStep::Mix { channels: 2 }));
    assert!(matches!(on_decoded(DecoderEvent::Corrupt), DecoderStep::Skip));
    assert!(matches!(on_decoded(DecoderEvent::Failed("y".to_owned())), DecoderStep::Fail(e) if e == "y"));
}

#[test]
fn decodes_what_ffmpeg_writes() {
    let mut bytes: Vec<u8> = Vec::new();
    for v in [0.25f32, -0.5] {
        bytes.extend_from_slice(&v.to_le_bytes());
    }
    let r = decode_with_ffmpeg(true, "", &bytes).unwrap();
    assert_eq!(r.pcm16k, bits(&[0.25, -0.5]));
    assert_eq!(r.waveform, bits(&[0.25, 0.5]));
    assert_eq!(r.duration, 125_000);
    assert_eq!(
        decode_with_ffmpeg(true, "", &vec![1, 2, 3]).unwrap_err(),
        "ffmpeg produced no audio samples"
    );
    assert_eq!(
        decode_with_ffmpeg(false, " bad file\n", &bytes).unwrap_err(),
        "ffmpeg decode failed: bad file"
    );
    assert_eq!(
        ffmpeg_decode_args("in.opus").join(" "),
        "-v error -i in.opus -vn -ac 1 -ar 16000 -f f32le -"
    );
}

#[test]
fn falls_back_to_ffmpeg() {
    assert_eq!(decode_symphonia(Vec::new(), 44_100, Vec::new()).unwrap_err(), "decoded zero audio samples");
    let done = decode_symphonia(bits(&[0.5, -0.75]), 32_000, bits(&[0.5])).unwrap();
    assert_eq!(done.duration, 62_500);
    assert_eq!(done.waveform, bits(&[0.5, 0.75]));
    assert_eq!(done.pcm16k, bits(&[0.5]));
    assert!(matches!(decode(Ok(done)), DecodeStep::Done(_)));
    assert!(matches!(decode(Err("no opus".to_owned())), DecodeStep::Fallback(e) if e == "no opus"));
    assert_eq!(
        decode_fallback("no opus", Err("gone".to_owned())).unwrap_err(),
        "symphonia: no opus; ffmpeg: gone"
    );
    let again = decode_symphonia(bits(&[1.0]), 16_000, Vec::new());
    assert_eq!(decode_fallback("no opus", again).unwrap().pcm16k, bits(&[1.0]));
}

#[test]
fn decode_messages() {
    let done = decode_symphonia(bits(&[0.5]), 16_000, Vec::new());
    match decode_message(done) {
        WorkerMsg::DecodeDone { samples, duration, pcm16k } => {
            assert_eq!(samples, bits(&[0.5]));
            assert_eq!(duration, 62_500);
            assert_eq!(*pcm16k, bits(&[0.5]));
        }
        _ => panic!("not decoded"),
    }
    assert!(matches!(
        decode_message(Err("e".to_owned())),
        WorkerMsg::DecodeFailed(m) if m == "Decode failed: e"
    ));
}
