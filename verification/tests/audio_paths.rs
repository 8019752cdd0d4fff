use std::io::Cursor;

use cyanrip_rs::audio::process::{
    hdcd_input_bytes, hdcd_output_samples, passthrough_pcm, validate_deemphasis_input,
    validate_hdcd_input, ProcessingPath, TrackProcessingError, TrackProcessingOptions,
};
use cyanrip_rs::audio::{flac, wav, PcmInputError, PcmSpec, PcmTrackData, ProcessedPcmTrackData};

fn sample_track() -> PcmTrackData {
    PcmTrackData {
        spec: PcmSpec {
            channels: 2,
            sample_rate: 44_100,
            bits_per_sample: 16,
        },
        interleaved_i16_samples: vec![
            0, 0, 500, -500, 1500, -1500, 3000, -3000, 4500, -4500, 2000, -2000, 1000, -1000, 250,
            -250,
        ],
    }
}

fn sample_track_stereo() -> ProcessedPcmTrackData {
    ProcessedPcmTrackData {
        spec: PcmSpec {
            channels: 2,
            sample_rate: 44_100,
            bits_per_sample: 16,
        },
        interleaved_i32_samples: vec![0, 1000, -1000, 32767, -32768, 42],
    }
}

#[test]
fn passthrough_when_no_processing_is_enabled() {
    let options = TrackProcessingOptions {
        decode_hdcd: false,
        deemphasis: true,
        force_deemphasis: false,
        track_has_preemphasis: false,
    };
    assert_eq!(options.selected_processing_path(), ProcessingPath::Unprocessed);

    let input = sample_track();
    let output = passthrough_pcm(&input);
    assert_eq!(output.spec, input.spec);
    let expected: Vec<i32> = input
        .interleaved_i16_samples
        .iter()
        .map(|&sample| i32::from(sample))
        .collect();
    assert_eq!(output.interleaved_i32_samples, expected);
}

#[test]
fn hdcd_path_selected_when_hdcd_is_requested() {
    let options = TrackProcessingOptions {
        decode_hdcd: true,
        deemphasis: true,
        force_deemphasis: false,
        track_has_preemphasis: false,
    };
    assert_eq!(options.selected_processing_path(), ProcessingPath::Hdcd);

    let input = sample_track();
    assert!(validate_hdcd_input(&input).is_ok());
    let bytes = hdcd_input_bytes(&input.interleaved_i16_samples);
    assert_eq!(bytes.len(), input.interleaved_i16_samples.len() * 4);
    let back = hdcd_output_samples(&bytes, input.spec.channels).expect("whole frames decode");
    assert_eq!(back.len(), input.interleaved_i16_samples.len());
    let expected: Vec<i32> = input
        .interleaved_i16_samples
        .iter()
        .map(|&s| {
            let w = i32::from(s) * 65536;
            let rounded = if w >= 0 { w + 0x80 } else { w - 0x80 };
            rounded >> 8
        })
        .collect();
    assert_eq!(back, expected);
}

#[test]
fn applies_force_deemphasis_without_track_flag() {
    let options = TrackProcessingOptions {
        decode_hdcd: false,
        deemphasis: false,
        force_deemphasis: true,
        track_has_preemphasis: false,
    };
    assert!(options.should_apply_deemphasis());
    assert_eq!(options.selected_processing_path(), ProcessingPath::Deemphasis);
    assert!(validate_deemphasis_input(&sample_track()).is_ok());
}

#[test]
fn no_deemphasis_disables_automatic_deemphasis_path() {
    let options = TrackProcessingOptions {
        decode_hdcd: false,
        deemphasis: false,
        force_deemphasis: false,
        track_has_preemphasis: true,
    };

    assert_eq!(options.selected_processing_path(), ProcessingPath::Unprocessed);
}

#[test]
fn force_deemphasis_overrides_no_deemphasis() {
    let options = TrackProcessingOptions {
        decode_hdcd: false,
        deemphasis: false,
        force_deemphasis: true,
        track_has_preemphasis: false,
    };

    assert_eq!(options.selected_processing_path(), ProcessingPath::Deemphasis);
}

#[test]
fn hdcd_has_precedence_over_deemphasis_paths() {
    let options = TrackProcessingOptions {
        decode_hdcd: true,
        deemphasis: false,
        force_deemphasis: true,
        track_has_preemphasis: true,
    };

    assert_eq!(options.selected_processing_path(), ProcessingPath::Hdcd);
}

#[test]
fn automatic_deemphasis_follows_track_flag() {
    let options = TrackProcessingOptions {
        decode_hdcd: false,
        deemphasis: true,
        force_deemphasis: false,
        track_has_preemphasis: true,
    };
    assert_eq!(options.selected_processing_path(), ProcessingPath::Deemphasis);
}

#[test]
fn hdcd_input_widens_samples_to_the_top_of_a_word() {
    assert_eq!(hdcd_input_bytes(&[1]), vec![0, 0, 1, 0]);
    assert_eq!(hdcd_input_bytes(&[-1]), vec![0, 0, 0xFF, 0xFF]);
}

#[test]
fn hdcd_output_rounds_and_rejects_misaligned_output() {
    // 0x0000_0180 rounds up to 0x200 and narrows to 2.
    assert_eq!(hdcd_output_samples(&[0x80, 0x01, 0, 0], 1).unwrap(), vec![2]);
    assert!(matches!(
        hdcd_output_samples(&[0, 0, 0], 1),
        Err(TrackProcessingError::BackendFailure(_))
    ));
    assert!(matches!(
        hdcd_output_samples(&[0, 0, 0, 0], 2),
        Err(TrackProcessingError::BackendFailure(_))
    ));
}

#[test]
fn processing_rejects_non_16_bit_input() {
    let mut input = sample_track();
    input.spec.bits_per_sample = 24;
    assert_eq!(
        validate_hdcd_input(&input),
        Err(TrackProcessingError::InvalidSpec(
            "hdcd path currently supports 16-bit PCM input only"
        ))
    );
    assert_eq!(
        validate_deemphasis_input(&input),
        Err(TrackProcessingError::InvalidSpec(
            "deemphasis currently supports 16-bit PCM only"
        ))
    );
}

#[test]
fn renders_valid_wav_bytes_that_roundtrip() {
    let track = sample_track_stereo();
    let bytes = wav::render_wav_bytes(&track).expect("wav bytes should render");
    assert!(bytes.starts_with(b"RIFF"));
    assert!(bytes.windows(4).any(|w| w == b"WAVE"));

    let mut reader = hound::WavReader::new(Cursor::new(bytes)).expect("reader should parse");
    let spec = reader.spec();
    assert_eq!(spec.channels, 2);
    assert_eq!(spec.sample_rate, 44_100);
    assert_eq!(spec.bits_per_sample, 16);
    assert_eq!(spec.sample_format, hound::SampleFormat::Int);

    let samples: Vec<i16> = reader
        .samples::<i16>()
        .map(|x| x.expect("sample decode should work"))
        .collect();
    let expected: Vec<i16> = track
        .interleaved_i32_samples
        .iter()
        .map(|&sample| sample as i16)
        .collect();
    assert_eq!(samples, expected);
}

#[test]
fn rejects_unsupported_bit_depth() {
    let mut track = sample_track_stereo();
    track.spec.bits_per_sample = 20;
    let err = wav::render_wav_bytes(&track).expect_err("must reject unsupported bit depth");
    assert!(err.message().contains("16-bit and 24-bit"));
}

#[test]
fn renders_24_bit_wav_without_truncating_container_depth() {
    let mut track = sample_track_stereo();
    track.spec.bits_per_sample = 24;
    track.interleaved_i32_samples =
        vec![0, 256, -256, 65_536, -65_536, 8_388_607, -8_388_608, 1_024];

    let bytes = wav::render_wav_bytes(&track).expect("24-bit wav bytes should render");
    let mut reader = hound::WavReader::new(Cursor::new(bytes)).expect("reader should parse");
    let spec = reader.spec();
    assert_eq!(spec.bits_per_sample, 24);
    let samples: Vec<i32> = reader
        .samples::<i32>()
        .map(|x| x.expect("24-bit sample decode should work"))
        .collect();
    assert_eq!(samples, track.interleaved_i32_samples);
}

#[test]
fn rejects_non_divisible_interleaved_samples() {
    let mut track = sample_track_stereo();
    track.interleaved_i32_samples.push(7);
    let err = wav::render_wav_bytes(&track).expect_err("must reject misaligned channels");
    assert!(err.message().contains("not divisible"));
    assert_eq!(
        err,
        wav::WavWriteError::ChannelAlignment {
            channels: 2,
            sample_count: 7
        }
    );
}

fn flac_track_stereo() -> ProcessedPcmTrackData {
    ProcessedPcmTrackData {
        spec: PcmSpec {
            channels: 2,
            sample_rate: 44_100,
            bits_per_sample: 16,
        },
        interleaved_i32_samples: vec![
            0, 1000, -1000, 32767, -32768, 42, 120, -120, 345, -345, 789, -789, 2000, -2000,
            1111, -1111, 4321, -4321, 99, -99, 12, -12, 34, -34, 56, -56, 78, -78, 90, -90,
            321, -321,
        ],
    }
}

#[test]
fn renders_valid_flac_bytes_that_roundtrip() {
    let track = flac_track_stereo();
    let bytes = flac::render_flac_bytes(&track).expect("flac bytes should render");
    assert!(bytes.starts_with(b"fLaC"));

    let mut reader = claxon::FlacReader::new(Cursor::new(bytes)).expect("reader should parse");
    let info = reader.streaminfo();
    assert_eq!(info.channels, 2);
    assert_eq!(info.sample_rate, 44_100);
    assert_eq!(info.bits_per_sample, 16);

    let samples: Vec<i32> = reader
        .samples()
        .map(|x| x.expect("sample decode should work"))
        .collect();
    let expected: Vec<i32> = track.interleaved_i32_samples.to_vec();
    assert_eq!(samples, expected);
}

#[test]
fn flac_rejects_unsupported_bit_depth() {
    let mut track = flac_track_stereo();
    track.spec.bits_per_sample = 20;
    let err = flac::render_flac_bytes(&track).expect_err("must reject unsupported bit depth");
    assert!(err.message().contains("16-bit and 24-bit"));
}

#[test]
fn flac_rejects_non_divisible_interleaved_samples() {
    let mut track = flac_track_stereo();
    track.interleaved_i32_samples.push(7);
    let err = flac::render_flac_bytes(&track).expect_err("must reject misaligned channels");
    assert!(err.message().contains("not divisible"));
}

#[test]
fn writers_accept_valid_input_and_reject_out_of_range_samples() {
    let track = sample_track_stereo();
    assert!(wav::validate_input(&track).is_ok());

    let mut loud = sample_track_stereo();
    loud.interleaved_i32_samples[0] = 40_000;
    assert_eq!(
        wav::validate_input(&loud),
        Err(PcmInputError::InvalidSpec(
            "PCM sample value out of range for declared bit depth"
        ))
    );
    assert_eq!(wav::narrow_to_i16(40_000), 32767);
    assert_eq!(wav::narrow_to_i16(-40_000), -32768);
    assert_eq!(wav::narrow_to_i16(-5), -5);
}
