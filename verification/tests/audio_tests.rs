//! Tests for the audio processor and the resampler position arithmetic.

use virtual_audio_cable::audio::Resampler;
use virtual_audio_cable::{AudioFormat, AudioProcessor};

#[test]
fn test_audio_processor_passthrough() {
    let processor = AudioProcessor::new(48000, 48000, 2, AudioFormat::F32LE);
    let input = vec![1.0, -1.0, 0.5, -0.5];
    let mut output = vec![0.0; 4];

    let result = processor.process(&input, &mut output).unwrap();
    assert_eq!(result, 4);
    assert_eq!(output, input);
}

#[test]
fn test_audio_processor_short_output() {
    // Pass-through copies only what the output block can hold.
    let processor = AudioProcessor::new(44100, 44100, 1, AudioFormat::S16LE);
    let input = vec![1.0, 2.0, 3.0, 4.0, 5.0];
    let mut output = vec![0.0; 3];

    let result = processor.process(&input, &mut output).unwrap();
    assert_eq!(result, 3);
    assert_eq!(output, vec![1.0, 2.0, 3.0]);
}

#[test]
fn test_audio_processor_rate_conversion() {
    // With differing rates, output position i copies the input sample at the
    // rational position floor(i * in / out): nearest-sample, not interpolated.
    let processor = AudioProcessor::new(48000, 96000, 2, AudioFormat::F32LE);
    let input = vec![1.0, 2.0, 3.0, 4.0];
    let mut output = vec![0.0; 10];

    let result = processor.process(&input, &mut output).unwrap();
    assert_eq!(result, 8);
    assert_eq!(&output[..8], &[1.0, 1.0, 2.0, 2.0, 3.0, 3.0, 4.0, 4.0]);
    assert_eq!(&output[8..], &[0.0, 0.0]);
}

#[test]
fn test_audio_processor_downsampling() {
    let processor = AudioProcessor::new(96000, 48000, 2, AudioFormat::F32LE);
    let input = vec![1.0, 2.0, 3.0, 4.0, 5.0, 6.0];
    let mut output = vec![0.0; 6];

    let result = processor.process(&input, &mut output).unwrap();
    assert_eq!(result, 3);
    assert_eq!(&output[..3], &[1.0, 3.0, 5.0]);
}

#[test]
fn test_needs_resampling() {
    let same = AudioProcessor::new(48000, 48000, 2, AudioFormat::F32LE);
    assert!(!same.needs_resampling());

    let differs = AudioProcessor::new(44100, 48000, 2, AudioFormat::F32LE);
    assert!(differs.needs_resampling());
}

#[test]
fn test_resampler_output_len() {
    // Doubling the rate exactly doubles the block length.
    let resampler = Resampler::new(48000, 96000, 2);
    assert_eq!(resampler.output_len(4), 8);
    assert_eq!(resampler.output_len(0), 0);
    assert_eq!(resampler.output_len(1000), 2000);

    // Equal rates keep the length.
    let same = Resampler::new(44100, 44100, 1);
    assert_eq!(same.output_len(4410), 4410);

    // A non-integral ratio rounds the length down.
    let up = Resampler::new(44100, 48000, 1);
    assert_eq!(up.output_len(441), 480);
    assert_eq!(up.output_len(100), 108); // floor(100 * 48000 / 44100)
}

#[test]
fn test_resampler_source_position() {
    let resampler = Resampler::new(48000, 96000, 2);
    let input_len = 4;

    // Output sample 0 sits exactly on input sample 0.
    assert_eq!(resampler.source_position(0, input_len), (0, 0));
    // Output sample 1 sits halfway between input samples 0 and 1.
    assert_eq!(resampler.source_position(1, input_len), (0, 48000));
    // Output sample 3 sits halfway between input samples 1 and 2.
    assert_eq!(resampler.source_position(3, input_len), (1, 48000));
    // The last output sample never points past the input.
    let (src, _) = resampler.source_position(7, input_len);
    assert!(src < input_len);
}

#[test]
fn test_resampler_rates() {
    let resampler = Resampler::new(44100, 88200, 6);
    assert_eq!(resampler.input_rate(), 44100);
    assert_eq!(resampler.output_rate(), 88200);
    assert_eq!(resampler.channels(), 6);
}
