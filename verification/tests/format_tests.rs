//! Tests for the sample format codec, the formats and the configuration.

use virtual_audio_cable::audio::{decode_samples, encode_samples};
use virtual_audio_cable::{AudioFormat, AudioProcessor, CableConfig, Error};

/// Clamps a float sample to the unit range, scales it by the format's
/// quantization scale and truncates, giving the canonical 32-bit sample word.
fn quantize(x: f32, format: AudioFormat) -> u32 {
    match format {
        AudioFormat::F32LE => x.to_bits(),
        AudioFormat::S16LE => ((x.clamp(-1.0, 1.0) * 32767.0) as i16 as i32) as u32,
        AudioFormat::S24LE => ((x.clamp(-1.0, 1.0) * 8388607.0) as i32) as u32,
        AudioFormat::S32LE => ((x.clamp(-1.0, 1.0) * 2147483647.0) as i32) as u32,
    }
}

/// Divides a decoded sample word by the format's quantization scale.
fn dequantize(word: u32, format: AudioFormat) -> f32 {
    match format {
        AudioFormat::F32LE => f32::from_bits(word),
        AudioFormat::S16LE => word as i32 as f32 / 32767.0,
        AudioFormat::S24LE => word as i32 as f32 / 8388607.0,
        AudioFormat::S32LE => word as i32 as f32 / 2147483647.0,
    }
}

#[test]
fn test_audio_format_bytes_per_sample() {
    assert_eq!(AudioFormat::F32LE.bytes_per_sample(), 4);
    assert_eq!(AudioFormat::S16LE.bytes_per_sample(), 2);
    assert_eq!(AudioFormat::S24LE.bytes_per_sample(), 3);
    assert_eq!(AudioFormat::S32LE.bytes_per_sample(), 4);
}

#[test]
fn test_audio_format_names() {
    assert_eq!(AudioFormat::F32LE.name(), "F32LE");
    assert_eq!(AudioFormat::S16LE.name(), "S16LE");
    assert_eq!(AudioFormat::S24LE.name(), "S24LE");
    assert_eq!(AudioFormat::S32LE.name(), "S32LE");
}

#[test]
fn test_cable_config_default() {
    let config = CableConfig::default();
    assert_eq!(config.sample_rate, 48000);
    assert_eq!(config.channels, 2);
    assert_eq!(config.buffer_size, 1024);
    assert_eq!(config.format, AudioFormat::F32LE);
    assert_eq!(config.device_name, "Virtual Audio Cable");
}

#[test]
fn test_cable_config_custom() {
    let config = CableConfig {
        sample_rate: 96000,
        channels: 1,
        buffer_size: 2048,
        format: AudioFormat::S16LE,
        device_name: "Custom Cable".to_string(),
    };

    assert_eq!(config.sample_rate, 96000);
    assert_eq!(config.channels, 1);
    assert_eq!(config.buffer_size, 2048);
    assert_eq!(config.format, AudioFormat::S16LE);
    assert_eq!(config.device_name, "Custom Cable");
}

#[test]
fn test_error_variants() {
    assert!(matches!(Error::BufferError("full".to_string()), Error::BufferError(_)));
    assert!(matches!(Error::AudioError("bad block".to_string()), Error::AudioError(_)));
    assert!(matches!(Error::PlatformError("no sink".to_string()), Error::PlatformError(_)));
    assert!(matches!(Error::IoError("pipe closed".to_string()), Error::IoError(_)));
    assert!(matches!(Error::Other("unknown".to_string()), Error::Other(_)));
}

#[test]
fn test_format_conversion_f32_to_s16() {
    let input = vec![1.0, 0.0, -1.0, 0.5];
    let words: Vec<u32> = input.iter().map(|&x| quantize(x, AudioFormat::S16LE)).collect();

    let bytes = encode_samples(&words, AudioFormat::S16LE);
    assert_eq!(bytes.len(), 8); // 4 samples * 2 bytes each

    // The little-endian i16 pairs hold the quantized values.
    let s16: Vec<i16> = bytes
        .chunks(2)
        .map(|c| i16::from_le_bytes([c[0], c[1]]))
        .collect();
    assert_eq!(s16, vec![32767, 0, -32767, 16383]);
}

#[test]
fn test_bytes_to_samples() {
    // Little-endian S16 bytes decode to sign-extended words.
    let mut bytes = Vec::new();
    bytes.extend_from_slice(&32767i16.to_le_bytes()); // 1.0
    bytes.extend_from_slice(&(-32767i16).to_le_bytes()); // -1.0

    let words = decode_samples(&bytes, AudioFormat::S16LE);
    assert_eq!(words.len(), 2);
    let samples: Vec<f32> = words.iter().map(|&w| dequantize(w, AudioFormat::S16LE)).collect();
    assert!((samples[0] - 1.0).abs() < 0.01);
    assert!((samples[1] + 1.0).abs() < 0.01);
}

#[test]
fn test_audio_format_conversion_roundtrip() {
    let input = vec![0.0, 0.5, -0.5, 1.0, -1.0, 0.25];

    let formats = [
        AudioFormat::F32LE,
        AudioFormat::S16LE,
        AudioFormat::S24LE,
        AudioFormat::S32LE,
    ];

    for format in formats {
        let words: Vec<u32> = input.iter().map(|&x| quantize(x, format)).collect();
        let bytes = encode_samples(&words, format);
        assert_eq!(bytes.len(), input.len() * format.bytes_per_sample());

        let decoded = decode_samples(&bytes, format);
        assert_eq!(decoded.len(), input.len());
        assert_eq!(decoded, words);

        for (&original, &word) in input.iter().zip(decoded.iter()) {
            let recovered = dequantize(word, format);
            let tolerance = match format {
                AudioFormat::F32LE => 0.0001,
                AudioFormat::S16LE => 0.0003,
                AudioFormat::S24LE => 0.0001,
                AudioFormat::S32LE => 0.0001,
            };
            assert!(
                (original - recovered).abs() < tolerance,
                "Format: {:?}, original: {}, recovered: {}, diff: {}",
                format,
                original,
                recovered,
                (original - recovered).abs()
            );
        }
    }
}

#[test]
fn test_s24_sign_extension() {
    // A negative 24-bit sample keeps its value through encode and decode:
    // the third byte's sign bit is extended into the high byte again.
    let word = quantize(-0.5, AudioFormat::S24LE);
    assert_eq!(word as i32, -4194303); // (-0.5 * 8388607.0) as i32

    let bytes = encode_samples(&[word], AudioFormat::S24LE);
    assert_eq!(bytes.len(), 3);
    assert_eq!(bytes[2] & 0x80, 0x80); // sign bit set in the top byte

    let decoded = decode_samples(&bytes, AudioFormat::S24LE);
    assert_eq!(decoded[0], word);
    assert_eq!(decoded[0] as i32, -4194303);
}

#[test]
fn test_clipping_in_format_conversion() {
    // Values beyond the unit range clip to full scale before encoding.
    let input = vec![2.0, -2.0, 10.0, -10.0];

    let words: Vec<u32> = input.iter().map(|&x| quantize(x, AudioFormat::S16LE)).collect();
    let bytes = encode_samples(&words, AudioFormat::S16LE);
    let decoded = decode_samples(&bytes, AudioFormat::S16LE);

    for &word in &decoded {
        let sample = dequantize(word, AudioFormat::S16LE);
        assert!(sample.abs() <= 1.0);
    }

    // The first sample (2.0) clips to 1.0.
    assert!((dequantize(decoded[0], AudioFormat::S16LE) - 1.0).abs() < 0.01);
    assert!((dequantize(decoded[1], AudioFormat::S16LE) + 1.0).abs() < 0.01);
}

#[test]
fn test_audio_processor_full_pipeline() {
    // Create processor with same sample rates
    let processor = AudioProcessor::new(48000, 48000, 2, AudioFormat::F32LE);

    // Test pass-through
    let input = vec![0.5, -0.5, 1.0, -1.0];
    let mut output = vec![0.0; 4];
    let result = processor.process(&input, &mut output).unwrap();
    assert_eq!(result, 4);
    assert_eq!(output, input);

    // Test format conversion
    let words: Vec<u32> = input.iter().map(|&x| quantize(x, AudioFormat::S16LE)).collect();
    let s16_bytes = encode_samples(&words, AudioFormat::S16LE);
    assert_eq!(s16_bytes.len(), 8); // 4 samples * 2 bytes

    let samples: Vec<f32> = decode_samples(&s16_bytes, AudioFormat::S16LE)
        .iter()
        .map(|&w| dequantize(w, AudioFormat::S16LE))
        .collect();
    assert_eq!(samples.len(), 4);
    assert!((samples[0] - 0.5).abs() < 0.01);
}
