use yd_esp32_s3_audio_sd::pcm::{decode_frame_to_mono_i16, decode_pcm_block, peak_abs};
use yd_esp32_s3_audio_sd::wav::{WavError, WavInfo};

fn info(bits: u16, channels: u16) -> WavInfo {
    WavInfo {
        sample_rate_hz: 8000,
        channels,
        bits_per_sample: bits,
        block_align: channels * bits / 8,
        data_start: 44,
        data_len: 0,
    }
}

#[test]
fn eight_bit_mono() {
    assert_eq!(decode_frame_to_mono_i16(&[128], info(8, 1)), Ok(0));
    assert_eq!(decode_frame_to_mono_i16(&[255], info(8, 1)), Ok(127 * 256));
    assert_eq!(decode_frame_to_mono_i16(&[0], info(8, 1)), Ok(-32768));
    assert_eq!(decode_frame_to_mono_i16(&[129], info(8, 1)), Ok(256));
}

#[test]
fn eight_bit_stereo_mean_rounds_toward_zero() {
    // (-256 + 0) / 2 = -128; (1*256 + 0)/2 = 128
    assert_eq!(decode_frame_to_mono_i16(&[127, 128], info(8, 2)), Ok(-128));
    assert_eq!(decode_frame_to_mono_i16(&[129, 128], info(8, 2)), Ok(128));
}

#[test]
fn sixteen_bit() {
    let f = (-1234i16).to_le_bytes();
    assert_eq!(decode_frame_to_mono_i16(&f, info(16, 1)), Ok(-1234));
    let mut stereo = Vec::new();
    stereo.extend_from_slice(&(-3i16).to_le_bytes());
    stereo.extend_from_slice(&(0i16).to_le_bytes());
    // -3 / 2 rounds toward zero
    assert_eq!(decode_frame_to_mono_i16(&stereo, info(16, 2)), Ok(-1));
    let mut extremes = Vec::new();
    extremes.extend_from_slice(&i16::MIN.to_le_bytes());
    extremes.extend_from_slice(&i16::MIN.to_le_bytes());
    assert_eq!(decode_frame_to_mono_i16(&extremes, info(16, 2)), Ok(i16::MIN));
}

#[test]
fn unsupported_depth() {
    assert_eq!(
        decode_frame_to_mono_i16(&[0, 0, 0], info(24, 1)),
        Err(WavError::UnsupportedBitDepth(24))
    );
    assert_eq!(
        decode_pcm_block(&[0, 0, 0], info(24, 1)),
        Err(WavError::UnsupportedBitDepth(24))
    );
}

#[test]
fn block_of_frames() {
    let bytes = [128u8, 0, 255, 130, 7];
    let samples = decode_pcm_block(&bytes, info(8, 1)).unwrap();
    assert_eq!(samples, vec![0, -32768, 32512, 512, (7 - 128) * 256]);
    let mut b16 = Vec::new();
    for s in [100i16, -200, 300, 400] {
        b16.extend_from_slice(&s.to_le_bytes());
    }
    b16.push(9); // an incomplete trailing frame is left out
    assert_eq!(decode_pcm_block(&b16, info(16, 2)).unwrap(), vec![-50, 350]);
}

#[test]
fn peaks() {
    assert_eq!(peak_abs(&[]), 0);
    assert_eq!(peak_abs(&[3, -7, 5]), 7);
    assert_eq!(peak_abs(&[i16::MIN, 10]), 32768);
    assert_eq!(peak_abs(&[0, 0]), 0);
}
