use yd_esp32_s3_audio_sd::wav::{
    finalize_header, read_info, write_placeholder_header, ChunkAction, WavError, WavInfo,
    WavInfoParser, HEADER_LEN,
};

fn le32(x: u32) -> [u8; 4] {
    x.to_le_bytes()
}

fn info(bits: u16, channels: u16, data_len: u32) -> WavInfo {
    WavInfo {
        sample_rate_hz: 8000,
        channels,
        bits_per_sample: bits,
        block_align: 1,
        data_start: 44,
        data_len,
    }
}

#[test]
fn placeholder_header_bytes() {
    let h = write_placeholder_header();
    assert_eq!(h.len(), HEADER_LEN);
    let expected: Vec<u8> = [
        b"RIFF".as_slice(),
        &le32(36),
        b"WAVE",
        b"fmt ",
        &le32(16),
        &1u16.to_le_bytes(),
        &1u16.to_le_bytes(),
        &le32(8000),
        &le32(8000),
        &1u16.to_le_bytes(),
        &8u16.to_le_bytes(),
        b"data",
        &le32(0),
    ]
    .concat();
    assert_eq!(h, expected);
}

#[test]
fn final_header_has_lengths() {
    let h = finalize_header(1000).unwrap();
    assert_eq!(&h[4..8], &le32(1036));
    assert_eq!(&h[40..44], &le32(1000));
    assert_eq!(&h[0..4], b"RIFF");
}

#[test]
fn final_header_too_large() {
    assert_eq!(finalize_header(u32::MAX - 35), Err(WavError::TooLarge));
    assert!(finalize_header(u32::MAX - 36).is_ok());
}

#[test]
fn recorded_file_reads_back() {
    let mut file = finalize_header(5).unwrap();
    file.extend_from_slice(&[128, 129, 130, 131, 132]);
    let i = read_info(&file).unwrap();
    assert_eq!(
        i,
        WavInfo {
            sample_rate_hz: 8000,
            channels: 1,
            bits_per_sample: 8,
            block_align: 1,
            data_start: 44,
            data_len: 5,
        }
    );
    assert_eq!(i.frame_count(), Ok(5));
}

fn fmt_chunk(format: u16, channels: u16, rate: u32, bits: u16, extra: &[u8]) -> Vec<u8> {
    let body_len = 16 + extra.len() as u32;
    let mut v = b"fmt ".to_vec();
    v.extend_from_slice(&le32(body_len));
    v.extend_from_slice(&format.to_le_bytes());
    v.extend_from_slice(&channels.to_le_bytes());
    v.extend_from_slice(&le32(rate));
    v.extend_from_slice(&le32(rate * channels as u32 * bits as u32 / 8));
    v.extend_from_slice(&(channels * bits / 8).to_le_bytes());
    v.extend_from_slice(&bits.to_le_bytes());
    v.extend_from_slice(extra);
    if body_len % 2 == 1 {
        v.push(0);
    }
    v
}

fn riff(chunks: &[Vec<u8>]) -> Vec<u8> {
    let mut v = b"RIFF".to_vec();
    v.extend_from_slice(&le32(0));
    v.extend_from_slice(b"WAVE");
    for c in chunks {
        v.extend_from_slice(c);
    }
    v
}

fn chunk(id: &[u8; 4], body: &[u8]) -> Vec<u8> {
    let mut v = id.to_vec();
    v.extend_from_slice(&le32(body.len() as u32));
    v.extend_from_slice(body);
    if body.len() % 2 == 1 {
        v.push(0);
    }
    v
}

#[test]
fn skips_unknown_and_odd_chunks() {
    let file = riff(&[
        chunk(b"LIST", &[1, 2, 3]),
        fmt_chunk(1, 2, 22050, 16, &[9]),
        chunk(b"junk", &[0; 4]),
        chunk(b"data", &[0; 8]),
    ]);
    let i = read_info(&file).unwrap();
    assert_eq!(i.channels, 2);
    assert_eq!(i.bits_per_sample, 16);
    assert_eq!(i.sample_rate_hz, 22050);
    assert_eq!(i.block_align, 4);
    assert_eq!(i.data_len, 8);
    // RIFF(12) + LIST(8+3+1) + fmt(8+17+1) + junk(8+4) + data header(8)
    assert_eq!(i.data_start, 12 + 12 + 26 + 12 + 8);
    assert_eq!(i.bytes_per_frame(), Ok(4));
    assert_eq!(i.frame_count(), Ok(2));
}

#[test]
fn rejects_bad_files() {
    assert_eq!(read_info(b"RIFF"), Err(WavError::MissingRiffHeader));
    assert_eq!(read_info(b"RIFX\0\0\0\0WAVE"), Err(WavError::NotRiffWave));
    assert_eq!(read_info(&riff(&[])), Err(WavError::TruncatedBeforeData));
    assert_eq!(
        read_info(&riff(&[chunk(b"data", &[0; 2])])),
        Err(WavError::DataBeforeFmt)
    );
    assert_eq!(
        read_info(&riff(&[fmt_chunk(3, 1, 8000, 16, &[]), chunk(b"data", &[])])),
        Err(WavError::NotPcm(3))
    );
    assert_eq!(
        read_info(&riff(&[fmt_chunk(1, 3, 8000, 16, &[]), chunk(b"data", &[])])),
        Err(WavError::UnsupportedChannels(3))
    );
    assert_eq!(
        read_info(&riff(&[fmt_chunk(1, 1, 8000, 24, &[]), chunk(b"data", &[])])),
        Err(WavError::UnsupportedBitDepth(24))
    );
    assert_eq!(
        read_info(&riff(&[chunk(b"fmt ", &[1, 0, 1, 0]), chunk(b"data", &[])])),
        Err(WavError::FmtTooShort)
    );
    let mut truncated = riff(&[]);
    truncated.extend_from_slice(b"fmt ");
    truncated.extend_from_slice(&le32(16));
    truncated.extend_from_slice(&[1, 0, 1, 0]);
    assert_eq!(read_info(&truncated), Err(WavError::TruncatedFmt));
    // an unknown chunk whose length runs past the end of the file
    let mut past_end = riff(&[]);
    past_end.extend_from_slice(b"LIST");
    past_end.extend_from_slice(&le32(1000));
    assert_eq!(read_info(&past_end), Err(WavError::TruncatedBeforeData));
}

#[test]
fn streaming_parser_steps() {
    let file = riff(&[fmt_chunk(1, 1, 8000, 8, &[]), chunk(b"data", &[1, 2, 3])]);
    assert_eq!(WavInfoParser::check_riff(&file[0..12]), Ok(()));
    let mut p = WavInfoParser::new();
    let step = p.on_chunk_header(&file[12..20], 20).unwrap();
    assert_eq!(step, ChunkAction::ReadFmt { len: 16 });
    let next = p.on_fmt(&file[20..36], 16, 20).unwrap();
    assert_eq!(next, 36);
    let step = p.on_chunk_header(&file[36..44], 44).unwrap();
    assert_eq!(step, ChunkAction::Data(info(8, 1, 3)));
    assert_eq!(
        p.on_chunk_header(b"LIST\x03\0\0\0", 100),
        Ok(ChunkAction::Skip { to: 104 })
    );
    assert_eq!(p.on_chunk_header(b"LIS", 100), Err(WavError::TruncatedBeforeData));
}

#[test]
fn bytes_per_sample_and_frame() {
    assert_eq!(info(8, 1, 0).bytes_per_sample(), Ok(1));
    assert_eq!(info(16, 2, 0).bytes_per_sample(), Ok(2));
    assert_eq!(info(12, 1, 0).bytes_per_sample(), Err(WavError::UnsupportedBitDepth(12)));
    assert_eq!(info(16, 2, 0).bytes_per_frame(), Ok(4));
    assert_eq!(info(12, 2, 0).bytes_per_frame(), Err(WavError::UnsupportedBitDepth(12)));
    assert_eq!(info(16, 2, 9).frame_count(), Ok(2));
    assert_eq!(info(8, 0, 9).frame_count(), Ok(0));
    assert_eq!(info(24, 1, 9).frame_count(), Err(WavError::UnsupportedBitDepth(24)));
}
