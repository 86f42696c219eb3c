//! The WAV (RIFF) container: the 44-byte header written for recordings and
//! the reader that locates the PCM data of a file to play.

use vstd::prelude::*;

use crate::config;

verus! {

pub const SAMPLE_RATE_HZ: u32 = config::RECORD_SAMPLE_RATE;

pub const CHANNELS: u16 = 1;

pub const RECORD_BITS_PER_SAMPLE: u16 = config::RECORD_BITS_PER_SAMPLE;

/// Length of the header that `finalize_header` produces.
pub const HEADER_LEN: usize = 44;

/// Why a WAV header could not be written or read.
#[derive(Debug, Clone, Copy, PartialEq, Eq, Structural)]
pub enum WavError {
    /// The bit depth is neither 8 nor 16.
    UnsupportedBitDepth(u16),
    /// The RIFF length field would exceed 32 bits, or a chunk offset would
    /// exceed 64 bits.
    TooLarge,
    /// The file is shorter than the 12-byte RIFF header.
    MissingRiffHeader,
    /// The file does not start with `RIFF....WAVE`.
    NotRiffWave,
    /// The file ends before a `data` chunk header.
    TruncatedBeforeData,
    /// The file ends inside the `fmt ` chunk.
    TruncatedFmt,
    /// The `fmt ` chunk is shorter than 16 bytes.
    FmtTooShort,
    /// The audio format is not PCM (1).
    NotPcm(u16),
    /// The `data` chunk comes before any `fmt ` chunk.
    DataBeforeFmt,
    /// The channel count is neither 1 nor 2.
    UnsupportedChannels(u16),
}

/// Format and location of the PCM data of a WAV file.
#[derive(Debug, Clone, Copy, PartialEq, Eq, Structural)]
pub struct WavInfo {
    pub sample_rate_hz: u32,
    pub channels: u16,
    pub bits_per_sample: u16,
    pub block_align: u16,
    pub data_start: u64,
    pub data_len: u32,
}

impl WavInfo {
    /// Bytes per sample of one channel: 1 for 8-bit and 2 for 16-bit PCM.
    pub fn bytes_per_sample(self) -> (r: Result<usize, WavError>)
        ensures
            self.bits_per_sample == 8 ==> r == Ok::<usize, WavError>(1),
            self.bits_per_sample == 16 ==> r == Ok::<usize, WavError>(2),
            self.bits_per_sample != 8 && self.bits_per_sample != 16 ==> r == Err::<usize, WavError>(
                WavError::UnsupportedBitDepth(self.bits_per_sample),
            ),
    {
        match self.bits_per_sample {
            8 => Ok(1),
            16 => Ok(2),
            other => Err(WavError::UnsupportedBitDepth(other)),
        }
    }

    /// Bytes per frame: one sample for each channel.
    pub fn bytes_per_frame(self) -> (r: Result<usize, WavError>)
        ensures
            self.bits_per_sample == 8 ==> r == Ok::<usize, WavError>(self.channels as usize),
            self.bits_per_sample == 16 ==> r == Ok::<usize, WavError>(
                (2 * self.channels) as usize,
            ),
            self.bits_per_sample != 8 && self.bits_per_sample != 16 ==> r == Err::<usize, WavError>(
                WavError::UnsupportedBitDepth(self.bits_per_sample),
            ),
    {
        match self.bytes_per_sample() {
            Ok(bytes) => Ok(bytes * self.channels as usize),
            Err(e) => Err(e),
        }
    }

    /// Number of whole frames in the data chunk; 0 when a frame has no bytes.
    pub fn frame_count(self) -> (r: Result<u32, WavError>)
        ensures
            match self.bytes_per_frame_spec() {
                Some(bpf) => r == Ok::<u32, WavError>(
                    if bpf == 0 {
                        0
                    } else {
                        (self.data_len as nat / bpf) as u32
                    },
                ),
                None => r == Err::<u32, WavError>(
                    WavError::UnsupportedBitDepth(self.bits_per_sample),
                ),
            },
    {
        match self.bytes_per_frame() {
            Ok(bpf) => {
                let bytes_per_frame = bpf as u32;
                if bytes_per_frame == 0 {
                    Ok(0)
                } else {
                    Ok(self.data_len / bytes_per_frame)
                }
            },
            Err(e) => Err(e),
        }
    }

    /// Bytes per frame, where the bit depth is supported.
    pub open spec fn bytes_per_frame_spec(self) -> Option<nat> {
        if self.bits_per_sample == 8 {
            Some(self.channels as nat)
        } else if self.bits_per_sample == 16 {
            Some(2 * self.channels as nat)
        } else {
            None
        }
    }
}

// ---------------------------------------------------------------------------
// Little-endian fields and chunk tags
// ---------------------------------------------------------------------------

pub open spec fn le16(x: u16) -> Seq<u8> {
    seq![(x % 256) as u8, (x / 256) as u8]
}

pub open spec fn le32(x: u32) -> Seq<u8> {
    seq![(x % 256) as u8, ((x / 256) % 256) as u8, ((x / 65536) % 256) as u8, (x / 16777216) as u8]
}

/// The little-endian 16-bit value at offset `i`.
pub open spec fn u16_at(s: Seq<u8>, i: int) -> u16 {
    (s[i] + 256 * s[i + 1]) as u16
}

/// The little-endian 32-bit value at offset `i`.
pub open spec fn u32_at(s: Seq<u8>, i: int) -> u32 {
    (s[i] + 256 * s[i + 1] + 65536 * s[i + 2] + 16777216 * s[i + 3]) as u32
}

pub open spec fn riff_tag() -> Seq<u8> {
    seq![0x52u8, 0x49u8, 0x46u8, 0x46u8]
}

pub open spec fn wave_tag() -> Seq<u8> {
    seq![0x57u8, 0x41u8, 0x56u8, 0x45u8]
}

pub open spec fn fmt_tag() -> Seq<u8> {
    seq![0x66u8, 0x6du8, 0x74u8, 0x20u8]
}

pub open spec fn data_tag() -> Seq<u8> {
    seq![0x64u8, 0x61u8, 0x74u8, 0x61u8]
}

fn push_le16(v: &mut Vec<u8>, x: u16)
    ensures
        final(v)@ == old(v)@ + le16(x),
{
    v.push((x % 256) as u8);
    v.push((x / 256) as u8);
    assert(final(v)@ =~= old(v)@ + le16(x));
}

fn push_le32(v: &mut Vec<u8>, x: u32)
    ensures
        final(v)@ == old(v)@ + le32(x),
{
    v.push((x % 256) as u8);
    v.push(((x / 256) % 256) as u8);
    v.push(((x / 65536) % 256) as u8);
    v.push((x / 16777216) as u8);
    assert(final(v)@ =~= old(v)@ + le32(x));
}

fn push_tag(v: &mut Vec<u8>, t0: u8, t1: u8, t2: u8, t3: u8)
    ensures
        final(v)@ == old(v)@ + seq![t0, t1, t2, t3],
{
    v.push(t0);
    v.push(t1);
    v.push(t2);
    v.push(t3);
    assert(final(v)@ =~= old(v)@ + seq![t0, t1, t2, t3]);
}

fn read_u16_le(s: &[u8], i: usize) -> (r: u16)
    requires
        i + 2 <= s@.len(),
    ensures
        r == u16_at(s@, i as int),
{
    (s[i] as u16) + (s[i + 1] as u16) * 256
}

fn read_u32_le(s: &[u8], i: usize) -> (r: u32)
    requires
        i + 4 <= s@.len(),
    ensures
        r == u32_at(s@, i as int),
{
    (s[i] as u32) + (s[i + 1] as u32) * 256 + (s[i + 2] as u32) * 65536 + (s[i + 3] as u32)
        * 16777216
}

fn tag_at(s: &[u8], at: usize, t0: u8, t1: u8, t2: u8, t3: u8) -> (r: bool)
    requires
        at + 4 <= s@.len(),
    ensures
        r == (s@.subrange(at as int, at + 4) == seq![t0, t1, t2, t3]),
{
    let r = s[at] == t0 && s[at + 1] == t1 && s[at + 2] == t2 && s[at + 3] == t3;
    proof {
        let sub = s@.subrange(at as int, at + 4);
        let t = seq![t0, t1, t2, t3];
        if r {
            assert(sub =~= t);
        } else {
            if s@[at as int] != t0 {
                assert(sub[0] != t[0]);
            } else if s@[at + 1] != t1 {
                assert(sub[1] != t[1]);
            } else if s@[at + 2] != t2 {
                assert(sub[2] != t[2]);
            } else {
                assert(sub[3] != t[3]);
            }
        }
    }
    r
}

pub proof fn lemma_le16_round_trip(x: u16)
    ensures
        u16_at(le16(x), 0) == x,
{
    assert((x % 256) + 256 * (x / 256) == x) by (nonlinear_arith);
}

pub proof fn lemma_le32_round_trip(x: u32)
    ensures
        u32_at(le32(x), 0) == x,
{
    let b0 = x % 256;
    let b1 = (x / 256) % 256;
    let b2 = (x / 65536) % 256;
    let b3 = x / 16777216;
    assert(b0 + 256 * b1 + 65536 * b2 + 16777216 * b3 == x) by (bit_vector)
        requires
            b0 == x % 256,
            b1 == (x / 256) % 256,
            b2 == (x / 65536) % 256,
            b3 == x / 16777216,
    ;
}

// ---------------------------------------------------------------------------
// Writing
// ---------------------------------------------------------------------------

/// Bytes per second of the recording format.
pub open spec fn record_byte_rate() -> u32 {
    (SAMPLE_RATE_HZ * CHANNELS * RECORD_BITS_PER_SAMPLE / 8) as u32
}

/// Bytes per frame of the recording format.
pub open spec fn record_block_align() -> u16 {
    (CHANNELS * RECORD_BITS_PER_SAMPLE / 8) as u16
}

/// The 44-byte header of a recording whose data chunk holds `data_len`
/// bytes: RIFF length `36 + data_len`, a 16-byte PCM `fmt ` chunk for the
/// recording format, and the `data` chunk header.
pub open spec fn header_spec(data_len: u32) -> Seq<u8> {
    riff_tag() + le32((36 + data_len) as u32) + wave_tag() + fmt_tag() + le32(16) + le16(1) + le16(
        CHANNELS,
    ) + le32(SAMPLE_RATE_HZ) + le32(record_byte_rate()) + le16(record_block_align()) + le16(
        RECORD_BITS_PER_SAMPLE,
    ) + data_tag() + le32(data_len)
}

/// Whether a header for `data_len` data bytes can be written.
pub open spec fn header_fits(data_len: u32) -> bool {
    36 + data_len <= u32::MAX
}

fn write_header(data_len: u32) -> (r: Result<Vec<u8>, WavError>)
    ensures
        header_fits(data_len) ==> r is Ok && r->Ok_0@ == header_spec(data_len),
        !header_fits(data_len) ==> r == Err::<Vec<u8>, WavError>(WavError::TooLarge),
{
    proof {
        assert(SAMPLE_RATE_HZ == 8000);
        assert(CHANNELS == 1);
        assert(RECORD_BITS_PER_SAMPLE == 8);
        assert(SAMPLE_RATE_HZ * (CHANNELS as u32) * (RECORD_BITS_PER_SAMPLE as u32) == 64000)
            by (nonlinear_arith)
            requires
                SAMPLE_RATE_HZ == 8000,
                CHANNELS == 1,
                RECORD_BITS_PER_SAMPLE == 8,
        ;
    }
    let byte_rate = SAMPLE_RATE_HZ * CHANNELS as u32 * RECORD_BITS_PER_SAMPLE as u32 / 8;
    let block_align = CHANNELS * RECORD_BITS_PER_SAMPLE / 8;
    let riff_len = match 36u32.checked_add(data_len) {
        Some(n) => n,
        None => {
            return Err(WavError::TooLarge);
        },
    };
    let mut v: Vec<u8> = Vec::new();
    push_tag(&mut v, 0x52, 0x49, 0x46, 0x46);
    push_le32(&mut v, riff_len);
    push_tag(&mut v, 0x57, 0x41, 0x56, 0x45);
    push_tag(&mut v, 0x66, 0x6d, 0x74, 0x20);
    push_le32(&mut v, 16);
    push_le16(&mut v, 1);
    push_le16(&mut v, CHANNELS);
    push_le32(&mut v, SAMPLE_RATE_HZ);
    push_le32(&mut v, byte_rate);
    push_le16(&mut v, block_align);
    push_le16(&mut v, RECORD_BITS_PER_SAMPLE);
    push_tag(&mut v, 0x64, 0x61, 0x74, 0x61);
    push_le32(&mut v, data_len);
    assert(v@ =~= header_spec(data_len));
    Ok(v)
}

/// The header written before the recorded samples, while their number is
/// not known yet: the header of an empty data chunk.
pub fn write_placeholder_header() -> (h: Vec<u8>)
    ensures
        h@ == header_spec(0),
        h@.len() == HEADER_LEN,
{
    match write_header(0) {
        Ok(h) => h,
        Err(_) => {
            proof {
                assert(false);
            }
            Vec::new()
        },
    }
}

/// The final header of a recording with `data_len` data bytes, to be
/// written over the placeholder at the start of the file.
pub fn finalize_header(data_len: u32) -> (r: Result<Vec<u8>, WavError>)
    ensures
        header_fits(data_len) ==> r is Ok && r->Ok_0@ == header_spec(data_len) && r->Ok_0@.len()
            == HEADER_LEN,
        !header_fits(data_len) ==> r == Err::<Vec<u8>, WavError>(WavError::TooLarge),
{
    write_header(data_len)
}

// ---------------------------------------------------------------------------
// Reading
// ---------------------------------------------------------------------------

/// The bytes a read of up to `n` bytes at position `pos` of `b` returns.
pub open spec fn read_at(b: Seq<u8>, pos: int, n: int) -> Seq<u8> {
    if pos >= b.len() {
        Seq::empty()
    } else if pos + n > b.len() {
        b.subrange(pos, b.len() as int)
    } else {
        b.subrange(pos, pos + n)
    }
}

/// The state of the header reader: what the last `fmt ` chunk said.
#[derive(Debug, Clone, Copy, PartialEq, Eq, Structural)]
pub struct WavInfoParser {
    pub fmt_seen: bool,
    pub sample_rate_hz: u32,
    pub channels: u16,
    pub bits_per_sample: u16,
    pub block_align: u16,
}

/// What the header reader needs after a chunk header.
#[derive(Debug, Clone, Copy, PartialEq, Eq, Structural)]
pub enum ChunkAction {
    /// Read the `len` bytes of the `fmt ` chunk body and pass them to `on_fmt`.
    ReadFmt { len: u32 },
    /// Skip an unknown chunk: continue with the chunk header at offset `to`.
    Skip { to: u64 },
    /// The `data` chunk was found.
    Data(WavInfo),
}

/// The offset after a chunk body of `len` bytes that starts at `start`,
/// including the pad byte of an odd-sized chunk.
pub open spec fn next_chunk(start: u64, len: u32) -> u64 {
    (start + len + len % 2) as u64
}

/// The largest chunk body offset for which the next chunk offset fits in 64 bits.
pub open spec fn chunk_start_ok(start: u64) -> bool {
    start <= u64::MAX - 0x1_0000_0000
}

/// Whether a chunk body offset, as a mathematical integer, leaves room for
/// the offset after the body in 64 bits.
pub open spec fn chunk_start_ok_int(start: int) -> bool {
    0 <= start <= u64::MAX - 0x1_0000_0000
}

/// Checks the 12-byte RIFF header `r`, as read from the start of the file.
pub open spec fn riff_step(r: Seq<u8>) -> Result<(), WavError> {
    if r.len() < 12 {
        Err(WavError::MissingRiffHeader)
    } else if r.subrange(0, 4) != riff_tag() || r.subrange(8, 12) != wave_tag() {
        Err(WavError::NotRiffWave)
    } else {
        Ok(())
    }
}

/// Handles the chunk header `h` (as read) whose body starts at `start`.
pub open spec fn chunk_header_step(p: WavInfoParser, h: Seq<u8>, start: u64) -> Result<
    ChunkAction,
    WavError,
> {
    if h.len() < 8 {
        Err(WavError::TruncatedBeforeData)
    } else {
        let id = h.subrange(0, 4);
        let len = u32_at(h, 4);
        if id == fmt_tag() {
            Ok(ChunkAction::ReadFmt { len })
        } else if id == data_tag() {
            if !p.fmt_seen {
                Err(WavError::DataBeforeFmt)
            } else if p.channels != 1 && p.channels != 2 {
                Err(WavError::UnsupportedChannels(p.channels))
            } else if p.bits_per_sample != 8 && p.bits_per_sample != 16 {
                Err(WavError::UnsupportedBitDepth(p.bits_per_sample))
            } else {
                Ok(
                    ChunkAction::Data(
                        WavInfo {
                            sample_rate_hz: p.sample_rate_hz,
                            channels: p.channels,
                            bits_per_sample: p.bits_per_sample,
                            block_align: p.block_align,
                            data_start: start,
                            data_len: len,
                        },
                    ),
                )
            }
        } else {
            Ok(ChunkAction::Skip { to: next_chunk(start, len) })
        }
    }
}

/// Handles the body `body` (as read) of a `fmt ` chunk of `len` bytes that
/// starts at `start`: the new reader state and the offset of the next chunk.
pub open spec fn fmt_step(p: WavInfoParser, body: Seq<u8>, len: u32, start: u64) -> Result<
    (WavInfoParser, u64),
    WavError,
> {
    if body.len() < len {
        Err(WavError::TruncatedFmt)
    } else if len < 16 {
        Err(WavError::FmtTooShort)
    } else if u16_at(body, 0) != 1 {
        Err(WavError::NotPcm(u16_at(body, 0)))
    } else {
        Ok(
            (
                WavInfoParser {
                    fmt_seen: true,
                    channels: u16_at(body, 2),
                    sample_rate_hz: u32_at(body, 4),
                    block_align: u16_at(body, 12),
                    bits_per_sample: u16_at(body, 14),
                },
                next_chunk(start, len),
            ),
        )
    }
}

/// Walks the chunks of `b` from offset `pos` until the `data` chunk. A
/// chunk so far into the file that the offset after its body might not fit in
/// 64 bits makes the file too large.
pub open spec fn walk_chunks(b: Seq<u8>, pos: int, p: WavInfoParser) -> Result<WavInfo, WavError>
    decreases b.len() - pos,
{
    let start = (pos + 8) as u64;
    if !chunk_start_ok_int(pos + 8) {
        Err(WavError::TooLarge)
    } else {
        match chunk_header_step(p, read_at(b, pos, 8), start) {
            Err(e) => Err(e),
            Ok(ChunkAction::Data(info)) => Ok(info),
            Ok(ChunkAction::Skip { to }) => {
                if pos < to <= b.len() {
                    walk_chunks(b, to as int, p)
                } else {
                    Err(WavError::TruncatedBeforeData)
                }
            },
            Ok(ChunkAction::ReadFmt { len }) => {
                match fmt_step(p, read_at(b, start as int, len as int), len, start) {
                    Err(e) => Err(e),
                    Ok((p2, to)) => {
                        if pos < to <= b.len() {
                            walk_chunks(b, to as int, p2)
                        } else {
                            Err(WavError::TruncatedBeforeData)
                        }
                    },
                }
            },
        }
    }
}

/// What reading the header of the file with contents `b` gives.
pub open spec fn parse_wav_info(b: Seq<u8>) -> Result<WavInfo, WavError> {
    match riff_step(read_at(b, 0, 12)) {
        Err(e) => Err(e),
        Ok(_) => walk_chunks(b, 12, WavInfoParser::initial()),
    }
}

impl WavInfoParser {
    pub open spec fn initial() -> WavInfoParser {
        WavInfoParser {
            fmt_seen: false,
            sample_rate_hz: 0,
            channels: 0,
            bits_per_sample: 0,
            block_align: 0,
        }
    }

    /// A reader that has seen no `fmt ` chunk yet.
    pub fn new() -> (p: Self)
        ensures
            p == Self::initial(),
    {
        WavInfoParser {
            fmt_seen: false,
            sample_rate_hz: 0,
            channels: 0,
            bits_per_sample: 0,
            block_align: 0,
        }
    }

    /// Checks the RIFF header: `riff` holds the (up to 12) bytes read from the
    /// start of the file.
    pub fn check_riff(riff: &[u8]) -> (r: Result<(), WavError>)
        ensures
            r == riff_step(riff@),
    {
        if riff.len() < 12 {
            return Err(WavError::MissingRiffHeader);
        }
        let is_riff = tag_at(riff, 0, 0x52, 0x49, 0x46, 0x46);
        let is_wave = tag_at(riff, 8, 0x57, 0x41, 0x56, 0x45);
        if !is_riff || !is_wave {
            return Err(WavError::NotRiffWave);
        }
        Ok(())
    }

    /// Handles a chunk header: `header` holds the (up to 8) bytes read at the
    /// chunk's offset and `chunk_start` is the offset just after them.
    pub fn on_chunk_header(&self, header: &[u8], chunk_start: u64) -> (r: Result<
        ChunkAction,
        WavError,
    >)
        requires
            chunk_start_ok(chunk_start),
        ensures
            r == chunk_header_step(*self, header@, chunk_start),
    {
        if header.len() < 8 {
            return Err(WavError::TruncatedBeforeData);
        }
        let chunk_len = read_u32_le(header, 4);
        if tag_at(header, 0, 0x66, 0x6d, 0x74, 0x20) {
            Ok(ChunkAction::ReadFmt { len: chunk_len })
        } else if tag_at(header, 0, 0x64, 0x61, 0x74, 0x61) {
            if !self.fmt_seen {
                Err(WavError::DataBeforeFmt)
            } else if self.channels != 1 && self.channels != 2 {
                Err(WavError::UnsupportedChannels(self.channels))
            } else if self.bits_per_sample != 8 && self.bits_per_sample != 16 {
                Err(WavError::UnsupportedBitDepth(self.bits_per_sample))
            } else {
                Ok(
                    ChunkAction::Data(
                        WavInfo {
                            sample_rate_hz: self.sample_rate_hz,
                            channels: self.channels,
                            bits_per_sample: self.bits_per_sample,
                            block_align: self.block_align,
                            data_start: chunk_start,
                            data_len: chunk_len,
                        },
                    ),
                )
            }
        } else {
            let pad = (chunk_len % 2) as u64;
            Ok(ChunkAction::Skip { to: chunk_start + chunk_len as u64 + pad })
        }
    }

    /// Handles the body of a `fmt ` chunk: `body` holds the (up to `len`)
    /// bytes read at `chunk_start`. Returns the offset of the next chunk; on
    /// an error the reader is left unchanged.
    pub fn on_fmt(&mut self, body: &[u8], len: u32, chunk_start: u64) -> (r: Result<u64, WavError>)
        requires
            chunk_start_ok(chunk_start),
        ensures
            match fmt_step(*old(self), body@, len, chunk_start) {
                Ok((p2, to)) => r == Ok::<u64, WavError>(to) && *final(self) == p2,
                Err(e) => r == Err::<u64, WavError>(e) && *final(self) == *old(self),
            },
    {
        if (body.len() as u64) < len as u64 {
            return Err(WavError::TruncatedFmt);
        }
        if len < 16 {
            return Err(WavError::FmtTooShort);
        }
        let audio_format = read_u16_le(body, 0);
        if audio_format != 1 {
            return Err(WavError::NotPcm(audio_format));
        }
        self.channels = read_u16_le(body, 2);
        self.sample_rate_hz = read_u32_le(body, 4);
        self.block_align = read_u16_le(body, 12);
        self.bits_per_sample = read_u16_le(body, 14);
        self.fmt_seen = true;
        let pad = (len % 2) as u64;
        Ok(chunk_start + len as u64 + pad)
    }
}

fn read_slice(b: &[u8], pos: u64, n: u64) -> (r: &[u8])
    ensures
        r@ == read_at(b@, pos as int, n as int),
{
    if pos >= b.len() as u64 {
        let e = &b[b.len()..b.len()];
        assert(e@ =~= Seq::<u8>::empty());
        e
    } else {
        let p = pos as usize;
        if n >= (b.len() - p) as u64 {
            &b[p..b.len()]
        } else {
            &b[p..p + n as usize]
        }
    }
}

/// Reads the format and the location of the data chunk from the contents
/// `bytes` of a WAV file: checks the RIFF header, walks the chunks, takes the
/// format from the last `fmt ` chunk before the `data` chunk and skips all
/// other chunks (with the pad byte of odd-sized ones).
pub fn read_info(bytes: &[u8]) -> (r: Result<WavInfo, WavError>)
    ensures
        r == parse_wav_info(bytes@),
{

    let riff = read_slice(bytes, 0, 12);
    match WavInfoParser::check_riff(riff) {
        Err(e) => {
            return Err(e);
        },
        Ok(()) => {},
    }
    let mut parser = WavInfoParser::new();
    let mut pos: usize = 12;
    let ghost b = bytes@;
    loop
        invariant
            b == bytes@,
            12 <= pos <= b.len(),
            parse_wav_info(b) == walk_chunks(b, pos as int, parser),
        decreases b.len() - pos,
    {
        if pos as u64 > u64::MAX - 0x1_0000_0008 {
            return Err(WavError::TooLarge);
        }
        let header = read_slice(bytes, pos as u64, 8);
        let start = pos as u64 + 8;
        let action = match parser.on_chunk_header(header, start) {
            Err(e) => {
                return Err(e);
            },
            Ok(a) => a,
        };
        let to = match action {
            ChunkAction::Data(info) => {
                return Ok(info);
            },
            ChunkAction::Skip { to } => to,
            ChunkAction::ReadFmt { len } => {
                let body = read_slice(bytes, start, len as u64);
                match parser.on_fmt(body, len, start) {
                    Err(e) => {
                        return Err(e);
                    },
                    Ok(to) => to,
                }
            },
        };
        if !((pos as u64) < to) || to > bytes.len() as u64 {
            return Err(WavError::TruncatedBeforeData);
        }
        pos = to as usize;
    }
}


/// The header of a recording is read back as the recording format with the
/// data chunk right after the 44 header bytes, whatever data follows it: the
/// files the recorder writes are the files the player reads.
pub proof fn lemma_recorded_header_reads_back(data_len: u32, data: Seq<u8>)
    requires
        header_fits(data_len),
    ensures
        parse_wav_info(header_spec(data_len) + data) == Ok::<WavInfo, WavError>(
            WavInfo {
                sample_rate_hz: SAMPLE_RATE_HZ,
                channels: CHANNELS,
                bits_per_sample: RECORD_BITS_PER_SAMPLE,
                block_align: 1,
                data_start: HEADER_LEN as u64,
                data_len,
            },
        ),
{
    let h = header_spec(data_len);
    let b = h + data;
    assert(h.len() == 44);
    let riff_len = (36 + data_len) as u32;
    // the RIFF header
    let r = read_at(b, 0, 12);
    assert(r =~= riff_tag() + le32(riff_len) + wave_tag());
    assert(r.subrange(0, 4) =~= riff_tag());
    assert(r.subrange(8, 12) =~= wave_tag());
    assert(riff_step(r) == Ok::<(), WavError>(()));
    // the fmt chunk header
    let p0 = WavInfoParser::initial();
    let fh = read_at(b, 12, 8);
    assert(fh =~= fmt_tag() + le32(16));
    assert(fh.subrange(0, 4) =~= fmt_tag());
    assert(fh.subrange(0, 4) != data_tag()) by {
        assert(fh.subrange(0, 4)[0] != data_tag()[0]);
    }
    assert(u32_at(fh, 4) == 16);
    assert(chunk_header_step(p0, fh, 20) == Ok::<ChunkAction, WavError>(
        ChunkAction::ReadFmt { len: 16 },
    ));
    // the fmt chunk body
    let body = read_at(b, 20, 16);
    assert(body =~= le16(1) + le16(CHANNELS) + le32(SAMPLE_RATE_HZ) + le32(record_byte_rate())
        + le16(record_block_align()) + le16(RECORD_BITS_PER_SAMPLE));
    assert(u16_at(body, 0) == 1);
    assert(u16_at(body, 2) == 1);
    assert(u32_at(body, 4) == 8000);
    assert(u16_at(body, 12) == 1);
    assert(u16_at(body, 14) == 8);
    let p1 = WavInfoParser {
        fmt_seen: true,
        channels: 1,
        sample_rate_hz: 8000,
        block_align: 1,
        bits_per_sample: 8,
    };
    assert(fmt_step(p0, body, 16, 20) == Ok::<(WavInfoParser, u64), WavError>((p1, 36)));
    // the data chunk header
    let dh = read_at(b, 36, 8);
    assert(dh =~= data_tag() + le32(data_len));
    assert(dh.subrange(0, 4) =~= data_tag());
    assert(dh.subrange(0, 4) != fmt_tag()) by {
        assert(dh.subrange(0, 4)[0] != fmt_tag()[0]);
    }
    lemma_le32_round_trip(data_len);
    assert(u32_at(dh, 4) == u32_at(le32(data_len), 0));
    let info = WavInfo {
        sample_rate_hz: SAMPLE_RATE_HZ,
        channels: CHANNELS,
        bits_per_sample: RECORD_BITS_PER_SAMPLE,
        block_align: 1,
        data_start: HEADER_LEN as u64,
        data_len,
    };
    assert(chunk_header_step(p1, dh, 44) == Ok::<ChunkAction, WavError>(ChunkAction::Data(info)));
    assert(walk_chunks(b, 36, p1) == Ok::<WavInfo, WavError>(info));
    assert(walk_chunks(b, 12, p0) == Ok::<WavInfo, WavError>(info));
}

/// A header that reads successfully describes 8- or 16-bit PCM with one or
/// two channels, so its frames have a size and can be counted.
pub proof fn lemma_read_info_is_playable(b: Seq<u8>)
    requires
        parse_wav_info(b) is Ok,
    ensures
        ({
            let info = parse_wav_info(b)->Ok_0;
            &&& info.channels == 1 || info.channels == 2
            &&& info.bits_per_sample == 8 || info.bits_per_sample == 16
            &&& info.bytes_per_frame_spec() is Some
            &&& info.bytes_per_frame_spec()->0 >= 1
        }),
{
    lemma_walk_chunks_playable(b, 12, WavInfoParser::initial());
}

proof fn lemma_walk_chunks_playable(b: Seq<u8>, pos: int, p: WavInfoParser)
    requires
        walk_chunks(b, pos, p) is Ok,
    ensures
        ({
            let info = walk_chunks(b, pos, p)->Ok_0;
            &&& info.channels == 1 || info.channels == 2
            &&& info.bits_per_sample == 8 || info.bits_per_sample == 16
        }),
    decreases b.len() - pos,
{
    let start = (pos + 8) as u64;
    match chunk_header_step(p, read_at(b, pos, 8), start) {
        Err(e) => {},
        Ok(ChunkAction::Data(info)) => {},
        Ok(ChunkAction::Skip { to }) => {
            if pos < to <= b.len() {
                lemma_walk_chunks_playable(b, to as int, p);
            }
        },
        Ok(ChunkAction::ReadFmt { len }) => {
            match fmt_step(p, read_at(b, start as int, len as int), len, start) {
                Err(e) => {},
                Ok((p2, to)) => {
                    if pos < to <= b.len() {
                        lemma_walk_chunks_playable(b, to as int, p2);
                    }
                },
            }
        },
    }
}

/// The little-endian value of the 32-bit field at offset `i`, from its bytes.
pub open spec fn le_value32(s: Seq<u8>, i: int) -> int {
    s[i] + 256 * s[i + 1] + 65536 * s[i + 2] + 16777216 * s[i + 3]
}

/// The little-endian value of the 16-bit field at offset `i`, from its bytes.
pub open spec fn le_value16(s: Seq<u8>, i: int) -> int {
    s[i] + 256 * s[i + 1]
}

/// The bytes of a recording's header: `RIFF`, the RIFF length `36 + data_len`
/// in little-endian order (byte k is `(x / 256^k) % 256`), `WAVE`, `fmt `, the
/// fmt length 16, PCM (1), one channel, 8000 Hz, 8000 bytes per second, block
/// alignment 1, 8 bits, `data` and the data length in little-endian order.
pub proof fn lemma_header_bytes(data_len: u32)
    requires
        header_fits(data_len),
    ensures
        ({
            let h = header_spec(data_len);
            let r = 36 + data_len;
            let n = data_len as int;
            &&& h.len() == 44
            &&& h[0] == 0x52 && h[1] == 0x49 && h[2] == 0x46 && h[3] == 0x46
            &&& h[4] == r % 256 && h[5] == (r / 256) % 256 && h[6] == (r / 65536) % 256 && h[7]
                == (r / 16777216) % 256
            &&& h[8] == 0x57 && h[9] == 0x41 && h[10] == 0x56 && h[11] == 0x45
            &&& h[12] == 0x66 && h[13] == 0x6d && h[14] == 0x74 && h[15] == 0x20
            &&& h[16] == 16 && h[17] == 0 && h[18] == 0 && h[19] == 0
            &&& h[20] == 1 && h[21] == 0
            &&& h[22] == 1 && h[23] == 0
            &&& h[24] == 0x40 && h[25] == 0x1F && h[26] == 0 && h[27] == 0
            &&& h[28] == 0x40 && h[29] == 0x1F && h[30] == 0 && h[31] == 0
            &&& h[32] == 1 && h[33] == 0
            &&& h[34] == 8 && h[35] == 0
            &&& h[36] == 0x64 && h[37] == 0x61 && h[38] == 0x74 && h[39] == 0x61
            &&& h[40] == n % 256 && h[41] == (n / 256) % 256 && h[42] == (n / 65536) % 256 && h[43]
                == (n / 16777216) % 256
            &&& le_value32(h, 4) == r
            &&& le_value32(h, 40) == n
        }),
{
    let h = header_spec(data_len);
    let r = (36 + data_len) as u32;
    assert(h =~= riff_tag() + le32(r) + wave_tag() + fmt_tag() + le32(16) + le16(1) + le16(1)
        + le32(8000) + le32(8000) + le16(1) + le16(8) + data_tag() + le32(data_len));
    assert((r / 16777216) % 256 == r / 16777216) by (bit_vector);
    assert((data_len / 16777216) % 256 == data_len / 16777216) by (bit_vector);
    lemma_le32_round_trip(r);
    lemma_le32_round_trip(data_len);
    assert(le32(r) =~= h.subrange(4, 8));
    assert(le32(data_len) =~= h.subrange(40, 44));
}

/// A chunk length is read as a little-endian 32-bit value: an unknown chunk
/// is skipped to `start + length` plus a pad byte for an odd length, a `fmt `
/// chunk is read with that length, and a `data` chunk has that length.
pub proof fn lemma_chunk_length_little_endian(p: WavInfoParser, h: Seq<u8>, start: u64)
    requires
        h.len() >= 8,
        chunk_start_ok(start),
    ensures
        ({
            let len = le_value32(h, 4);
            match chunk_header_step(p, h, start) {
                Ok(ChunkAction::Skip { to }) => to == start + len + len % 2,
                Ok(ChunkAction::ReadFmt { len: l }) => l == len,
                Ok(ChunkAction::Data(info)) => info.data_len == len && info.data_start == start,
                Err(_) => true,
            }
        }),
{
}

/// The fields of a `fmt ` chunk are read as little-endian values from their
/// offsets: the format at 0, channels at 2, sample rate at 4, block alignment
/// at 12 and bits per sample at 14.
pub proof fn lemma_fmt_fields_little_endian(p: WavInfoParser, body: Seq<u8>, len: u32, start: u64)
    requires
        chunk_start_ok(start),
    ensures
        match fmt_step(p, body, len, start) {
            Ok((q, to)) => {
                &&& le_value16(body, 0) == 1
                &&& q.fmt_seen
                &&& q.channels == le_value16(body, 2)
                &&& q.sample_rate_hz == le_value32(body, 4)
                &&& q.block_align == le_value16(body, 12)
                &&& q.bits_per_sample == le_value16(body, 14)
                &&& to == start + len + len % 2
            },
            Err(WavError::NotPcm(f)) => f == le_value16(body, 0) && f != 1,
            Err(_) => true,
        },
{
}

/// A header that reads successfully points at a `data` chunk header in the
/// file: the eight bytes before the data start are `data` and the length,
/// and the data length is those four length bytes in little-endian order.
pub proof fn lemma_data_chunk_found(b: Seq<u8>)
    requires
        parse_wav_info(b) is Ok,
    ensures
        ({
            let info = parse_wav_info(b)->Ok_0;
            let ds = info.data_start as int;
            &&& 20 <= ds <= b.len()
            &&& b[ds - 8] == 0x64 && b[ds - 7] == 0x61 && b[ds - 6] == 0x74 && b[ds - 5] == 0x61
            &&& info.data_len == le_value32(b, ds - 4)
        }),
{
    lemma_walk_chunks_data_found(b, 12, WavInfoParser::initial());
}

proof fn lemma_walk_chunks_data_found(b: Seq<u8>, pos: int, p: WavInfoParser)
    requires
        12 <= pos,
        walk_chunks(b, pos, p) is Ok,
    ensures
        ({
            let info = walk_chunks(b, pos, p)->Ok_0;
            let ds = info.data_start as int;
            &&& 20 <= ds <= b.len()
            &&& b[ds - 8] == 0x64 && b[ds - 7] == 0x61 && b[ds - 6] == 0x74 && b[ds - 5] == 0x61
            &&& info.data_len == le_value32(b, ds - 4)
        }),
    decreases b.len() - pos,
{
    let start = (pos + 8) as u64;
    let h = read_at(b, pos, 8);
    match chunk_header_step(p, h, start) {
        Err(e) => {},
        Ok(ChunkAction::Data(info)) => {
            assert(h =~= b.subrange(pos, pos + 8));
            assert(h.subrange(0, 4) == data_tag());
            assert(h.subrange(0, 4)[0] == b[pos]);
            assert(h.subrange(0, 4)[1] == b[pos + 1]);
            assert(h.subrange(0, 4)[2] == b[pos + 2]);
            assert(h.subrange(0, 4)[3] == b[pos + 3]);
        },
        Ok(ChunkAction::Skip { to }) => {
            if pos < to <= b.len() {
                lemma_walk_chunks_data_found(b, to as int, p);
            }
        },
        Ok(ChunkAction::ReadFmt { len }) => {
            match fmt_step(p, read_at(b, start as int, len as int), len, start) {
                Err(e) => {},
                Ok((p2, to)) => {
                    if pos < to <= b.len() {
                        lemma_walk_chunks_data_found(b, to as int, p2);
                    }
                },
            }
        },
    }
}

} // verus!
