use vstd::prelude::*;
use sha2::Digest;

verus! {

/// Bytes before the first sample of a PCM cache file.
pub const HEADER_BYTES: u64 = 64;

/// Frames a playback window reads from disk at once (one more is read so that
/// interpolation can cross into the next block).
pub const BUFFER_FRAMES: usize = 4096;

/// Decoded clips of at most this many bytes are kept in memory rather than cached on disk.
pub const STATIC_CLIP_BYTES: usize = 512 * 1024;

/// Why a PCM cache file or a Vorbis stream was refused.
#[derive(Clone, Copy, Debug, PartialEq, Eq)]
pub enum PcmError {
    /// The magic bytes or the source key do not match.
    InvalidHeader,
    /// Channel count or sample rate out of range.
    UnsupportedFormat,
    /// The frame count is zero or does not fit in memory.
    InvalidLength,
    /// The file length does not match the frame count.
    Truncated,
    /// A Vorbis stream with other than one or two channels.
    UnsupportedChannels,
    /// The decoded samples do not fill a whole number of frames.
    IncompleteFrame,
    /// The Vorbis decoder reported an error.
    Decode,
}

/// Channel count, sample rate and length of a cached clip.
#[derive(Clone, Copy, Debug, PartialEq, Eq)]
pub struct PcmFormat {
    pub channels: usize,
    pub rate: u32,
    pub frames: usize,
}

impl PcmFormat {
    pub open spec fn spec_byte_len(&self) -> int {
        self.frames * self.channels * 2
    }

    /// Bytes of sample data in the cached file.
    pub fn byte_len(&self) -> (n: u64)
        requires
            self.channels <= 2,
            self.frames * self.channels * 2 <= u64::MAX,
        ensures
            n == self.spec_byte_len(),
    {
        self.frames as u64 * self.channels as u64 * 2
    }
}

/// Names the SHA-256 digest of a byte string.
pub uninterp spec fn sha256(data: Seq<u8>) -> Seq<u8>;

/// `sha2::Sha256::digest`: the digest of `data`, which is 32 bytes long.
#[verifier::external_body]
pub(crate) fn sha256_digest(data: &[u8]) -> (digest: [u8; 32])
    ensures
        digest@ == sha256(data@),
{
    sha2::Sha256::digest(data).into()
}

/// The key under which the decoded form of a source is cached: the SHA-256 digest of its
/// compressed bytes.
pub struct SourceKey {
    bytes: [u8; 32],
}

impl View for SourceKey {
    type V = Seq<u8>;

    closed spec fn view(&self) -> Seq<u8> {
        self.bytes@
    }
}

impl SourceKey {
    /// The key with these digest bytes.
    pub fn from_digest(bytes: [u8; 32]) -> (k: SourceKey)
        ensures
            k@ == bytes@,
    {
        SourceKey { bytes }
    }

    /// The digest bytes.
    pub fn bytes(&self) -> (b: [u8; 32])
        ensures
            b@ == self@,
    {
        self.bytes
    }
}

/// The key of a compressed source.
pub fn source_key(data: &[u8]) -> (key: SourceKey)
    ensures
        key@ == sha256(data@),
{
    SourceKey { bytes: sha256_digest(data) }
}

pub open spec fn pow256(n: nat) -> nat
    decreases n,
{
    if n == 0 {
        1
    } else {
        256 * pow256((n - 1) as nat)
    }
}

/// The unsigned little-endian number written by `s`.
pub open spec fn le_value(s: Seq<u8>) -> nat
    decreases s.len(),
{
    if s.len() == 0 {
        0
    } else {
        s[0] as nat + 256 * le_value(s.drop_first())
    }
}

/// The `n` low bytes of `v`, least significant first.
pub open spec fn le_bytes(v: nat, n: nat) -> Seq<u8>
    decreases n,
{
    if n == 0 {
        Seq::empty()
    } else {
        seq![(v % 256) as u8] + le_bytes(v / 256, (n - 1) as nat)
    }
}

/// `BALPCM01`.
pub open spec fn pcm_magic() -> Seq<u8> {
    seq![66u8, 65u8, 76u8, 80u8, 67u8, 77u8, 48u8, 49u8]
}

/// The header of a cache file: magic, channel count, sample rate, frame count, source key
/// and eight zero bytes.
pub open spec fn header_bytes(channels: nat, rate: nat, frames: nat, key: Seq<u8>) -> Seq<u8> {
    pcm_magic() + le_bytes(channels, 4) + le_bytes(rate, 4) + le_bytes(frames, 8) + key + Seq::new(
        8,
        |i: int| 0u8,
    )
}

/// What the header of a cache file of `file_len` bytes says, for the source with `key`.
pub open spec fn header_check(h: Seq<u8>, key: Seq<u8>, file_len: int) -> Result<PcmFormat, PcmError> {
    let channels = le_value(h.subrange(8, 12));
    let rate = le_value(h.subrange(12, 16));
    let frames = le_value(h.subrange(16, 24));
    if h.subrange(0, 8) != pcm_magic() || h.subrange(24, 56) != key {
        Err(PcmError::InvalidHeader)
    } else if !(1 <= channels <= 2 && 8000 <= rate <= 192000) {
        Err(PcmError::UnsupportedFormat)
    } else if !(0 < frames <= usize::MAX) {
        Err(PcmError::InvalidLength)
    } else if frames * channels * 2 + HEADER_BYTES != file_len {
        Err(PcmError::Truncated)
    } else {
        Ok(PcmFormat { channels: channels as usize, rate: rate as u32, frames: frames as usize })
    }
}

proof fn lemma_le_value_bound(s: Seq<u8>)
    ensures
        le_value(s) < pow256(s.len()),
    decreases s.len(),
{
    if s.len() > 0 {
        lemma_le_value_bound(s.drop_first());
    }
}

pub(crate) proof fn lemma_le_bytes_len(v: nat, n: nat)
    ensures
        le_bytes(v, n).len() == n,
    decreases n,
{
    if n > 0 {
        lemma_le_bytes_len(v / 256, (n - 1) as nat);
    }
}

/// Writing `v` in `n` little-endian bytes and reading them back gives `v`, where it fits.
pub proof fn lemma_le_round_trip(v: nat, n: nat)
    requires
        v < pow256(n),
    ensures
        le_value(le_bytes(v, n)) == v,
    decreases n,
{
    if n > 0 {
        let rest = le_bytes(v / 256, (n - 1) as nat);
        assert(v / 256 < pow256((n - 1) as nat)) by (nonlinear_arith)
            requires
                v < 256 * pow256((n - 1) as nat),
        ;
        lemma_le_round_trip(v / 256, (n - 1) as nat);
        assert((seq![(v % 256) as u8] + rest).drop_first() =~= rest);
        assert(v == (v % 256) + 256 * (v / 256)) by (nonlinear_arith);
    }
}

proof fn lemma_le_value_step(s: Seq<u8>, i: int, e: int)
    requires
        0 <= i < e <= s.len(),
    ensures
        le_value(s.subrange(i, e)) == s[i] as nat + 256 * le_value(s.subrange(i + 1, e)),
{
    assert(s.subrange(i, e).drop_first() =~= s.subrange(i + 1, e));
}

pub(crate) proof fn lemma_pow256_small()
    ensures
        pow256(2) == 0x1_0000,
        pow256(4) == 0x1_0000_0000,
        pow256(8) == 0x1_0000_0000_0000_0000,
{
    reveal_with_fuel(pow256, 9);
}

/// The little-endian number in `bytes[start..start + n]`.
fn read_le(bytes: &[u8; 64], start: usize, n: usize) -> (v: u64)
    requires
        start + n <= 64,
        n <= 8,
    ensures
        v == le_value(bytes@.subrange(start as int, start + n)),
{
    let end = start + n;
    let mut i = end;
    let mut acc: u64 = 0;
    proof {
        lemma_pow256_small();
    }
    while i > start
        invariant
            start <= i <= end,
            end == start + n,
            end <= 64,
            n <= 8,
            pow256(8) == 0x1_0000_0000_0000_0000,
            acc == le_value(bytes@.subrange(i as int, end as int)),
        decreases i,
    {
        proof {
            lemma_le_value_bound(bytes@.subrange(i as int, end as int));
            lemma_le_value_step(bytes@, i - 1, end as int);
            lemma_pow256_monotone((end - i) as nat, 7);
        }
        assert(acc * 256 + bytes[i - 1] < 0x1_0000_0000_0000_0000) by (nonlinear_arith)
            requires
                acc < pow256(7),
                pow256(8) == 256 * pow256(7),
                pow256(8) == 0x1_0000_0000_0000_0000,
                bytes[i - 1] < 256,
        ;
        acc = acc * 256 + bytes[i - 1] as u64;
        i = i - 1;
    }
    acc
}

proof fn lemma_pow256_monotone(a: nat, b: nat)
    requires
        a <= b,
    ensures
        pow256(a) <= pow256(b),
    decreases b,
{
    if a < b {
        lemma_pow256_monotone(a, (b - 1) as nat);
    }
}

/// Appends the `n` low bytes of `v`, least significant first.
pub(crate) fn push_le(out: &mut Vec<u8>, v: u64, n: usize)
    ensures
        final(out)@ == old(out)@ + le_bytes(v as nat, n as nat),
{
    let ghost start = out@;
    let mut rem = v;
    let mut k: usize = 0;
    while k < n
        invariant
            k <= n,
            start + le_bytes(v as nat, n as nat) == out@ + le_bytes(rem as nat, (n - k) as nat),
        decreases n - k,
    {
        let ghost before = out@;
        out.push((rem % 256) as u8);
        proof {
            assert(le_bytes(rem as nat, (n - k) as nat) == seq![(rem % 256) as u8] + le_bytes(
                (rem / 256) as nat,
                (n - k - 1) as nat,
            ));
            assert(before + le_bytes(rem as nat, (n - k) as nat) =~= out@ + le_bytes(
                (rem / 256) as nat,
                (n - k - 1) as nat,
            ));
        }
        rem = rem / 256;
        k = k + 1;
    }
    assert(le_bytes(rem as nat, 0) =~= Seq::<u8>::empty());
    assert(out@ + Seq::<u8>::empty() =~= out@);
}

/// Reads a cache file header: the format of the file when it belongs to the source with
/// `key` and is `file_len` bytes long, or why it cannot be used.
pub fn check_header(header: &[u8; 64], key: &SourceKey, file_len: u64) -> (r: Result<PcmFormat, PcmError>)
    ensures
        r == header_check(header@, key@, file_len as int),
{
    let magic: [u8; 8] = [66u8, 65u8, 76u8, 80u8, 67u8, 77u8, 48u8, 49u8];
    let mut same = true;
    let mut i: usize = 0;
    while i < 8
        invariant
            i <= 8,
            magic@ == pcm_magic(),
            header@.len() == 64,
            same == (forall|k: int| 0 <= k < i ==> header@[k] == pcm_magic()[k]),
        decreases 8 - i,
    {
        if header[i] != magic[i] {
            same = false;
        }
        i = i + 1;
    }
    let mut j: usize = 0;
    while j < 32
        invariant
            j <= 32,
            key@.len() == 32,
            header@.len() == 64,
            key.bytes@ == key@,
            same == ((forall|k: int| 0 <= k < 8 ==> header@[k] == pcm_magic()[k]) && (forall|k: int|
                0 <= k < j ==> header@[24 + k] == key@[k])),
        decreases 32 - j,
    {
        if header[24 + j] != key.bytes[j] {
            same = false;
        }
        j = j + 1;
    }
    proof {
        if same {
            assert(header@.subrange(0, 8) =~= pcm_magic());
            assert(header@.subrange(24, 56) =~= key@);
        } else {
            if header@.subrange(0, 8) == pcm_magic() && header@.subrange(24, 56) == key@ {
                assert(forall|k: int| 0 <= k < 8 ==> header@[k] == #[trigger] header@.subrange(0, 8)[k]);
                assert(forall|k: int| 0 <= k < 32 ==> header@[24 + k] == #[trigger] header@.subrange(24, 56)[k]);
            }
        }
    }
    if !same {
        return Err(PcmError::InvalidHeader);
    }
    let channels = read_le(header, 8, 4);
    let rate = read_le(header, 12, 4);
    let frames = read_le(header, 16, 8);
    if !(1 <= channels && channels <= 2 && 8000 <= rate && rate <= 192000) {
        return Err(PcmError::UnsupportedFormat);
    }
    if !(frames > 0 && frames as u128 <= usize::MAX as u128) {
        return Err(PcmError::InvalidLength);
    }
    assert(frames as u128 * (channels as u128 * 2) <= 4 * 0xffff_ffff_ffff_ffffu128) by (nonlinear_arith)
        requires
            frames <= 0xffff_ffff_ffff_ffffu64,
            channels <= 2,
    ;
    assert(frames as u128 * (channels as u128 * 2) == frames * channels * 2) by (nonlinear_arith);
    if frames as u128 * (channels as u128 * 2) + HEADER_BYTES as u128 != file_len as u128 {
        return Err(PcmError::Truncated);
    }
    Ok(PcmFormat { channels: channels as usize, rate: rate as u32, frames: frames as usize })
}

/// The header of the cache file for a clip of `frames` frames of `channels` channels at
/// `rate`, decoded from the source with `key`.
pub fn encode_header(channels: usize, rate: u32, frames: u64, key: &SourceKey) -> (h: Vec<u8>)
    ensures
        h@ == header_bytes(channels as nat, rate as nat, frames as nat, key@),
        h@.len() == HEADER_BYTES,
{
    let mut h: Vec<u8> = Vec::new();
    let magic: [u8; 8] = [66u8, 65u8, 76u8, 80u8, 67u8, 77u8, 48u8, 49u8];
    let mut i: usize = 0;
    while i < 8
        invariant
            i <= 8,
            magic@ == pcm_magic(),
            h@ =~= pcm_magic().subrange(0, i as int),
        decreases 8 - i,
    {
        h.push(magic[i]);
        i = i + 1;
    }
    push_le(&mut h, channels as u64, 4);
    push_le(&mut h, rate as u64, 4);
    push_le(&mut h, frames, 8);
    let ghost before_key = h@;
    let mut j: usize = 0;
    while j < 32
        invariant
            j <= 32,
            key.bytes@ == key@,
            key@.len() == 32,
            h@ =~= before_key + key@.subrange(0, j as int),
        decreases 32 - j,
    {
        h.push(key.bytes[j]);
        j = j + 1;
    }
    let ghost before_pad = h@;
    let mut k: usize = 0;
    while k < 8
        invariant
            k <= 8,
            h@ =~= before_pad + Seq::new(k as nat, |i: int| 0u8),
        decreases 8 - k,
    {
        h.push(0u8);
        k = k + 1;
    }
    proof {
        assert(key@.subrange(0, 32) =~= key@);
        lemma_le_bytes_len(channels as nat, 4);
        lemma_le_bytes_len(rate as nat, 4);
        lemma_le_bytes_len(frames as nat, 8);
    }
    h
}

/// A header written for a valid format is read back as that format, on a file of the
/// matching length.
pub proof fn law_header_round_trip(format: PcmFormat, key: Seq<u8>)
    requires
        1 <= format.channels <= 2,
        8000 <= format.rate <= 192000,
        0 < format.frames,
        key.len() == 32,
    ensures
        header_check(
            header_bytes(format.channels as nat, format.rate as nat, format.frames as nat, key),
            key,
            format.frames * format.channels * 2 + HEADER_BYTES,
        ) == Ok::<PcmFormat, PcmError>(format),
{
    let h = header_bytes(format.channels as nat, format.rate as nat, format.frames as nat, key);
    lemma_le_bytes_len(format.channels as nat, 4);
    lemma_le_bytes_len(format.rate as nat, 4);
    lemma_le_bytes_len(format.frames as nat, 8);
    lemma_pow256_small();
    lemma_le_round_trip(format.channels as nat, 4);
    lemma_le_round_trip(format.rate as nat, 4);
    lemma_le_round_trip(format.frames as nat, 8);
    assert(h.subrange(0, 8) =~= pcm_magic());
    assert(h.subrange(8, 12) =~= le_bytes(format.channels as nat, 4));
    assert(h.subrange(12, 16) =~= le_bytes(format.rate as nat, 4));
    assert(h.subrange(16, 24) =~= le_bytes(format.frames as nat, 8));
    assert(h.subrange(24, 56) =~= key);
}

/// The 16 bits of a sample, as an unsigned number.
pub open spec fn i16_bits(s: i16) -> nat {
    if s < 0 {
        (s + 65536) as nat
    } else {
        s as nat
    }
}

/// A sample in little-endian bytes.
pub open spec fn le16(s: i16) -> Seq<u8> {
    le_bytes(i16_bits(s), 2)
}

/// The sample stored little-endian at `b[off..off + 2]`.
pub open spec fn i16_at(b: Seq<u8>, off: int) -> i16 {
    let v = b[off] + 256 * b[off + 1];
    if v >= 32768 {
        (v - 65536) as i16
    } else {
        v as i16
    }
}

/// Samples in little-endian bytes, in order.
pub open spec fn samples_le(s: Seq<i16>) -> Seq<u8>
    decreases s.len(),
{
    if s.len() == 0 {
        Seq::empty()
    } else {
        samples_le(s.drop_last()) + le16(s.last())
    }
}

proof fn lemma_le16(s: i16)
    ensures
        le16(s).len() == 2,
        i16_at(le16(s), 0) == s,
{
    reveal_with_fuel(le_bytes, 3);
    let u = i16_bits(s);
    assert(u < 65536);
    assert((u / 256) % 256 == u / 256);
    assert(u == u % 256 + 256 * (u / 256)) by (nonlinear_arith);
}

/// Each sample written by `samples_le` is read back at its place.
pub proof fn lemma_samples_le(s: Seq<i16>)
    ensures
        samples_le(s).len() == 2 * s.len(),
        forall|k: int| 0 <= k < s.len() ==> #[trigger] i16_at(samples_le(s), 2 * k) == s[k],
    decreases s.len(),
{
    if s.len() > 0 {
        let init = s.drop_last();
        lemma_samples_le(init);
        lemma_le16(s.last());
        let all = samples_le(s);
        assert(all == samples_le(init) + le16(s.last()));
        assert forall|k: int| 0 <= k < s.len() implies #[trigger] i16_at(samples_le(s), 2 * k) == s[k] by {
            if k < s.len() - 1 {
                assert(i16_at(samples_le(init), 2 * k) == init[k]);
                assert(all[2 * k] == samples_le(init)[2 * k]);
                assert(all[2 * k + 1] == samples_le(init)[2 * k + 1]);
            } else {
                assert(all[2 * k] == le16(s.last())[0]);
                assert(all[2 * k + 1] == le16(s.last())[1]);
            }
        }
    }
}

/// The sample at `b[off..off + 2]`.
fn read_i16(b: &Vec<u8>, off: usize) -> (s: i16)
    requires
        off + 2 <= b.len(),
    ensures
        s == i16_at(b@, off as int),
{
    let v: u32 = b[off] as u32 + 256 * b[off + 1] as u32;
    if v >= 32768 {
        (v as i32 - 65536) as i16
    } else {
        v as i16
    }
}

/// The bytes a decoded packet takes in a cache file.
pub fn pcm_bytes(packet: &[i16]) -> (bytes: Vec<u8>)
    ensures
        bytes@ == samples_le(packet@),
{
    let mut bytes: Vec<u8> = Vec::new();
    let mut i: usize = 0;
    while i < packet.len()
        invariant
            i <= packet.len(),
            bytes@ == samples_le(packet@.subrange(0, i as int)),
        decreases packet.len() - i,
    {
        let s = packet[i];
        let u: u32 = if s < 0 { (s as i32 + 65536) as u32 } else { s as u32 };
        bytes.push((u % 256) as u8);
        bytes.push((u / 256) as u8);
        proof {
            let next = packet@.subrange(0, i + 1);
            assert(next.drop_last() =~= packet@.subrange(0, i as int));
            assert(next.last() == s);
            reveal_with_fuel(le_bytes, 3);
            assert(u == i16_bits(s));
            assert((u / 256) % 256 == u / 256);
            assert(le16(s) =~= seq![(u % 256) as u8, (u / 256) as u8]);
            assert(bytes@ =~= samples_le(next));
        }
        i = i + 1;
    }
    assert(packet@.subrange(0, packet.len() as int) =~= packet@);
    bytes
}

/// What a read of the block at frame `first` asks of the file.
#[derive(Clone, Copy, Debug, PartialEq, Eq)]
pub struct BlockRequest {
    /// First frame of the block.
    pub first: usize,
    /// Frames in the block.
    pub frames: usize,
    /// Where the block starts in the file.
    pub byte_offset: u64,
    /// Bytes in the block.
    pub byte_len: usize,
}

/// The answer for one frame of a cached clip.
#[derive(Clone, Copy, Debug, PartialEq, Eq)]
pub enum Lookup {
    /// Past the end of the clip.
    End,
    /// The left and right samples of the frame (the same sample twice for mono).
    Ready(i16, i16),
    /// The frame's block has to be read first.
    Load(BlockRequest),
}

/// The block holding `frame`: it starts at a multiple of the block size and runs one frame
/// into the next block, as far as the clip goes.
pub open spec fn request_for(format: PcmFormat, frame: int) -> BlockRequest {
    let first = frame / BUFFER_FRAMES as int * BUFFER_FRAMES as int;
    let count = if BUFFER_FRAMES + 1 <= format.frames - first {
        BUFFER_FRAMES + 1
    } else {
        format.frames - first
    };
    BlockRequest {
        first: first as usize,
        frames: count as usize,
        byte_offset: (HEADER_BYTES + first * format.channels * 2) as u64,
        byte_len: (count * format.channels * 2) as usize,
    }
}

/// The samples of frame `index` of a block of interleaved little-endian samples.
pub open spec fn frame_sample(block: Seq<u8>, channels: int, index: int) -> (i16, i16) {
    let off = index * channels * 2;
    (i16_at(block, off), if channels == 2 { i16_at(block, off + 2) } else { i16_at(block, off) })
}

/// The formats that a playback window accepts: those that `check_header` lets through.
pub open spec fn playable(format: PcmFormat) -> bool {
    &&& 1 <= format.channels <= 2
    &&& 0 < format.frames
    &&& format.frames * format.channels * 2 + HEADER_BYTES <= u64::MAX
}

/// A cached clip read from disk one block at a time, holding the last block read.
pub struct PcmBlocks {
    format: PcmFormat,
    first: usize,
    buffered: usize,
    buffer: Vec<u8>,
}

impl PcmBlocks {
    pub closed spec fn wf(&self) -> bool {
        &&& playable(self.format)
        &&& self.buffer.len() == (BUFFER_FRAMES + 1) * self.format.channels * 2
        &&& self.buffered <= BUFFER_FRAMES + 1
        &&& self.first + self.buffered <= self.format.frames
    }

    pub closed spec fn spec_format(&self) -> PcmFormat {
        self.format
    }

    /// The first frame and the frame count of the block held (no frames when none is).
    pub closed spec fn spec_window(&self) -> (int, int) {
        (self.first as int, self.buffered as int)
    }

    /// The bytes of the block held.
    pub closed spec fn spec_block(&self) -> Seq<u8> {
        self.buffer@.subrange(0, self.buffered * self.format.channels * 2)
    }

    /// What `lookup` answers for `frame`.
    pub open spec fn spec_lookup(&self, frame: int) -> Lookup {
        let (first, buffered) = self.spec_window();
        if frame >= self.spec_format().frames {
            Lookup::End
        } else if first <= frame < first + buffered {
            let (l, r) = frame_sample(self.spec_block(), self.spec_format().channels as int, frame - first);
            Lookup::Ready(l, r)
        } else {
            Lookup::Load(request_for(self.spec_format(), frame))
        }
    }

    /// A window on a clip of `format` that holds no block yet.
    pub fn new(format: &PcmFormat) -> (b: Self)
        requires
            playable(*format),
        ensures
            b.wf(),
            b.spec_format() == *format,
            b.spec_window() == (0int, 0int),
    {
        assert((BUFFER_FRAMES + 1) * format.channels * 2 <= 16388) by (nonlinear_arith)
            requires
                format.channels <= 2,
                BUFFER_FRAMES == 4096,
        ;
        let n = (BUFFER_FRAMES + 1) * format.channels * 2;
        let mut buffer: Vec<u8> = Vec::new();
        let mut i: usize = 0;
        while i < n
            invariant
                i <= n,
                buffer.len() == i,
            decreases n - i,
        {
            buffer.push(0u8);
            i = i + 1;
        }
        PcmBlocks { format: *format, first: 0, buffered: 0, buffer }
    }

    pub fn format(&self) -> (f: PcmFormat)
        ensures
            f == self.spec_format(),
    {
        self.format
    }

    /// Bytes of the block buffer.
    pub fn buffer_len(&self) -> (n: usize)
        requires
            self.wf(),
        ensures
            n == (BUFFER_FRAMES + 1) * self.spec_format().channels * 2,
    {
        self.buffer.len()
    }

    /// Frames of the block held.
    pub fn buffered(&self) -> (n: usize)
        ensures
            n == self.spec_window().1,
    {
        self.buffered
    }

    /// The samples of `frame`, or the block to read for it.
    pub fn lookup(&self, frame: usize) -> (r: Lookup)
        requires
            self.wf(),
        ensures
            r == self.spec_lookup(frame as int),
    {
        if frame >= self.format.frames {
            return Lookup::End;
        }
        let ch = self.format.channels;
        if frame < self.first || frame - self.first >= self.buffered {
            let first = frame / BUFFER_FRAMES * BUFFER_FRAMES;
            let count = if BUFFER_FRAMES + 1 <= self.format.frames - first {
                BUFFER_FRAMES + 1
            } else {
                self.format.frames - first
            };
            assert(first * ch * 2 <= self.format.frames * ch * 2) by (nonlinear_arith)
                requires
                    first <= self.format.frames,
                    ch >= 0,
            ;
            assert(count * ch * 2 <= (BUFFER_FRAMES + 1) * ch * 2) by (nonlinear_arith)
                requires
                    count <= BUFFER_FRAMES + 1,
                    ch >= 0,
            ;
            return Lookup::Load(
                BlockRequest {
                    first,
                    frames: count,
                    byte_offset: HEADER_BYTES + first as u64 * ch as u64 * 2,
                    byte_len: count * ch * 2,
                },
            );
        }
        let index = frame - self.first;
        assert(self.buffered * ch * 2 <= (BUFFER_FRAMES + 1) * ch * 2) by (nonlinear_arith)
            requires
                self.buffered <= BUFFER_FRAMES + 1,
                1 <= ch <= 2,
        ;
        assert(index * ch * 2 + ch * 2 <= self.buffered * ch * 2) by (nonlinear_arith)
            requires
                index < self.buffered,
                1 <= ch <= 2,
        ;
        let off = index * ch * 2;
        let left = read_i16(&self.buffer, off);
        let right = if ch == 2 { read_i16(&self.buffer, off + 2) } else { left };
        proof {
            let block = self.spec_block();
            assert(block[off as int] == self.buffer@[off as int]);
            assert(block[off + 1] == self.buffer@[off + 1]);
            if ch == 2 {
                assert(block[off + 2] == self.buffer@[off + 2]);
                assert(block[off + 3] == self.buffer@[off + 3]);
            }
        }
        Lookup::Ready(left, right)
    }

    /// Forgets the block held, before a read that may fail.
    pub fn invalidate(&mut self)
        requires
            old(self).wf(),
        ensures
            final(self).wf(),
            final(self).spec_format() == old(self).spec_format(),
            final(self).spec_window().1 == 0,
    {
        self.buffered = 0;
    }

    /// Holds the block that `request` asked for, read as `bytes`.
    pub fn store(&mut self, request: &BlockRequest, bytes: &[u8])
        requires
            old(self).wf(),
            *request == request_for(old(self).spec_format(), request.first as int),
            request.first < old(self).spec_format().frames,
            bytes.len() == request.byte_len,
        ensures
            final(self).wf(),
            final(self).spec_format() == old(self).spec_format(),
            final(self).spec_window() == (request.first as int, request.frames as int),
            final(self).spec_block() == bytes@,
    {
        let ghost ch = self.format.channels as int;
        proof {
            assert(request.frames * ch * 2 <= (BUFFER_FRAMES + 1) * ch * 2) by (nonlinear_arith)
                requires
                    request.frames <= BUFFER_FRAMES + 1,
                    ch >= 0,
            ;
        }
        let mut i: usize = 0;
        while i < bytes.len()
            invariant
                i <= bytes.len(),
                bytes.len() <= self.buffer.len(),
                self.buffer.len() == old(self).buffer.len(),
                self.format == old(self).format,
                self.first == old(self).first,
                self.buffered == old(self).buffered,
                forall|k: int| 0 <= k < i ==> self.buffer@[k] == bytes@[k],
            decreases bytes.len() - i,
        {
            self.buffer.set(i, bytes[i]);
            i = i + 1;
        }
        self.first = request.first;
        self.buffered = request.frames;
        assert(self.spec_block() =~= bytes@);
    }
}

/// Once the block asked for is held, every frame in it is answered from the bytes read, and
/// frames of a file written from samples are answered with those samples.
pub proof fn law_stored_block_serves_file_samples(
    before: PcmBlocks,
    after: PcmBlocks,
    frame: int,
    samples: Seq<i16>,
)
    requires
        before.wf(),
        after.wf(),
        0 <= frame < before.spec_format().frames,
        before.spec_lookup(frame) matches Lookup::Load(_),
        after.spec_format() == before.spec_format(),
        after.spec_window() == ({
            let req = request_for(before.spec_format(), frame);
            (req.first as int, req.frames as int)
        }),
        samples.len() == before.spec_format().frames * before.spec_format().channels,
        after.spec_block() == ({
            let req = request_for(before.spec_format(), frame);
            let ch = before.spec_format().channels as int;
            samples_le(samples).subrange(req.first * ch * 2, (req.first + req.frames) * ch * 2)
        }),
    ensures
        ({
            let ch = before.spec_format().channels as int;
            after.spec_lookup(frame) == Lookup::Ready(samples[frame * ch], samples[frame * ch + ch - 1])
        }),
{
    let f = before.spec_format();
    let ch = f.channels as int;
    let req = request_for(f, frame);
    let first = req.first as int;
    assert(first <= frame < first + req.frames) by (nonlinear_arith)
        requires
            first == frame / 4096 * 4096,
            req.frames == if 4097 <= f.frames - first { 4097 } else { f.frames - first },
            0 <= frame < f.frames,
    ;
    lemma_samples_le(samples);
    let all = samples_le(samples);
    let block = after.spec_block();
    let idx = frame - first;
    let off = idx * ch * 2;
    assert(off + first * ch * 2 == 2 * (frame * ch)) by (nonlinear_arith)
        requires
            off == idx * ch * 2,
            idx == frame - first,
    ;
    assert((first + req.frames) * ch * 2 <= all.len()) by (nonlinear_arith)
        requires
            first + req.frames <= f.frames,
            all.len() == 2 * (f.frames * ch),
            ch >= 1,
    ;
    assert(off + 2 * ch <= req.frames * ch * 2) by (nonlinear_arith)
        requires
            off == idx * ch * 2,
            idx < req.frames,
            ch >= 1,
    ;
    assert(0 <= first * ch * 2) by (nonlinear_arith)
        requires
            first >= 0,
            ch >= 1,
    ;
    assert(0 <= off) by (nonlinear_arith)
        requires
            off == idx * ch * 2,
            idx >= 0,
            ch >= 1,
    ;
    assert(0 <= frame * ch && frame * ch + ch - 1 < samples.len()) by (nonlinear_arith)
        requires
            0 <= frame < f.frames,
            samples.len() == f.frames * ch,
            ch >= 1,
    ;
    let a = first * ch * 2;
    assert(a <= (first + req.frames) * ch * 2) by (nonlinear_arith)
        requires
            a == first * ch * 2,
            req.frames >= 0,
            ch >= 1,
    ;
    assert(block.len() == req.frames * ch * 2) by (nonlinear_arith)
        requires
            block.len() == (first + req.frames) * ch * 2 - a,
            a == first * ch * 2,
    ;
    assert(block[off] == all[a + off]);
    assert(block[off + 1] == all[a + off + 1]);
    assert(i16_at(all, 2 * (frame * ch)) == samples[frame * ch]);
    if ch == 2 {
        assert(block[off + 2] == all[a + off + 2]);
        assert(block[off + 3] == all[a + off + 3]);
        assert(i16_at(all, 2 * (frame * ch + 1)) == samples[frame * ch + 1]);
    }
}

/// The state of writing a decoded stream to a cache file: the stream's format and the
/// samples written so far, after the header's room.
pub struct PcmWriter {
    pub channels: usize,
    pub rate: u32,
    pub samples: u64,
}

/// What the header of a finished cache file holds, or `None` where the clip is short enough
/// to stay in memory.
pub open spec fn finished_header(w: PcmWriter, key: Seq<u8>) -> Result<Option<Seq<u8>>, PcmError> {
    if w.samples * 2 <= STATIC_CLIP_BYTES {
        Ok(None)
    } else if (w.samples as int) % (w.channels as int) != 0 {
        Err(PcmError::IncompleteFrame)
    } else {
        Ok(Some(header_bytes(w.channels as nat, w.rate as nat, ((w.samples as int) / (w.channels as int)) as nat, key)))
    }
}

impl PcmWriter {
    /// Starts writing a decoded stream of `channels` channels at `rate`; only one or two
    /// channels are cached.
    pub fn start(channels: usize, rate: u32) -> (r: Result<PcmWriter, PcmError>)
        ensures
            match r {
                Ok(w) => {
                    &&& 1 <= channels <= 2
                    &&& w == PcmWriter { channels, rate, samples: 0 }
                },
                Err(e) => !(1 <= channels <= 2) && e == PcmError::UnsupportedChannels,
            },
    {
        if !(1 <= channels && channels <= 2) {
            return Err(PcmError::UnsupportedChannels);
        }
        Ok(PcmWriter { channels, rate, samples: 0 })
    }

    /// Counts a decoded packet and gives the bytes to append for it.
    pub fn add(&mut self, packet: &[i16]) -> (bytes: Vec<u8>)
        requires
            old(self).samples + packet.len() <= u64::MAX / 2,
        ensures
            final(self).samples == old(self).samples + packet.len(),
            final(self).channels == old(self).channels,
            final(self).rate == old(self).rate,
            bytes@ == samples_le(packet@),
    {
        self.samples = self.samples + packet.len() as u64;
        pcm_bytes(packet)
    }

    /// Bytes of sample data written so far.
    pub fn bytes_written(&self) -> (n: u64)
        requires
            self.samples <= u64::MAX / 2,
        ensures
            n == self.samples * 2,
    {
        self.samples * 2
    }

    /// The header to write over the room left at the start of the file, `None` where the clip
    /// stays in memory, or why the stream cannot be cached.
    pub fn finish(&self, key: &SourceKey) -> (r: Result<Option<Vec<u8>>, PcmError>)
        requires
            1 <= self.channels <= 2,
            self.samples <= u64::MAX / 2,
        ensures
            match (r, finished_header(*self, key@)) {
                (Ok(Some(h)), Ok(Some(s))) => h@ == s,
                (Ok(None), Ok(None)) => true,
                (Err(e), Err(f)) => e == f,
                _ => false,
            },
    {
        if self.samples * 2 <= STATIC_CLIP_BYTES as u64 {
            return Ok(None);
        }
        if self.samples % self.channels as u64 != 0 {
            return Err(PcmError::IncompleteFrame);
        }
        let frames = self.samples / self.channels as u64;
        assert(frames <= self.samples) by (nonlinear_arith)
            requires
                frames == self.samples / self.channels as u64,
                self.channels >= 1,
        ;
        Ok(Some(encode_header(self.channels, self.rate, frames, key)))
    }
}

/// Samples of a clip decoded into memory, as long as it stays small enough to keep there.
pub struct ClipCollector {
    samples: Vec<i16>,
}

impl View for ClipCollector {
    type V = Seq<i16>;

    closed spec fn view(&self) -> Seq<i16> {
        self.samples@
    }
}

impl ClipCollector {
    pub fn new() -> (c: Self)
        ensures
            c@ == Seq::<i16>::empty(),
    {
        ClipCollector { samples: Vec::new() }
    }

    /// Appends a decoded packet, unless the clip would then take more than
    /// `STATIC_CLIP_BYTES`; `false` means the clip has to be streamed instead.
    pub fn push(&mut self, packet: &[i16]) -> (fits: bool)
        requires
            old(self)@.len() <= STATIC_CLIP_BYTES / 2,
        ensures
            fits == (old(self)@.len() + packet.len() <= STATIC_CLIP_BYTES / 2),
            fits ==> final(self)@ == old(self)@ + packet@,
            !fits ==> final(self)@ == old(self)@,
            final(self)@.len() <= STATIC_CLIP_BYTES / 2,
    {
        if packet.len() > STATIC_CLIP_BYTES / 2 - self.samples.len() {
            return false;
        }
        let mut i: usize = 0;
        let ghost start = self.samples@;
        while i < packet.len()
            invariant
                i <= packet.len(),
                self.samples@ == start + packet@.subrange(0, i as int),
            decreases packet.len() - i,
        {
            self.samples.push(packet[i]);
            proof {
                assert(packet@.subrange(0, i + 1) =~= packet@.subrange(0, i as int).push(packet@[i as int]));
            }
            i = i + 1;
        }
        assert(packet@.subrange(0, packet.len() as int) =~= packet@);
        true
    }

    /// The samples collected.
    pub fn into_samples(self) -> (v: Vec<i16>)
        ensures
            v@ == self@,
    {
        self.samples
    }
}

/// The lower-case hexadecimal digit for `d < 16`.
pub open spec fn hex_digit(d: int) -> u8 {
    if d < 10 {
        (48 + d) as u8
    } else {
        (87 + d) as u8
    }
}

/// Each byte as two lower-case hexadecimal digits, high digit first.
pub open spec fn hex(bytes: Seq<u8>) -> Seq<u8>
    decreases bytes.len(),
{
    if bytes.len() == 0 {
        Seq::empty()
    } else {
        let b = bytes.last() as int;
        hex(bytes.drop_last()) + seq![hex_digit(b / 16), hex_digit(b % 16)]
    }
}

/// `.pcm`.
pub open spec fn pcm_extension() -> Seq<u8> {
    seq![46u8, 112u8, 99u8, 109u8]
}

/// Each byte as two lower-case hexadecimal digits.
pub fn hex_bytes(bytes: &[u8]) -> (out: Vec<u8>)
    ensures
        out@ == hex(bytes@),
{
    let mut out: Vec<u8> = Vec::new();
    let mut i: usize = 0;
    while i < bytes.len()
        invariant
            i <= bytes.len(),
            out@ == hex(bytes@.subrange(0, i as int)),
        decreases bytes.len() - i,
    {
        let b = bytes[i];
        let hi = b / 16;
        let lo = b % 16;
        out.push(if hi < 10 { 48 + hi } else { 87 + hi });
        out.push(if lo < 10 { 48 + lo } else { 87 + lo });
        proof {
            let next = bytes@.subrange(0, i + 1);
            assert(next.drop_last() =~= bytes@.subrange(0, i as int));
            assert(next.last() == b);
            assert(out@ =~= hex(next));
        }
        i = i + 1;
    }
    assert(bytes@.subrange(0, bytes.len() as int) =~= bytes@);
    out
}

/// The name of the cache file of the source with `key`: its key in hexadecimal, then `.pcm`.
pub fn cache_file_name(key: &SourceKey) -> (name: Vec<u8>)
    ensures
        name@ == hex(key@) + pcm_extension(),
{
    let mut name = hex_bytes(&key.bytes);
    name.push(46u8);
    name.push(112u8);
    name.push(99u8);
    name.push(109u8);
    assert(name@ =~= hex(key@) + pcm_extension());
    name
}

/// The key in hexadecimal, as the cache index lists it.
pub fn key_hex(key: &SourceKey) -> (h: Vec<u8>)
    ensures
        h@ == hex(key@),
{
    hex_bytes(&key.bytes)
}

} // verus!
