use crate::pcm::{samples_le, ClipCollector, PcmWriter, STATIC_CLIP_BYTES};
use lewton::inside_ogg::OggStreamReader;
use lewton::VorbisError;
use std::io::Cursor;
use vstd::prelude::*;

verus! {

#[verifier::external_type_specification]
#[verifier::external_body]
pub struct ExVorbisError(VorbisError);

/// A lewton decoder reading a Vorbis stream held in memory. Verus cannot declare lewton's
/// reader type itself (its `Read + Seek` bound), so it is held here, out of Verus's sight.
#[verifier::external_body]
pub struct VorbisReader {
    reader: OggStreamReader<Cursor<Vec<u8>>>,
}

/// Names what `OggStreamReader::new` reads from the identification header of `data`: the
/// channel count and sample rate, or `None` where it refuses the stream.
pub uninterp spec fn vorbis_header(data: Seq<u8>) -> Option<(u8, u32)>;

/// Names the outcome of the `k`-th `read_dec_packet_itl` (counted from 0) on a reader opened
/// on `data`: `None` for an error, `Some(None)` for the end of the stream, `Some(Some(n))` for
/// a packet of `n` interleaved samples.
pub uninterp spec fn vorbis_packet_len(data: Seq<u8>, k: nat) -> Option<Option<nat>>;

/// Names the stream a reader decodes and how many packets have been asked of it.
pub uninterp spec fn vorbis_position(reader: VorbisReader) -> (Seq<u8>, nat);

/// An Ogg capture pattern `OggS` at `p` with a whole page header after it.
pub open spec fn capture_at(data: Seq<u8>, p: int) -> bool {
    &&& 0 <= p && p + 27 <= data.len()
    &&& data[p] == 79 && data[p + 1] == 103 && data[p + 2] == 103 && data[p + 3] == 83
}

/// The granule position of the page header at `p` is at least `2^64 - 2^32`: its four high
/// bytes (little-endian, at offsets 10 to 13) are all `0xff`.
pub open spec fn granule_near_end(data: Seq<u8>, p: int) -> bool {
    data[p + 10] == 255 && data[p + 11] == 255 && data[p + 12] == 255 && data[p + 13] == 255
}

/// A packet may end on the page whose header is at `p`: its segment table (with the count at
/// offset 26) runs past the data or holds a lacing value under 255.
pub open spec fn packet_may_end(data: Seq<u8>, p: int) -> bool {
    let n = data[p + 26] as int;
    p + 27 + n > data.len() || exists|i: int| 0 <= i < n && #[trigger] data[p + 27 + i] < 255
}

/// A page that could hand lewton a granule position so close to `u64::MAX` that adding a
/// page's decoded samples to it overflows.
pub open spec fn granule_overflows(data: Seq<u8>, p: int) -> bool {
    capture_at(data, p) && granule_near_end(data, p) && packet_may_end(data, p)
}

/// No page of `data`, wherever the reader finds one, has such a granule position.
pub open spec fn granules_in_range(data: Seq<u8>) -> bool {
    forall|p: int| !#[trigger] granule_overflows(data, p)
}

/// Whether no page of `data` has a granule position that lewton's sample counting overflows.
pub fn check_granules(data: &[u8]) -> (ok: bool)
    ensures
        ok == granules_in_range(data@),
{
    let len = data.len();
    let mut p: usize = 0;
    while p < len && len - p >= 27
        invariant
            p <= len,
            len == data@.len(),
            forall|q: int| 0 <= q < p ==> !#[trigger] granule_overflows(data@, q),
        decreases len - p,
    {
        if data[p] == 79 && data[p + 1] == 103 && data[p + 2] == 103 && data[p + 3] == 83 && data[p + 10] == 255
            && data[p + 11] == 255 && data[p + 12] == 255 && data[p + 13] == 255 {
            let n = data[p + 26] as usize;
            if len - (p + 27) < n {
                assert(granule_overflows(data@, p as int));
                return false;
            }
            let mut i: usize = 0;
            while i < n
                invariant
                    i <= n,
                    n == data@[p + 26] as int,
                    p + 27 + n <= len,
                    capture_at(data@, p as int),
                    granule_near_end(data@, p as int),
                    len == data@.len(),
                    forall|j: int| 0 <= j < i ==> #[trigger] data@[p + 27 + j] >= 255,
                decreases n - i,
            {
                if data[p + 27 + i] < 255 {
                    assert(data@[p + 27 + i as int] < 255);
                    assert(granule_overflows(data@, p as int));
                    return false;
                }
                i = i + 1;
            }
            assert(!packet_may_end(data@, p as int));
        }
        p = p + 1;
    }
    assert forall|q: int| !#[trigger] granule_overflows(data@, q) by {
        if q >= p {
            assert(!capture_at(data@, q));
        }
    }
    true
}

/// `OggStreamReader::new` on a copy of `data`, with the channel count and sample rate of its
/// identification header, neither of which lewton accepts as zero. Where the headers are
/// refused, so is the stream.
#[verifier::external_body]
fn vorbis_open(data: &[u8]) -> (r: Result<(VorbisReader, u8, u32), VorbisError>)
    ensures
        match r {
            Ok((reader, channels, rate)) => {
                &&& vorbis_header(data@) == Some((channels, rate))
                &&& channels >= 1 && rate >= 1
                &&& vorbis_position(reader) == (data@, 0nat)
            },
            Err(_) => vorbis_header(data@) is None,
        },
{
    let reader = OggStreamReader::new(Cursor::new(data.to_vec()))?;
    let channels = reader.ident_hdr.audio_channels;
    let rate = reader.ident_hdr.audio_sample_rate;
    Ok((VorbisReader { reader }, channels, rate))
}

/// `OggStreamReader::read_dec_packet_itl`: the next decoded packet, its samples interleaved,
/// `None` at the end of the stream. Which packets come, how long each is and where an error
/// comes are fixed by the bytes; the sample values come out of lewton's floating-point
/// synthesis (`sin`, `cos`, `exp` of the platform), so nothing is claimed of them.
/// lewton adds each packet's samples to the granule position of the page before it without an
/// overflow check; `granules_in_range` keeps that sum below `u64::MAX`: a page has at most 255
/// packets, and a packet at most 255 channels of 4096 samples.
#[verifier::external_body]
fn vorbis_next(reader: &mut VorbisReader) -> (p: Result<Option<Vec<i16>>, VorbisError>)
    requires
        granules_in_range(vorbis_position(*old(reader)).0),
    ensures
        vorbis_position(*final(reader)).0 == vorbis_position(*old(reader)).0,
        vorbis_position(*final(reader)).1 == vorbis_position(*old(reader)).1 + 1,
        match p {
            Ok(Some(packet)) => vorbis_packet_len(vorbis_position(*old(reader)).0, vorbis_position(*old(reader)).1)
                == Some(Some(packet.len() as nat)),
            Ok(None) => vorbis_packet_len(vorbis_position(*old(reader)).0, vorbis_position(*old(reader)).1)
                == Some(None::<nat>),
            Err(_) => vorbis_packet_len(vorbis_position(*old(reader)).0, vorbis_position(*old(reader)).1)
                is None,
        },
{
    reader.reader.read_dec_packet_itl()
}

/// Why a Vorbis stream could not be decoded.
#[derive(Debug)]
pub enum DecodeError {
    /// lewton refused the headers or a packet.
    Vorbis(VorbisError),
    /// A page has a granule position too close to `u64::MAX` for lewton to count on from.
    GranuleOutOfRange,
    /// The stream has more packets than a `u64` counts.
    TooManyPackets,
    /// The stream has more samples than a cache file describes.
    TooLong,
}

/// The samples of the first `n` reads on `data`, where each of them gave a packet.
pub open spec fn packets_before(data: Seq<u8>, n: nat) -> Option<nat>
    decreases n,
{
    if n == 0 {
        Some(0nat)
    } else {
        match (packets_before(data, (n - 1) as nat), vorbis_packet_len(data, (n - 1) as nat)) {
            (Some(t), Some(Some(l))) => Some(t + l),
            _ => None,
        }
    }
}

/// The most samples a clip kept in memory holds.
pub open spec fn clip_limit() -> nat {
    (STATIC_CLIP_BYTES / 2) as nat
}

impl VorbisReader {
    /// The stream this reader decodes.
    pub open spec fn source(self) -> Seq<u8> {
        vorbis_position(self).0
    }

    /// How many packets have been asked of this reader.
    pub open spec fn reads(self) -> nat {
        vorbis_position(self).1
    }

    /// The stream has no page with a granule position that lewton's counting overflows.
    pub open spec fn wf(self) -> bool {
        granules_in_range(self.source())
    }

    /// Opens the Vorbis stream in `data`, with its channel count and sample rate.
    pub fn open(data: &[u8]) -> (r: Result<(VorbisReader, u8, u32), DecodeError>)
        ensures
            match r {
                Ok((reader, channels, rate)) => {
                    &&& granules_in_range(data@)
                    &&& vorbis_header(data@) == Some((channels, rate))
                    &&& channels >= 1 && rate >= 1
                    &&& reader.source() == data@
                    &&& reader.reads() == 0
                    &&& reader.wf()
                },
                Err(DecodeError::GranuleOutOfRange) => !granules_in_range(data@),
                Err(DecodeError::Vorbis(_)) => granules_in_range(data@) && vorbis_header(data@) is None,
                Err(_) => false,
            },
    {
        if !check_granules(data) {
            return Err(DecodeError::GranuleOutOfRange);
        }
        match vorbis_open(data) {
            Ok(opened) => Ok(opened),
            Err(e) => Err(DecodeError::Vorbis(e)),
        }
    }

    /// The next decoded packet, or `None` at the end of the stream.
    pub fn next_packet(&mut self) -> (p: Result<Option<Vec<i16>>, DecodeError>)
        requires
            old(self).wf(),
        ensures
            final(self).wf(),
            final(self).source() == old(self).source(),
            final(self).reads() == old(self).reads() + 1,
            match p {
                Ok(Some(packet)) => vorbis_packet_len(old(self).source(), old(self).reads())
                    == Some(Some(packet.len() as nat)),
                Ok(None) => vorbis_packet_len(old(self).source(), old(self).reads()) == Some(None::<nat>),
                Err(e) => vorbis_packet_len(old(self).source(), old(self).reads()) is None && e is Vorbis,
            },
    {
        match vorbis_next(self) {
            Ok(packet) => Ok(packet),
            Err(e) => Err(DecodeError::Vorbis(e)),
        }
    }
}

/// A sound decoded into memory, or one too long to keep decoded, which is streamed.
pub enum DecodedAsset {
    Static { samples: Vec<i16>, channels: u8, sample_rate: u32 },
    Stream,
}

/// Decodes the Vorbis stream in `data` into memory, packet by packet, until it ends or
/// would take more than `STATIC_CLIP_BYTES`; then it is to be streamed instead.
pub fn decode_asset(data: &[u8]) -> (r: Result<DecodedAsset, DecodeError>)
    ensures
        match r {
            Ok(DecodedAsset::Static { samples, channels, sample_rate }) => {
                &&& granules_in_range(data@)
                &&& vorbis_header(data@) == Some((channels, sample_rate))
                &&& samples@.len() <= clip_limit()
                &&& exists|n: nat|
                    #[trigger] packets_before(data@, n) == Some(samples@.len())
                        && vorbis_packet_len(data@, n) == Some(None::<nat>)
            },
            Ok(DecodedAsset::Stream) => {
                &&& granules_in_range(data@)
                &&& vorbis_header(data@) is Some
                &&& exists|n: nat|
                    (#[trigger] packets_before(data@, n) matches Some(t) && (t <= clip_limit()
                        && (vorbis_packet_len(data@, n) matches Some(Some(l)) && t + l > clip_limit())))
            },
            Err(DecodeError::Vorbis(_)) => granules_in_range(data@) && (vorbis_header(data@) is None
                || exists|n: nat|
                #[trigger] packets_before(data@, n) matches Some(t) && t <= clip_limit()
                    && vorbis_packet_len(data@, n) is None),
            Err(DecodeError::GranuleOutOfRange) => !granules_in_range(data@),
            Err(DecodeError::TooManyPackets) => {
                &&& granules_in_range(data@)
                &&& vorbis_header(data@) is Some
                &&& packets_before(data@, u64::MAX as nat) matches Some(t) && t <= clip_limit()
            },
            Err(DecodeError::TooLong) => false,
        },
{
    let (mut reader, channels, sample_rate) = match VorbisReader::open(data) {
        Ok(opened) => opened,
        Err(e) => return Err(e),
    };
    let mut clip = ClipCollector::new();
    let mut reads: u64 = 0;
    loop
        invariant
            granules_in_range(data@),
            vorbis_header(data@) == Some((channels, sample_rate)),
            reader.source() == data@,
            reader.reads() == reads as nat,
            packets_before(data@, reads as nat) == Some(clip@.len()),
            clip@.len() <= clip_limit(),
        decreases u64::MAX - reads,
    {
        if reads == u64::MAX {
            return Err(DecodeError::TooManyPackets);
        }
        match reader.next_packet() {
            Ok(Some(packet)) => {
                let ghost before = clip@.len();
                if !clip.push(&packet) {
                    assert(packets_before(data@, reads as nat) == Some(before));
                    return Ok(DecodedAsset::Stream);
                }
                assert(packets_before(data@, (reads + 1) as nat) == Some(before + packet@.len()));
                reads = reads + 1;
            },
            Ok(None) => {
                let samples = clip.into_samples();
                assert(packets_before(data@, reads as nat) == Some(samples@.len()));
                return Ok(DecodedAsset::Static { samples, channels, sample_rate });
            },
            Err(e) => {
                assert(packets_before(data@, reads as nat) == Some(clip@.len()));
                return Err(e);
            },
        }
    }
}

/// Decodes the next packet of a stream being written to the PCM cache and gives the bytes to
/// append for it: `None` at the end of the stream.
pub fn next_pcm_bytes(reader: &mut VorbisReader, writer: &mut PcmWriter) -> (r: Result<Option<Vec<u8>>, DecodeError>)
    requires
        old(reader).wf(),
    ensures
        final(reader).wf(),
        final(reader).source() == old(reader).source(),
        final(reader).reads() == old(reader).reads() + 1,
        final(writer).channels == old(writer).channels,
        final(writer).rate == old(writer).rate,
        match r {
            Ok(Some(bytes)) => exists|packet: Seq<i16>|
                #[trigger] samples_le(packet) == bytes@
                    && vorbis_packet_len(old(reader).source(), old(reader).reads()) == Some(Some(packet.len()))
                    && old(writer).samples + packet.len() <= u64::MAX / 2
                    && final(writer).samples == old(writer).samples + packet.len(),
            Ok(None) => vorbis_packet_len(old(reader).source(), old(reader).reads()) == Some(None::<nat>)
                && final(writer).samples == old(writer).samples,
            Err(DecodeError::Vorbis(_)) => vorbis_packet_len(old(reader).source(), old(reader).reads()) is None
                && final(writer).samples == old(writer).samples,
            Err(DecodeError::TooLong) => {
                &&& final(writer).samples == old(writer).samples
                &&& vorbis_packet_len(old(reader).source(), old(reader).reads()) matches Some(Some(l))
                &&& old(writer).samples + l > u64::MAX / 2
            },
            Err(DecodeError::TooManyPackets) => false,
            Err(DecodeError::GranuleOutOfRange) => false,
        },
{
    match reader.next_packet() {
        Ok(Some(packet)) => {
            if packet.len() as u64 > u64::MAX / 2 || writer.samples > u64::MAX / 2 - packet.len() as u64 {
                return Err(DecodeError::TooLong);
            }
            let bytes = writer.add(&packet);
            Ok(Some(bytes))
        },
        Ok(None) => Ok(None),
        Err(e) => Err(e),
    }
}

} // verus!
