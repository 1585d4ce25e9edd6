use love_api::pcm::{
    cache_file_name, check_header, encode_header, key_hex, pcm_bytes, source_key, BlockRequest,
    ClipCollector, Lookup, PcmBlocks, PcmError, PcmFormat, PcmWriter, BUFFER_FRAMES, HEADER_BYTES,
    STATIC_CLIP_BYTES,
};

/// A cache file held in memory: header, then the samples little-endian.
fn fixture(channels: usize, frames: usize) -> (Vec<u8>, Vec<i16>) {
    let key = source_key(b"test source");
    let mut file = encode_header(channels, 44100, frames as u64, &key);
    let samples: Vec<i16> = (0..frames * channels)
        .map(|n| (n.wrapping_mul(32771) >> 2) as i16)
        .collect();
    file.extend(pcm_bytes(&samples));
    (file, samples)
}

fn header_of(file: &[u8]) -> [u8; 64] {
    file[..64].try_into().unwrap()
}

/// Playback over an in-memory file: the reads a disk-backed playback would make.
struct MemoryPlayback {
    file: Vec<u8>,
    blocks: PcmBlocks,
    reads: usize,
}

impl MemoryPlayback {
    fn new(file: Vec<u8>) -> Self {
        let key = source_key(b"test source");
        let format = check_header(&header_of(&file), &key, file.len() as u64).unwrap();
        MemoryPlayback { file, blocks: PcmBlocks::new(&format), reads: 0 }
    }

    fn read(&self, request: &BlockRequest) -> Option<Vec<u8>> {
        let start = request.byte_offset as usize;
        let end = start + request.byte_len;
        (end <= self.file.len()).then(|| self.file[start..end].to_vec())
    }

    fn sample(&mut self, frame: usize) -> Result<Option<(i16, i16)>, ()> {
        match self.blocks.lookup(frame) {
            Lookup::End => Ok(None),
            Lookup::Ready(left, right) => Ok(Some((left, right))),
            Lookup::Load(request) => {
                self.blocks.invalidate();
                let bytes = self.read(&request).ok_or(())?;
                self.reads += 1;
                self.blocks.store(&request, &bytes);
                match self.blocks.lookup(frame) {
                    Lookup::Ready(left, right) => Ok(Some((left, right))),
                    _ => unreachable!(),
                }
            }
        }
    }
}

#[test]
fn bounded_reads_match_random_access_and_loop_boundaries() {
    for channels in [1, 2] {
        let (file, samples) = fixture(channels, 10003);
        let mut playback = MemoryPlayback::new(file);
        for frame in (0..10003)
            .chain((0..10003).rev())
            .chain([4095, 4096, 4095, 4097, 0, 10002])
        {
            let left = samples[frame * channels];
            let right = samples[frame * channels + channels - 1];
            assert_eq!(playback.sample(frame).unwrap(), Some((left, right)));
        }
        assert_eq!(playback.sample(10003).unwrap(), None);
        assert_eq!(playback.sample(usize::MAX).unwrap(), None);
        assert!(playback.blocks.buffer_len() <= 16388);
    }
}

#[test]
fn failed_refills_do_not_publish_partial_samples() {
    let (file, _) = fixture(2, BUFFER_FRAMES * 3);
    let mut playback = MemoryPlayback::new(file);
    assert!(playback.sample(0).unwrap().is_some());
    playback
        .file
        .truncate(HEADER_BYTES as usize + BUFFER_FRAMES * 4 + 2);
    for _ in 0..2 {
        assert!(playback.sample(BUFFER_FRAMES + 1).is_err());
        assert_eq!(playback.blocks.buffered(), 0);
    }
}

#[test]
fn truncated_and_mismatched_files_are_not_used() {
    let (file, _) = fixture(2, 100);
    let key = source_key(b"test source");
    let other = source_key(b"different source");
    assert_ne!(cache_file_name(&key), cache_file_name(&other));
    assert_eq!(
        check_header(&header_of(&file), &other, file.len() as u64),
        Err(PcmError::InvalidHeader)
    );
    assert_eq!(
        check_header(&header_of(&file), &key, HEADER_BYTES + 1),
        Err(PcmError::Truncated)
    );
    let mut zeroed = header_of(&file);
    zeroed[24..56].copy_from_slice(&[0; 32]);
    assert_eq!(
        check_header(&zeroed, &key, file.len() as u64),
        Err(PcmError::InvalidHeader)
    );
}

#[test]
fn header_reads_back_the_format_it_was_written_with() {
    let key = source_key(b"song");
    let header: [u8; 64] = encode_header(1, 22050, 7, &key).try_into().unwrap();
    assert_eq!(&header[..8], b"BALPCM01");
    assert_eq!(
        check_header(&header, &key, HEADER_BYTES + 14),
        Ok(PcmFormat { channels: 1, rate: 22050, frames: 7 })
    );
}

#[test]
fn header_rejects_unsupported_formats_and_lengths() {
    let key = source_key(b"song");
    let three: [u8; 64] = encode_header(3, 44100, 7, &key).try_into().unwrap();
    assert_eq!(check_header(&three, &key, HEADER_BYTES + 42), Err(PcmError::UnsupportedFormat));
    let slow: [u8; 64] = encode_header(2, 7999, 7, &key).try_into().unwrap();
    assert_eq!(check_header(&slow, &key, HEADER_BYTES + 28), Err(PcmError::UnsupportedFormat));
    let empty: [u8; 64] = encode_header(2, 44100, 0, &key).try_into().unwrap();
    assert_eq!(check_header(&empty, &key, HEADER_BYTES), Err(PcmError::InvalidLength));
}

#[test]
fn samples_are_written_little_endian() {
    assert_eq!(pcm_bytes(&[1, -1, 256, i16::MIN]), vec![1, 0, 255, 255, 0, 1, 0, 128]);
}

#[test]
fn the_source_key_is_the_sha256_of_the_source() {
    let key = source_key(b"abc");
    assert_eq!(
        String::from_utf8(key_hex(&key)).unwrap(),
        "ba7816bf8f01cfea414140de5dae2223b00361a396177a9cb410ff61f20015ad"
    );
    assert_eq!(
        String::from_utf8(cache_file_name(&key)).unwrap(),
        "ba7816bf8f01cfea414140de5dae2223b00361a396177a9cb410ff61f20015ad.pcm"
    );
}

#[test]
fn short_clips_stay_in_memory_and_long_ones_get_a_header() {
    let key = source_key(b"song");
    let mut writer = PcmWriter::start(2, 44100).unwrap();
    let bytes = writer.add(&[5, 6, 7, 8]);
    assert_eq!(bytes, vec![5, 0, 6, 0, 7, 0, 8, 0]);
    assert_eq!(writer.finish(&key), Ok(None));
    let long = vec![0i16; STATIC_CLIP_BYTES / 2];
    writer.add(&long);
    let header = writer.finish(&key).unwrap().unwrap();
    assert_eq!(header, encode_header(2, 44100, (STATIC_CLIP_BYTES / 4 + 2) as u64, &key));
    writer.add(&[1]);
    assert_eq!(writer.finish(&key), Err(PcmError::IncompleteFrame));
    assert!(matches!(PcmWriter::start(3, 44100), Err(PcmError::UnsupportedChannels)));
}

#[test]
fn clip_collection_stops_at_the_memory_bound() {
    let mut clip = ClipCollector::new();
    assert!(clip.push(&vec![1; STATIC_CLIP_BYTES / 2 - 1]));
    assert!(clip.push(&[2]));
    assert!(!clip.push(&[3]));
    let samples = clip.into_samples();
    assert_eq!(samples.len(), STATIC_CLIP_BYTES / 2);
    assert_eq!(samples.last(), Some(&2));
}

#[test]
fn byte_len_counts_both_channels() {
    let format = PcmFormat { channels: 2, rate: 44100, frames: 10 };
    assert_eq!(format.byte_len(), 40);
}
