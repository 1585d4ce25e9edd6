use love_api::pcm::PcmWriter;
use love_api::vorbis::{check_granules, decode_asset, DecodeError, VorbisReader};

#[test]
fn bytes_that_are_not_vorbis_are_refused() {
    assert!(matches!(decode_asset(b"not a vorbis stream"), Err(DecodeError::Vorbis(_))));
    assert!(matches!(decode_asset(&[]), Err(DecodeError::Vorbis(_))));
    assert!(matches!(VorbisReader::open(b"OggS"), Err(DecodeError::Vorbis(_))));
}

#[test]
fn a_refused_stream_writes_no_pcm() {
    let writer = PcmWriter::start(2, 44_100).unwrap();
    assert_eq!(writer.samples, 0);
    assert!(VorbisReader::open(&[0; 64]).is_err());
}

/// An Ogg page header with the given granule position and segment table.
fn page(granule: u64, lacing: &[u8]) -> Vec<u8> {
    let mut bytes = b"OggS".to_vec();
    bytes.extend_from_slice(&[0, 0]);
    bytes.extend_from_slice(&granule.to_le_bytes());
    bytes.extend_from_slice(&[0; 12]);
    bytes.push(lacing.len() as u8);
    bytes.extend_from_slice(lacing);
    bytes
}

#[test]
fn granule_positions_near_the_end_of_the_counter_are_refused() {
    assert!(check_granules(&page(48_000, &[10])));
    assert!(check_granules(&page(u64::MAX - (1 << 32), &[10])));
    assert!(!check_granules(&page(u64::MAX - 100, &[10])));
    assert!(!check_granules(&page(u64::MAX, &[255, 12])));
    assert!(check_granules(&page(u64::MAX, &[255, 255])), "no packet ends on this page");
    let mut truncated = page(u64::MAX, &[255, 255]);
    truncated.truncate(28);
    assert!(!check_granules(&truncated));
    let mut hidden = b"garbage before the page".to_vec();
    hidden.extend_from_slice(&page(u64::MAX - 7, &[1]));
    assert!(!check_granules(&hidden));
    assert!(matches!(decode_asset(&hidden), Err(DecodeError::GranuleOutOfRange)));
    assert!(matches!(VorbisReader::open(&hidden), Err(DecodeError::GranuleOutOfRange)));
}
