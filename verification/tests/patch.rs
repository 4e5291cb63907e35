use elfpatch::binary::BinaryProcessor;
use elfpatch::codec::{EmbeddedConfig, DESCRIPTOR_SIZE};
use elfpatch::errors::PatchError;

const MARKER: [u8; 8] = [0x21, 0x07, 0x00, 0x0d, 0x2b, 0x4e, 0x8a, 0x1f];

fn elf_buffer(len: usize) -> Vec<u8> {
    let mut v = vec![0u8; len];
    v[0] = 0x7f;
    v[1] = 0x45;
    v[2] = 0x4c;
    v[3] = 0x46;
    v
}

fn plant_marker(buf: &mut [u8], at: usize) {
    buf[at..at + 8].copy_from_slice(&MARKER);
}

#[test]
fn descriptor_wire_layout() {
    let c = EmbeddedConfig::new(5, 64, false);
    let b = c.as_bytes();
    assert_eq!(
        b,
        vec![
            0x21, 0x07, 0x00, 0x0d, 0x2b, 0x4e, 0x8a, 0x1f, 1, 0, 0, 0, 5, 0, 0, 0, 64, 0, 0, 0, 0
        ]
    );
}

#[test]
fn descriptor_default_fields() {
    let c = EmbeddedConfig::default();
    assert_eq!(c.magic1, 0x0d000721);
    assert_eq!(c.magic2, 0x1f8a4e2b);
    assert_eq!(c.version, 1);
    assert_eq!(c.data_size, 0);
    assert_eq!(c.data_offset, 0);
    assert_eq!(c.data_xz, 0);
}

#[test]
fn descriptor_round_trip() {
    let values = [
        EmbeddedConfig::new(0, 0, false),
        EmbeddedConfig::new(5, 64, true),
        EmbeddedConfig::new(u32::MAX, u32::MAX, false),
        EmbeddedConfig::new(0x12345678, 0x9abcdef0, true),
    ];
    for c in values {
        let decoded = EmbeddedConfig::from_bytes(&c.as_bytes()).unwrap();
        assert_eq!(decoded, c);
    }
}

#[test]
fn bytes_round_trip() {
    let mut b: Vec<u8> = (100..121).collect();
    b[20] = 1;
    let c = EmbeddedConfig::from_bytes(&b).unwrap();
    assert_eq!(c.as_bytes(), b);
    b[20] = 0;
    let c = EmbeddedConfig::from_bytes(&b).unwrap();
    assert_eq!(c.as_bytes(), b);
    b[20] = 2;
    let c = EmbeddedConfig::from_bytes(&b).unwrap();
    assert_eq!(c.as_bytes(), b);
    assert_eq!(c.data_xz, 2);
}

#[test]
fn truncated_descriptor_rejected() {
    let b = [0u8; 20];
    assert_eq!(
        EmbeddedConfig::from_bytes(&b),
        Err(PatchError::TruncatedDescriptor)
    );
    assert!(EmbeddedConfig::from_bytes(&[]).is_err());
}

#[test]
fn short_input_rejected() {
    let r = BinaryProcessor::new(vec![0x7f, 0x45, 0x4c, 0x46]);
    assert!(matches!(r, Err(PatchError::InvalidFormat)));
}

#[test]
fn wrong_signature_rejected() {
    let mut buf = vec![0u8; 64];
    buf[0] = 0x7f;
    buf[1] = 0x42;
    let r = BinaryProcessor::new(buf);
    assert!(matches!(r, Err(PatchError::InvalidFormat)));
}

#[test]
fn scanner_returns_lowest_offset() {
    let mut buf = elf_buffer(80);
    plant_marker(&mut buf, 50);
    plant_marker(&mut buf, 5);
    let p = BinaryProcessor::new(buf).unwrap();
    assert_eq!(p.find_embedded_config(), Some(5));
}

#[test]
fn scanner_finds_marker_flush_with_end() {
    let mut buf = elf_buffer(29);
    plant_marker(&mut buf, 8);
    let p = BinaryProcessor::new(buf).unwrap();
    assert_eq!(p.find_embedded_config(), Some(8));
}

#[test]
fn embed_with_marker_flush_with_end() {
    let mut buf = elf_buffer(29);
    plant_marker(&mut buf, 8);
    let mut p = BinaryProcessor::new(buf).unwrap();
    p.add_embedded_config_data(b"tail", false).unwrap();
    let out = p.into_data();
    assert_eq!(out.len(), 33);
    let desc = EmbeddedConfig::from_bytes(&out[8..29]).unwrap();
    assert_eq!(desc.data_size, 4);
    assert_eq!(desc.data_offset, 29);
    assert_eq!(&out[29..], b"tail");
}

#[test]
fn scanner_not_found_on_short_buffer() {
    let buf = elf_buffer(DESCRIPTOR_SIZE - 1);
    let p = BinaryProcessor::new(buf).unwrap();
    assert_eq!(p.find_embedded_config(), None);
}

#[test]
fn scanner_not_found_without_marker() {
    let buf = elf_buffer(256);
    let p = BinaryProcessor::new(buf).unwrap();
    assert_eq!(p.find_embedded_config(), None);
}

#[test]
fn embed_without_marker_fails_unmodified() {
    let buf = elf_buffer(64);
    let mut p = BinaryProcessor::new(buf.clone()).unwrap();
    let r = p.add_embedded_config_data(b"payload", false);
    assert_eq!(r, Err(PatchError::MarkerNotFound));
    assert_eq!(p.into_data(), buf);
}

#[test]
fn embed_uncompressed_end_to_end() {
    let mut buf = elf_buffer(64);
    plant_marker(&mut buf, 20);
    let mut p = BinaryProcessor::new(buf).unwrap();
    p.add_embedded_config_data(b"hello", false).unwrap();
    let out = p.into_data();
    assert_eq!(out.len(), 69);
    let desc = EmbeddedConfig::from_bytes(&out[20..41]).unwrap();
    assert_eq!(desc.magic1, 0x0d000721);
    assert_eq!(desc.magic2, 0x1f8a4e2b);
    assert_eq!(desc.version, 1);
    assert_eq!(desc.data_size, 5);
    assert_eq!(desc.data_offset, 64);
    assert_eq!(desc.data_xz, 0);
    assert_eq!(&out[64..69], b"hello");
}

#[test]
fn embed_uncompressed_empty_payload() {
    let mut buf = elf_buffer(64);
    plant_marker(&mut buf, 24);
    let mut p = BinaryProcessor::new(buf).unwrap();
    p.add_embedded_config_data(b"", false).unwrap();
    let out = p.into_data();
    assert_eq!(out.len(), 64);
    let desc = EmbeddedConfig::from_bytes(&out[24..45]).unwrap();
    assert_eq!(desc.data_size, 0);
    assert_eq!(desc.data_offset, 64);
    assert_eq!(desc.data_xz, 0);
}

#[test]
fn embed_leaves_other_bytes_unchanged() {
    let mut buf: Vec<u8> = (0..128u8).collect();
    buf[0] = 0x7f;
    buf[1] = 0x45;
    buf[2] = 0x4c;
    buf[3] = 0x46;
    plant_marker(&mut buf, 40);
    let original = buf.clone();
    let mut p = BinaryProcessor::new(buf).unwrap();
    p.add_embedded_config_data(&[9, 8, 7], false).unwrap();
    let out = p.into_data();
    assert_eq!(&out[..40], &original[..40]);
    assert_eq!(&out[61..128], &original[61..128]);
    assert_eq!(&out[128..], &[9, 8, 7]);
}

#[test]
fn embed_compressed_round_trips_payload() {
    let mut buf = elf_buffer(64);
    plant_marker(&mut buf, 20);
    let payload: Vec<u8> = b"configuration payload, long enough to be a real xz stream"
        .repeat(4);
    let mut p = BinaryProcessor::new(buf).unwrap();
    p.add_embedded_config_data(&payload, true).unwrap();
    let out = p.into_data();
    let desc = EmbeddedConfig::from_bytes(&out[20..41]).unwrap();
    assert_eq!(desc.data_xz, 1);
    assert_eq!(desc.data_offset, 64);
    let start = desc.data_offset as usize;
    let end = start + desc.data_size as usize;
    assert_eq!(end, out.len());
    let mut decoder = xz2::read::XzDecoder::new(&out[start..end]);
    let mut decompressed = Vec::new();
    std::io::Read::read_to_end(&mut decoder, &mut decompressed).unwrap();
    assert_eq!(decompressed, payload);
}

#[test]
fn patch_single_entry_point() {
    let mut buf = elf_buffer(64);
    plant_marker(&mut buf, 20);
    let out = elfpatch::binary::patch(buf, b"hello", false).unwrap();
    assert_eq!(out.len(), 69);
    assert_eq!(&out[64..], b"hello");

    let bad = vec![0u8; 8];
    assert_eq!(
        elfpatch::binary::patch(bad, b"x", false),
        Err(PatchError::InvalidFormat)
    );
    assert_eq!(
        elfpatch::binary::patch(elf_buffer(64), b"x", true),
        Err(PatchError::MarkerNotFound)
    );
}

#[test]
fn container_append_and_overwrite() {
    let buf = elf_buffer(16);
    let mut p = BinaryProcessor::new(buf).unwrap();
    assert_eq!(p.len(), 16);
    let offset = p.append(&[1, 2, 3]);
    assert_eq!(offset, 16);
    assert_eq!(p.len(), 19);
    p.overwrite(16, &[4, 5]);
    let out = p.into_data();
    assert_eq!(&out[16..], &[4, 5, 3]);
}

#[test]
fn container_bytes_view() {
    let buf = elf_buffer(24);
    let p = BinaryProcessor::new(buf.clone()).unwrap();
    assert_eq!(p.bytes(), &buf[..]);
}
