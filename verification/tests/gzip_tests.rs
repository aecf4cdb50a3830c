use netblocks::gzip::decompress_gzip;
use netblocks::gzip::needs_decompress;
use netblocks::gzip::tmp_path;
use std::io::Write;

fn gzip_bytes(data: &[u8]) -> Vec<u8> {
    let mut enc = flate2::write::GzEncoder::new(Vec::new(), flate2::Compression::default());
    enc.write_all(data).unwrap();
    enc.finish().unwrap()
}

#[test]
fn decompress_round_trip() {
    let plain = b"a routing table snapshot, say".to_vec();
    let compressed = gzip_bytes(&plain);
    assert_ne!(compressed, plain);
    let restored = decompress_gzip(&compressed).unwrap();
    assert_eq!(restored, plain);
}

#[test]
fn decompress_empty_payload() {
    let compressed = gzip_bytes(b"");
    let restored = decompress_gzip(&compressed).unwrap();
    assert_eq!(restored, Vec::<u8>::new());
}

#[test]
fn decompress_rejects_garbage() {
    assert!(decompress_gzip(&b"definitely not gzip".to_vec()).is_none());
    assert!(decompress_gzip(&Vec::new()).is_none());
}

#[test]
fn tmp_path_appends_suffix() {
    let t = tmp_path(".cache/abc-latest-bview.mrt");
    assert_eq!(t, ".cache/abc-latest-bview.mrt.tmp");
    assert_ne!(t, ".cache/abc-latest-bview.mrt");
}

#[test]
fn needs_decompress_cases() {
    assert!(needs_decompress(true, true));
    assert!(needs_decompress(true, false));
    assert!(needs_decompress(false, false));
    assert!(!needs_decompress(false, true));
}
