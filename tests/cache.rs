use rz_embed::{cache_action, compress_contents, plan_cache, total_sizes, CacheAction, ModTime};
use std::io::Read;

fn t(nanos: i128) -> ModTime {
    ModTime { nanos }
}

fn gunzip(z: &[u8]) -> Vec<u8> {
    let mut out = Vec::new();
    flate2::read::GzDecoder::new(z).read_to_end(&mut out).unwrap();
    out
}

#[test]
fn missing_artifact_is_compressed() {
    assert_eq!(cache_action(t(5), None), CacheAction::Compress);
}

#[test]
fn older_artifact_is_compressed() {
    assert_eq!(cache_action(t(5), Some(t(4))), CacheAction::Compress);
}

#[test]
fn newer_or_equal_artifact_is_reused() {
    assert_eq!(cache_action(t(5), Some(t(5))), CacheAction::Reuse);
    assert_eq!(cache_action(t(5), Some(t(9))), CacheAction::Reuse);
    assert_eq!(cache_action(t(-3), Some(t(-2))), CacheAction::Reuse);
}

#[test]
fn second_run_reuses_everything() {
    let sources = vec![t(1), t(2), t(3)];
    let first = plan_cache(&sources, &vec![None, None, None]);
    assert_eq!(first, vec![CacheAction::Compress; 3]);
    let artifacts = vec![Some(t(10)), Some(t(10)), Some(t(10))];
    assert_eq!(plan_cache(&sources, &artifacts), vec![CacheAction::Reuse; 3]);
}

#[test]
fn changed_source_alone_is_recompressed() {
    let sources = vec![t(1), t(20), t(3)];
    let artifacts = vec![Some(t(10)), Some(t(10)), Some(t(10))];
    assert_eq!(
        plan_cache(&sources, &artifacts),
        vec![CacheAction::Reuse, CacheAction::Compress, CacheAction::Reuse]
    );
}

#[test]
fn totals_are_sums() {
    assert_eq!(total_sizes(&vec![]), Some((0, 0)));
    assert_eq!(total_sizes(&vec![(100, 40), (50, 30)]), Some((150, 70)));
}

#[test]
fn totals_overflow_is_none() {
    assert_eq!(total_sizes(&vec![(u64::MAX, 1), (1, 1)]), None);
    assert_eq!(total_sizes(&vec![(1, u64::MAX), (1, 1)]), None);
    assert_eq!(total_sizes(&vec![(u64::MAX, u64::MAX)]), Some((u64::MAX, u64::MAX)));
}

#[test]
fn compression_round_trips_text() {
    let data = b"<html><body>hello hello hello hello</body></html>".to_vec();
    let z = compress_contents(&data);
    assert_ne!(z, data);
    assert_eq!(&z[..2], &[0x1f, 0x8b]);
    assert_eq!(gunzip(&z), data);
}

#[test]
fn compression_round_trips_binary() {
    let data: Vec<u8> = (0..4096u32).map(|i| (i * 7 % 256) as u8).collect();
    let z = compress_contents(&data);
    assert_eq!(gunzip(&z), data);
    let empty = compress_contents(&[]);
    assert_eq!(gunzip(&empty), Vec::<u8>::new());
}

#[test]
fn compression_is_deterministic() {
    let data = b"same bytes".to_vec();
    assert_eq!(compress_contents(&data), compress_contents(&data));
}
