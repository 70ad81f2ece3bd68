use sentinel::config::{default_heartbeat, default_timeout, SentinelConfig};
use sentinel::sentinel::AdmissionOutcome;
use tempfile::{NamedTempFile, TempDir};

struct Fixture {
    _tmp: TempDir,
    _images: TempDir,
    _overlays: TempDir,
    _kernel: NamedTempFile,
    _fc: NamedTempFile,
    cfg: SentinelConfig,
}

fn path_string(p: &std::path::Path) -> String {
    p.to_str().unwrap().to_string()
}

fn valid_config() -> Fixture {
    let tmp = TempDir::new().unwrap();
    let images = TempDir::new_in(tmp.path()).unwrap();
    let overlays = TempDir::new_in(tmp.path()).unwrap();
    let kernel = NamedTempFile::new_in(tmp.path()).unwrap();
    let fc = NamedTempFile::new_in(tmp.path()).unwrap();
    let cfg = SentinelConfig {
        host_id: "host-01".to_string(),
        slots: 4,
        image_dir: path_string(images.path()),
        kernel_path: path_string(kernel.path()),
        overlay_dir: path_string(overlays.path()),
        firecracker_bin: path_string(fc.path()),
        profiles: Vec::new(),
        task_types: vec!["shell".to_string()],
        heartbeat_interval_secs: 10,
    };
    Fixture { _tmp: tmp, _images: images, _overlays: overlays, _kernel: kernel, _fc: fc, cfg }
}

#[test]
fn valid_config_passes() {
    let f = valid_config();
    assert!(f.cfg.validate().is_ok());
}

#[test]
fn empty_host_id_rejected() {
    let mut f = valid_config();
    f.cfg.host_id = String::new();
    let err = f.cfg.validate().unwrap_err();
    assert!(err.message().contains("host_id"));
}

#[test]
fn long_host_id_rejected() {
    let mut f = valid_config();
    f.cfg.host_id = "a".repeat(129);
    let err = f.cfg.validate().unwrap_err();
    assert!(err.message().contains("host_id"));
    assert!(err.message().contains("129"));
}

#[test]
fn host_id_with_special_chars_rejected() {
    let mut f = valid_config();
    f.cfg.host_id = "host/evil".to_string();
    let err = f.cfg.validate().unwrap_err();
    assert!(err.message().contains("host_id"));
}

#[test]
fn host_id_allows_hyphens_underscores_dots() {
    let mut f = valid_config();
    f.cfg.host_id = "host-01_az.local".to_string();
    assert!(f.cfg.validate().is_ok());
}

#[test]
fn missing_image_dir_rejected() {
    let mut f = valid_config();
    f.cfg.image_dir = path_string(&f._tmp.path().join("nonexistent"));
    let err = f.cfg.validate().unwrap_err();
    assert!(err.message().contains("image_dir"));
}

#[test]
fn file_as_dir_rejected() {
    let mut f = valid_config();
    let not_a_dir = NamedTempFile::new_in(f._tmp.path()).unwrap();
    f.cfg.image_dir = path_string(not_a_dir.path());
    let err = f.cfg.validate().unwrap_err();
    assert!(err.message().contains("expected directory"));
}

#[test]
fn missing_kernel_rejected() {
    let mut f = valid_config();
    f.cfg.kernel_path = path_string(&f._tmp.path().join("missing-kernel"));
    let err = f.cfg.validate().unwrap_err();
    assert!(err.message().contains("kernel_path"));
}

#[test]
fn dir_as_file_rejected() {
    let mut f = valid_config();
    f.cfg.kernel_path = f.cfg.image_dir.clone();
    let err = f.cfg.validate().unwrap_err();
    assert!(err.message().contains("expected file"));
}

#[test]
fn heartbeat_default_is_ten() {
    assert_eq!(default_heartbeat(), 10);
}

#[test]
fn timeout_default_is_three_hundred() {
    assert_eq!(default_timeout(), 300);
}

#[test]
fn traversal_segments_detected() {
    assert!(sentinel::config::find_traversal_segment("/a/../b"));
    assert!(sentinel::config::find_traversal_segment(".."));
    assert!(sentinel::config::find_traversal_segment("../x"));
    assert!(sentinel::config::find_traversal_segment("x/.."));
    assert!(!sentinel::config::find_traversal_segment("/a/b"));
    assert!(!sentinel::config::find_traversal_segment("/a/..b/c"));
    assert!(!sentinel::config::find_traversal_segment("/a/b../c"));
}

#[test]
fn sentinel_new_validates_and_sizes_slots() {
    let f = valid_config();
    let s = sentinel::Sentinel::new(f.cfg).unwrap();
    assert_eq!(s.slots.available(), 4);
    assert_eq!(s.config.host_id, "host-01");
}

#[test]
fn sentinel_new_rejects_bad_host_id() {
    let mut f = valid_config();
    f.cfg.host_id = "bad host".to_string();
    let err = sentinel::Sentinel::new(f.cfg).unwrap_err();
    assert!(matches!(err, sentinel::SentinelError::Config(_)));
}

#[test]
fn admission_takes_one_slot_per_won_claim() {
    let f = valid_config();
    let mut s = sentinel::Sentinel::new(f.cfg).unwrap();
    assert_eq!(s.admit_claimed(false), AdmissionOutcome::Dropped);
    assert_eq!(s.slots.available(), 4);
    assert_eq!(s.admit_claimed(true), AdmissionOutcome::Admitted);
    assert_eq!(s.slots.available(), 3);
    for _ in 0..3 {
        assert_eq!(s.admit_claimed(true), AdmissionOutcome::Admitted);
    }
    assert_eq!(s.admit_claimed(true), AdmissionOutcome::CapacityExhausted);
    assert_eq!(s.slots.available(), 0);
    s.finish_task();
    assert_eq!(s.slots.available(), 1);
    assert_eq!(s.admit_claimed(true), AdmissionOutcome::Admitted);
}
