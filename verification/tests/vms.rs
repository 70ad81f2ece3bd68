use sentinel::json::JsonValue;
use sentinel::vm::{FirecrackerConfig, OverlayManager, VmManager};

fn field<'a>(v: &'a JsonValue, key: &str) -> &'a JsonValue {
    match v {
        JsonValue::Object(m) => {
            for (k, val) in m {
                if k == key {
                    return val;
                }
            }
            panic!("missing field");
        },
        _ => panic!("expected object"),
    }
}

fn test_config() -> FirecrackerConfig {
    FirecrackerConfig {
        vcpus: 2,
        mem_mb: 512,
        kernel_path: "/opt/vmlinux".to_string(),
        rootfs_path: "/images/base.ext4".to_string(),
        vsock_cid: 3,
        socket_path: "/tmp/fc.sock".to_string(),
    }
}

#[test]
fn machine_config_has_correct_fields() {
    let cfg = test_config();
    let json = cfg.machine_config_json();
    assert!(matches!(field(&json, "vcpu_count"), JsonValue::Number(lex) if lex == "2"));
    assert!(matches!(field(&json, "mem_size_mib"), JsonValue::Number(lex) if lex == "512"));
}

#[test]
fn boot_source_has_kernel_and_args() {
    let cfg = test_config();
    let json = cfg.boot_source_json();
    assert!(matches!(field(&json, "kernel_image_path"), JsonValue::Text(s) if s == "/opt/vmlinux"));
    let args = match field(&json, "boot_args") {
        JsonValue::Text(s) => s,
        _ => panic!("expected text"),
    };
    assert!(args.contains("console=ttyS0"));
    assert!(args.contains("pci=off"));
}

#[test]
fn rootfs_drive_is_root_device() {
    let cfg = test_config();
    let json = cfg.rootfs_drive_json();
    assert!(matches!(field(&json, "drive_id"), JsonValue::Text(s) if s == "rootfs"));
    assert!(
        matches!(field(&json, "path_on_host"), JsonValue::Text(s) if s == "/images/base.ext4")
    );
    assert!(matches!(field(&json, "is_root_device"), JsonValue::Bool(true)));
    assert!(matches!(field(&json, "is_read_only"), JsonValue::Bool(false)));
}

#[test]
fn vsock_has_cid_and_path() {
    let cfg = test_config();
    let json = cfg.vsock_json();
    assert!(matches!(field(&json, "guest_cid"), JsonValue::Number(lex) if lex == "3"));
    assert!(matches!(field(&json, "uds_path"), JsonValue::Text(s) if s == "/tmp/fc.sock"));
}

#[test]
fn managers_keep_their_paths() {
    let m = VmManager::new("/usr/bin/firecracker".to_string());
    assert_eq!(m.firecracker_bin, "/usr/bin/firecracker");
    let o = OverlayManager::new("/var/overlays".to_string());
    assert_eq!(o.overlay_dir, "/var/overlays");
}
