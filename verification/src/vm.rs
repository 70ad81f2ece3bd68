//! Hypervisor-facing data: boot configuration documents and handles.
//!
//! `FirecrackerConfig` renders the JSON payloads the hypervisor API takes
//! for its machine, boot-source, root-drive and vsock endpoints. The
//! process supervision itself lives outside the core.

use vstd::prelude::*;

use crate::decimal::{spec_u64_digits, u64_to_string};
use crate::json::{json_view, json_view_members, lemma_json_view_members, JsonValue, JsonView};

verus! {

/// Boot configuration for one microVM.
#[derive(Debug)]
pub struct FirecrackerConfig {
    pub vcpus: u32,
    pub mem_mb: u32,
    pub kernel_path: String,
    pub rootfs_path: String,
    pub vsock_cid: u32,
    pub socket_path: String,
}

impl FirecrackerConfig {
    /// The machine-config document: vCPU count and memory size.
    pub fn machine_config_json(&self) -> (r: JsonValue)
        ensures
            r@ == JsonView::Object(
                seq![
                    ("vcpu_count"@, JsonView::Number(spec_u64_digits(self.vcpus as nat))),
                    ("mem_size_mib"@, JsonView::Number(spec_u64_digits(self.mem_mb as nat))),
                ],
            ),
    {
        let mut members: Vec<(String, JsonValue)> = Vec::new();
        members.push(
            (String::from_str("vcpu_count"), JsonValue::Number(u64_to_string(self.vcpus as u64))),
        );
        members.push(
            (String::from_str("mem_size_mib"), JsonValue::Number(u64_to_string(self.mem_mb as u64))),
        );
        proof {
            lemma_json_view_members(members@);
            assert(json_view_members(members@)[0] == (members@[0].0@, json_view(members@[0].1)));
            assert(json_view_members(members@)[1] == (members@[1].0@, json_view(members@[1].1)));
            assert(json_view_members(members@) =~= seq![
                ("vcpu_count"@, JsonView::Number(spec_u64_digits(self.vcpus as nat))),
                ("mem_size_mib"@, JsonView::Number(spec_u64_digits(self.mem_mb as nat))),
            ]);
        }
        JsonValue::Object(members)
    }

    /// The boot-source document: kernel image and boot arguments.
    pub fn boot_source_json(&self) -> (r: JsonValue)
        ensures
            r@ == JsonView::Object(
                seq![
                    ("kernel_image_path"@, JsonView::Text(self.kernel_path@)),
                    ("boot_args"@, JsonView::Text("console=ttyS0 reboot=k panic=1 pci=off"@)),
                ],
            ),
    {
        let mut members: Vec<(String, JsonValue)> = Vec::new();
        members.push(
            (String::from_str("kernel_image_path"), JsonValue::Text(self.kernel_path.clone())),
        );
        members.push(
            (
                String::from_str("boot_args"),
                JsonValue::Text(String::from_str("console=ttyS0 reboot=k panic=1 pci=off")),
            ),
        );
        proof {
            lemma_json_view_members(members@);
            assert(json_view_members(members@)[0] == (members@[0].0@, json_view(members@[0].1)));
            assert(json_view_members(members@)[1] == (members@[1].0@, json_view(members@[1].1)));
            assert(json_view_members(members@) =~= seq![
                ("kernel_image_path"@, JsonView::Text(self.kernel_path@)),
                ("boot_args"@, JsonView::Text("console=ttyS0 reboot=k panic=1 pci=off"@)),
            ]);
        }
        JsonValue::Object(members)
    }

    /// The root-drive document: the copy-on-write rootfs, writable, as the
    /// boot device.
    pub fn rootfs_drive_json(&self) -> (r: JsonValue)
        ensures
            r@ == JsonView::Object(
                seq![
                    ("drive_id"@, JsonView::Text("rootfs"@)),
                    ("path_on_host"@, JsonView::Text(self.rootfs_path@)),
                    ("is_root_device"@, JsonView::Bool(true)),
                    ("is_read_only"@, JsonView::Bool(false)),
                ],
            ),
    {
        let mut members: Vec<(String, JsonValue)> = Vec::new();
        members.push((String::from_str("drive_id"), JsonValue::Text(String::from_str("rootfs"))));
        members.push(
            (String::from_str("path_on_host"), JsonValue::Text(self.rootfs_path.clone())),
        );
        members.push((String::from_str("is_root_device"), JsonValue::Bool(true)));
        members.push((String::from_str("is_read_only"), JsonValue::Bool(false)));
        proof {
            lemma_json_view_members(members@);
            assert(json_view_members(members@)[0] == (members@[0].0@, json_view(members@[0].1)));
            assert(json_view_members(members@)[1] == (members@[1].0@, json_view(members@[1].1)));
            assert(json_view_members(members@)[2] == (members@[2].0@, json_view(members@[2].1)));
            assert(json_view_members(members@)[3] == (members@[3].0@, json_view(members@[3].1)));
            assert(json_view_members(members@) =~= seq![
                ("drive_id"@, JsonView::Text("rootfs"@)),
                ("path_on_host"@, JsonView::Text(self.rootfs_path@)),
                ("is_root_device"@, JsonView::Bool(true)),
                ("is_read_only"@, JsonView::Bool(false)),
            ]);
        }
        JsonValue::Object(members)
    }

    /// The vsock document: the guest's context id and the host socket path.
    pub fn vsock_json(&self) -> (r: JsonValue)
        ensures
            r@ == JsonView::Object(
                seq![
                    ("guest_cid"@, JsonView::Number(spec_u64_digits(self.vsock_cid as nat))),
                    ("uds_path"@, JsonView::Text(self.socket_path@)),
                ],
            ),
    {
        let mut members: Vec<(String, JsonValue)> = Vec::new();
        members.push(
            (String::from_str("guest_cid"), JsonValue::Number(u64_to_string(self.vsock_cid as u64))),
        );
        members.push((String::from_str("uds_path"), JsonValue::Text(self.socket_path.clone())));
        proof {
            lemma_json_view_members(members@);
            assert(json_view_members(members@)[0] == (members@[0].0@, json_view(members@[0].1)));
            assert(json_view_members(members@)[1] == (members@[1].0@, json_view(members@[1].1)));
            assert(json_view_members(members@) =~= seq![
                ("guest_cid"@, JsonView::Number(spec_u64_digits(self.vsock_cid as nat))),
                ("uds_path"@, JsonView::Text(self.socket_path@)),
            ]);
        }
        JsonValue::Object(members)
    }
}

/// Client-side record of where the hypervisor binary lives. The process
/// supervision that uses it runs outside the core.
#[derive(Debug)]
pub struct VmManager {
    pub firecracker_bin: String,
}

impl VmManager {
    pub fn new(firecracker_bin: String) -> (m: VmManager)
        ensures
            m.firecracker_bin == firecracker_bin,
    {
        VmManager { firecracker_bin }
    }
}

/// Handle to one running microVM.
#[derive(Debug)]
pub struct VmHandle {
    pub cid: u32,
    pub pid: u32,
    pub socket_path: String,
}

/// Copy-on-write rootfs overlay bookkeeping; the snapshot operations
/// themselves run outside the core.
#[derive(Debug)]
pub struct OverlayManager {
    pub overlay_dir: String,
}

impl OverlayManager {
    pub fn new(overlay_dir: String) -> (m: OverlayManager)
        ensures
            m.overlay_dir == overlay_dir,
    {
        OverlayManager { overlay_dir }
    }
}

} // verus!
