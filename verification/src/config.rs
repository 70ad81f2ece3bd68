//! Startup configuration surface and its validation.
//!
//! Validation checks the host identifier's shape, that each configured path
//! exists and is the right kind of filesystem object, and that no canonical
//! path keeps a parent-directory traversal segment. A validation failure is
//! fatal at startup; nothing here panics.
//!
//! Paths are carried as plain strings; the surrounding process converts to
//! and from its path types and performs configuration-file loading.

use vstd::prelude::*;

use crate::decimal::{spec_u64_digits, u64_to_string};
use crate::error::SentinelError;

verus! {

/// Host-level configuration, validated once at startup.
#[derive(Debug)]
pub struct SentinelConfig {
    pub host_id: String,
    pub slots: u32,
    pub image_dir: String,
    pub kernel_path: String,
    pub overlay_dir: String,
    pub firecracker_bin: String,
    pub profiles: Vec<(String, VmProfile)>,
    pub task_types: Vec<String>,
    pub heartbeat_interval_secs: u64,
}

/// Per-task-type VM profile.
#[derive(Debug)]
pub struct VmProfile {
    pub vcpus: u32,
    pub mem_mb: u32,
    pub rootfs: String,
    pub timeout_sec: u64,
    pub network: NetworkMode,
    pub network_policy: Option<NetworkPolicy>,
    pub tool_policy: Option<ToolPolicy>,
}

/// How a VM reaches the outside world, if at all. `NoNetwork` is the
/// fully isolated mode, written `none` in configuration files.
#[derive(Debug, Clone, PartialEq, Eq, Structural)]
pub enum NetworkMode {
    Nat,
    Proxy,
    NoNetwork,
}

impl Default for NetworkMode {
    fn default() -> (m: NetworkMode)
        ensures
            m is Nat,
    {
        NetworkMode::Nat
    }
}

/// Outbound network policy for a VM.
#[derive(Debug)]
pub struct NetworkPolicy {
    pub mode: String,
    pub allow: Vec<String>,
}

/// Which brokered tools a task may call, and how often.
#[derive(Debug)]
pub struct ToolPolicy {
    pub allowed_tools: Vec<String>,
    pub rate_limit: Option<RateLimit>,
}

#[derive(Debug)]
pub struct RateLimit {
    pub calls_per_minute: u32,
}

/// Default heartbeat interval in seconds.
pub fn default_heartbeat() -> (r: u64)
    ensures
        r == 10,
{
    10
}

/// Default per-task execution timeout in seconds.
pub fn default_timeout() -> (r: u64)
    ensures
        r == 300,
{
    300
}

/// Characters a host identifier may contain: ASCII alphanumerics, hyphen,
/// underscore and dot.
pub open spec fn is_host_id_char(c: char) -> bool {
    ||| 48 <= c as u32 <= 57
    ||| 65 <= c as u32 <= 90
    ||| 97 <= c as u32 <= 122
    ||| c == '-'
    ||| c == '_'
    ||| c == '.'
}

/// A host identifier is 1 to 128 characters, all from the allowed set.
pub open spec fn valid_host_id(s: Seq<char>) -> bool {
    &&& 1 <= s.len() <= 128
    &&& forall|i: int| 0 <= i < s.len() ==> is_host_id_char(#[trigger] s[i])
}

/// A `..` path segment, delimited by the string's ends or by slashes.
pub open spec fn is_traversal_segment_at(s: Seq<char>, i: int) -> bool {
    &&& 0 <= i
    &&& i + 2 <= s.len()
    &&& s[i] == '.'
    &&& s[i + 1] == '.'
    &&& (i == 0 || s[i - 1] == '/')
    &&& (i + 2 == s.len() || s[i + 2] == '/')
}

/// Whether a path string contains a parent-directory traversal segment.
pub open spec fn has_traversal_segment(s: Seq<char>) -> bool {
    exists|i: int| is_traversal_segment_at(s, i)
}

/// Relies on `std::path::Path::exists`: whether the path exists on disk at
/// the moment of the call. The answer depends on the machine's filesystem,
/// so nothing is promised of it.
#[verifier::external_body]
fn path_exists(p: &str) -> bool {
    std::path::Path::new(p).exists()
}

/// Relies on `std::path::Path::is_dir`: whether the path names an existing
/// directory. The answer depends on the machine's filesystem, so nothing is
/// promised of it.
#[verifier::external_body]
fn path_is_dir(p: &str) -> bool {
    std::path::Path::new(p).is_dir()
}

/// Relies on `std::path::Path::is_file`: whether the path names an existing
/// regular file. The answer depends on the machine's filesystem, so nothing
/// is promised of it.
#[verifier::external_body]
fn path_is_file(p: &str) -> bool {
    std::path::Path::new(p).is_file()
}

/// Relies on `std::path::Path::canonicalize`: the canonical absolute form of
/// the path, `None` on resolution failure or a non-UTF-8 result. The answer
/// depends on the machine's filesystem, so nothing is promised of it.
#[verifier::external_body]
fn canonicalize_path(p: &str) -> Option<String> {
    match std::path::Path::new(p).canonicalize() {
        Ok(canonical) => match canonical.to_str() {
            Some(s) => Some(s.to_owned()),
            None => None,
        },
        Err(_) => None,
    }
}

/// Scan a path string for a `..` segment.
pub fn find_traversal_segment(s: &str) -> (r: bool)
    ensures
        r == has_traversal_segment(s@),
{
    let n = s.unicode_len();
    let mut i: usize = 0;
    while i < n
        invariant
            0 <= i <= n,
            n == s@.len(),
            forall|k: int| 0 <= k < i ==> !is_traversal_segment_at(s@, k),
        decreases n - i,
    {
        if n - i >= 2 && s.get_char(i) == '.' && s.get_char(i + 1) == '.' && (i == 0
            || s.get_char(i - 1) == '/') && (i + 2 == n || s.get_char(i + 2) == '/') {
            proof {
                assert(is_traversal_segment_at(s@, i as int));
            }
            return true;
        }
        proof {
            assert(!is_traversal_segment_at(s@, i as int));
        }
        i = i + 1;
    }
    proof {
        assert(forall|k: int| is_traversal_segment_at(s@, k) ==> 0 <= k < n);
    }
    false
}

/// The decision part of `require_dir`, over the probed facts.
pub fn classify_dir(exists: bool, dir: bool, path: &str, field: &str) -> (r: Result<
    (),
    SentinelError,
>)
    ensures
        r is Ok <==> exists && dir,
        !exists ==> (r matches Err(e) && e matches SentinelError::Config(m) && m@ == field@
            + ": path does not exist: "@ + path@),
        exists && !dir ==> (r matches Err(e) && e matches SentinelError::Config(m) && m@ == field@
            + ": expected directory, got file: "@ + path@),
{
    if !exists {
        Err(
            SentinelError::Config(
                String::from_str(field).concat(": path does not exist: ").concat(path),
            ),
        )
    } else if !dir {
        Err(
            SentinelError::Config(
                String::from_str(field).concat(": expected directory, got file: ").concat(path),
            ),
        )
    } else {
        Ok(())
    }
}

/// The decision part of `require_file`, over the probed facts.
pub fn classify_file(exists: bool, file: bool, path: &str, field: &str) -> (r: Result<
    (),
    SentinelError,
>)
    ensures
        r is Ok <==> exists && file,
        !exists ==> (r matches Err(e) && e matches SentinelError::Config(m) && m@ == field@
            + ": path does not exist: "@ + path@),
        exists && !file ==> (r matches Err(e) && e matches SentinelError::Config(m) && m@ == field@
            + ": expected file, got directory: "@ + path@),
{
    if !exists {
        Err(
            SentinelError::Config(
                String::from_str(field).concat(": path does not exist: ").concat(path),
            ),
        )
    } else if !file {
        Err(
            SentinelError::Config(
                String::from_str(field).concat(": expected file, got directory: ").concat(path),
            ),
        )
    } else {
        Ok(())
    }
}

/// The decision part of `reject_traversal`, over the canonicalized path.
pub fn classify_canonical(canonical: Option<&String>, path: &str, field: &str) -> (r: Result<
    (),
    SentinelError,
>)
    ensures
        r is Ok <==> (canonical matches Some(c) && !has_traversal_segment(c@)),
        canonical is None ==> (r matches Err(e) && e matches SentinelError::Config(m) && m@
            == field@ + ": cannot resolve path: "@ + path@),
        (canonical matches Some(c) && has_traversal_segment(c@)) ==> (r matches Err(e)
            && e matches SentinelError::Config(m) && m@ == field@ + ": path contains traversal: "@
            + path@),
{
    match canonical {
        None => Err(
            SentinelError::Config(
                String::from_str(field).concat(": cannot resolve path: ").concat(path),
            ),
        ),
        Some(c) => {
            if find_traversal_segment(c.as_str()) {
                Err(
                    SentinelError::Config(
                        String::from_str(field).concat(": path contains traversal: ").concat(path),
                    ),
                )
            } else {
                Ok(())
            }
        },
    }
}

impl SentinelConfig {
    /// Check the host identifier's shape: 1 to 128 characters, ASCII
    /// alphanumerics, hyphen, underscore or dot only.
    pub fn validate_host_id(id: &str) -> (r: Result<(), SentinelError>)
        ensures
            r is Ok <==> valid_host_id(id@),
            !(1 <= id@.len() <= 128) ==> (r matches Err(e) && e matches SentinelError::Config(m)
                && m@ == "host_id: must be 1-128 characters, got "@ + spec_u64_digits(id@.len())),
            (1 <= id@.len() <= 128 && !valid_host_id(id@)) ==> (r matches Err(e)
                && e matches SentinelError::Config(m) && m@
                == "host_id: must contain only alphanumeric, hyphen, underscore, or dot"@),
    {
        let n = id.unicode_len();
        if n == 0 || n > 128 {
            return Err(
                SentinelError::Config(
                    String::from_str("host_id: must be 1-128 characters, got ").concat(
                        u64_to_string(n as u64).as_str(),
                    ),
                ),
            );
        }
        let mut i: usize = 0;
        while i < n
            invariant
                0 <= i <= n,
                n == id@.len(),
                1 <= n <= 128,
                forall|k: int| 0 <= k < i ==> is_host_id_char(#[trigger] id@[k]),
            decreases n - i,
        {
            let c = id.get_char(i);
            let u = c as u32;
            if !(48 <= u && u <= 57) && !(65 <= u && u <= 90) && !(97 <= u && u <= 122) && c != '-'
                && c != '_' && c != '.' {
                return Err(
                    SentinelError::Config(
                        String::from_str(
                            "host_id: must contain only alphanumeric, hyphen, underscore, or dot",
                        ),
                    ),
                );
            }
            i = i + 1;
        }
        Ok(())
    }

    /// Require that `path` names an existing directory.
    pub fn require_dir(path: &str, field: &str) -> (r: Result<(), SentinelError>)
        ensures
            r matches Err(e) ==> e is Config,
    {
        let exists = path_exists(path);
        let dir = path_is_dir(path);
        classify_dir(exists, dir, path, field)
    }

    /// Require that `path` names an existing regular file.
    pub fn require_file(path: &str, field: &str) -> (r: Result<(), SentinelError>)
        ensures
            r matches Err(e) ==> e is Config,
    {
        let exists = path_exists(path);
        let file = path_is_file(path);
        classify_file(exists, file, path, field)
    }

    /// Require that `path` resolves to a canonical form free of
    /// parent-directory traversal segments.
    pub fn reject_traversal(path: &str, field: &str) -> (r: Result<(), SentinelError>)
        ensures
            r matches Err(e) ==> e is Config,
    {
        let canonical = canonicalize_path(path);
        classify_canonical(canonical.as_ref(), path, field)
    }

    /// Validate all paths and identifiers after loading.
    ///
    /// A rejected host identifier always fails, whatever the filesystem
    /// holds; the path checks additionally depend on what is on disk.
    pub fn validate(&self) -> (r: Result<(), SentinelError>)
        ensures
            r is Ok ==> valid_host_id(self.host_id@),
            !valid_host_id(self.host_id@) ==> r is Err,
            !(1 <= self.host_id@.len() <= 128) ==> (r matches Err(e)
                && e matches SentinelError::Config(m) && m@
                == "host_id: must be 1-128 characters, got "@ + spec_u64_digits(
                self.host_id@.len(),
            )),
            (1 <= self.host_id@.len() <= 128 && !valid_host_id(self.host_id@)) ==> (r matches Err(
                e,
            ) && e matches SentinelError::Config(m) && m@
                == "host_id: must contain only alphanumeric, hyphen, underscore, or dot"@),
            r matches Err(e) ==> e is Config,
    {
        let r = Self::validate_host_id(self.host_id.as_str());
        if let Err(e) = r {
            return Err(e);
        }
        let r = Self::require_dir(self.image_dir.as_str(), "image_dir");
        if let Err(e) = r {
            return Err(e);
        }
        let r = Self::require_file(self.kernel_path.as_str(), "kernel_path");
        if let Err(e) = r {
            return Err(e);
        }
        let r = Self::require_dir(self.overlay_dir.as_str(), "overlay_dir");
        if let Err(e) = r {
            return Err(e);
        }
        let r = Self::require_file(self.firecracker_bin.as_str(), "firecracker_bin");
        if let Err(e) = r {
            return Err(e);
        }
        let r = Self::reject_traversal(self.image_dir.as_str(), "image_dir");
        if let Err(e) = r {
            return Err(e);
        }
        let r = Self::reject_traversal(self.kernel_path.as_str(), "kernel_path");
        if let Err(e) = r {
            return Err(e);
        }
        let r = Self::reject_traversal(self.overlay_dir.as_str(), "overlay_dir");
        if let Err(e) = r {
            return Err(e);
        }
        let r = Self::reject_traversal(self.firecracker_bin.as_str(), "firecracker_bin");
        if let Err(e) = r {
            return Err(e);
        }
        Ok(())
    }
}

} // verus!
