use vstd::prelude::*;

use crate::archive::ArchiveType;
use crate::versions::{str_eq, version_seq, Arch, Version};

verus! {

/// The build targets a release is published for: an OS identifier as it
/// appears in archive names, with the archive format shipped for it.
#[derive(Clone, Copy, Debug, PartialEq, Eq, Structural)]
pub enum Platform {
    Win,
    Darwin,
    Linux,
}

/// The platform a target-OS label denotes, if any. Labels follow the
/// compiler's `target_os` names.
pub open spec fn platform_of_label(s: Seq<char>) -> Option<Platform> {
    if s == "windows"@ {
        Some(Platform::Win)
    } else if s == "macos"@ {
        Some(Platform::Darwin)
    } else if s == "linux"@ {
        Some(Platform::Linux)
    } else {
        None
    }
}

impl Platform {
    /// Resolves a target-OS label (as the compiler names the host) to a
    /// `Platform`; `None` for an unsupported OS.
    pub fn new(label: &str) -> (r: Option<Platform>)
        ensures
            r == platform_of_label(label@),
    {
        if str_eq(label, "windows") {
            Some(Platform::Win)
        } else if str_eq(label, "macos") {
            Some(Platform::Darwin)
        } else if str_eq(label, "linux") {
            Some(Platform::Linux)
        } else {
            None
        }
    }

    /// The OS identifier used in release archive names.
    pub open spec fn os_seq(self) -> Seq<char> {
        match self {
            Platform::Win => "win"@,
            Platform::Darwin => "darwin"@,
            Platform::Linux => "linux"@,
        }
    }

    /// The OS identifier used in release archive names.
    pub fn os_str(&self) -> (r: &'static str)
        ensures
            r@ == self.os_seq(),
    {
        match self {
            Platform::Win => "win",
            Platform::Darwin => "darwin",
            Platform::Linux => "linux",
        }
    }

    /// The archive format shipped for this platform: zip for Windows,
    /// gzip-wrapped tar for macOS, xz-wrapped tar for Linux.
    pub open spec fn spec_archive_type(self) -> ArchiveType {
        match self {
            Platform::Win => ArchiveType::Zip,
            Platform::Darwin => ArchiveType::TarGz,
            Platform::Linux => ArchiveType::TarXz,
        }
    }

    /// The archive format shipped for this platform.
    pub fn archive_type(&self) -> (r: ArchiveType)
        ensures
            r == self.spec_archive_type(),
    {
        match self {
            Platform::Win => ArchiveType::Zip,
            Platform::Darwin => ArchiveType::TarGz,
            Platform::Linux => ArchiveType::TarXz,
        }
    }
}

/// Plans one installation: knows which version to install and for which
/// architecture, and derives the archive name and download address.
pub struct Installer {
    pub version: Version,
    pub arch: Arch,
}

impl Installer {
    pub fn new(version: Version, arch: Arch) -> (r: Self)
        ensures
            r.version == version,
            r.arch == arch,
    {
        Installer { version, arch }
    }

    /// The archive name without its extension:
    /// `node-vMAJOR.MINOR.PATCH-{os}-{arch}`.
    pub open spec fn installer_no_ext_seq(self, platform: Platform) -> Seq<char> {
        "node-"@ + version_seq(self.version) + "-"@ + platform.os_seq() + "-"@
            + self.arch.label_seq()
    }

    /// The full archive name, extension included.
    pub open spec fn installer_seq(self, platform: Platform) -> Seq<char> {
        self.installer_no_ext_seq(platform) + "."@ + platform.spec_archive_type().ext_seq()
    }

    /// The download address of the archive:
    /// `https://nodejs.org/dist/{version}/{archive name}`.
    pub open spec fn installer_link_seq(self, platform: Platform) -> Seq<char> {
        "https://nodejs.org/dist/"@ + version_seq(self.version) + "/"@ + self.installer_seq(
            platform,
        )
    }

    /// The archive name without its extension.
    pub fn parse_installer_no_ext(&self, platform: &Platform) -> (r: String)
        ensures
            r@ == self.installer_no_ext_seq(*platform),
    {
        let mut s = "node-".to_owned();
        let version = self.version.to_version_string();
        s.append(version.as_str());
        s.append("-");
        s.append(platform.os_str());
        s.append("-");
        s.append(self.arch.as_str());
        s
    }

    /// The full archive name, extension included.
    pub fn parse_installer(&self, platform: &Platform) -> (r: String)
        ensures
            r@ == self.installer_seq(*platform),
    {
        let mut s = self.parse_installer_no_ext(platform);
        s.append(".");
        s.append(platform.archive_type().get_ext());
        s
    }

    /// The download address of the archive.
    pub fn get_installer_link(&self, platform: &Platform) -> (r: String)
        ensures
            r@ == self.installer_link_seq(*platform),
    {
        let mut s = "https://nodejs.org/dist/".to_owned();
        let version = self.version.to_version_string();
        s.append(version.as_str());
        s.append("/");
        let installer = self.parse_installer(platform);
        s.append(installer.as_str());
        s
    }
}

/// A downloaded release archive held in memory, with the name of the
/// directory the archive unpacks to.
pub struct NodeBinary {
    pub bytes: Vec<u8>,
    pub binary_name: String,
}

impl NodeBinary {
    pub fn new(bytes: Vec<u8>, name: String) -> (r: Self)
        ensures
            r.bytes@ == bytes@,
            r.binary_name@ == name@,
    {
        NodeBinary { bytes, binary_name: name }
    }
}

/// The reported progress after receiving one chunk of `chunk_len` bytes:
/// the bytes transferred so far, held to the expected total when one is
/// known (`total > 0`); with no known total (`total == 0`) the bytes
/// transferred alone. Saturates at the integer limit rather than wrap.
pub open spec fn progress_value(downloaded: u64, chunk_len: u64, total: u64) -> int {
    let transferred: int = if downloaded + chunk_len <= u64::MAX {
        downloaded + chunk_len
    } else {
        u64::MAX as int
    };
    if total == 0 {
        transferred
    } else if transferred <= total {
        transferred
    } else {
        total as int
    }
}

/// Appends one received chunk to the in-memory download buffer.
pub fn append_chunk(buf: &mut Vec<u8>, chunk: &[u8])
    ensures
        final(buf)@ == old(buf)@ + chunk@,
{
    let mut k: usize = 0;
    proof {
        assert(buf@ =~= old(buf)@ + chunk@.subrange(0, 0));
    }
    while k < chunk.len()
        invariant
            k <= chunk@.len(),
            buf@ == old(buf)@ + chunk@.subrange(0, k as int),
        decreases chunk@.len() - k,
    {
        buf.push(chunk[k]);
        proof {
            assert(buf@ =~= old(buf)@ + chunk@.subrange(0, k + 1));
        }
        k = k + 1;
    }
    proof {
        assert(chunk@.subrange(0, chunk@.len() as int) =~= chunk@);
    }
}

/// Advances the download progress by one received chunk. The result
/// never decreases below what was already reported.
pub fn progress_after(downloaded: u64, chunk_len: u64, total: u64) -> (r: u64)
    requires
        total > 0 ==> downloaded <= total,
    ensures
        r == progress_value(downloaded, chunk_len, total),
        r >= downloaded,
        total > 0 ==> r <= total,
{
    if total > 0 {
        if chunk_len >= total - downloaded {
            total
        } else {
            downloaded + chunk_len
        }
    } else {
        if chunk_len > u64::MAX - downloaded {
            u64::MAX
        } else {
            downloaded + chunk_len
        }
    }
}


/// The stages of one installation, in pipeline order. Each stage may
/// begin only when the one before it has fully succeeded; in particular
/// the registry is written only in the final stage, after
/// materialization, so a failure at any earlier stage leaves the
/// registry untouched.
#[derive(Clone, Copy, Debug, PartialEq, Eq, Structural)]
pub enum InstallStep {
    Pending,
    Resolved,
    Downloaded,
    Decompressed,
    Materialized,
    Recorded,
}

impl InstallStep {
    /// The stage that follows a completed stage; `Recorded` is final.
    pub open spec fn spec_next(self) -> Option<InstallStep> {
        match self {
            InstallStep::Pending => Some(InstallStep::Resolved),
            InstallStep::Resolved => Some(InstallStep::Downloaded),
            InstallStep::Downloaded => Some(InstallStep::Decompressed),
            InstallStep::Decompressed => Some(InstallStep::Materialized),
            InstallStep::Materialized => Some(InstallStep::Recorded),
            InstallStep::Recorded => None,
        }
    }

    /// The stage that follows a completed stage; `Recorded` is final.
    pub fn next(&self) -> (r: Option<InstallStep>)
        ensures
            r == self.spec_next(),
    {
        match self {
            InstallStep::Pending => Some(InstallStep::Resolved),
            InstallStep::Resolved => Some(InstallStep::Downloaded),
            InstallStep::Downloaded => Some(InstallStep::Decompressed),
            InstallStep::Decompressed => Some(InstallStep::Materialized),
            InstallStep::Materialized => Some(InstallStep::Recorded),
            InstallStep::Recorded => None,
        }
    }

    /// Whether the registry may be written at this stage: only once
    /// materialization has fully succeeded.
    pub fn may_record(&self) -> (r: bool)
        ensures
            r == (*self == InstallStep::Materialized),
    {
        matches!(self, InstallStep::Materialized)
    }
}

} // verus!
