//! How the editor extension finds or installs the server binary: the name
//! of the release asset for a platform, where a downloaded release goes,
//! and which directories of older releases are removed.

use vstd::prelude::*;
use crate::text::{chars_of, str_eq, starts_with, range_starts_with};

verus! {

/// The name of the server binary.
pub open spec fn binary_name() -> Seq<char> {
    "deps-lsp"@
}

/// Operating systems that releases are built for.
#[derive(Debug, Clone, Copy, PartialEq, Eq, Structural)]
pub enum Os {
    Mac,
    Linux,
    Windows,
}

/// Processor architectures that releases are built for.
#[derive(Debug, Clone, Copy, PartialEq, Eq, Structural)]
pub enum Architecture {
    Aarch64,
    X86,
    X8664,
}

/// How a release asset is packed.
#[derive(Debug, Clone, Copy, PartialEq, Eq, Structural)]
pub enum DownloadedFileType {
    Zip,
    GzipTar,
}

pub open spec fn arch_part(arch: Architecture) -> Seq<char> {
    match arch {
        Architecture::Aarch64 => "aarch64"@,
        Architecture::X86 => "x86"@,
        Architecture::X8664 => "x86_64"@,
    }
}

pub open spec fn os_part(os: Os) -> Seq<char> {
    match os {
        Os::Mac => "apple-darwin.tar.gz"@,
        Os::Linux => "unknown-linux-gnu.tar.gz"@,
        Os::Windows => "pc-windows-msvc.zip"@,
    }
}

/// `deps-lsp-{arch}-{os}`: the release asset for a platform.
pub fn asset_name(os: Os, arch: Architecture) -> (r: String)
    ensures
        r@ == binary_name() + "-"@ + arch_part(arch) + "-"@ + os_part(os),
{
    let mut r = String::from_str("deps-lsp-");
    r.append(
        match arch {
            Architecture::Aarch64 => "aarch64",
            Architecture::X86 => "x86",
            Architecture::X8664 => "x86_64",
        },
    );
    r.append("-");
    r.append(
        match os {
            Os::Mac => "apple-darwin.tar.gz",
            Os::Linux => "unknown-linux-gnu.tar.gz",
            Os::Windows => "pc-windows-msvc.zip",
        },
    );
    proof {
        reveal_strlit("deps-lsp-");
        reveal_strlit("deps-lsp");
        reveal_strlit("-");
    }
    r
}

/// `deps-lsp-{version}`: the directory a release is unpacked into.
pub fn version_dir(version: &str) -> (r: String)
    ensures
        r@ == binary_name() + "-"@ + version@,
{
    let mut r = String::from_str("deps-lsp-");
    r.append(version);
    proof {
        reveal_strlit("deps-lsp-");
        reveal_strlit("deps-lsp");
        reveal_strlit("-");
    }
    r
}

/// The path of the binary inside a release directory.
pub fn binary_path(version_dir: &str, os: Os) -> (r: String)
    ensures
        r@ == version_dir@ + "/"@ + binary_name() + (if os == Os::Windows {
            ".exe"@
        } else {
            ""@
        }),
{
    let mut r = version_dir.to_string();
    r.append("/");
    r.append("deps-lsp");
    if os == Os::Windows {
        r.append(".exe");
    }
    proof {
        reveal_strlit("");
    }
    r
}

/// Windows releases are zip files, the others gzipped tar files.
pub fn file_type(os: Os) -> (r: DownloadedFileType)
    ensures
        r == (if os == Os::Windows {
            DownloadedFileType::Zip
        } else {
            DownloadedFileType::GzipTar
        }),
{
    match os {
        Os::Windows => DownloadedFileType::Zip,
        _ => DownloadedFileType::GzipTar,
    }
}

/// The index of the first asset with the wanted name.
pub fn find_asset(asset_names: &Vec<String>, wanted: &str) -> (r: Option<usize>)
    ensures
        match r {
            Some(i) => i < asset_names@.len() && asset_names@[i as int]@ == wanted@ && forall|j: int|
                0 <= j < i ==> asset_names@[j]@ != wanted@,
            None => forall|j: int| 0 <= j < asset_names@.len() ==> asset_names@[j]@ != wanted@,
        },
{
    let mut i: usize = 0;
    while i < asset_names.len()
        invariant
            i <= asset_names@.len(),
            forall|j: int| 0 <= j < i ==> asset_names@[j]@ != wanted@,
        decreases asset_names@.len() - i,
    {
        if str_eq(asset_names[i].as_str(), wanted) {
            return Some(i);
        }
        i = i + 1;
    }
    None
}

/// A directory left by an older release: its name starts with the binary's
/// name and it is not the current release's directory.
pub fn is_old_version_dir(name: &str, current_version_dir: &str) -> (r: bool)
    ensures
        r == (starts_with(name@, binary_name()) && name@ != current_version_dir@),
{
    let n = chars_of(name);
    let b = chars_of("deps-lsp");
    let pre = range_starts_with(&n, 0, n.len(), &b);
    proof {
        assert(n@.subrange(0, n@.len() as int) =~= n@);
    }
    pre && !str_eq(name, current_version_dir)
}

/// Where the binary comes from.
#[derive(Debug)]
pub enum BinarySource {
    /// The path found on an earlier call, still a file.
    Cached(String),
    /// Found on the search path.
    OnPath(String),
    /// To be downloaded from the latest release.
    Download,
}

/// The cached path is used while it is a file; otherwise the search path;
/// otherwise the binary is downloaded.
pub fn binary_source(cached: Option<String>, cached_is_file: bool, on_path: Option<String>) -> (r:
    BinarySource)
    ensures
        match r {
            BinarySource::Cached(p) => cached is Some && cached_is_file && p@ == cached->0@,
            BinarySource::OnPath(p) => !(cached is Some && cached_is_file) && on_path is Some
                && p@ == on_path->0@,
            BinarySource::Download => !(cached is Some && cached_is_file) && on_path is None,
        },
{
    match cached {
        Some(p) => {
            if cached_is_file {
                return BinarySource::Cached(p);
            }
        },
        None => {},
    }
    match on_path {
        Some(p) => BinarySource::OnPath(p),
        None => BinarySource::Download,
    }
}

/// The arguments the server is started with.
pub fn language_server_args() -> (r: Vec<String>)
    ensures
        r@.len() == 1,
        r@[0]@ == "--stdio"@,
{
    let mut r: Vec<String> = Vec::new();
    r.push(String::from_str("--stdio"));
    r
}

} // verus!
