use deps_lsp::zed::{
    asset_name, binary_path, binary_source, file_type, find_asset, is_old_version_dir,
    language_server_args, version_dir, Architecture, BinarySource, DownloadedFileType, Os,
};

#[test]
fn release_asset_names() {
    assert_eq!(asset_name(Os::Linux, Architecture::X8664), "deps-lsp-x86_64-unknown-linux-gnu.tar.gz");
    assert_eq!(asset_name(Os::Mac, Architecture::Aarch64), "deps-lsp-aarch64-apple-darwin.tar.gz");
    assert_eq!(asset_name(Os::Windows, Architecture::X86), "deps-lsp-x86-pc-windows-msvc.zip");
}

#[test]
fn release_locations() {
    let dir = version_dir("v0.5.0");
    assert_eq!(dir, "deps-lsp-v0.5.0");
    assert_eq!(binary_path(&dir, Os::Linux), "deps-lsp-v0.5.0/deps-lsp");
    assert_eq!(binary_path(&dir, Os::Windows), "deps-lsp-v0.5.0/deps-lsp.exe");
    assert_eq!(file_type(Os::Windows), DownloadedFileType::Zip);
    assert_eq!(file_type(Os::Mac), DownloadedFileType::GzipTar);
}

#[test]
fn asset_lookup_and_cleanup() {
    let names = vec!["a".to_string(), "deps-lsp-x".to_string(), "deps-lsp-x".to_string()];
    assert_eq!(find_asset(&names, "deps-lsp-x"), Some(1));
    assert_eq!(find_asset(&names, "missing"), None);
    assert!(is_old_version_dir("deps-lsp-v0.4.0", "deps-lsp-v0.5.0"));
    assert!(!is_old_version_dir("deps-lsp-v0.5.0", "deps-lsp-v0.5.0"));
    assert!(!is_old_version_dir("other", "deps-lsp-v0.5.0"));
}

#[test]
fn binary_lookup_order() {
    assert!(matches!(
        binary_source(Some("/c".into()), true, Some("/p".into())),
        BinarySource::Cached(p) if p == "/c"
    ));
    assert!(matches!(
        binary_source(Some("/c".into()), false, Some("/p".into())),
        BinarySource::OnPath(p) if p == "/p"
    ));
    assert!(matches!(binary_source(None, false, None), BinarySource::Download));
    assert_eq!(language_server_args(), vec!["--stdio".to_string()]);
}
