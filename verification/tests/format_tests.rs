use artifact_resolver::format::split_filename_and_extensions;
use artifact_resolver::format::ArtifactFormat;

fn format_from_str(s: &str) -> Option<ArtifactFormat> {
    let (_, extensions) = split_filename_and_extensions(s);
    ArtifactFormat::from_extensions(&extensions)
}

#[test]
fn format_from_extensions_valid() {
    assert_eq!(format_from_str("file.zip"), Some(ArtifactFormat::Zip));
    assert_eq!(format_from_str("file.tar"), Some(ArtifactFormat::Tar));
    assert_eq!(format_from_str("file.tar.gz"), Some(ArtifactFormat::TarGz));
    assert_eq!(
        format_from_str("file.with.many.extensions.tar.gz.zip"),
        Some(ArtifactFormat::Zip)
    );
    assert_eq!(
        format_from_str("file.with.many.extensions.zip.gz.tar"),
        Some(ArtifactFormat::Tar)
    );
    assert_eq!(
        format_from_str("file.with.many.extensions.tar.gz"),
        Some(ArtifactFormat::TarGz)
    );
}

#[test]
fn format_from_extensions_invalid() {
    assert_eq!(format_from_str("file-name.txt"), None);
    assert_eq!(format_from_str("some/file.mp4"), None);
    assert_eq!(format_from_str("really.long.file.name"), None);
}

#[test]
fn format_from_real_tools() {
    assert_eq!(
        format_from_str("wally-v0.3.2-linux.zip"),
        Some(ArtifactFormat::Zip)
    );
    assert_eq!(
        format_from_str("lune-0.8.6-macos-aarch64.zip"),
        Some(ArtifactFormat::Zip)
    );
    assert_eq!(
        format_from_str("just-1.31.0-aarch64-apple-darwin.tar.gz"),
        Some(ArtifactFormat::TarGz)
    );
    assert_eq!(
        format_from_str("sentry-cli-linux-i686-2.32.1.tgz"),
        Some(ArtifactFormat::TarGz)
    );
    assert_eq!(
        format_from_str("sentry-cli-Linux-x86_64"),
        Some(ArtifactFormat::Elf)
    );
    assert_eq!(
        format_from_str("sentry-cli-Windows-x86_64.exe"),
        Some(ArtifactFormat::Pe)
    );
}

#[test]
fn format_case_sensitivity() {
    assert_eq!(format_from_str("file.ZIP"), Some(ArtifactFormat::Zip));
    assert_eq!(format_from_str("file.zip"), Some(ArtifactFormat::Zip));
    assert_eq!(format_from_str("file.Zip"), Some(ArtifactFormat::Zip));
    assert_eq!(format_from_str("file.tar"), Some(ArtifactFormat::Tar));
    assert_eq!(format_from_str("file.TAR"), Some(ArtifactFormat::Tar));
    assert_eq!(format_from_str("file.Tar"), Some(ArtifactFormat::Tar));
    assert_eq!(format_from_str("file.tar.gz"), Some(ArtifactFormat::TarGz));
    assert_eq!(format_from_str("file.TAR.GZ"), Some(ArtifactFormat::TarGz));
    assert_eq!(format_from_str("file.Tar.Gz"), Some(ArtifactFormat::TarGz));
    assert_eq!(format_from_str("file.exe"), Some(ArtifactFormat::Pe));
    assert_eq!(format_from_str("file.EXE"), Some(ArtifactFormat::Pe));
    assert_eq!(format_from_str("file"), Some(ArtifactFormat::Elf));
}

#[test]
fn format_from_path_or_url() {
    assert_eq!(
        ArtifactFormat::from_path_or_url("https://example.test/releases/tool-1.2.3.tar.gz"),
        Some(ArtifactFormat::TarGz)
    );
    assert_eq!(
        ArtifactFormat::from_path_or_url("FILE.TAR.GZ"),
        ArtifactFormat::from_path_or_url("file.tar.gz")
    );
    assert_eq!(ArtifactFormat::from_path_or_url("tool.v1.2.final"), None);
    assert_eq!(
        ArtifactFormat::from_path_or_url("widget-1.0.0-linux-x86_64.tgz"),
        Some(ArtifactFormat::TarGz)
    );
}

#[test]
fn format_tokens_round_trip() {
    assert_eq!(ArtifactFormat::Zip.as_str(), "zip");
    assert_eq!(ArtifactFormat::Tar.as_str(), "tar");
    assert_eq!(ArtifactFormat::TarGz.as_str(), "tar.gz");
    assert_eq!(ArtifactFormat::Pe.as_str(), "exe");
    assert_eq!(ArtifactFormat::Elf.as_str(), "");
}

#[test]
fn format_parse_tokens() {
    assert_eq!(ArtifactFormat::parse("zip"), Ok(ArtifactFormat::Zip));
    assert_eq!(ArtifactFormat::parse("tar"), Ok(ArtifactFormat::Tar));
    assert_eq!(ArtifactFormat::parse("tar.gz"), Ok(ArtifactFormat::TarGz));
    assert_eq!(ArtifactFormat::parse("tgz"), Ok(ArtifactFormat::TarGz));
    assert_eq!(ArtifactFormat::parse("exe"), Ok(ArtifactFormat::Pe));
    assert_eq!(ArtifactFormat::parse("bin"), Ok(ArtifactFormat::Elf));
    assert_eq!(ArtifactFormat::parse(" ZIP "), Ok(ArtifactFormat::Zip));
    assert!(ArtifactFormat::parse("rar").is_err());
    assert!(ArtifactFormat::parse("").is_err());
    // only the canonical tokens themselves are accepted: a filename whose
    // extension chain merely ends in one is not a token
    assert!(ArtifactFormat::parse("x.zip").is_err());
    assert!(ArtifactFormat::parse(".zip").is_err());
    assert!(ArtifactFormat::parse("v1.2.tgz").is_err());
    assert!(ArtifactFormat::parse("anything.exe").is_err());
}
