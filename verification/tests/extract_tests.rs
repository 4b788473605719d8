use artifact_resolver::artifact::Artifact;
use artifact_resolver::artifact::ArtifactProvider;
use artifact_resolver::artifact::Asset;
use artifact_resolver::artifact::ExtractError;
use artifact_resolver::artifact::ToolSpec;
use artifact_resolver::descriptor::Arch;
use artifact_resolver::descriptor::Descriptor;
use artifact_resolver::descriptor::Os;
use artifact_resolver::format::ArtifactFormat;
use std::io::Write;

fn spec_widget() -> ToolSpec {
    ToolSpec {
        name: "widget".to_string(),
        version: "1.0.0".to_string(),
    }
}

fn artifact_named(name: &str) -> Artifact {
    let asset = Asset {
        id: 1,
        name: name.to_string(),
        url: format!("https://example.test/{name}"),
    };
    Artifact::from_github_release_asset(&asset, &spec_widget())
}

fn tar_archive(entries: &[(&str, &[u8])]) -> Vec<u8> {
    let mut out = Vec::new();
    for (name, data) in entries {
        let mut header = vec![0u8; 512];
        header[..name.len()].copy_from_slice(name.as_bytes());
        let size_field = format!("{:011o}", data.len());
        header[124..135].copy_from_slice(size_field.as_bytes());
        header[156] = b'0';
        out.extend_from_slice(&header);
        out.extend_from_slice(data);
        let pad = (512 - data.len() % 512) % 512;
        out.extend(std::iter::repeat(0u8).take(pad));
    }
    out.extend(std::iter::repeat(0u8).take(1024));
    out
}

fn gzip(data: &[u8]) -> Vec<u8> {
    let mut encoder = flate2::write::GzEncoder::new(Vec::new(), flate2::Compression::default());
    encoder.write_all(data).unwrap();
    encoder.finish().unwrap()
}

fn zip_archive(entries: &[(&str, &[u8])]) -> Vec<u8> {
    let mut writer = zip::ZipWriter::new(std::io::Cursor::new(Vec::new()));
    let options = zip::write::SimpleFileOptions::default();
    for (name, data) in entries {
        writer.start_file(*name, options).unwrap();
        writer.write_all(data).unwrap();
    }
    writer.finish().unwrap().into_inner()
}

#[test]
fn zip_member_returned_unchanged() {
    let payload = b"#!/bin/sh\necho widget\n";
    let archive = zip_archive(&[("README.md", b"docs"), ("widget", payload)]);
    let artifact = artifact_named("widget-1.0.0-linux-x86_64.zip");
    let out = artifact
        .extract_contents_checked(&archive, Some(Os::Linux))
        .unwrap();
    assert_eq!(out, payload.to_vec());
}

#[test]
fn missing_member_is_file_missing_not_generic() {
    let zip_bytes = zip_archive(&[("other-tool", b"bytes")]);
    let artifact = artifact_named("widget.zip");
    match artifact.extract_contents_checked(&zip_bytes, Some(Os::Linux)) {
        Err(ExtractError::FileMissing {
            format,
            file_name,
            archive_name,
        }) => {
            assert_eq!(format, ArtifactFormat::Zip);
            assert_eq!(file_name, "widget");
            assert_eq!(archive_name, "widget.zip");
        }
        other => panic!("expected FileMissing, got {other:?}"),
    }
    let tar_bytes = tar_archive(&[("other-tool", b"bytes")]);
    let artifact = artifact_named("widget.tar");
    match artifact.extract_contents_checked(&tar_bytes, Some(Os::Linux)) {
        Err(ExtractError::FileMissing { format, .. }) => {
            assert_eq!(format, ArtifactFormat::Tar);
        }
        other => panic!("expected FileMissing, got {other:?}"),
    }
}

#[test]
fn invalid_payload_is_generic_with_preview() {
    // a large text payload that is no zip archive at all
    let payload = vec![b'a'; 200];
    let artifact = artifact_named("widget.zip");
    match artifact.extract_contents_checked(&payload, Some(Os::Linux)) {
        Err(ExtractError::Generic { body, .. }) => {
            let expected = format!("{} <...>", "a".repeat(128));
            assert_eq!(body, expected);
        }
        other => panic!("expected Generic, got {other:?}"),
    }
    // a small payload is previewed whole, without the ellipsis marker
    let small = b"<html>error page</html>".to_vec();
    let artifact = artifact_named("widget.tar.gz");
    match artifact.extract_contents_checked(&small, Some(Os::Linux)) {
        Err(ExtractError::Generic { body, .. }) => {
            assert_eq!(body, "<html>error page</html>");
        }
        other => panic!("expected Generic, got {other:?}"),
    }
}

#[test]
fn preview_decodes_invalid_bytes_lossily() {
    let payload = vec![0xff, 0xfe, b'a'];
    let artifact = artifact_named("widget.zip");
    match artifact.extract_contents_checked(&payload, Some(Os::Linux)) {
        Err(ExtractError::Generic { body, .. }) => {
            assert_eq!(body, "\u{fffd}\u{fffd}a");
        }
        other => panic!("expected Generic, got {other:?}"),
    }
}

#[test]
fn unknown_format_is_reported() {
    let artifact = artifact_named("widget-1.0.0.notanarchive");
    assert_eq!(artifact.format, None);
    match artifact.extract_contents_checked(&vec![1, 2, 3], Some(Os::Linux)) {
        Err(ExtractError::UnknownFormat) => {}
        other => panic!("expected UnknownFormat, got {other:?}"),
    }
}

#[test]
fn tar_gz_round_trip() {
    let payload = b"widget binary without magic";
    let tarball = tar_archive(&[("widget", payload)]);
    let artifact = artifact_named("widget-1.0.0-linux-x86_64.tar.gz");
    let out = artifact
        .extract_contents_checked(&gzip(&tarball), Some(Os::Linux))
        .unwrap();
    assert_eq!(out, payload.to_vec());
}

#[test]
fn os_mismatch_is_detected() {
    // an ELF binary extracted while the current system is Windows
    let elf = [0x7f, b'E', b'L', b'F', 2, 1, 1, 0].to_vec();
    let tarball = tar_archive(&[("widget", &elf)]);
    let artifact = artifact_named("widget.tar");
    match artifact.extract_contents_checked(&tarball, Some(Os::Windows)) {
        Err(ExtractError::OSMismatch {
            current_os,
            file_os,
            ..
        }) => {
            assert_eq!(current_os, Os::Windows);
            assert_eq!(file_os, Os::Linux);
        }
        other => panic!("expected OSMismatch, got {other:?}"),
    }
    // the same binary on the matching system is accepted
    let out = artifact
        .extract_contents_checked(&tarball, Some(Os::Linux))
        .unwrap();
    assert_eq!(out, elf);
    // a payload without a recognizable magic number is accepted anywhere
    let plain = tar_archive(&[("widget", b"just text")]);
    assert!(artifact_named("widget.tar")
        .extract_contents_checked(&plain, Some(Os::Windows))
        .is_ok());
}

#[test]
fn bare_executables_pass_through() {
    let mz = vec![b'M', b'Z', 0, 0];
    let artifact = artifact_named("widget-Windows-x86_64.exe");
    let out = artifact
        .extract_contents_checked(&mz, Some(Os::Windows))
        .unwrap();
    assert_eq!(out, mz);
    match artifact.extract_contents_checked(&mz, Some(Os::Linux)) {
        Err(ExtractError::OSMismatch { file_os, .. }) => assert_eq!(file_os, Os::Windows),
        other => panic!("expected OSMismatch, got {other:?}"),
    }
    let elf = vec![0x7f, b'E', b'L', b'F'];
    let artifact = artifact_named("widget-Linux-x86_64");
    assert_eq!(artifact.format, Some(ArtifactFormat::Elf));
    let out = artifact
        .extract_contents_checked(&elf, Some(Os::Linux))
        .unwrap();
    assert_eq!(out, elf);
}

#[test]
fn binary_os_detection() {
    assert_eq!(
        Os::detect_from_executable(&vec![0x7f, b'E', b'L', b'F', 0]),
        Some(Os::Linux)
    );
    assert_eq!(
        Os::detect_from_executable(&vec![0xfe, 0xed, 0xfa, 0xcf]),
        Some(Os::MacOs)
    );
    assert_eq!(
        Os::detect_from_executable(&vec![0xcf, 0xfa, 0xed, 0xfe]),
        Some(Os::MacOs)
    );
    assert_eq!(
        Os::detect_from_executable(&vec![b'M', b'Z', 0x90, 0x00]),
        Some(Os::Windows)
    );
    assert_eq!(Os::detect_from_executable(&vec![1, 2, 3, 4]), None);
    assert_eq!(Os::detect_from_executable(&Vec::new()), None);
}

#[test]
fn end_to_end_linux_selection_and_extraction() {
    let assets = [
        "widget-1.0.0-linux-x86_64.tar.gz",
        "widget-1.0.0-windows-x86_64.exe",
        "widget-1.0.0-macos-aarch64.zip",
    ];
    let batch: Vec<Artifact> = assets.iter().map(|n| artifact_named(n)).collect();
    let current = Descriptor {
        os: Os::Linux,
        arch: Some(Arch::X64),
    };
    let ranked = Artifact::sort_by_system_compatibility_with(&current, &batch);
    assert_eq!(ranked.len(), 1);
    let winner = &ranked[0];
    assert_eq!(
        winner.name.as_deref(),
        Some("widget-1.0.0-linux-x86_64.tar.gz")
    );
    assert_eq!(winner.provider, ArtifactProvider::GitHub);
    // extraction succeeds only with a member literally named `widget`
    let good = gzip(&tar_archive(&[("widget", b"the tool")]));
    let out = winner
        .extract_contents_checked(&good, Some(Os::Linux))
        .unwrap();
    assert_eq!(out, b"the tool".to_vec());
    let bad = gzip(&tar_archive(&[("Widget", b"the tool")]));
    assert!(matches!(
        winner.extract_contents_checked(&bad, Some(Os::Linux)),
        Err(ExtractError::FileMissing { .. })
    ));
}

#[test]
fn ambient_extraction_on_this_machine() {
    // extraction through the machine's own fingerprint: a member with no
    // recognizable magic number is accepted on any host
    let artifact = artifact_named("widget.tar");
    let tarball = tar_archive(&[("widget", b"plain payload")]);
    let out = artifact.extract_contents(tarball).unwrap();
    assert_eq!(out, b"plain payload".to_vec());
}
