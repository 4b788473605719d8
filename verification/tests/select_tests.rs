use artifact_resolver::artifact::Artifact;
use artifact_resolver::artifact::ArtifactProvider;
use artifact_resolver::artifact::Asset;
use artifact_resolver::artifact::ToolSpec;
use artifact_resolver::descriptor::Arch;
use artifact_resolver::descriptor::Descriptor;
use artifact_resolver::descriptor::Os;
use artifact_resolver::format::ArtifactFormat;

fn spec_widget() -> ToolSpec {
    ToolSpec {
        name: "widget".to_string(),
        version: "1.0.0".to_string(),
    }
}

fn artifact_named(name: &str) -> Artifact {
    let asset = Asset {
        id: 7,
        name: name.to_string(),
        url: format!("https://example.test/{name}"),
    };
    Artifact::from_github_release_asset(&asset, &spec_widget())
}

fn linux_x64() -> Descriptor {
    Descriptor {
        os: Os::Linux,
        arch: Some(Arch::X64),
    }
}

#[test]
fn descriptor_detection() {
    let d = Descriptor::detect("widget-1.0.0-linux-x86_64.tar.gz").unwrap();
    assert_eq!(d.os, Os::Linux);
    assert_eq!(d.arch, Some(Arch::X64));
    let d = Descriptor::detect("widget-1.0.0-windows-x86_64.exe").unwrap();
    assert_eq!(d.os, Os::Windows);
    assert_eq!(d.arch, Some(Arch::X64));
    let d = Descriptor::detect("widget-1.0.0-macos-aarch64.zip").unwrap();
    assert_eq!(d.os, Os::MacOs);
    assert_eq!(d.arch, Some(Arch::Arm64));
    let d = Descriptor::detect("just-1.31.0-aarch64-apple-darwin.tar.gz").unwrap();
    assert_eq!(d.os, Os::MacOs);
    assert_eq!(d.arch, Some(Arch::Arm64));
    assert!(Descriptor::detect("widget-1.0.0.tar.gz").is_none());
    let d = Descriptor::detect("x86_64-unknown-linux-gnu").unwrap();
    assert_eq!(d.os, Os::Linux);
    assert_eq!(d.arch, Some(Arch::X64));
}

#[test]
fn sort_keeps_only_current_platform() {
    // one artifact per platform: only the current-platform one survives
    let batch = vec![
        artifact_named("widget-1.0.0-linux-x86_64.tar.gz"),
        artifact_named("widget-1.0.0-windows-x86_64.exe"),
        artifact_named("widget-1.0.0-macos-aarch64.zip"),
    ];
    let ranked = Artifact::sort_by_system_compatibility_with(&linux_x64(), &batch);
    assert_eq!(ranked.len(), 1);
    assert_eq!(
        ranked[0].name.as_deref(),
        Some("widget-1.0.0-linux-x86_64.tar.gz")
    );
}

#[test]
fn sort_ranks_exact_arch_first() {
    let batch = vec![
        artifact_named("widget-linux.tar.gz"),
        artifact_named("widget-linux-x86_64.tar.gz"),
        artifact_named("widget-linux-i686.tar.gz"),
    ];
    let ranked = Artifact::sort_by_system_compatibility_with(&linux_x64(), &batch);
    assert_eq!(ranked.len(), 3);
    // exact x86_64 match first, known-but-inexact i686 next, unknown last
    assert_eq!(
        ranked[0].name.as_deref(),
        Some("widget-linux-x86_64.tar.gz")
    );
    assert_eq!(ranked[1].name.as_deref(), Some("widget-linux-i686.tar.gz"));
    assert_eq!(ranked[2].name.as_deref(), Some("widget-linux.tar.gz"));
}

#[test]
fn sort_drops_incompatible_arch() {
    let batch = vec![
        artifact_named("widget-linux-aarch64.tar.gz"),
        artifact_named("widget-plain.txt"),
    ];
    let ranked = Artifact::sort_by_system_compatibility_with(&linux_x64(), &batch);
    assert!(ranked.is_empty());
}

#[test]
fn fallback_unique_os_match() {
    // exactly one artifact shares the current OS: it is returned
    let batch = vec![
        artifact_named("widget-linux-someisa.tar.gz"),
        artifact_named("widget-windows-x86_64.exe"),
    ];
    let found = Artifact::find_partially_compatible_fallback_with(&linux_x64(), &batch);
    assert_eq!(
        found.unwrap().name.as_deref(),
        Some("widget-linux-someisa.tar.gz")
    );
}

#[test]
fn fallback_refuses_ambiguity() {
    // two artifacts share the current OS with different/unknown
    // architectures: the fallback refuses to guess
    let batch = vec![
        artifact_named("widget-linux-mips.tar.gz"),
        artifact_named("widget-linux-riscv.tar.gz"),
    ];
    let found = Artifact::find_partially_compatible_fallback_with(&linux_x64(), &batch);
    assert!(found.is_none());
    let none: Vec<Artifact> = vec![artifact_named("widget-windows-x86_64.exe")];
    let found = Artifact::find_partially_compatible_fallback_with(&linux_x64(), &none);
    assert!(found.is_none());
}

#[test]
fn github_asset_adaptation() {
    let asset = Asset {
        id: 123456,
        name: "widget-1.0.0-linux-x86_64.tar.gz".to_string(),
        url: "https://example.test/widget.tar.gz".to_string(),
    };
    let artifact = Artifact::from_github_release_asset(&asset, &spec_widget());
    assert_eq!(artifact.provider, ArtifactProvider::GitHub);
    assert_eq!(artifact.format, Some(ArtifactFormat::TarGz));
    assert_eq!(artifact.id.as_deref(), Some("123456"));
    assert_eq!(
        artifact.url.as_deref(),
        Some("https://example.test/widget.tar.gz")
    );
    assert_eq!(artifact.tool_spec.name().as_str(), "widget");
    let zero = Asset {
        id: 0,
        name: "widget".to_string(),
        url: String::new(),
    };
    let artifact = Artifact::from_github_release_asset(&zero, &spec_widget());
    assert_eq!(artifact.id.as_deref(), Some("0"));
    assert_eq!(artifact.format, Some(ArtifactFormat::Elf));
}

#[test]
fn parse_error_messages() {
    assert_eq!(
        ArtifactProvider::parse("gitlab").unwrap_err(),
        "unknown artifact provider 'gitlab'"
    );
    assert_eq!(
        ArtifactFormat::parse("rar").unwrap_err(),
        "unknown artifact format 'rar'"
    );
}

#[test]
fn provider_strings() {
    assert_eq!(ArtifactProvider::GitHub.as_str(), "github");
    assert_eq!(ArtifactProvider::GitHub.display_name(), "GitHub");
    assert_eq!(ArtifactProvider::default(), ArtifactProvider::GitHub);
    assert_eq!(ArtifactProvider::parse(" GitHub "), Ok(ArtifactProvider::GitHub));
    assert!(ArtifactProvider::parse("gitlab").is_err());
}

#[test]
fn current_system_is_recognized() {
    // the build's own target triple must name a known operating system
    assert!(Descriptor::current_system().is_some());
    assert!(Os::current_system().is_some());
}
