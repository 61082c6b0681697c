use by2_build::platform::{resolve, PlatformField, ProfileKind, TargetOs};

#[test]
fn resolve_linux_release() {
    let bp = resolve("linux", "x86_64", "release").unwrap();
    assert_eq!(bp.target_os, TargetOs::Linux);
    assert_eq!(bp.target_arch, "x86_64");
    assert_eq!(bp.profile_kind, ProfileKind::Release);
    assert_eq!(bp.config_preset, "clang-20-release");
    assert_eq!(bp.build_preset, "clang-20-release-install");
    assert_eq!(bp.pkgconfig_subdir, "lib/pkgconfig");
    assert_eq!(bp.lib_subdir, "lib");
}

#[test]
fn resolve_linux_debug() {
    let bp = resolve("linux", "x86_64", "debug").unwrap();
    assert_eq!(bp.profile_kind, ProfileKind::Debug);
    assert_eq!(bp.config_preset, "clang-20-debug");
    assert_eq!(bp.build_preset, "clang-20-debug-install");
    assert_eq!(bp.pkgconfig_subdir, "debug/lib/pkgconfig");
    assert_eq!(bp.lib_subdir, "debug/lib");
}

#[test]
fn resolve_windows_release() {
    let bp = resolve("windows", "x86_64", "release").unwrap();
    assert_eq!(bp.target_os, TargetOs::Windows);
    assert_eq!(bp.config_preset, "msvc-md");
    assert_eq!(bp.build_preset, "msvc-md-release-install");
}

#[test]
fn resolve_windows_debug() {
    let bp = resolve("windows", "x86_64", "debug").unwrap();
    assert_eq!(bp.config_preset, "msvc-mt");
    assert_eq!(bp.build_preset, "msvc-mt-debug-install");
    assert_eq!(bp.pkgconfig_subdir, "debug/lib/pkgconfig");
}

// Resolution is deterministic: two calls on the same triple agree on every
// attribute.
#[test]
fn resolve_deterministic() {
    let a = resolve("windows", "x86_64", "debug").unwrap();
    let b = resolve("windows", "x86_64", "debug").unwrap();
    assert_eq!(a.target_os, b.target_os);
    assert_eq!(a.target_arch, b.target_arch);
    assert_eq!(a.profile_kind, b.profile_kind);
    assert_eq!(a.config_preset, b.config_preset);
    assert_eq!(a.build_preset, b.build_preset);
    assert_eq!(a.pkgconfig_subdir, b.pkgconfig_subdir);
    assert_eq!(a.lib_subdir, b.lib_subdir);
}

// Scenario: (OS=Windows, arch=arm64) fails on the architecture, before
// anything else would run.
#[test]
fn resolve_windows_arm64_unsupported_arch() {
    let e = resolve("windows", "arm64", "release").unwrap_err();
    assert_eq!(e.field, PlatformField::Arch);
    assert_eq!(e.value, "arm64");
    assert_eq!(e.message(), "unsupported target architecture: arm64");
}

#[test]
fn resolve_unknown_os() {
    let e = resolve("freebsd", "x86_64", "release").unwrap_err();
    assert_eq!(e.field, PlatformField::Os);
    assert_eq!(e.value, "freebsd");
    assert_eq!(e.message(), "unsupported target OS: freebsd");
}

// The OS is enumerated but the preset table has no entries for it: a hard
// failure, not a silent default.
#[test]
fn resolve_macos_unsupported() {
    let e = resolve("macos", "x86_64", "release").unwrap_err();
    assert_eq!(e.field, PlatformField::Os);
    assert_eq!(e.value, "macos");
}

#[test]
fn resolve_unknown_profile() {
    let e = resolve("linux", "x86_64", "relwithdebinfo").unwrap_err();
    assert_eq!(e.field, PlatformField::Profile);
    assert_eq!(e.value, "relwithdebinfo");
    assert_eq!(e.message(), "unsupported build profile: relwithdebinfo");
}

// The fields are checked in order: a bad OS wins over a bad arch and a bad
// profile.
#[test]
fn resolve_error_order() {
    let e = resolve("plan9", "arm64", "fast").unwrap_err();
    assert_eq!(e.field, PlatformField::Os);
    let e = resolve("linux", "arm64", "fast").unwrap_err();
    assert_eq!(e.field, PlatformField::Arch);
}
