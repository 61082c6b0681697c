//! Platform profile resolution: maps a raw (target OS, target architecture,
//! build profile) triple to the preset identifiers and install-layout hints
//! of the external meta-build system. The mapping is a closed table over
//! enumerated values; every unsupported input fails with an error naming the
//! offending field and value, never with a partially valid profile.

use vstd::prelude::*;

use crate::strutil::str_eq;

verus! {

/// The operating systems the raw OS identifier can name.
#[derive(Clone, Copy, PartialEq, Eq, Structural, Debug)]
pub enum TargetOs {
    Windows,
    Linux,
    MacOs,
}

/// The build profiles the orchestrator distinguishes.
#[derive(Clone, Copy, PartialEq, Eq, Structural, Debug)]
pub enum ProfileKind {
    Debug,
    Release,
}

/// Which input field of the triple was unsupported.
#[derive(Clone, Copy, PartialEq, Eq, Structural, Debug)]
pub enum PlatformField {
    Os,
    Arch,
    Profile,
}

/// Resolution failure: names the unsupported field and carries its raw value.
#[derive(Clone, Debug)]
pub struct UnsupportedPlatformError {
    pub field: PlatformField,
    pub value: String,
}

/// One fully resolved build configuration.
#[derive(Clone, Debug)]
pub struct BuildProfile {
    pub target_os: TargetOs,
    pub target_arch: String,
    pub profile_kind: ProfileKind,
    /// Preset identifier handed to the external build system's configure step.
    pub config_preset: String,
    /// Preset identifier handed to the external build system's build step.
    pub build_preset: String,
    /// Directory of the installed package metadata, relative to the install
    /// prefix.
    pub pkgconfig_subdir: String,
    /// Directory of the installed libraries, relative to the install prefix.
    pub lib_subdir: String,
}

/// Parses the raw OS identifier into its enumerated value.
pub open spec fn parse_os_spec(s: Seq<char>) -> Option<TargetOs> {
    if s == "windows"@ {
        Some(TargetOs::Windows)
    } else if s == "linux"@ {
        Some(TargetOs::Linux)
    } else if s == "macos"@ {
        Some(TargetOs::MacOs)
    } else {
        None
    }
}

/// The operating systems for which the preset table has entries.
pub open spec fn os_supported(os: TargetOs) -> bool {
    os == TargetOs::Windows || os == TargetOs::Linux
}

/// The architectures supported for a given OS.
pub open spec fn arch_supported(os: TargetOs, arch: Seq<char>) -> bool {
    arch == "x86_64"@
}

/// Parses the raw profile identifier into its enumerated value.
pub open spec fn parse_profile_spec(s: Seq<char>) -> Option<ProfileKind> {
    if s == "debug"@ {
        Some(ProfileKind::Debug)
    } else if s == "release"@ {
        Some(ProfileKind::Release)
    } else {
        None
    }
}

/// The configure preset of the table, per supported (OS, profile) pair.
pub open spec fn config_preset_spec(os: TargetOs, p: ProfileKind) -> Seq<char> {
    match (os, p) {
        (TargetOs::Windows, ProfileKind::Debug) => "msvc-mt"@,
        (TargetOs::Windows, ProfileKind::Release) => "msvc-md"@,
        (TargetOs::Linux, ProfileKind::Debug) => "clang-20-debug"@,
        (TargetOs::Linux, ProfileKind::Release) => "clang-20-release"@,
        (TargetOs::MacOs, _) => ""@,
    }
}

/// The build preset of the table, per supported (OS, profile) pair.
pub open spec fn build_preset_spec(os: TargetOs, p: ProfileKind) -> Seq<char> {
    match (os, p) {
        (TargetOs::Windows, ProfileKind::Debug) => "msvc-mt-debug-install"@,
        (TargetOs::Windows, ProfileKind::Release) => "msvc-md-release-install"@,
        (TargetOs::Linux, ProfileKind::Debug) => "clang-20-debug-install"@,
        (TargetOs::Linux, ProfileKind::Release) => "clang-20-release-install"@,
        (TargetOs::MacOs, _) => ""@,
    }
}

/// Where the installed package metadata lives, relative to the install
/// prefix: the debug profile installs under a `debug` subtree.
pub open spec fn pkgconfig_subdir_spec(p: ProfileKind) -> Seq<char> {
    match p {
        ProfileKind::Debug => "debug/lib/pkgconfig"@,
        ProfileKind::Release => "lib/pkgconfig"@,
    }
}

/// Where the installed libraries live, relative to the install prefix.
pub open spec fn lib_subdir_spec(p: ProfileKind) -> Seq<char> {
    match p {
        ProfileKind::Debug => "debug/lib"@,
        ProfileKind::Release => "lib"@,
    }
}

/// Which field, if any, makes the raw triple unsupported. The fields are
/// checked in a fixed order: OS first, then architecture, then profile.
pub open spec fn resolve_error_spec(os: Seq<char>, arch: Seq<char>, profile: Seq<char>) -> Option<
    PlatformField,
> {
    match parse_os_spec(os) {
        None => Some(PlatformField::Os),
        Some(o) => if !os_supported(o) {
            Some(PlatformField::Os)
        } else if !arch_supported(o, arch) {
            Some(PlatformField::Arch)
        } else if parse_profile_spec(profile) is None {
            Some(PlatformField::Profile)
        } else {
            None
        },
    }
}

/// What a fully resolved profile holds for the given raw triple: the triple
/// is supported and every attribute agrees with the table.
pub open spec fn profile_matches(
    bp: BuildProfile,
    os: Seq<char>,
    arch: Seq<char>,
    profile: Seq<char>,
) -> bool {
    &&& resolve_error_spec(os, arch, profile) is None
    &&& Some(bp.target_os) == parse_os_spec(os)
    &&& bp.target_arch@ == arch
    &&& Some(bp.profile_kind) == parse_profile_spec(profile)
    &&& bp.config_preset@ == config_preset_spec(bp.target_os, bp.profile_kind)
    &&& bp.build_preset@ == build_preset_spec(bp.target_os, bp.profile_kind)
    &&& bp.pkgconfig_subdir@ == pkgconfig_subdir_spec(bp.profile_kind)
    &&& bp.lib_subdir@ == lib_subdir_spec(bp.profile_kind)
}

/// Resolves the raw (OS, architecture, profile) triple against the preset
/// table. Returns the unique valid profile for a supported triple, and an
/// error naming the first unsupported field and its raw value otherwise.
pub fn resolve(target_os: &str, target_arch: &str, profile: &str) -> (r: Result<
    BuildProfile,
    UnsupportedPlatformError,
>)
    ensures
        match r {
            Ok(bp) => profile_matches(bp, target_os@, target_arch@, profile@),
            Err(e) => {
                &&& resolve_error_spec(target_os@, target_arch@, profile@) == Some(e.field)
                &&& e.value@ == match e.field {
                    PlatformField::Os => target_os@,
                    PlatformField::Arch => target_arch@,
                    PlatformField::Profile => profile@,
                }
            },
        },
{
    let os = if str_eq(target_os, "windows") {
        TargetOs::Windows
    } else if str_eq(target_os, "linux") {
        TargetOs::Linux
    } else {
        return Err(
            UnsupportedPlatformError { field: PlatformField::Os, value: target_os.to_owned() },
        );
    };
    if !str_eq(target_arch, "x86_64") {
        return Err(
            UnsupportedPlatformError { field: PlatformField::Arch, value: target_arch.to_owned() },
        );
    }
    let profile_kind = if str_eq(profile, "debug") {
        ProfileKind::Debug
    } else if str_eq(profile, "release") {
        ProfileKind::Release
    } else {
        return Err(
            UnsupportedPlatformError { field: PlatformField::Profile, value: profile.to_owned() },
        );
    };
    let (config_preset, build_preset) = match (os, profile_kind) {
        (TargetOs::Windows, ProfileKind::Debug) => (
            "msvc-mt".to_owned(),
            "msvc-mt-debug-install".to_owned(),
        ),
        (TargetOs::Windows, ProfileKind::Release) => (
            "msvc-md".to_owned(),
            "msvc-md-release-install".to_owned(),
        ),
        (TargetOs::Linux, ProfileKind::Debug) => (
            "clang-20-debug".to_owned(),
            "clang-20-debug-install".to_owned(),
        ),
        (TargetOs::Linux, ProfileKind::Release) => (
            "clang-20-release".to_owned(),
            "clang-20-release-install".to_owned(),
        ),
        (TargetOs::MacOs, _) => ("".to_owned(), "".to_owned()),
    };
    let (pkgconfig_subdir, lib_subdir) = match profile_kind {
        ProfileKind::Debug => ("debug/lib/pkgconfig".to_owned(), "debug/lib".to_owned()),
        ProfileKind::Release => ("lib/pkgconfig".to_owned(), "lib".to_owned()),
    };
    Ok(
        BuildProfile {
            target_os: os,
            target_arch: target_arch.to_owned(),
            profile_kind,
            config_preset,
            build_preset,
            pkgconfig_subdir,
            lib_subdir,
        },
    )
}

/// Law: resolution is deterministic. Any two profiles that are valid for the
/// same raw triple agree on every attribute.
pub proof fn lemma_resolve_deterministic(
    bp1: BuildProfile,
    bp2: BuildProfile,
    os: Seq<char>,
    arch: Seq<char>,
    profile: Seq<char>,
)
    requires
        profile_matches(bp1, os, arch, profile),
        profile_matches(bp2, os, arch, profile),
    ensures
        bp1.target_os == bp2.target_os,
        bp1.target_arch@ == bp2.target_arch@,
        bp1.profile_kind == bp2.profile_kind,
        bp1.config_preset@ == bp2.config_preset@,
        bp1.build_preset@ == bp2.build_preset@,
        bp1.pkgconfig_subdir@ == bp2.pkgconfig_subdir@,
        bp1.lib_subdir@ == bp2.lib_subdir@,
{
}

/// Law: an unsupported triple has no valid profile at all — a failed
/// resolution never comes with a partially valid profile.
pub proof fn lemma_unsupported_has_no_profile(os: Seq<char>, arch: Seq<char>, profile: Seq<char>)
    requires
        resolve_error_spec(os, arch, profile) is Some,
    ensures
        forall|bp: BuildProfile| !profile_matches(bp, os, arch, profile),
{
}

impl UnsupportedPlatformError {
    /// A diagnostic line naming the unsupported field and its raw value.
    pub fn message(&self) -> (r: String)
        ensures
            r@ == match self.field {
                PlatformField::Os => "unsupported target OS: "@ + self.value@,
                PlatformField::Arch => "unsupported target architecture: "@ + self.value@,
                PlatformField::Profile => "unsupported build profile: "@ + self.value@,
            },
    {
        let prefix = match self.field {
            PlatformField::Os => "unsupported target OS: ",
            PlatformField::Arch => "unsupported target architecture: ",
            PlatformField::Profile => "unsupported build profile: ",
        };
        crate::strutil::concat_str(prefix, self.value.as_str())
    }
}

} // verus!
