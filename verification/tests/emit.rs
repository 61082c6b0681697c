use by2_build::emit::{
    decide_and_emit, directive_line, emit_lines, has_static_archive, static_archive_name,
    DirListing, Directive, LinkageKind,
};
use by2_build::platform::{ProfileKind, TargetOs};

fn listing(path: &str, files: &[&str]) -> DirListing {
    DirListing {
        path: path.to_string(),
        files: files.iter().map(|f| f.to_string()).collect(),
    }
}

fn strings(xs: &[&str]) -> Vec<String> {
    xs.iter().map(|s| s.to_string()).collect()
}

#[test]
fn archive_name_per_os() {
    assert_eq!(static_archive_name(TargetOs::Windows, "ccore"), "ccore.lib");
    assert_eq!(static_archive_name(TargetOs::Linux, "by2"), "libby2.a");
}

#[test]
fn archive_probe_stops_at_presence() {
    let dirs = vec![
        listing("/a", &["other.txt"]),
        listing("/b", &["libby2.a"]),
    ];
    assert!(has_static_archive("by2", &dirs, TargetOs::Linux));
    assert!(!has_static_archive("stdc++", &dirs, TargetOs::Linux));
}

// Scenario: Linux release, metadata reports /install/lib and the libraries
// by2 and stdc++; a static archive exists for by2 only. One search
// directive per distinct path, a static directive for by2, a dynamic one
// for stdc++.
#[test]
fn linux_release_mixed_linkage() {
    let libs = strings(&["by2", "stdc++"]);
    let dirs = vec![
        listing("/install/lib", &["libby2.a", "libby2.so"]),
        listing("/opt/pkg/lib", &[]),
        listing("/opt/pkg/debug/lib", &[]),
    ];
    let ds = decide_and_emit(&libs, &dirs, ProfileKind::Release, TargetOs::Linux);
    let lines = emit_lines(&ds);
    assert_eq!(
        lines,
        vec![
            "cargo:rustc-link-search=native=/install/lib".to_string(),
            "cargo:rustc-link-search=native=/opt/pkg/lib".to_string(),
            "cargo:rustc-link-search=native=/opt/pkg/debug/lib".to_string(),
            "cargo:rustc-link-lib=static=by2".to_string(),
            "cargo:rustc-link-lib=dylib=stdc++".to_string(),
        ]
    );
}

// Duplicate occurrences and repeated paths collapse: each distinct search
// path and each distinct library is emitted exactly once.
#[test]
fn emission_dedups_inputs() {
    let libs = strings(&["a", "b", "a", "b", "a"]);
    let dirs = vec![
        listing("/x", &[]),
        listing("/y", &[]),
        listing("/x", &[]),
    ];
    let ds = decide_and_emit(&libs, &dirs, ProfileKind::Release, TargetOs::Linux);
    let lines = emit_lines(&ds);
    assert_eq!(
        lines,
        vec![
            "cargo:rustc-link-search=native=/x".to_string(),
            "cargo:rustc-link-search=native=/y".to_string(),
            "cargo:rustc-link-lib=dylib=a".to_string(),
            "cargo:rustc-link-lib=dylib=b".to_string(),
        ]
    );
}

// The debug profile links dynamically even when a static archive is there.
#[test]
fn debug_profile_forces_dynamic() {
    let libs = strings(&["ccore"]);
    let dirs = vec![listing("/i/lib", &["ccore.lib"])];
    let ds = decide_and_emit(&libs, &dirs, ProfileKind::Debug, TargetOs::Windows);
    let lines = emit_lines(&ds);
    assert_eq!(lines[1], "cargo:rustc-link-lib=dylib=ccore");
    let ds = decide_and_emit(&libs, &dirs, ProfileKind::Release, TargetOs::Windows);
    let lines = emit_lines(&ds);
    assert_eq!(lines[1], "cargo:rustc-link-lib=static=ccore");
}

// A library whose archive no search path holds degrades to dynamic linkage.
#[test]
fn missing_archive_degrades_to_dynamic() {
    let libs = strings(&["stdc++"]);
    let dirs = vec![listing("/i/lib", &[])];
    let ds = decide_and_emit(&libs, &dirs, ProfileKind::Release, TargetOs::Linux);
    let lines = emit_lines(&ds);
    assert_eq!(lines[1], "cargo:rustc-link-lib=dylib=stdc++");
}

#[test]
fn directive_lines_render_kinds() {
    let d = Directive::SearchPath("/lib".to_string());
    assert_eq!(directive_line(&d), "cargo:rustc-link-search=native=/lib");
    let d = Directive::LinkLib(LinkageKind::Static, "z".to_string());
    assert_eq!(directive_line(&d), "cargo:rustc-link-lib=static=z");
    let d = Directive::LinkLib(LinkageKind::Dynamic, "z".to_string());
    assert_eq!(directive_line(&d), "cargo:rustc-link-lib=dylib=z");
}

// On Windows the archive file name is name.lib; on Linux it is libname.a.
#[test]
fn archive_convention_is_os_specific() {
    let libs = strings(&["by2"]);
    let dirs = vec![listing("/l", &["by2.lib"])];
    let ds = decide_and_emit(&libs, &dirs, ProfileKind::Release, TargetOs::Windows);
    assert_eq!(emit_lines(&ds)[1], "cargo:rustc-link-lib=static=by2");
    let ds = decide_and_emit(&libs, &dirs, ProfileKind::Release, TargetOs::Linux);
    assert_eq!(emit_lines(&ds)[1], "cargo:rustc-link-lib=dylib=by2");
}
