use by2_build::emit::DirListing;
use by2_build::probe::{
    assemble_search_paths, classify_tokens, fallback_lib_dirs, probe_outputs, scan_libraries,
    scan_outputs, substitute_placeholders,
};

#[test]
fn substitute_prefix_placeholder() {
    let r = substitute_placeholders("${prefix}/lib", "/inst", "lib");
    assert_eq!(r, "/inst/lib");
}

#[test]
fn substitute_libdir_placeholder() {
    let r = substitute_placeholders("${libdir}", "/inst", "debug/lib");
    assert_eq!(r, "/inst/debug/lib");
}

#[test]
fn substitute_leaves_plain_paths() {
    let r = substitute_placeholders("/usr/lib", "/inst", "lib");
    assert_eq!(r, "/usr/lib");
}

#[test]
fn substitute_every_occurrence() {
    let r = substitute_placeholders("${prefix}/a:${prefix}/b", "/i", "lib");
    assert_eq!(r, "/i/a:/i/b");
}

#[test]
fn classify_plain_and_pair_tokens() {
    let tokens = vec![
        "by2".to_string(),
        "static=zstd".to_string(),
        "/opt/vendor/lib".to_string(),
        "stdc++".to_string(),
    ];
    let (paths, libs) = classify_tokens(&tokens);
    assert_eq!(paths, vec!["/opt/vendor/lib".to_string()]);
    assert_eq!(
        libs,
        vec!["by2".to_string(), "zstd".to_string(), "stdc++".to_string()]
    );
}

#[test]
fn fallback_dirs_under_prefix() {
    let r = fallback_lib_dirs("/inst");
    assert_eq!(r, vec!["/inst/lib".to_string(), "/inst/debug/lib".to_string()]);
}

#[test]
fn assemble_dedups_and_adds_fallbacks() {
    let reported = vec![
        "${prefix}/lib".to_string(),
        "/inst/lib".to_string(),
        "/other/lib".to_string(),
    ];
    let r = assemble_search_paths(&reported, "/inst", "lib");
    assert_eq!(
        r,
        vec![
            "/inst/lib".to_string(),
            "/other/lib".to_string(),
            "/inst/debug/lib".to_string(),
        ]
    );
}

#[test]
fn probe_outputs_dedups_libraries() {
    let link_paths = vec!["/install/lib".to_string(), "/install/lib".to_string()];
    let tokens = vec!["by2".to_string(), "by2".to_string(), "stdc++".to_string()];
    let pr = probe_outputs(&link_paths, &tokens, "/opt/pkg", "lib");
    assert_eq!(
        pr.search_paths,
        vec![
            "/install/lib".to_string(),
            "/opt/pkg/lib".to_string(),
            "/opt/pkg/debug/lib".to_string(),
        ]
    );
    assert_eq!(pr.libraries, vec!["by2".to_string(), "stdc++".to_string()]);
}

#[test]
fn probe_outputs_promotes_path_tokens() {
    let link_paths: Vec<String> = Vec::new();
    let tokens = vec!["/vendor/lib".to_string(), "by2".to_string()];
    let pr = probe_outputs(&link_paths, &tokens, "/p", "lib");
    assert_eq!(
        pr.search_paths,
        vec![
            "/vendor/lib".to_string(),
            "/p/lib".to_string(),
            "/p/debug/lib".to_string(),
        ]
    );
    assert_eq!(pr.libraries, vec!["by2".to_string()]);
}

#[test]
fn scan_picks_archives_by_extension() {
    let names = vec![
        "ccore.lib".to_string(),
        "readme.txt".to_string(),
        "libz.a".to_string(),
        "noext".to_string(),
        ".hidden".to_string(),
    ];
    let r = scan_libraries(&names);
    assert_eq!(r, vec!["ccore".to_string(), "libz".to_string()]);
}

// The directory-scan strategy degrades to an empty result on an empty
// listing; that is not an error.
#[test]
fn scan_empty_listing() {
    let names: Vec<String> = Vec::new();
    let r = scan_libraries(&names);
    assert!(r.is_empty());
}

#[test]
fn scan_strategy_behind_probe_interface() {
    let dirs = vec![
        DirListing {
            path: "/i/lib".to_string(),
            files: vec!["ccore.lib".to_string(), "ccore.dll".to_string()],
        },
        DirListing {
            path: "/i/debug/lib".to_string(),
            files: vec!["libz.a".to_string(), "ccore.lib".to_string()],
        },
    ];
    let pr = scan_outputs(&dirs, "/i");
    assert_eq!(
        pr.search_paths,
        vec!["/i/lib".to_string(), "/i/debug/lib".to_string()]
    );
    assert_eq!(pr.libraries, vec!["ccore".to_string(), "libz".to_string()]);
}
