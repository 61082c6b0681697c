use by2_build::emit::DirListing;
use by2_build::platform::TargetOs;
use by2_build::stage::{is_shared_library, runtime_bin_dirs, stage_plan};

fn listing(path: &str, files: &[&str]) -> DirListing {
    DirListing {
        path: path.to_string(),
        files: files.iter().map(|f| f.to_string()).collect(),
    }
}

#[test]
fn shared_library_extensions() {
    assert!(is_shared_library("by2.dll", TargetOs::Windows));
    assert!(is_shared_library("BY2.DLL", TargetOs::Windows));
    assert!(is_shared_library("libby2.so", TargetOs::Linux));
    assert!(is_shared_library("libby2.dylib", TargetOs::MacOs));
    assert!(!is_shared_library("by2.lib", TargetOs::Windows));
    assert!(!is_shared_library("by2.dll", TargetOs::Linux));
    assert!(!is_shared_library("LIBBY2.SO", TargetOs::Linux));
    assert!(!is_shared_library("noext", TargetOs::Windows));
}

#[test]
fn plan_copies_every_shared_lib_to_every_dest() {
    let bins = vec![
        listing("/i/bin", &["by2.dll", "by2.lib", "notes.txt"]),
        listing("/i/debug/bin", &["extra.dll"]),
    ];
    let dests = vec!["/t/debug/deps".to_string(), "/t/debug".to_string()];
    let plan = stage_plan(&bins, &dests, TargetOs::Windows);
    let pairs: Vec<(String, String)> = plan
        .iter()
        .map(|c| (c.source.clone(), c.dest.clone()))
        .collect();
    assert_eq!(
        pairs,
        vec![
            ("/i/bin/by2.dll".to_string(), "/t/debug/deps/by2.dll".to_string()),
            ("/i/bin/by2.dll".to_string(), "/t/debug/by2.dll".to_string()),
            ("/i/debug/bin/extra.dll".to_string(), "/t/debug/deps/extra.dll".to_string()),
            ("/i/debug/bin/extra.dll".to_string(), "/t/debug/extra.dll".to_string()),
        ]
    );
}

// An absent directory hands in an empty listing and plans nothing.
#[test]
fn plan_empty_for_missing_dirs() {
    let bins = vec![listing("/i/bin", &[])];
    let dests = vec!["/t".to_string()];
    let plan = stage_plan(&bins, &dests, TargetOs::Linux);
    assert!(plan.is_empty());
}

#[test]
fn candidate_bin_dirs() {
    let r = runtime_bin_dirs("/inst");
    assert_eq!(r, vec!["/inst/bin".to_string(), "/inst/debug/bin".to_string()]);
}
