use by2_build::emit::{emit_lines, DirListing};
use by2_build::invoke::{build_args, configure_args, step_result, BuildStep};
use by2_build::pipeline::plan_run;
use by2_build::platform::{resolve, ProfileKind, TargetOs};
use by2_build::workspace::{find_target_dir, workspace_root};

fn listing(path: &str, files: &[&str]) -> DirListing {
    DirListing {
        path: path.to_string(),
        files: files.iter().map(|f| f.to_string()).collect(),
    }
}

// Re-running the whole planning on unchanged inputs gives identical
// directives and identical copies.
#[test]
fn rerun_plans_identically() {
    let libs = vec!["by2".to_string(), "stdc++".to_string()];
    let search = vec![
        listing("/i/lib", &["libby2.a"]),
        listing("/i/debug/lib", &[]),
    ];
    let bins = vec![listing("/i/bin", &["libby2.so"])];
    let dests = vec!["/t/release/deps".to_string(), "/t/release".to_string()];
    let p1 = plan_run(&libs, &search, &bins, &dests, ProfileKind::Release, TargetOs::Linux);
    let p2 = plan_run(&libs, &search, &bins, &dests, ProfileKind::Release, TargetOs::Linux);
    assert_eq!(emit_lines(&p1.directives), emit_lines(&p2.directives));
    let pairs1: Vec<(String, String)> =
        p1.copies.iter().map(|c| (c.source.clone(), c.dest.clone())).collect();
    let pairs2: Vec<(String, String)> =
        p2.copies.iter().map(|c| (c.source.clone(), c.dest.clone())).collect();
    assert_eq!(pairs1, pairs2);
    assert_eq!(
        pairs1,
        vec![
            ("/i/bin/libby2.so".to_string(), "/t/release/deps/libby2.so".to_string()),
            ("/i/bin/libby2.so".to_string(), "/t/release/libby2.so".to_string()),
        ]
    );
}

#[test]
fn configure_arguments() {
    let bp = resolve("linux", "x86_64", "release").unwrap();
    let args = configure_args(&bp, "/out/installed", "/out/vcpkg_installed");
    assert_eq!(
        args,
        vec![
            "--preset=clang-20-release".to_string(),
            "-DCMAKE_INSTALL_PREFIX=/out/installed".to_string(),
            "-DVCPKG_INSTALLED_DIR=/out/vcpkg_installed".to_string(),
        ]
    );
}

#[test]
fn build_arguments() {
    let bp = resolve("windows", "x86_64", "debug").unwrap();
    let args = build_args(&bp);
    assert_eq!(
        args,
        vec!["--build".to_string(), "--preset=msvc-mt-debug-install".to_string()]
    );
}

#[test]
fn step_results_name_the_step() {
    assert!(step_result(BuildStep::Configure, true).is_ok());
    let e = step_result(BuildStep::Configure, false).unwrap_err();
    assert_eq!(e.step, BuildStep::Configure);
    assert_eq!(e.message(), "cmake configure failed");
    let e = step_result(BuildStep::Build, false).unwrap_err();
    assert_eq!(e.message(), "cmake build failed");
    let e = step_result(BuildStep::BindingGeneration, false).unwrap_err();
    assert_eq!(e.message(), "binding generation failed");
}

#[test]
fn workspace_root_two_steps_up() {
    assert_eq!(workspace_root("/work/src/app"), Some("/work".to_string()));
    assert_eq!(workspace_root("/a/b"), Some("/".to_string()));
    assert_eq!(workspace_root("/a"), None);
    assert_eq!(workspace_root("plain"), None);
}

#[test]
fn target_dir_walks_ancestors() {
    let out = "/w/target/debug/build/pkg-123/out";
    assert_eq!(find_target_dir(out, "debug"), Some("/w/target/debug".to_string()));
    assert_eq!(find_target_dir(out, "release"), None);
}
