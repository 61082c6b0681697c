//! External build invocation: renders the argument lists of the meta-build
//! system's configure and build steps from a resolved profile, and decides
//! the fate of each step from its exit status. Spawning the processes and
//! waiting for them is the unverified driver's work; a non-zero exit or a
//! failed spawn aborts the whole orchestration — no retry, no partial
//! continuation.

use vstd::prelude::*;

use crate::platform::BuildProfile;
use crate::strutil::concat_str;

verus! {

/// The orchestration steps that run an external tool.
#[derive(Clone, Copy, PartialEq, Eq, Structural, Debug)]
pub enum BuildStep {
    Configure,
    Build,
    BindingGeneration,
}

/// A fatal failure of an external step, naming the step.
#[derive(Clone, Copy, PartialEq, Eq, Structural, Debug)]
pub struct BuildError {
    pub step: BuildStep,
}

/// The arguments of the configure invocation: the configure preset, the
/// install-prefix override and the nested-package install-directory
/// override. The invocation runs from the workspace root.
pub fn configure_args(bp: &BuildProfile, install_prefix: &str, nested_install_dir: &str) -> (r:
    Vec<String>)
    ensures
        r@.len() == 3,
        r@[0]@ == "--preset="@ + bp.config_preset@,
        r@[1]@ == "-DCMAKE_INSTALL_PREFIX="@ + install_prefix@,
        r@[2]@ == "-DVCPKG_INSTALLED_DIR="@ + nested_install_dir@,
{
    let mut r: Vec<String> = Vec::new();
    r.push(concat_str("--preset=", bp.config_preset.as_str()));
    r.push(concat_str("-DCMAKE_INSTALL_PREFIX=", install_prefix));
    r.push(concat_str("-DVCPKG_INSTALLED_DIR=", nested_install_dir));
    r
}

/// The arguments of the build invocation: the build preset. The invocation
/// runs from the workspace root.
pub fn build_args(bp: &BuildProfile) -> (r: Vec<String>)
    ensures
        r@.len() == 2,
        r@[0]@ == "--build"@,
        r@[1]@ == "--preset="@ + bp.build_preset@,
{
    let mut r: Vec<String> = Vec::new();
    r.push("--build".to_owned());
    r.push(concat_str("--preset=", bp.build_preset.as_str()));
    r
}

/// Decides the fate of an external step from its exit status: success
/// continues, anything else aborts the whole orchestration with an error
/// naming the step. The external build is assumed deterministic, so a blind
/// retry would only mask a real failure.
pub fn step_result(step: BuildStep, exit_success: bool) -> (r: Result<(), BuildError>)
    ensures
        exit_success ==> r == Ok::<(), BuildError>(()),
        !exit_success ==> r == Err::<(), BuildError>(BuildError { step }),
{
    if exit_success {
        Ok(())
    } else {
        Err(BuildError { step })
    }
}

impl BuildError {
    /// A diagnostic line naming the failed step.
    pub fn message(&self) -> (r: String)
        ensures
            r@ == match self.step {
                BuildStep::Configure => "cmake configure failed"@,
                BuildStep::Build => "cmake build failed"@,
                BuildStep::BindingGeneration => "binding generation failed"@,
            },
    {
        match self.step {
            BuildStep::Configure => "cmake configure failed".to_owned(),
            BuildStep::Build => "cmake build failed".to_owned(),
            BuildStep::BindingGeneration => "binding generation failed".to_owned(),
        }
    }
}

} // verus!
