//! The run plan: ties directive emission and runtime staging together into
//! one pure function of the discovered inputs, so that a whole run's
//! decisions are a deterministic value — re-running against the same install
//! prefix with unchanged inputs plans the same directives and the same
//! copies.

use vstd::prelude::*;

use crate::emit::{
    decide_and_emit, directive_views, emit_spec, listing_views, DirListing, Directive,
    DirectiveModel, DirModel,
};
use crate::platform::{ProfileKind, TargetOs};
use crate::stage::{copy_views, stage_plan, stage_spec, CopyAction, CopyModel};
use crate::strutil::views;

verus! {

/// Everything one run decides: the directives told to the host build and
/// the copies staged on disk.
pub struct RunPlan {
    pub directives: Vec<Directive>,
    pub copies: Vec<CopyAction>,
}

/// The model of a full run over fixed discovered inputs.
pub open spec fn run_plan_spec(
    libs: Seq<Seq<char>>,
    search_dirs: Seq<DirModel>,
    bin_dirs: Seq<DirModel>,
    dests: Seq<Seq<char>>,
    profile: ProfileKind,
    os: TargetOs,
) -> (Seq<DirectiveModel>, Seq<CopyModel>) {
    (emit_spec(libs, search_dirs, profile, os), stage_spec(bin_dirs, dests, os))
}

/// Plans one full run from the probe answer and the directory listings the
/// driver read: directives first, then the staging copies.
pub fn plan_run(
    libs: &Vec<String>,
    search_dirs: &Vec<DirListing>,
    bin_dirs: &Vec<DirListing>,
    dest_dirs: &Vec<String>,
    profile: ProfileKind,
    os: TargetOs,
) -> (r: RunPlan)
    ensures
        (directive_views(r.directives@), copy_views(r.copies@)) == run_plan_spec(
            views(libs@),
            listing_views(search_dirs@),
            listing_views(bin_dirs@),
            views(dest_dirs@),
            profile,
            os,
        ),
{
    let directives = decide_and_emit(libs, search_dirs, profile, os);
    let copies = stage_plan(bin_dirs, dest_dirs, os);
    RunPlan { directives, copies }
}

/// Law: the orchestration is idempotent over its inputs. Two runs that see
/// the same discovered libraries, the same listings and the same
/// destinations plan identical directives and identical copies, so the
/// second run only overwrites files with what a run already wrote.
pub proof fn lemma_rerun_identical(
    r1: RunPlan,
    r2: RunPlan,
    libs: Seq<Seq<char>>,
    search_dirs: Seq<DirModel>,
    bin_dirs: Seq<DirModel>,
    dests: Seq<Seq<char>>,
    profile: ProfileKind,
    os: TargetOs,
)
    requires
        (directive_views(r1.directives@), copy_views(r1.copies@)) == run_plan_spec(
            libs,
            search_dirs,
            bin_dirs,
            dests,
            profile,
            os,
        ),
        (directive_views(r2.directives@), copy_views(r2.copies@)) == run_plan_spec(
            libs,
            search_dirs,
            bin_dirs,
            dests,
            profile,
            os,
        ),
    ensures
        directive_views(r1.directives@) == directive_views(r2.directives@),
        copy_views(r1.copies@) == copy_views(r2.copies@),
{
}

} // verus!
