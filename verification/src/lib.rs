//! Verified core of a native-dependency build orchestrator.
//!
//! The library holds the decision logic of a build-time glue layer that
//! drives an external meta-build system for a C/C++ library and tells the
//! host build how to link against the installed artifacts: resolving a
//! (target OS, target architecture, build profile) triple to preset names
//! and layout hints, turning probe results into deduplicated link-search
//! paths, deciding static versus dynamic linkage per library from what is
//! present on disk, and planning the staging of runtime shared libraries.
//! All filesystem reads, subprocess invocations and directive printing are
//! done by a thin unverified driver that hands this library plain values.

use vstd::prelude::*;

pub mod emit;
pub mod invoke;
pub mod pipeline;
pub mod platform;
pub mod probe;
pub mod stage;
pub mod strutil;
pub mod workspace;

verus! {

/// Adds two machine integers. This mirrors the arithmetic entry point that
/// the native core library offers across the language bridge; the host-side
/// wrapper keeps the same name and behaviour.
pub fn ccore_add(a: i32, b: i32) -> (r: i32)
    requires
        i32::MIN <= a + b <= i32::MAX,
    ensures
        r == a + b,
{
    a + b
}

} // verus!
