//! Runtime dependency staging: plans which shared-library files found
//! directly inside the candidate binary-output directories are copied into
//! which destination directories, keeping their names. The plan is a pure
//! function of the listings, so re-running it on an unchanged install tree
//! plans the same copies; executing a copy overwrites the destination, which
//! keeps the run idempotent. The unverified driver executes the copies and
//! treats a failed one as a warning, never as a fatal error.

use vstd::prelude::*;

use crate::emit::{listing_views, DirListing, DirModel};
use crate::platform::TargetOs;
use crate::strutil::{eq_ignore_case, ext_split, join_path, lower, split_extension, str_eq, views};

verus! {

/// One planned copy of a runtime shared library.
#[derive(Clone, Debug)]
pub struct CopyAction {
    pub source: String,
    pub dest: String,
}

/// The mathematical model of a planned copy.
pub struct CopyModel {
    pub source: Seq<char>,
    pub dest: Seq<char>,
}

impl View for CopyAction {
    type V = CopyModel;

    open spec fn view(&self) -> CopyModel {
        CopyModel { source: self.source@, dest: self.dest@ }
    }
}

/// The models of a sequence of planned copies.
pub open spec fn copy_views(s: Seq<CopyAction>) -> Seq<CopyModel> {
    s.map_values(|c: CopyAction| c@)
}

/// The shared-library file extension the OS convention names.
pub open spec fn shared_ext_spec(os: TargetOs) -> Seq<char> {
    match os {
        TargetOs::Windows => "dll"@,
        TargetOs::Linux => "so"@,
        TargetOs::MacOs => "dylib"@,
    }
}

/// Whether a file name names a shared library: its extension matches the
/// OS convention, without regard to ASCII case on Windows, whose
/// filesystems keep none, and exactly elsewhere.
pub open spec fn is_shared_lib_spec(name: Seq<char>, os: TargetOs) -> bool {
    match ext_split(name) {
        Some(se) => if os == TargetOs::Windows {
            lower(se.1) == lower(shared_ext_spec(os))
        } else {
            se.1 == shared_ext_spec(os)
        },
        None => false,
    }
}

/// Tests a file name against the OS's shared-library convention.
pub fn is_shared_library(name: &str, os: TargetOs) -> (r: bool)
    ensures
        r == is_shared_lib_spec(name@, os),
{
    match split_extension(name) {
        Some(se) => match os {
            TargetOs::Windows => eq_ignore_case(se.1.as_str(), "dll"),
            TargetOs::Linux => str_eq(se.1.as_str(), "so"),
            TargetOs::MacOs => str_eq(se.1.as_str(), "dylib"),
        },
        None => false,
    }
}

/// The copies of one shared-library file: into every destination, keeping
/// its name.
pub open spec fn file_copies(dir: Seq<char>, f: Seq<char>, dests: Seq<Seq<char>>) -> Seq<CopyModel>
    decreases dests.len(),
{
    if dests.len() == 0 {
        Seq::empty()
    } else {
        file_copies(dir, f, dests.drop_last()).push(
            CopyModel { source: dir + "/"@ + f, dest: dests.last() + "/"@ + f },
        )
    }
}

/// `file_copies` plans one copy per destination.
pub proof fn lemma_file_copies_len(dir: Seq<char>, f: Seq<char>, dests: Seq<Seq<char>>)
    ensures
        file_copies(dir, f, dests).len() == dests.len(),
    decreases dests.len(),
{
    if dests.len() > 0 {
        lemma_file_copies_len(dir, f, dests.drop_last());
    }
}

/// `file_copies` is the pointwise copy of the destination list.
pub proof fn lemma_file_copies_index(dir: Seq<char>, f: Seq<char>, dests: Seq<Seq<char>>, k: int)
    requires
        0 <= k < dests.len(),
    ensures
        file_copies(dir, f, dests).len() == dests.len(),
        file_copies(dir, f, dests)[k] == (CopyModel {
            source: dir + "/"@ + f,
            dest: dests[k] + "/"@ + f,
        }),
    decreases dests.len(),
{
    lemma_file_copies_len(dir, f, dests);
    if k < dests.len() - 1 {
        lemma_file_copies_index(dir, f, dests.drop_last(), k);
    } else {
        assert(dests.last() == dests[dests.len() - 1]);
    }
}

/// The copies of one directory listing: each shared-library file directly
/// inside it goes to every destination.
pub open spec fn files_copies(
    dir: Seq<char>,
    files: Seq<Seq<char>>,
    dests: Seq<Seq<char>>,
    os: TargetOs,
) -> Seq<CopyModel>
    decreases files.len(),
{
    if files.len() == 0 {
        Seq::empty()
    } else {
        files_copies(dir, files.drop_last(), dests, os) + if is_shared_lib_spec(files.last(), os) {
            file_copies(dir, files.last(), dests)
        } else {
            Seq::empty()
        }
    }
}

/// The whole staging plan over the candidate binary directories, in order.
pub open spec fn stage_spec(bins: Seq<DirModel>, dests: Seq<Seq<char>>, os: TargetOs) -> Seq<
    CopyModel,
>
    decreases bins.len(),
{
    if bins.len() == 0 {
        Seq::empty()
    } else {
        stage_spec(bins.drop_last(), dests, os) + files_copies(
            bins.last().path,
            bins.last().files,
            dests,
            os,
        )
    }
}

/// Appends the copies of `src` to `dst`, in order.
fn append_copies(dst: &mut Vec<CopyAction>, src: Vec<CopyAction>)
    ensures
        copy_views(final(dst)@) == copy_views(old(dst)@) + copy_views(src@),
{
    let ghost base = dst@;
    let mut j: usize = 0;
    let src_len = src.len();
    let mut rest = src;
    let ghost src_snap = rest@;
    while j < src_len
        invariant
            j <= src_snap.len(),
            src_len == src_snap.len(),
            rest@ == src_snap,
            dst@.len() == base.len() + j,
            forall|k: int| 0 <= k < base.len() ==> #[trigger] dst@[k] == base[k],
            forall|k: int|
                base.len() <= k < base.len() + j ==> #[trigger] dst@[k]@ == src_snap[k
                    - base.len()]@,
        decreases src_snap.len() - j,
    {
        let c = CopyAction { source: rest[j].source.clone(), dest: rest[j].dest.clone() };
        proof {
            assert(c@ == src_snap[j as int]@);
        }
        dst.push(c);
        j += 1;
    }
    proof {
        assert forall|k: int| 0 <= k < dst@.len() implies copy_views(dst@)[k] == (copy_views(base)
            + copy_views(src_snap))[k] by {
            assert(copy_views(dst@)[k] == dst@[k]@);
            if k < base.len() {
                assert(dst@[k] == base[k]);
                assert((copy_views(base) + copy_views(src_snap))[k] == copy_views(base)[k]);
                assert(copy_views(base)[k] == base[k]@);
            } else {
                assert(dst@[k]@ == src_snap[k - base.len()]@);
                assert((copy_views(base) + copy_views(src_snap))[k] == copy_views(src_snap)[k
                    - base.len()]);
                assert(copy_views(src_snap)[k - base.len()] == src_snap[k - base.len()]@);
            }
        }
        assert(copy_views(dst@) =~= copy_views(base) + copy_views(src_snap));
    }
}

/// Plans the copies of one shared-library file into every destination.
fn copies_for_file(dir: &str, f: &str, dests: &Vec<String>) -> (r: Vec<CopyAction>)
    ensures
        copy_views(r@) == file_copies(dir@, f@, views(dests@)),
{
    let mut r: Vec<CopyAction> = Vec::new();
    let mut k: usize = 0;
    while k < dests.len()
        invariant
            k <= dests@.len(),
            r@.len() == k,
            forall|m: int|
                0 <= m < k ==> #[trigger] r@[m]@ == (CopyModel {
                    source: dir@ + "/"@ + f@,
                    dest: dests@[m]@ + "/"@ + f@,
                }),
        decreases dests@.len() - k,
    {
        let source = join_path(dir, f);
        let dest = join_path(dests[k].as_str(), f);
        r.push(CopyAction { source, dest });
        k += 1;
    }
    proof {
        lemma_file_copies_len(dir@, f@, views(dests@));
        assert forall|m: int| 0 <= m < r@.len() implies copy_views(r@)[m] == file_copies(
            dir@,
            f@,
            views(dests@),
        )[m] by {
            assert(copy_views(r@)[m] == r@[m]@);
            lemma_file_copies_index(dir@, f@, views(dests@), m);
            assert(views(dests@)[m] == dests@[m]@);
        }
        assert(copy_views(r@) =~= file_copies(dir@, f@, views(dests@)));
    }
    r
}

/// Plans the copies of one candidate binary directory.
fn copies_for_listing(bin: &DirListing, dests: &Vec<String>, os: TargetOs) -> (r: Vec<CopyAction>)
    ensures
        copy_views(r@) == files_copies(bin.path@, views(bin.files@), views(dests@), os),
{
    let mut r: Vec<CopyAction> = Vec::new();
    let mut j: usize = 0;
    proof {
        assert(views(bin.files@).take(0) =~= Seq::<Seq<char>>::empty());
        assert(copy_views(r@) =~= Seq::<CopyModel>::empty());
    }
    while j < bin.files.len()
        invariant
            j <= bin.files@.len(),
            copy_views(r@) == files_copies(
                bin.path@,
                views(bin.files@).take(j as int),
                views(dests@),
                os,
            ),
        decreases bin.files@.len() - j,
    {
        let ghost pre = views(bin.files@).take(j as int);
        let ghost old_r = copy_views(r@);
        let f = &bin.files[j];
        if is_shared_library(f.as_str(), os) {
            let mut cs = copies_for_file(bin.path.as_str(), f.as_str(), dests);
            let ghost cs_views = copy_views(cs@);
            append_copies(&mut r, cs);
            proof {
                assert(copy_views(r@) == old_r + cs_views);
            }
        } else {
            proof {
                assert(old_r + Seq::<CopyModel>::empty() =~= old_r);
            }
        }
        proof {
            assert(views(bin.files@).take(j + 1).drop_last() =~= pre);
            assert(views(bin.files@).take(j + 1).last() == bin.files@[j as int]@);
        }
        j += 1;
    }
    proof {
        assert(views(bin.files@).take(bin.files@.len() as int) =~= views(bin.files@));
    }
    r
}

/// Plans the staging of runtime shared libraries: every shared-library file
/// directly inside a candidate binary directory — not in its subtree — is
/// copied into every destination directory, keeping its name.
pub fn stage_plan(bin_dirs: &Vec<DirListing>, dest_dirs: &Vec<String>, os: TargetOs) -> (r: Vec<
    CopyAction,
>)
    ensures
        copy_views(r@) == stage_spec(listing_views(bin_dirs@), views(dest_dirs@), os),
{
    let mut r: Vec<CopyAction> = Vec::new();
    let mut i: usize = 0;
    proof {
        assert(listing_views(bin_dirs@).take(0) =~= Seq::<DirModel>::empty());
        assert(copy_views(r@) =~= Seq::<CopyModel>::empty());
    }
    while i < bin_dirs.len()
        invariant
            i <= bin_dirs@.len(),
            copy_views(r@) == stage_spec(
                listing_views(bin_dirs@).take(i as int),
                views(dest_dirs@),
                os,
            ),
        decreases bin_dirs@.len() - i,
    {
        let ghost pre = listing_views(bin_dirs@).take(i as int);
        let ghost old_r = copy_views(r@);
        let cs = copies_for_listing(&bin_dirs[i], dest_dirs, os);
        let ghost cs_views = copy_views(cs@);
        append_copies(&mut r, cs);
        proof {
            assert(copy_views(r@) == old_r + cs_views);
            assert(listing_views(bin_dirs@).take(i + 1).drop_last() =~= pre);
            assert(listing_views(bin_dirs@).take(i + 1).last() == bin_dirs@[i as int]@);
        }
        i += 1;
    }
    proof {
        assert(listing_views(bin_dirs@).take(bin_dirs@.len() as int) =~= listing_views(bin_dirs@));
    }
    r
}

/// The candidate binary-output directories under the install tree: the
/// default subtree and the debug subtree.
pub fn runtime_bin_dirs(install_prefix: &str) -> (r: Vec<String>)
    ensures
        views(r@).len() == 2,
        views(r@)[0] == install_prefix@ + "/bin"@,
        views(r@)[1] == install_prefix@ + "/debug/bin"@,
{
    let mut r: Vec<String> = Vec::new();
    r.push(crate::strutil::concat_str(install_prefix, "/bin"));
    r.push(crate::strutil::concat_str(install_prefix, "/debug/bin"));
    r
}

} // verus!
