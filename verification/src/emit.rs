//! Link decision and directive emission: for the discovered library names
//! and search paths, decides static versus dynamic linkage per library by
//! looking for an OS-specific static-archive file name in the search-path
//! listings, deduplicates both sets, and renders the directives of the host
//! build's textual protocol. Absence of an archive is an expected state, not
//! an error: such a library is linked dynamically.

use vstd::prelude::*;

use crate::platform::{ProfileKind, TargetOs};
use crate::strutil::{
    concat3, concat_str, contains_string, count_matching, dedup_seq, dedup_strings, views,
};

verus! {

/// How a library is incorporated: copied into the binary at link time, or
/// referenced for loading at run time.
#[derive(Clone, Copy, PartialEq, Eq, Structural, Debug)]
pub enum LinkageKind {
    Static,
    Dynamic,
}

/// One directive to the host build.
#[derive(Clone, Debug)]
pub enum Directive {
    /// Names a directory to search for linkable artifacts.
    SearchPath(String),
    /// Names a library and the linkage kind decided for it.
    LinkLib(LinkageKind, String),
}

/// The mathematical model of a directive.
pub enum DirectiveModel {
    SearchPath(Seq<char>),
    LinkLib(LinkageKind, Seq<char>),
}

impl View for Directive {
    type V = DirectiveModel;

    open spec fn view(&self) -> DirectiveModel {
        match self {
            Directive::SearchPath(p) => DirectiveModel::SearchPath(p@),
            Directive::LinkLib(k, l) => DirectiveModel::LinkLib(*k, l@),
        }
    }
}

/// The models of a sequence of directives.
pub open spec fn directive_views(s: Seq<Directive>) -> Seq<DirectiveModel> {
    s.map_values(|d: Directive| d@)
}

/// A directory and the names of the files directly inside it, as the driver
/// read them off the filesystem. A directory that does not exist hands in an
/// empty listing.
#[derive(Clone, Debug)]
pub struct DirListing {
    pub path: String,
    pub files: Vec<String>,
}

/// The mathematical model of a directory listing.
pub struct DirModel {
    pub path: Seq<char>,
    pub files: Seq<Seq<char>>,
}

impl View for DirListing {
    type V = DirModel;

    open spec fn view(&self) -> DirModel {
        DirModel { path: self.path@, files: views(self.files@) }
    }
}

/// The models of a sequence of directory listings.
pub open spec fn listing_views(s: Seq<DirListing>) -> Seq<DirModel> {
    s.map_values(|d: DirListing| d@)
}

/// The paths of the listings, in order.
pub open spec fn listing_paths(dirs: Seq<DirModel>) -> Seq<Seq<char>>
    decreases dirs.len(),
{
    if dirs.len() == 0 {
        Seq::empty()
    } else {
        listing_paths(dirs.drop_last()).push(dirs.last().path)
    }
}

/// The OS-specific static-archive file name for a library name.
pub open spec fn static_name_spec(os: TargetOs, lib: Seq<char>) -> Seq<char> {
    if os == TargetOs::Windows {
        lib + ".lib"@
    } else {
        "lib"@ + lib + ".a"@
    }
}

/// Renders the static-archive file name the OS convention gives a library.
pub fn static_archive_name(os: TargetOs, lib: &str) -> (r: String)
    ensures
        r@ == static_name_spec(os, lib@),
{
    match os {
        TargetOs::Windows => concat_str(lib, ".lib"),
        _ => concat3("lib", lib, ".a"),
    }
}

/// Whether some search-path listing holds the static archive of a library.
pub open spec fn has_static_spec(lib: Seq<char>, dirs: Seq<DirModel>, os: TargetOs) -> bool {
    exists|i: int| 0 <= i < dirs.len() && dirs[i].files.contains(static_name_spec(os, lib))
}

/// Probes the search-path listings for the library's static archive.
pub fn has_static_archive(lib: &str, dirs: &Vec<DirListing>, os: TargetOs) -> (r: bool)
    ensures
        r == has_static_spec(lib@, listing_views(dirs@), os),
{
    let name = static_archive_name(os, lib);
    let mut i: usize = 0;
    while i < dirs.len()
        invariant
            i <= dirs@.len(),
            name@ == static_name_spec(os, lib@),
            forall|k: int|
                0 <= k < i ==> !listing_views(dirs@)[k].files.contains(static_name_spec(os, lib@)),
        decreases dirs@.len() - i,
    {
        if contains_string(&dirs[i].files, name.as_str()) {
            proof {
                assert(listing_views(dirs@)[i as int].files.contains(static_name_spec(os, lib@)));
            }
            return true;
        }
        proof {
            assert(listing_views(dirs@)[i as int] == dirs@[i as int]@);
        }
        i += 1;
    }
    false
}

/// The linkage policy: the debug profile links every library dynamically
/// outright, to keep the runtime-library settings of independently compiled
/// components apart; the release profile links statically exactly when a
/// static archive is present, and dynamically otherwise.
pub open spec fn linkage_spec(profile: ProfileKind, has_static: bool) -> LinkageKind {
    if profile == ProfileKind::Debug {
        LinkageKind::Dynamic
    } else if has_static {
        LinkageKind::Static
    } else {
        LinkageKind::Dynamic
    }
}

/// Applies the linkage policy.
pub fn decide_linkage(profile: ProfileKind, has_static: bool) -> (r: LinkageKind)
    ensures
        r == linkage_spec(profile, has_static),
{
    match profile {
        ProfileKind::Debug => LinkageKind::Dynamic,
        ProfileKind::Release => if has_static {
            LinkageKind::Static
        } else {
            LinkageKind::Dynamic
        },
    }
}

/// The one directive emitted for a library name.
pub open spec fn lib_directive_of(
    l: Seq<char>,
    dirs: Seq<DirModel>,
    profile: ProfileKind,
    os: TargetOs,
) -> DirectiveModel {
    DirectiveModel::LinkLib(linkage_spec(profile, has_static_spec(l, dirs, os)), l)
}

/// The search-path directives for a path set, in order.
pub open spec fn search_directives(paths: Seq<Seq<char>>) -> Seq<DirectiveModel>
    decreases paths.len(),
{
    if paths.len() == 0 {
        Seq::empty()
    } else {
        search_directives(paths.drop_last()).push(DirectiveModel::SearchPath(paths.last()))
    }
}

/// The link directives for a library set, in order.
pub open spec fn lib_directives(
    libs: Seq<Seq<char>>,
    dirs: Seq<DirModel>,
    profile: ProfileKind,
    os: TargetOs,
) -> Seq<DirectiveModel>
    decreases libs.len(),
{
    if libs.len() == 0 {
        Seq::empty()
    } else {
        lib_directives(libs.drop_last(), dirs, profile, os).push(
            lib_directive_of(libs.last(), dirs, profile, os),
        )
    }
}

/// Everything one run tells the host build: each deduplicated search path
/// once, then each deduplicated library once with its decided linkage.
pub open spec fn emit_spec(
    libs: Seq<Seq<char>>,
    dirs: Seq<DirModel>,
    profile: ProfileKind,
    os: TargetOs,
) -> Seq<DirectiveModel> {
    search_directives(dedup_seq(listing_paths(dirs))) + lib_directives(
        dedup_seq(libs),
        dirs,
        profile,
        os,
    )
}

/// The paths of the listings, as strings, in order.
pub fn listing_paths_vec(dirs: &Vec<DirListing>) -> (r: Vec<String>)
    ensures
        views(r@) == listing_paths(listing_views(dirs@)),
{
    let ghost dirs_model = listing_views(dirs@);
    let mut paths: Vec<String> = Vec::new();
    let mut i: usize = 0;
    while i < dirs.len()
        invariant
            i <= dirs@.len(),
            paths@.len() == i,
            forall|k: int| 0 <= k < i ==> #[trigger] paths@[k]@ == dirs@[k].path@,
        decreases dirs@.len() - i,
    {
        paths.push(dirs[i].path.clone());
        i += 1;
    }
    proof {
        assert forall|k: int| 0 <= k < paths@.len() implies views(paths@)[k] == listing_paths(
            dirs_model,
        )[k] by {
            assert(views(paths@)[k] == paths@[k]@);
            lemma_listing_paths_index(dirs_model, k);
            assert(dirs_model[k] == dirs@[k]@);
        }
        lemma_listing_paths_len(dirs_model);
        assert(views(paths@) =~= listing_paths(dirs_model));
    }
    paths
}

/// Decides linkage per library and renders the directive set: each distinct
/// search path is emitted exactly once, then each distinct library exactly
/// once. The order is the deterministic first-occurrence order of the
/// inputs, so re-running on unchanged inputs emits the same directives.
pub fn decide_and_emit(
    libs: &Vec<String>,
    dirs: &Vec<DirListing>,
    profile: ProfileKind,
    os: TargetOs,
) -> (r: Vec<Directive>)
    ensures
        directive_views(r@) == emit_spec(views(libs@), listing_views(dirs@), profile, os),
{
    let ghost dirs_model = listing_views(dirs@);
    let paths = listing_paths_vec(dirs);
    let dpaths = dedup_strings(&paths);
    let dlibs = dedup_strings(libs);
    let mut out: Vec<Directive> = Vec::new();
    let mut i: usize = 0;
    while i < dpaths.len()
        invariant
            i <= dpaths@.len(),
            out@.len() == i,
            forall|k: int|
                0 <= k < i ==> #[trigger] out@[k]@ == DirectiveModel::SearchPath(dpaths@[k]@),
        decreases dpaths@.len() - i,
    {
        out.push(Directive::SearchPath(dpaths[i].clone()));
        i += 1;
    }
    proof {
        assert forall|k: int| 0 <= k < out@.len() implies directive_views(out@)[k]
            == search_directives(views(dpaths@))[k] by {
            assert(directive_views(out@)[k] == out@[k]@);
            lemma_search_directives_index(views(dpaths@), k);
            assert(views(dpaths@)[k] == dpaths@[k]@);
        }
        lemma_search_directives_len(views(dpaths@));
        assert(directive_views(out@) =~= search_directives(views(dpaths@)));
    }
    let ghost search_part = directive_views(out@);
    let ghost n = out@.len();
    let mut j: usize = 0;
    while j < dlibs.len()
        invariant
            j <= dlibs@.len(),
            out@.len() == n + j,
            n == search_part.len(),
            forall|k: int| 0 <= k < n ==> #[trigger] out@[k]@ == search_part[k],
            forall|k: int|
                n <= k < n + j ==> #[trigger] out@[k]@ == lib_directive_of(
                    dlibs@[k - n]@,
                    dirs_model,
                    profile,
                    os,
                ),
            dirs_model == listing_views(dirs@),
        decreases dlibs@.len() - j,
    {
        let has = has_static_archive(dlibs[j].as_str(), dirs, os);
        let kind = decide_linkage(profile, has);
        out.push(Directive::LinkLib(kind, dlibs[j].clone()));
        j += 1;
    }
    proof {
        assert forall|k: int| 0 <= k < out@.len() implies directive_views(out@)[k] == (search_part
            + lib_directives(views(dlibs@), dirs_model, profile, os))[k] by {
            assert(directive_views(out@)[k] == out@[k]@);
            if k >= n {
                lemma_lib_directives_index(views(dlibs@), dirs_model, profile, os, k - n);
                assert(views(dlibs@)[k - n] == dlibs@[k - n]@);
            }
            lemma_lib_directives_len(views(dlibs@), dirs_model, profile, os);
        }
        lemma_lib_directives_len(views(dlibs@), dirs_model, profile, os);
        assert(directive_views(out@) =~= search_part + lib_directives(
            views(dlibs@),
            dirs_model,
            profile,
            os,
        ));
    }
    out
}

/// `listing_paths` keeps the length of its input.
pub proof fn lemma_listing_paths_len(dirs: Seq<DirModel>)
    ensures
        listing_paths(dirs).len() == dirs.len(),
    decreases dirs.len(),
{
    if dirs.len() > 0 {
        lemma_listing_paths_len(dirs.drop_last());
    }
}

/// `listing_paths` is the pointwise path of its input.
pub proof fn lemma_listing_paths_index(dirs: Seq<DirModel>, k: int)
    requires
        0 <= k < dirs.len(),
    ensures
        listing_paths(dirs).len() == dirs.len(),
        listing_paths(dirs)[k] == dirs[k].path,
    decreases dirs.len(),
{
    lemma_listing_paths_len(dirs);
    if k < dirs.len() - 1 {
        lemma_listing_paths_index(dirs.drop_last(), k);
    } else {
        assert(dirs.last() == dirs[dirs.len() - 1]);
    }
}

/// `search_directives` keeps the length of its input.
pub proof fn lemma_search_directives_len(paths: Seq<Seq<char>>)
    ensures
        search_directives(paths).len() == paths.len(),
    decreases paths.len(),
{
    if paths.len() > 0 {
        lemma_search_directives_len(paths.drop_last());
    }
}

/// `search_directives` is the pointwise directive of its input.
pub proof fn lemma_search_directives_index(paths: Seq<Seq<char>>, k: int)
    requires
        0 <= k < paths.len(),
    ensures
        search_directives(paths).len() == paths.len(),
        search_directives(paths)[k] == DirectiveModel::SearchPath(paths[k]),
    decreases paths.len(),
{
    lemma_search_directives_len(paths);
    if k < paths.len() - 1 {
        lemma_search_directives_index(paths.drop_last(), k);
    } else {
        assert(paths.last() == paths[paths.len() - 1]);
    }
}

/// `lib_directives` keeps the length of its input.
pub proof fn lemma_lib_directives_len(
    libs: Seq<Seq<char>>,
    dirs: Seq<DirModel>,
    profile: ProfileKind,
    os: TargetOs,
)
    ensures
        lib_directives(libs, dirs, profile, os).len() == libs.len(),
    decreases libs.len(),
{
    if libs.len() > 0 {
        lemma_lib_directives_len(libs.drop_last(), dirs, profile, os);
    }
}

/// `lib_directives` is the pointwise directive of its input.
pub proof fn lemma_lib_directives_index(
    libs: Seq<Seq<char>>,
    dirs: Seq<DirModel>,
    profile: ProfileKind,
    os: TargetOs,
    k: int,
)
    requires
        0 <= k < libs.len(),
    ensures
        lib_directives(libs, dirs, profile, os).len() == libs.len(),
        lib_directives(libs, dirs, profile, os)[k] == lib_directive_of(libs[k], dirs, profile, os),
    decreases libs.len(),
{
    lemma_lib_directives_len(libs, dirs, profile, os);
    if k < libs.len() - 1 {
        lemma_lib_directives_index(libs.drop_last(), dirs, profile, os, k);
    } else {
        assert(libs.last() == libs[libs.len() - 1]);
    }
}

/// Whether a directive links the library named `l`, of either kind.
pub open spec fn is_lib_directive_for(d: DirectiveModel, l: Seq<char>) -> bool {
    match d {
        DirectiveModel::LinkLib(_, name) => name == l,
        _ => false,
    }
}

/// Distinct paths render distinct search directives.
proof fn lemma_search_directives_no_dup(paths: Seq<Seq<char>>)
    requires
        paths.no_duplicates(),
    ensures
        search_directives(paths).no_duplicates(),
{
    let s = search_directives(paths);
    lemma_search_directives_len(paths);
    assert forall|i: int, j: int| 0 <= i < j < s.len() implies s[i] != s[j] by {
        lemma_search_directives_index(paths, i);
        lemma_search_directives_index(paths, j);
    }
}

/// A search directive for `p` stands among `search_directives(paths)`
/// exactly when `p` is one of the paths.
proof fn lemma_search_directives_contains(paths: Seq<Seq<char>>, p: Seq<char>)
    ensures
        search_directives(paths).contains(DirectiveModel::SearchPath(p)) == paths.contains(p),
{
    let s = search_directives(paths);
    lemma_search_directives_len(paths);
    if paths.contains(p) {
        let i = choose|i: int| 0 <= i < paths.len() && paths[i] == p;
        lemma_search_directives_index(paths, i);
        assert(s[i] == DirectiveModel::SearchPath(p));
    }
    if s.contains(DirectiveModel::SearchPath(p)) {
        let i = choose|i: int| 0 <= i < s.len() && s[i] == DirectiveModel::SearchPath(p);
        lemma_search_directives_index(paths, i);
        assert(paths[i] == p);
    }
}

/// Over a duplicate-free library set, exactly one directive carries the
/// name `l` when `l` is in the set, and none otherwise.
proof fn lemma_lib_directives_count(
    libs: Seq<Seq<char>>,
    dirs: Seq<DirModel>,
    profile: ProfileKind,
    os: TargetOs,
    l: Seq<char>,
)
    requires
        libs.no_duplicates(),
    ensures
        count_matching(
            lib_directives(libs, dirs, profile, os),
            |d: DirectiveModel| is_lib_directive_for(d, l),
        ) == if libs.contains(l) {
            1nat
        } else {
            0nat
        },
    decreases libs.len(),
{
    let pred = |d: DirectiveModel| is_lib_directive_for(d, l);
    let b = lib_directives(libs, dirs, profile, os);
    if libs.len() > 0 {
        let rest = libs.drop_last();
        assert(rest.no_duplicates());
        lemma_lib_directives_count(rest, dirs, profile, os, l);
        assert(b.drop_last() == lib_directives(rest, dirs, profile, os));
        assert(b.last() == lib_directive_of(libs.last(), dirs, profile, os));
        assert(pred(b.last()) == (libs.last() == l));
        if libs.last() == l {
            assert(!rest.contains(l)) by {
                if rest.contains(l) {
                    let i = choose|i: int| 0 <= i < rest.len() && rest[i] == l;
                    assert(libs[i] == l && libs[libs.len() - 1] == l);
                }
            }
            assert(libs.contains(l)) by {
                assert(libs[libs.len() - 1] == l);
            }
        } else {
            assert(libs.contains(l) == rest.contains(l)) by {
                if libs.contains(l) {
                    let i = choose|i: int| 0 <= i < libs.len() && libs[i] == l;
                    assert(libs[libs.len() - 1] == libs.last());
                    assert(i < libs.len() - 1);
                    assert(rest[i] == l);
                }
                if rest.contains(l) {
                    let i = choose|i: int| 0 <= i < rest.len() && rest[i] == l;
                    assert(libs[i] == l);
                }
            }
        }
    }
}

/// Law: the emission holds exactly one search directive for each discovered
/// search path and none for any other path. The count depends on membership
/// alone, so the order of the inputs and duplicate occurrences in them
/// cannot change it.
pub proof fn lemma_each_search_path_once(
    libs: Seq<Seq<char>>,
    dirs: Seq<DirModel>,
    profile: ProfileKind,
    os: TargetOs,
    p: Seq<char>,
)
    ensures
        count_matching(
            emit_spec(libs, dirs, profile, os),
            |d: DirectiveModel| d == DirectiveModel::SearchPath(p),
        ) == if listing_paths(dirs).contains(p) {
            1nat
        } else {
            0nat
        },
{
    let paths = listing_paths(dirs);
    let a = search_directives(dedup_seq(paths));
    let b = lib_directives(dedup_seq(libs), dirs, profile, os);
    let pred = |d: DirectiveModel| d == DirectiveModel::SearchPath(p);
    crate::strutil::lemma_count_matching_concat(a, b, pred);
    crate::strutil::lemma_dedup_no_duplicates(paths);
    lemma_search_directives_no_dup(dedup_seq(paths));
    assert(forall|y: DirectiveModel| #[trigger] pred(y) <==> y == DirectiveModel::SearchPath(p));
    crate::strutil::lemma_count_matching_unique(a, pred, DirectiveModel::SearchPath(p));
    lemma_search_directives_contains(dedup_seq(paths), p);
    crate::strutil::lemma_dedup_membership(paths, p);
    assert forall|i: int| 0 <= i < b.len() implies !pred(b[i]) by {
        lemma_lib_directives_len(dedup_seq(libs), dirs, profile, os);
        lemma_lib_directives_index(dedup_seq(libs), dirs, profile, os, i);
    }
    crate::strutil::lemma_count_matching_zero(b, pred);
}

/// Law: the emission holds exactly one link directive for each discovered
/// library name and none for any other name. The count depends on
/// membership alone, so the order of the inputs and duplicate occurrences
/// in them cannot change it.
pub proof fn lemma_each_library_once(
    libs: Seq<Seq<char>>,
    dirs: Seq<DirModel>,
    profile: ProfileKind,
    os: TargetOs,
    l: Seq<char>,
)
    ensures
        count_matching(
            emit_spec(libs, dirs, profile, os),
            |d: DirectiveModel| is_lib_directive_for(d, l),
        ) == if libs.contains(l) {
            1nat
        } else {
            0nat
        },
{
    let paths = listing_paths(dirs);
    let a = search_directives(dedup_seq(paths));
    let b = lib_directives(dedup_seq(libs), dirs, profile, os);
    let pred = |d: DirectiveModel| is_lib_directive_for(d, l);
    crate::strutil::lemma_count_matching_concat(a, b, pred);
    assert forall|i: int| 0 <= i < a.len() implies !pred(a[i]) by {
        lemma_search_directives_len(dedup_seq(paths));
        lemma_search_directives_index(dedup_seq(paths), i);
    }
    crate::strutil::lemma_count_matching_zero(a, pred);
    crate::strutil::lemma_dedup_no_duplicates(libs);
    lemma_lib_directives_count(dedup_seq(libs), dirs, profile, os, l);
    crate::strutil::lemma_dedup_membership(libs, l);
}

/// The emission holds the directive the policy gives a discovered library.
pub proof fn lemma_emit_contains_lib(
    libs: Seq<Seq<char>>,
    dirs: Seq<DirModel>,
    profile: ProfileKind,
    os: TargetOs,
    l: Seq<char>,
)
    requires
        libs.contains(l),
    ensures
        emit_spec(libs, dirs, profile, os).contains(lib_directive_of(l, dirs, profile, os)),
{
    let paths = listing_paths(dirs);
    let a = search_directives(dedup_seq(paths));
    let b = lib_directives(dedup_seq(libs), dirs, profile, os);
    crate::strutil::lemma_dedup_membership(libs, l);
    let dl = dedup_seq(libs);
    let i = choose|i: int| 0 <= i < dl.len() && dl[i] == l;
    lemma_lib_directives_index(dl, dirs, profile, os, i);
    lemma_search_directives_len(dedup_seq(paths));
    assert((a + b)[a.len() + i] == b[i]);
    assert(emit_spec(libs, dirs, profile, os).contains(lib_directive_of(l, dirs, profile, os)))
        by {
        assert((a + b)[a.len() + i] == lib_directive_of(l, dirs, profile, os));
    }
}

/// Law: a later duplicate occurrence of a library name changes nothing in
/// what is emitted.
pub proof fn lemma_emit_ignores_duplicate_lib(
    libs: Seq<Seq<char>>,
    dirs: Seq<DirModel>,
    profile: ProfileKind,
    os: TargetOs,
    l: Seq<char>,
)
    requires
        libs.contains(l),
    ensures
        emit_spec(libs.push(l), dirs, profile, os) == emit_spec(libs, dirs, profile, os),
{
    crate::strutil::lemma_dedup_push_duplicate(libs, l);
}

/// A duplicate directory listing leaves every archive probe unchanged.
proof fn lemma_has_static_push_dup(l: Seq<char>, dirs: Seq<DirModel>, d: DirModel, os: TargetOs)
    requires
        dirs.contains(d),
    ensures
        has_static_spec(l, dirs.push(d), os) == has_static_spec(l, dirs, os),
{
    let name = static_name_spec(os, l);
    if has_static_spec(l, dirs.push(d), os) {
        let i = choose|i: int|
            0 <= i < dirs.push(d).len() && dirs.push(d)[i].files.contains(name);
        if i < dirs.len() {
            assert(dirs[i].files.contains(name));
        } else {
            assert(dirs.push(d)[i] == d);
            let j = choose|j: int| 0 <= j < dirs.len() && dirs[j] == d;
            assert(dirs[j].files.contains(name));
        }
    }
    if has_static_spec(l, dirs, os) {
        let i = choose|i: int| 0 <= i < dirs.len() && dirs[i].files.contains(name);
        assert(dirs.push(d)[i].files.contains(name));
    }
}

/// Link directives agree wherever every archive probe agrees.
proof fn lemma_lib_directives_dirs_equiv(
    libs: Seq<Seq<char>>,
    dirs1: Seq<DirModel>,
    dirs2: Seq<DirModel>,
    profile: ProfileKind,
    os: TargetOs,
)
    requires
        forall|l: Seq<char>|
            has_static_spec(l, dirs1, os) == #[trigger] has_static_spec(l, dirs2, os),
    ensures
        lib_directives(libs, dirs1, profile, os) == lib_directives(libs, dirs2, profile, os),
    decreases libs.len(),
{
    if libs.len() > 0 {
        lemma_lib_directives_dirs_equiv(libs.drop_last(), dirs1, dirs2, profile, os);
        assert(has_static_spec(libs.last(), dirs1, os) == has_static_spec(libs.last(), dirs2, os));
    }
}

/// Law: a duplicate occurrence of a whole directory listing changes nothing
/// in what is emitted.
pub proof fn lemma_emit_ignores_duplicate_dir(
    libs: Seq<Seq<char>>,
    dirs: Seq<DirModel>,
    d: DirModel,
    profile: ProfileKind,
    os: TargetOs,
)
    requires
        dirs.contains(d),
    ensures
        emit_spec(libs, dirs.push(d), profile, os) == emit_spec(libs, dirs, profile, os),
{
    assert(listing_paths(dirs.push(d)) == listing_paths(dirs).push(d.path)) by {
        assert(dirs.push(d).drop_last() =~= dirs);
        assert(dirs.push(d).last() == d);
    }
    assert(listing_paths(dirs).contains(d.path)) by {
        let i = choose|i: int| 0 <= i < dirs.len() && dirs[i] == d;
        lemma_listing_paths_index(dirs, i);
    }
    crate::strutil::lemma_dedup_push_duplicate(listing_paths(dirs), d.path);
    assert forall|l: Seq<char>|
        has_static_spec(l, dirs.push(d), os) == #[trigger] has_static_spec(l, dirs, os) by {
        lemma_has_static_push_dup(l, dirs, d, os);
    }
    lemma_lib_directives_dirs_equiv(dedup_seq(libs), dirs.push(d), dirs, profile, os);
}

/// A path is among the listing paths exactly when some listing carries it.
proof fn lemma_listing_paths_contains(dirs: Seq<DirModel>, p: Seq<char>)
    ensures
        listing_paths(dirs).contains(p) == exists|i: int| 0 <= i < dirs.len() && dirs[i].path == p,
{
    lemma_listing_paths_len(dirs);
    if listing_paths(dirs).contains(p) {
        let i = choose|i: int| 0 <= i < listing_paths(dirs).len() && listing_paths(dirs)[i] == p;
        lemma_listing_paths_index(dirs, i);
        assert(dirs[i].path == p);
    }
    if exists|i: int| 0 <= i < dirs.len() && dirs[i].path == p {
        let i = choose|i: int| 0 <= i < dirs.len() && dirs[i].path == p;
        lemma_listing_paths_index(dirs, i);
        assert(listing_paths(dirs)[i] == p);
    }
}

/// What the emission holds, by membership alone: a search directive for
/// every discovered path, the policy's directive for every discovered
/// library, and nothing else.
pub proof fn lemma_emit_membership(
    libs: Seq<Seq<char>>,
    dirs: Seq<DirModel>,
    profile: ProfileKind,
    os: TargetOs,
    d: DirectiveModel,
)
    ensures
        emit_spec(libs, dirs, profile, os).contains(d) <==> ((exists|p: Seq<char>|
            d == DirectiveModel::SearchPath(p) && #[trigger] listing_paths(dirs).contains(p))
            || (exists|l: Seq<char>|
            d == lib_directive_of(l, dirs, profile, os) && #[trigger] libs.contains(l))),
{
    let paths = listing_paths(dirs);
    let a = search_directives(dedup_seq(paths));
    let b = lib_directives(dedup_seq(libs), dirs, profile, os);
    lemma_search_directives_len(dedup_seq(paths));
    lemma_lib_directives_len(dedup_seq(libs), dirs, profile, os);
    if emit_spec(libs, dirs, profile, os).contains(d) {
        let k = choose|k: int| 0 <= k < (a + b).len() && (a + b)[k] == d;
        if k < a.len() {
            lemma_search_directives_index(dedup_seq(paths), k);
            let p = dedup_seq(paths)[k];
            crate::strutil::lemma_dedup_membership(paths, p);
            assert(dedup_seq(paths).contains(p)) by {
                assert(dedup_seq(paths)[k] == p);
            }
            assert(d == DirectiveModel::SearchPath(p) && paths.contains(p));
        } else {
            lemma_lib_directives_index(dedup_seq(libs), dirs, profile, os, k - a.len());
            let l = dedup_seq(libs)[k - a.len()];
            crate::strutil::lemma_dedup_membership(libs, l);
            assert(dedup_seq(libs).contains(l)) by {
                assert(dedup_seq(libs)[k - a.len()] == l);
            }
            assert(d == lib_directive_of(l, dirs, profile, os) && libs.contains(l));
        }
    }
    if exists|p: Seq<char>|
        d == DirectiveModel::SearchPath(p) && #[trigger] listing_paths(dirs).contains(p) {
        let p = choose|p: Seq<char>|
            d == DirectiveModel::SearchPath(p) && #[trigger] listing_paths(dirs).contains(p);
        crate::strutil::lemma_dedup_membership(paths, p);
        let i = choose|i: int| 0 <= i < dedup_seq(paths).len() && dedup_seq(paths)[i] == p;
        lemma_search_directives_index(dedup_seq(paths), i);
        assert((a + b)[i] == d);
        assert(emit_spec(libs, dirs, profile, os).contains(d));
    }
    if exists|l: Seq<char>|
        d == lib_directive_of(l, dirs, profile, os) && #[trigger] libs.contains(l) {
        let l = choose|l: Seq<char>|
            d == lib_directive_of(l, dirs, profile, os) && #[trigger] libs.contains(l);
        lemma_emit_contains_lib(libs, dirs, profile, os, l);
    }
}

/// Every archive probe agrees between two listing sequences that hold the
/// same listings, in whatever order and multiplicity.
proof fn lemma_has_static_same_set(
    l: Seq<char>,
    dirs1: Seq<DirModel>,
    dirs2: Seq<DirModel>,
    os: TargetOs,
)
    requires
        dirs1.to_set() == dirs2.to_set(),
    ensures
        has_static_spec(l, dirs1, os) == has_static_spec(l, dirs2, os),
{
    let name = static_name_spec(os, l);
    if has_static_spec(l, dirs1, os) {
        let i = choose|i: int| 0 <= i < dirs1.len() && dirs1[i].files.contains(name);
        assert(dirs1.to_set().contains(dirs1[i]));
        assert(dirs2.contains(dirs1[i]));
        let j = choose|j: int| 0 <= j < dirs2.len() && dirs2[j] == dirs1[i];
        assert(dirs2[j].files.contains(name));
    }
    if has_static_spec(l, dirs2, os) {
        let i = choose|i: int| 0 <= i < dirs2.len() && dirs2[i].files.contains(name);
        assert(dirs2.to_set().contains(dirs2[i]));
        assert(dirs1.contains(dirs2[i]));
        let j = choose|j: int| 0 <= j < dirs1.len() && dirs1[j] == dirs2[i];
        assert(dirs1[j].files.contains(name));
    }
}

/// Law: the emitted directive set depends only on the sets behind the
/// inputs — reordering the discovered libraries or listings, or repeating
/// entries, leaves the set of emitted directives the same.
pub proof fn lemma_emit_depends_on_sets(
    libs1: Seq<Seq<char>>,
    dirs1: Seq<DirModel>,
    libs2: Seq<Seq<char>>,
    dirs2: Seq<DirModel>,
    profile: ProfileKind,
    os: TargetOs,
)
    requires
        libs1.to_set() == libs2.to_set(),
        dirs1.to_set() == dirs2.to_set(),
    ensures
        emit_spec(libs1, dirs1, profile, os).to_set() == emit_spec(
            libs2,
            dirs2,
            profile,
            os,
        ).to_set(),
{
    let s1 = emit_spec(libs1, dirs1, profile, os);
    let s2 = emit_spec(libs2, dirs2, profile, os);
    assert forall|d: DirectiveModel| s1.contains(d) implies s2.contains(d) by {
        lemma_emit_one_direction(libs1, dirs1, libs2, dirs2, profile, os, d);
    }
    assert forall|d: DirectiveModel| s2.contains(d) implies s1.contains(d) by {
        lemma_emit_one_direction(libs2, dirs2, libs1, dirs1, profile, os, d);
    }
    assert(s1.to_set() =~= s2.to_set()) by {
        assert forall|d: DirectiveModel| s1.to_set().contains(d) == #[trigger] s2.to_set().contains(
            d,
        ) by {
            if s1.contains(d) {
                assert(s2.contains(d));
            }
            if s2.contains(d) {
                assert(s1.contains(d));
            }
        }
    }
}

/// A directive of one emission is in the other when the inputs hold the
/// same sets.
proof fn lemma_emit_one_direction(
    libs1: Seq<Seq<char>>,
    dirs1: Seq<DirModel>,
    libs2: Seq<Seq<char>>,
    dirs2: Seq<DirModel>,
    profile: ProfileKind,
    os: TargetOs,
    d: DirectiveModel,
)
    requires
        libs1.to_set() == libs2.to_set(),
        dirs1.to_set() == dirs2.to_set(),
        emit_spec(libs1, dirs1, profile, os).contains(d),
    ensures
        emit_spec(libs2, dirs2, profile, os).contains(d),
{
    lemma_emit_membership(libs1, dirs1, profile, os, d);
    if exists|p: Seq<char>|
        d == DirectiveModel::SearchPath(p) && #[trigger] listing_paths(dirs1).contains(p) {
        let p = choose|p: Seq<char>|
            d == DirectiveModel::SearchPath(p) && #[trigger] listing_paths(dirs1).contains(p);
        lemma_listing_paths_contains(dirs1, p);
        let i = choose|i: int| 0 <= i < dirs1.len() && dirs1[i].path == p;
        assert(dirs1.to_set().contains(dirs1[i]));
        assert(dirs2.contains(dirs1[i]));
        let j = choose|j: int| 0 <= j < dirs2.len() && dirs2[j] == dirs1[i];
        lemma_listing_paths_contains(dirs2, p);
        assert(listing_paths(dirs2).contains(p));
        lemma_emit_membership(libs2, dirs2, profile, os, d);
    } else {
        let l = choose|l: Seq<char>|
            d == lib_directive_of(l, dirs1, profile, os) && #[trigger] libs1.contains(l);
        lemma_has_static_same_set(l, dirs1, dirs2, os);
        assert(d == lib_directive_of(l, dirs2, profile, os));
        assert(libs1.to_set().contains(l));
        assert(libs2.contains(l));
        lemma_emit_membership(libs2, dirs2, profile, os, d);
    }
}

/// Law: in the release profile, a discovered library whose static archive
/// is present under some search path gets the static directive, exactly
/// once.
pub proof fn lemma_release_archive_static(
    libs: Seq<Seq<char>>,
    dirs: Seq<DirModel>,
    os: TargetOs,
    l: Seq<char>,
)
    requires
        libs.contains(l),
        has_static_spec(l, dirs, os),
    ensures
        emit_spec(libs, dirs, ProfileKind::Release, os).contains(
            DirectiveModel::LinkLib(LinkageKind::Static, l),
        ),
        count_matching(
            emit_spec(libs, dirs, ProfileKind::Release, os),
            |d: DirectiveModel| is_lib_directive_for(d, l),
        ) == 1,
{
    lemma_emit_contains_lib(libs, dirs, ProfileKind::Release, os, l);
    lemma_each_library_once(libs, dirs, ProfileKind::Release, os, l);
}

/// Law: a discovered library without a static archive under any search path
/// gets the dynamic directive, in every profile, exactly once.
pub proof fn lemma_no_archive_dynamic(
    libs: Seq<Seq<char>>,
    dirs: Seq<DirModel>,
    profile: ProfileKind,
    os: TargetOs,
    l: Seq<char>,
)
    requires
        libs.contains(l),
        !has_static_spec(l, dirs, os),
    ensures
        emit_spec(libs, dirs, profile, os).contains(
            DirectiveModel::LinkLib(LinkageKind::Dynamic, l),
        ),
        count_matching(
            emit_spec(libs, dirs, profile, os),
            |d: DirectiveModel| is_lib_directive_for(d, l),
        ) == 1,
{
    lemma_emit_contains_lib(libs, dirs, profile, os, l);
    lemma_each_library_once(libs, dirs, profile, os, l);
}

/// Law: the debug profile gets the dynamic directive whatever is on disk,
/// exactly once per discovered library.
pub proof fn lemma_debug_always_dynamic(
    libs: Seq<Seq<char>>,
    dirs: Seq<DirModel>,
    os: TargetOs,
    l: Seq<char>,
)
    requires
        libs.contains(l),
    ensures
        emit_spec(libs, dirs, ProfileKind::Debug, os).contains(
            DirectiveModel::LinkLib(LinkageKind::Dynamic, l),
        ),
        count_matching(
            emit_spec(libs, dirs, ProfileKind::Debug, os),
            |d: DirectiveModel| is_lib_directive_for(d, l),
        ) == 1,
{
    lemma_emit_contains_lib(libs, dirs, ProfileKind::Debug, os, l);
    lemma_each_library_once(libs, dirs, ProfileKind::Debug, os, l);
}

/// The line of the host build's textual protocol that a directive renders
/// to.
pub open spec fn line_spec(d: DirectiveModel) -> Seq<char> {
    match d {
        DirectiveModel::SearchPath(p) => "cargo:rustc-link-search=native="@ + p,
        DirectiveModel::LinkLib(LinkageKind::Static, l) => "cargo:rustc-link-lib=static="@ + l,
        DirectiveModel::LinkLib(LinkageKind::Dynamic, l) => "cargo:rustc-link-lib=dylib="@ + l,
    }
}

/// Renders one directive as its protocol line.
pub fn directive_line(d: &Directive) -> (r: String)
    ensures
        r@ == line_spec(d@),
{
    match d {
        Directive::SearchPath(p) => concat_str("cargo:rustc-link-search=native=", p.as_str()),
        Directive::LinkLib(LinkageKind::Static, l) => concat_str(
            "cargo:rustc-link-lib=static=",
            l.as_str(),
        ),
        Directive::LinkLib(LinkageKind::Dynamic, l) => concat_str(
            "cargo:rustc-link-lib=dylib=",
            l.as_str(),
        ),
    }
}

/// Renders a directive list as protocol lines, one per directive, in order.
pub fn emit_lines(ds: &Vec<Directive>) -> (r: Vec<String>)
    ensures
        views(r@).len() == ds@.len(),
        forall|k: int| 0 <= k < ds@.len() ==> views(r@)[k] == line_spec(ds@[k]@),
{
    let mut r: Vec<String> = Vec::new();
    let mut i: usize = 0;
    while i < ds.len()
        invariant
            i <= ds@.len(),
            r@.len() == i,
            forall|k: int| 0 <= k < i ==> #[trigger] r@[k]@ == line_spec(ds@[k]@),
        decreases ds@.len() - i,
    {
        r.push(directive_line(&ds[i]));
        i += 1;
    }
    r
}

} // verus!
