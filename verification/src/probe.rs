//! Artifact and metadata probing: turns the raw answer of the package
//! metadata query — link-search paths and library tokens — into the
//! deduplicated search-path and library sets that directive emission works
//! on, substituting unresolved template placeholders and always adding the
//! conventional fallback library directories. Also holds the directory-scan
//! strategy that reads library names off a directory listing. Reading the
//! filesystem and running the query tool are the unverified driver's work;
//! this module only computes on the values it hands over.

use vstd::prelude::*;

use crate::emit::{listing_paths, listing_paths_vec, listing_views, DirListing, DirModel};
use crate::strutil::{
    append_strings, concat_str, contains_char, dedup_seq, dedup_strings, ext_split, find_first,
    join_path, replace_all, replace_all_str, split_extension, str_eq, views,
};

verus! {

/// A token of the metadata query's library list is path-like when it holds a
/// path separator; such tokens are promoted to link-search paths rather than
/// library names.
pub open spec fn is_path_token(t: Seq<char>) -> bool {
    t.contains('/') || t.contains('\\')
}

/// The library name a token carries: the part after the first `=` of an
/// embedded `kind=name` pair, or the plain token.
pub open spec fn lib_name_of_token(t: Seq<char>) -> Seq<char> {
    match t.index_of_first('=') {
        Some(i) => t.skip(i + 1),
        None => t,
    }
}

/// The search paths promoted out of a token list, in order.
pub open spec fn token_paths(tokens: Seq<Seq<char>>) -> Seq<Seq<char>>
    decreases tokens.len(),
{
    if tokens.len() == 0 {
        Seq::empty()
    } else {
        let prev = token_paths(tokens.drop_last());
        if is_path_token(tokens.last()) {
            prev.push(tokens.last())
        } else {
            prev
        }
    }
}

/// The library names of a token list, in order.
pub open spec fn token_libs(tokens: Seq<Seq<char>>) -> Seq<Seq<char>>
    decreases tokens.len(),
{
    if tokens.len() == 0 {
        Seq::empty()
    } else {
        let prev = token_libs(tokens.drop_last());
        if is_path_token(tokens.last()) {
            prev
        } else {
            prev.push(lib_name_of_token(tokens.last()))
        }
    }
}

/// Splits the raw library tokens of a metadata query into promoted search
/// paths and library names; both forms of token are handled.
pub fn classify_tokens(tokens: &Vec<String>) -> (r: (Vec<String>, Vec<String>))
    ensures
        views(r.0@) == token_paths(views(tokens@)),
        views(r.1@) == token_libs(views(tokens@)),
{
    let mut paths: Vec<String> = Vec::new();
    let mut libs: Vec<String> = Vec::new();
    let mut i: usize = 0;
    proof {
        assert(views(tokens@).take(0) =~= Seq::<Seq<char>>::empty());
        assert(views(paths@) =~= Seq::<Seq<char>>::empty());
        assert(views(libs@) =~= Seq::<Seq<char>>::empty());
    }
    while i < tokens.len()
        invariant
            i <= tokens@.len(),
            views(paths@) == token_paths(views(tokens@).take(i as int)),
            views(libs@) == token_libs(views(tokens@).take(i as int)),
        decreases tokens@.len() - i,
    {
        let ghost pre = views(tokens@).take(i as int);
        let t = &tokens[i];
        let ghost old_paths = views(paths@);
        let ghost old_libs = views(libs@);
        let path_like = contains_char(t.as_str(), '/') || contains_char(t.as_str(), '\\');
        if path_like {
            paths.push(t.clone());
            proof {
                assert(views(paths@) =~= old_paths.push(t@));
            }
        } else {
            let n = t.as_str().unicode_len();
            let name = match find_first(t.as_str(), '=') {
                Some(j) => {
                    proof {
                        t@.index_of_first_ensures('=');
                    }
                    let after = t.as_str().substring_char(j + 1, n).to_owned();
                    proof {
                        assert(after@ =~= t@.skip(j + 1));
                    }
                    after
                },
                None => t.clone(),
            };
            assert(name@ == lib_name_of_token(t@));
            libs.push(name);
            proof {
                assert(views(libs@) =~= old_libs.push(lib_name_of_token(t@)));
            }
        }
        proof {
            assert(views(tokens@).take(i + 1).drop_last() =~= pre);
            assert(views(tokens@).take(i + 1).last() == t@);
        }
        i += 1;
    }
    proof {
        assert(views(tokens@).take(tokens@.len() as int) =~= views(tokens@));
    }
    (paths, libs)
}

/// A reported path with the install-prefix placeholder replaced by the
/// install prefix and the library-directory placeholder by the
/// profile-specific library directory under it.
pub open spec fn substitute_spec(p: Seq<char>, prefix: Seq<char>, lib_subdir: Seq<char>) -> Seq<
    char,
> {
    replace_all(
        replace_all(p, "${prefix}"@, prefix),
        "${libdir}"@,
        prefix + "/"@ + lib_subdir,
    )
}

/// Substitutes the unresolved template placeholders of a reported path.
pub fn substitute_placeholders(path: &str, install_prefix: &str, lib_subdir: &str) -> (r: String)
    ensures
        r@ == substitute_spec(path@, install_prefix@, lib_subdir@),
{
    proof {
        reveal_strlit("${prefix}");
        reveal_strlit("${libdir}");
    }
    let libdir = join_path(install_prefix, lib_subdir);
    let step = replace_all_str(path, "${prefix}", install_prefix);
    replace_all_str(step.as_str(), "${libdir}", libdir.as_str())
}

/// The two conventional fallback library directories under the install
/// prefix: the default subtree and the debug subtree.
pub open spec fn fallback_dirs_spec(prefix: Seq<char>) -> Seq<Seq<char>> {
    seq![prefix + "/lib"@, prefix + "/debug/lib"@]
}

/// The conventional fallback library directories. They are always added to
/// the search-path set, whatever the probe strategy, because the metadata
/// tool's reported paths and the actual artifact location may disagree.
pub fn fallback_lib_dirs(install_prefix: &str) -> (r: Vec<String>)
    ensures
        views(r@) == fallback_dirs_spec(install_prefix@),
{
    let mut r: Vec<String> = Vec::new();
    r.push(concat_str(install_prefix, "/lib"));
    r.push(concat_str(install_prefix, "/debug/lib"));
    proof {
        assert(views(r@) =~= fallback_dirs_spec(install_prefix@));
    }
    r
}

/// The fully assembled search-path set for a probe answer: every reported
/// path with placeholders substituted, then the fallback directories, the
/// whole deduplicated in first-occurrence order.
pub open spec fn assembled_paths_spec(
    probe_paths: Seq<Seq<char>>,
    prefix: Seq<char>,
    lib_subdir: Seq<char>,
) -> Seq<Seq<char>> {
    dedup_seq(
        probe_paths.map_values(|p: Seq<char>| substitute_spec(p, prefix, lib_subdir))
            + fallback_dirs_spec(prefix),
    )
}

/// Assembles the deduplicated search-path set from the reported paths.
pub fn assemble_search_paths(
    probe_paths: &Vec<String>,
    install_prefix: &str,
    lib_subdir: &str,
) -> (r: Vec<String>)
    ensures
        views(r@) == assembled_paths_spec(views(probe_paths@), install_prefix@, lib_subdir@),
{
    let mut all: Vec<String> = Vec::new();
    let mut i: usize = 0;
    while i < probe_paths.len()
        invariant
            i <= probe_paths@.len(),
            all@.len() == i,
            forall|k: int|
                0 <= k < i ==> #[trigger] all@[k]@ == substitute_spec(
                    probe_paths@[k]@,
                    install_prefix@,
                    lib_subdir@,
                ),
        decreases probe_paths@.len() - i,
    {
        let s = substitute_placeholders(probe_paths[i].as_str(), install_prefix, lib_subdir);
        all.push(s);
        i += 1;
    }
    proof {
        assert forall|k: int| 0 <= k < all@.len() implies views(all@)[k] == views(
            probe_paths@,
        ).map_values(|p: Seq<char>| substitute_spec(p, install_prefix@, lib_subdir@))[k] by {
            assert(views(all@)[k] == all@[k]@);
            assert(views(probe_paths@)[k] == probe_paths@[k]@);
        }
        assert(views(all@) =~= views(probe_paths@).map_values(
            |p: Seq<char>| substitute_spec(p, install_prefix@, lib_subdir@),
        ));
    }
    let ghost substituted = views(all@);
    let fallback = fallback_lib_dirs(install_prefix);
    append_strings(&mut all, &fallback);
    proof {
        assert(views(all@) == substituted + fallback_dirs_spec(install_prefix@));
    }
    dedup_strings(&all)
}

/// What directive emission consumes: the deduplicated search paths and
/// library names discovered for one run.
#[derive(Clone, Debug)]
pub struct ProbeResult {
    pub search_paths: Vec<String>,
    pub libraries: Vec<String>,
}

/// Normalises a metadata query's raw answer: reported search paths and
/// promoted path-like tokens are substituted, extended by the fallback
/// directories and deduplicated; the remaining tokens become the
/// deduplicated library-name set.
pub fn probe_outputs(
    link_paths: &Vec<String>,
    lib_tokens: &Vec<String>,
    install_prefix: &str,
    lib_subdir: &str,
) -> (r: ProbeResult)
    ensures
        views(r.search_paths@) == assembled_paths_spec(
            views(link_paths@) + token_paths(views(lib_tokens@)),
            install_prefix@,
            lib_subdir@,
        ),
        views(r.libraries@) == dedup_seq(token_libs(views(lib_tokens@))),
{
    let (promoted, libs) = classify_tokens(lib_tokens);
    let mut all_paths: Vec<String> = Vec::new();
    append_strings(&mut all_paths, link_paths);
    proof {
        assert(views(all_paths@) =~= views(link_paths@));
    }
    append_strings(&mut all_paths, &promoted);
    let search_paths = assemble_search_paths(&all_paths, install_prefix, lib_subdir);
    let libraries = dedup_strings(&libs);
    ProbeResult { search_paths, libraries }
}

/// The library names a directory-scan probe reads off a listing: every file
/// whose extension marks a static or import library, by its stem.
pub open spec fn scan_libs_spec(names: Seq<Seq<char>>) -> Seq<Seq<char>>
    decreases names.len(),
{
    if names.len() == 0 {
        Seq::empty()
    } else {
        let prev = scan_libs_spec(names.drop_last());
        match ext_split(names.last()) {
            Some(se) => if se.1 == "lib"@ || se.1 == "a"@ {
                prev.push(se.0)
            } else {
                prev
            },
            None => prev,
        }
    }
}

/// Directory-scan probing: reduces a directory listing to the discovered
/// library names. A directory that does not exist hands in an empty listing
/// and so degrades to an empty result, which is not an error.
pub fn scan_libraries(file_names: &Vec<String>) -> (r: Vec<String>)
    ensures
        views(r@) == scan_libs_spec(views(file_names@)),
{
    let mut r: Vec<String> = Vec::new();
    let mut i: usize = 0;
    proof {
        assert(views(r@) =~= scan_libs_spec(views(file_names@).take(0)));
    }
    while i < file_names.len()
        invariant
            i <= file_names@.len(),
            views(r@) == scan_libs_spec(views(file_names@).take(i as int)),
        decreases file_names@.len() - i,
    {
        let ghost pre = views(file_names@).take(i as int);
        let ghost old_r = views(r@);
        match split_extension(file_names[i].as_str()) {
            Some(se) => {
                if str_eq(se.1.as_str(), "lib") || str_eq(se.1.as_str(), "a") {
                    r.push(se.0);
                    proof {
                        assert(views(r@) =~= old_r.push(ext_split(file_names@[i as int]@)->Some_0.0));
                    }
                }
            },
            None => {},
        }
        proof {
            assert(views(file_names@).take(i + 1).drop_last() =~= pre);
            assert(views(file_names@).take(i + 1).last() == file_names@[i as int]@);
        }
        i += 1;
    }
    proof {
        assert(views(file_names@).take(file_names@.len() as int) =~= views(file_names@));
    }
    r
}

/// The library names the directory-scan strategy reads off the listings,
/// directory by directory.
pub open spec fn scanned_libs(dirs: Seq<DirModel>) -> Seq<Seq<char>>
    decreases dirs.len(),
{
    if dirs.len() == 0 {
        Seq::empty()
    } else {
        scanned_libs(dirs.drop_last()) + scan_libs_spec(dirs.last().files)
    }
}

/// Directory-scan probing behind the probe interface: the scanned
/// directories themselves, plus the conventional fallback directories,
/// become the search-path set, and the archives found in the listings the
/// library set, both deduplicated. Missing directories hand in empty
/// listings and degrade to an empty library set, which is not an error.
pub fn scan_outputs(lib_dirs: &Vec<DirListing>, install_prefix: &str) -> (r: ProbeResult)
    ensures
        views(r.search_paths@) == dedup_seq(
            listing_paths(listing_views(lib_dirs@)) + fallback_dirs_spec(install_prefix@),
        ),
        views(r.libraries@) == dedup_seq(scanned_libs(listing_views(lib_dirs@))),
{
    let mut paths = listing_paths_vec(lib_dirs);
    let fallback = fallback_lib_dirs(install_prefix);
    append_strings(&mut paths, &fallback);
    let search_paths = dedup_strings(&paths);
    let mut libs: Vec<String> = Vec::new();
    let mut i: usize = 0;
    proof {
        assert(listing_views(lib_dirs@).take(0) =~= Seq::<DirModel>::empty());
        assert(views(libs@) =~= Seq::<Seq<char>>::empty());
    }
    while i < lib_dirs.len()
        invariant
            i <= lib_dirs@.len(),
            views(libs@) == scanned_libs(listing_views(lib_dirs@).take(i as int)),
        decreases lib_dirs@.len() - i,
    {
        let ghost pre = listing_views(lib_dirs@).take(i as int);
        let ghost old_libs = views(libs@);
        let found = scan_libraries(&lib_dirs[i].files);
        append_strings(&mut libs, &found);
        proof {
            assert(views(libs@) == old_libs + views(found@));
            assert(listing_views(lib_dirs@).take(i + 1).drop_last() =~= pre);
            assert(listing_views(lib_dirs@).take(i + 1).last() == lib_dirs@[i as int]@);
        }
        i += 1;
    }
    proof {
        assert(listing_views(lib_dirs@).take(lib_dirs@.len() as int) =~= listing_views(lib_dirs@));
    }
    let libraries = dedup_strings(&libs);
    ProbeResult { search_paths, libraries }
}

} // verus!
