//! Workspace location: derives the project root a fixed number of
//! parent-directory steps above the working directory, and walks a scratch
//! directory's ancestors to find the profile-named output directory. Both
//! work on plain path strings with `/` or `\` as separators; reading the
//! working directory itself is the unverified driver's work.

use vstd::prelude::*;

use crate::strutil::str_eq;

verus! {

/// Whether a character separates path components.
pub open spec fn is_sep(c: char) -> bool {
    c == '/' || c == '\\'
}

/// The index of the last separator of a path, or a negative value when it
/// has none.
pub open spec fn last_sep(s: Seq<char>) -> int
    decreases s.len(),
{
    if s.len() == 0 {
        -1
    } else if is_sep(s.last()) {
        s.len() - 1
    } else {
        last_sep(s.drop_last())
    }
}

/// Where `last_sep` points: at the last separator, past every later
/// character; or nowhere when the path has no separator.
pub proof fn lemma_last_sep(s: Seq<char>)
    ensures
        last_sep(s) >= -1,
        last_sep(s) < 0 ==> forall|j: int| 0 <= j < s.len() ==> !is_sep(s[j]),
        last_sep(s) >= 0 ==> last_sep(s) < s.len() && is_sep(s[last_sep(s)]) && (forall|j: int|
            last_sep(s) < j < s.len() ==> !is_sep(s[j])),
    decreases s.len(),
{
    if s.len() > 0 && !is_sep(s.last()) {
        lemma_last_sep(s.drop_last());
        assert(s[s.len() - 1] == s.last());
        assert forall|j: int| 0 <= j < s.len() - 1 implies s.drop_last()[j] == s[j] by {}
    }
}

/// The parent directory of a path: the path up to its last separator, the
/// lone leading separator when that is all that is left, and nothing for a
/// path without separators or for a bare root.
pub open spec fn parent_spec(s: Seq<char>) -> Option<Seq<char>> {
    let i = last_sep(s);
    if i < 0 {
        None
    } else if i == 0 {
        if s.len() == 1 {
            None
        } else {
            Some(s.take(1))
        }
    } else {
        Some(s.take(i))
    }
}

/// The index of the last separator, if any.
fn find_last_sep(path: &str) -> (r: Option<usize>)
    ensures
        match r {
            Some(i) => i == last_sep(path@),
            None => last_sep(path@) < 0,
        },
{
    let n = path.unicode_len();
    let mut best: Option<usize> = None;
    let mut i: usize = 0;
    while i < n
        invariant
            n == path@.len(),
            i <= n,
            match best {
                Some(k) => k < i && is_sep(path@[k as int]) && (forall|j: int|
                    k < j < i ==> !is_sep(path@[j])),
                None => forall|j: int| 0 <= j < i ==> !is_sep(path@[j]),
            },
        decreases n - i,
    {
        let c = path.get_char(i);
        if c == '/' || c == '\\' {
            best = Some(i);
        }
        i += 1;
    }
    proof {
        lemma_last_sep(path@);
    }
    best
}

/// The parent directory of a path, by the separator convention.
pub fn parent_dir(path: &str) -> (r: Option<String>)
    ensures
        match r {
            Some(p) => parent_spec(path@) == Some(p@),
            None => parent_spec(path@) is None,
        },
{
    let n = path.unicode_len();
    proof {
        lemma_last_sep(path@);
    }
    match find_last_sep(path) {
        None => None,
        Some(i) => {
            if i == 0 {
                if n == 1 {
                    None
                } else {
                    let root = path.substring_char(0, 1).to_owned();
                    proof {
                        assert(root@ =~= path@.take(1));
                    }
                    Some(root)
                }
            } else {
                let p = path.substring_char(0, i).to_owned();
                proof {
                    assert(p@ =~= path@.take(i as int));
                }
                Some(p)
            }
        },
    }
}

/// The project root: a fixed two parent-directory steps above the working
/// directory. A working directory without that many ancestors has no root:
/// the invocation environment is malformed and the driver aborts.
pub open spec fn workspace_root_spec(cwd: Seq<char>) -> Option<Seq<char>> {
    match parent_spec(cwd) {
        Some(p) => parent_spec(p),
        None => None,
    }
}

/// Locates the project root from the working directory.
pub fn workspace_root(cwd: &str) -> (r: Option<String>)
    ensures
        match r {
            Some(p) => workspace_root_spec(cwd@) == Some(p@),
            None => workspace_root_spec(cwd@) is None,
        },
{
    match parent_dir(cwd) {
        Some(p) => parent_dir(p.as_str()),
        None => None,
    }
}

/// The last path component: everything past the last separator, or the
/// whole path when it has none.
pub open spec fn last_component(s: Seq<char>) -> Seq<char> {
    s.skip(last_sep(s) + 1)
}

/// The nearest ancestor directory whose last component is the profile name:
/// where the host build places the compiled outputs for that profile.
pub open spec fn target_dir_spec(s: Seq<char>, profile: Seq<char>) -> Option<Seq<char>>
    decreases s.len(),
{
    match parent_spec(s) {
        None => None,
        Some(p) => if p.len() < s.len() {
            if last_component(p) == profile {
                Some(p)
            } else {
                target_dir_spec(p, profile)
            }
        } else {
            None
        },
    }
}

/// The last path component of a path.
fn last_component_str(path: &str) -> (r: String)
    ensures
        r@ == last_component(path@),
{
    let n = path.unicode_len();
    proof {
        lemma_last_sep(path@);
    }
    match find_last_sep(path) {
        None => {
            let r = path.to_owned();
            proof {
                assert(r@ =~= path@.skip(last_sep(path@) + 1));
            }
            r
        },
        Some(i) => {
            let r = path.substring_char(i + 1, n).to_owned();
            proof {
                assert(r@ =~= path@.skip(last_sep(path@) + 1));
            }
            r
        },
    }
}

/// Walks the ancestors of the scratch directory upward until one is named
/// after the profile; that ancestor is the host build's output directory.
pub fn find_target_dir(out_dir: &str, profile: &str) -> (r: Option<String>)
    ensures
        match r {
            Some(p) => target_dir_spec(out_dir@, profile@) == Some(p@),
            None => target_dir_spec(out_dir@, profile@) is None,
        },
{
    let mut cur: String = out_dir.to_owned();
    let ghost orig = out_dir@;
    loop
        invariant
            orig == out_dir@,
            target_dir_spec(orig, profile@) == target_dir_spec(cur@, profile@),
        decreases cur@.len(),
    {
        let next = match parent_dir(cur.as_str()) {
            None => {
                return None;
            },
            Some(p) => p,
        };
        proof {
            lemma_parent_shorter(cur@);
        }
        let name = last_component_str(next.as_str());
        if str_eq(name.as_str(), profile) {
            return Some(next);
        }
        cur = next;
    }
}

/// A parent path is shorter than the path itself.
proof fn lemma_parent_shorter(s: Seq<char>)
    ensures
        match parent_spec(s) {
            Some(p) => p.len() < s.len(),
            None => true,
        },
{
    lemma_last_sep(s);
}

} // verus!
