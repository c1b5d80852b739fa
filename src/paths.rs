//! Locating the project and the migration store, and relating paths.
//!
//! Paths are held as text. What a path means is the platform's business: the
//! standard library's `Path` answers those questions, behind small wrappers.
use std::path::Path;
use vstd::prelude::*;
use crate::error::Error;
use crate::text::text_eq;

verus! {

/// The path itself followed by its successive parents, as `Path::ancestors` gives them.
pub uninterp spec fn ancestors_of(p: Seq<char>) -> Seq<Seq<char>>;

/// `part` joined onto `base`, as `Path::join` gives it.
pub uninterp spec fn joined_path(base: Seq<char>, part: Seq<char>) -> Seq<char>;

/// Whether a path is relative, as `Path::is_relative` tells.
pub uninterp spec fn relative_path(p: Seq<char>) -> bool;

/// The components of a path as text, as `Path::components` gives them.
pub uninterp spec fn components_of(p: Seq<char>) -> Seq<Seq<char>>;

/// The path that components make when collected into a `PathBuf`.
pub uninterp spec fn path_of_components(parts: Seq<Seq<char>>) -> Seq<char>;

/// Relies on `Path::ancestors`, whose first item is the path itself; the
/// others are its successive parents.
#[verifier::external_body]
fn path_ancestors(p: &str) -> (r: Vec<String>)
    ensures
        texts(r@) == ancestors_of(p@),
        r@.len() >= 1,
        r@[0]@ == p@,
{
    Path::new(p).ancestors().map(|a| a.to_string_lossy().into_owned()).collect()
}

/// Relies on `Path::join`.
#[verifier::external_body]
fn path_join(base: &str, part: &str) -> (r: String)
    ensures
        r@ == joined_path(base@, part@),
{
    Path::new(base).join(part).to_string_lossy().into_owned()
}

/// Relies on `Path::is_file`: whether a regular file is found there now.
#[verifier::external_body]
fn path_is_file(p: &str) -> bool {
    Path::new(p).is_file()
}

/// Relies on `Path::is_relative`.
#[verifier::external_body]
fn path_is_relative(p: &str) -> (r: bool)
    ensures
        r == relative_path(p@),
{
    Path::new(p).is_relative()
}

/// Relies on `Path::components`: each component as text.
#[verifier::external_body]
fn path_components(p: &str) -> (r: Vec<String>)
    ensures
        texts(r@) == components_of(p@),
{
    Path::new(p).components().map(|c| c.as_os_str().to_string_lossy().into_owned()).collect()
}

/// Relies on collecting components into a `PathBuf`.
#[verifier::external_body]
fn path_from_components(parts: &Vec<String>) -> (r: String)
    ensures
        r@ == path_of_components(texts(parts@)),
{
    parts.iter().collect::<std::path::PathBuf>().to_string_lossy().into_owned()
}

/// Relies on `dunce::canonicalize`: the resolved path, if the file system can resolve it.
#[verifier::external_body]
fn canonicalized(p: &str) -> Option<String> {
    dunce::canonicalize(p).ok().map(|c| c.to_string_lossy().into_owned())
}

/// The first of `dirs` whose probe in `found` succeeded; probes and
/// directories pair up by index. Without one, the project root is not found
/// from `path`.
pub fn first_directory_with_file(path: &str, dirs: &Vec<String>, found: &Vec<bool>) -> (r: Result<String, Error>)
    ensures
        r is Ok <==> exists|i: int| 0 <= i < found@.len() && i < dirs@.len() && found@[i],
        r matches Ok(d) ==> exists|i: int|
            0 <= i < found@.len() && i < dirs@.len() && found@[i] && d == dirs@[i] && forall|k: int|
                0 <= k < i ==> !found@[k],
        r matches Err(e) ==> e matches Error::ProjectRootNotFound(p) && p@ == path@,
{
    let mut i: usize = 0;
    while i < found.len() && i < dirs.len()
        invariant
            i <= found@.len(),
            i <= dirs@.len(),
            forall|k: int| 0 <= k < i ==> !found@[k],
        decreases found.len() - i,
    {
        if found[i] {
            return Ok(dirs[i].clone());
        }
        i = i + 1;
    }
    Err(Error::ProjectRootNotFound(path.to_owned()))
}

/// Where the marker file would be in `path` and in each of its ancestors, nearest first.
pub open spec fn candidates_of(path: Seq<char>, file: Seq<char>) -> Seq<Seq<char>> {
    ancestors_of(path).map_values(|a: Seq<char>| joined_path(a, file))
}

/// The places to probe for the marker `file`: `file` joined onto `path` and
/// onto each of its ancestors, nearest first.
pub fn marker_candidates(path: &str, file: &str) -> (r: Vec<String>)
    ensures
        texts(r@) == candidates_of(path@, file@),
{
    let dirs = path_ancestors(path);
    let mut r: Vec<String> = Vec::new();
    let mut i: usize = 0;
    while i < dirs.len()
        invariant
            i <= dirs@.len(),
            texts(dirs@) == ancestors_of(path@),
            texts(r@) == candidates_of(path@, file@).subrange(0, i as int),
        decreases dirs.len() - i,
    {
        let c = path_join(dirs[i].as_str(), file);
        let ghost before = r@;
        r.push(c);
        assert(texts(dirs@)[i as int] == dirs@[i as int]@);
        assert(texts(r@) =~= texts(before).push(c@));
        assert(texts(r@) =~= candidates_of(path@, file@).subrange(0, i + 1));
        i = i + 1;
    }
    assert(candidates_of(path@, file@).subrange(0, i as int) =~= candidates_of(path@, file@));
    r
}

/// Searches `path` and then each of its ancestors, nearest first, for a
/// directory that holds a file named `file`, and returns that directory. The
/// places probed are `marker_candidates(path, file)`, in order; the search
/// stops at the first one where the file is found, and the choice is made by
/// `first_directory_with_file` from the probe results.
pub fn search_for_directory_containing_file(path: &str, file: &str) -> (r: Result<String, Error>)
    ensures
        r matches Ok(d) ==> exists|i: int| 0 <= i < ancestors_of(path@).len() && d@ == ancestors_of(path@)[i],
        r matches Err(e) ==> e matches Error::ProjectRootNotFound(p) && p@ == path@,
{
    let dirs = path_ancestors(path);
    let candidates = marker_candidates(path, file);
    let mut found: Vec<bool> = Vec::new();
    let mut hit = false;
    while found.len() < candidates.len() && !hit
        invariant
            found@.len() <= candidates@.len(),
        decreases candidates.len() - found.len(),
    {
        hit = path_is_file(candidates[found.len()].as_str());
        found.push(hit);
    }
    let r = first_directory_with_file(path, &dirs, &found);
    proof {
        if r is Ok {
            let i = choose|i: int| 0 <= i < found@.len() && i < dirs@.len() && found@[i] && r->Ok_0 == dirs@[i];
            assert(texts(dirs@)[i] == dirs@[i]@);
        }
    }
    r
}

/// The migration store's location as given in the configuration file.
pub struct MigrationsDirectory {
    pub dir: String,
}

impl MigrationsDirectory {
    /// Resolves a relative `dir` against `base`, the configuration file's directory.
    pub fn set_relative_path_base(&mut self, base: &str)
        ensures
            relative_path(old(self).dir@) ==> final(self).dir@ == joined_path(base@, old(self).dir@),
            !relative_path(old(self).dir@) ==> final(self).dir@ == old(self).dir@,
    {
        if path_is_relative(self.dir.as_str()) {
            self.dir = path_join(base, self.dir.as_str());
        }
    }
}

/// Where the migration store is, by precedence: the explicit path, then the
/// environment's value, then the configured directory. `None` leaves the
/// search for a project marker to the caller.
pub fn choose_migrations_dir(explicit: Option<String>, from_env: Option<String>, configured: Option<String>) -> (r:
    Option<String>)
    ensures
        r == if explicit is Some {
            explicit
        } else if from_env is Some {
            from_env
        } else {
            configured
        },
{
    match explicit {
        Some(d) => Some(d),
        None => match from_env {
            Some(d) => Some(d),
            None => configured,
        },
    }
}

/// The text of a current-directory component.
pub open spec fn cur_dir() -> Seq<char> {
    seq!['.']
}

/// The text of a parent-directory component.
pub open spec fn parent_dir() -> Seq<char> {
    seq!['.', '.']
}

/// `n` parent-directory components.
pub open spec fn parents(n: nat) -> Seq<Seq<char>>
    decreases n,
{
    if n == 0 {
        Seq::empty()
    } else {
        parents((n - 1) as nat).push(parent_dir())
    }
}

/// The components of `target` relative to `current`, both given as
/// components: the common leading components are dropped, each remaining
/// component of `current` becomes a parent step, and a current-directory
/// component of `current` lets the matching target component through.
pub open spec fn relative_parts(t: Seq<Seq<char>>, c: Seq<Seq<char>>, acc: Seq<Seq<char>>) -> Seq<Seq<char>>
    decreases t.len() + c.len(),
{
    if t.len() == 0 && c.len() == 0 {
        acc
    } else if c.len() == 0 {
        acc + t
    } else if t.len() == 0 {
        relative_parts(t, c.drop_first(), acc.push(parent_dir()))
    } else if acc.len() == 0 && t[0] == c[0] {
        relative_parts(t.drop_first(), c.drop_first(), acc)
    } else if c[0] == cur_dir() {
        relative_parts(t.drop_first(), c.drop_first(), acc.push(t[0]))
    } else {
        acc + parents(c.len()) + t
    }
}

/// The views of a sequence of strings.
pub open spec fn texts(s: Seq<String>) -> Seq<Seq<char>> {
    s.map_values(|x: String| x@)
}

fn parent_text() -> (r: String)
    ensures
        r@ == parent_dir(),
{
    let p = "..";
    proof {
        reveal_strlit("..");
    }
    assert(p@ =~= parent_dir());
    p.to_owned()
}

fn is_cur_dir(s: &str) -> (r: bool)
    ensures
        r == (s@ == cur_dir()),
{
    let d = ".";
    proof {
        reveal_strlit(".");
    }
    assert(d@ =~= cur_dir());
    text_eq(s, d)
}

/// Computes `relative_parts(t, c, [])` over component texts.
pub fn relative_components(t: &Vec<String>, c: &Vec<String>) -> (r: Vec<String>)
    ensures
        texts(r@) == relative_parts(texts(t@), texts(c@), Seq::empty()),
{
    let mut acc: Vec<String> = Vec::new();
    let mut ti: usize = 0;
    let mut ci: usize = 0;
    assert(texts(t@).skip(0) =~= texts(t@));
    assert(texts(c@).skip(0) =~= texts(c@));
    assert(texts(acc@) =~= Seq::<Seq<char>>::empty());
    while ti < t.len() || ci < c.len()
        invariant
            ti <= t@.len(),
            ci <= c@.len(),
            relative_parts(texts(t@), texts(c@), Seq::empty()) == relative_parts(
                texts(t@).skip(ti as int),
                texts(c@).skip(ci as int),
                texts(acc@),
            ),
        decreases t.len() + c.len() - ti - ci,
    {
        let ghost ts = texts(t@).skip(ti as int);
        let ghost cs = texts(c@).skip(ci as int);
        let ghost a = texts(acc@);
        if ci == c.len() {
            let mut k: usize = ti;
            while k < t.len()
                invariant
                    ti <= k <= t@.len(),
                    texts(acc@) == a + texts(t@).subrange(ti as int, k as int),
                decreases t.len() - k,
            {
                let ghost before = acc@;
                acc.push(t[k].clone());
                assert(texts(acc@) =~= texts(before).push(t@[k as int]@));
                assert(texts(acc@) =~= a + texts(t@).subrange(ti as int, k + 1));
                k = k + 1;
            }
            assert(cs.len() == 0);
            assert(texts(t@).subrange(ti as int, t@.len() as int) =~= ts);
            return acc;
        }
        if ti == t.len() {
            let ghost before = acc@;
            acc.push(parent_text());
            assert(texts(acc@) =~= texts(before).push(parent_dir()));
            assert(texts(c@).skip(ci + 1) =~= cs.drop_first());
            ci = ci + 1;
        } else if acc.len() == 0 && text_eq(t[ti].as_str(), c[ci].as_str()) {
            assert(texts(acc@) =~= Seq::<Seq<char>>::empty());
            assert(texts(t@).skip(ti + 1) =~= ts.drop_first());
            assert(texts(c@).skip(ci + 1) =~= cs.drop_first());
            ti = ti + 1;
            ci = ci + 1;
        } else if is_cur_dir(c[ci].as_str()) {
            proof {
                if acc@.len() == 0 {
                    assert(texts(acc@) =~= Seq::<Seq<char>>::empty());
                }
            }
            let ghost before = acc@;
            acc.push(t[ti].clone());
            assert(texts(acc@) =~= texts(before).push(t@[ti as int]@));
            assert(texts(t@).skip(ti + 1) =~= ts.drop_first());
            assert(texts(c@).skip(ci + 1) =~= cs.drop_first());
            ti = ti + 1;
            ci = ci + 1;
        } else {
            proof {
                if acc@.len() == 0 {
                    assert(texts(acc@) =~= Seq::<Seq<char>>::empty());
                }
            }
            let mut k: usize = ci;
            while k < c.len()
                invariant
                    ci <= k <= c@.len(),
                    texts(acc@) == a + parents((k - ci) as nat),
                decreases c.len() - k,
            {
                let ghost before = acc@;
                acc.push(parent_text());
                assert(texts(acc@) =~= texts(before).push(parent_dir()));
                assert(parents((k + 1 - ci) as nat) == parents((k - ci) as nat).push(parent_dir()));
                assert(texts(acc@) =~= a + parents((k + 1 - ci) as nat));
                k = k + 1;
            }
            assert(cs.len() == c@.len() - ci);
            let mut m: usize = ti;
            while m < t.len()
                invariant
                    ti <= m <= t@.len(),
                    texts(acc@) == a + parents(cs.len()) + texts(t@).subrange(ti as int, m as int),
                decreases t.len() - m,
            {
                let ghost before = acc@;
                acc.push(t[m].clone());
                assert(texts(acc@) =~= texts(before).push(t@[m as int]@));
                assert(texts(acc@) =~= a + parents(cs.len()) + texts(t@).subrange(ti as int, m + 1));
                m = m + 1;
            }
            assert(texts(t@).subrange(ti as int, t@.len() as int) =~= ts);
            return acc;
        }
    }
    assert(texts(t@).skip(ti as int) =~= Seq::<Seq<char>>::empty());
    assert(texts(c@).skip(ci as int) =~= Seq::<Seq<char>>::empty());
    acc
}

/// The path of `target` relative to `current`, computed over their components.
pub fn relative_path_between(target: &str, current: &str) -> (r: String)
    ensures
        r@ == path_of_components(relative_parts(components_of(target@), components_of(current@), Seq::empty())),
{
    let t = path_components(target);
    let c = path_components(current);
    let parts = relative_components(&t, &c);
    path_from_components(&parts)
}

/// Expresses `target_path` relative to `current_path`, after resolving both
/// where the file system can; a path that cannot be resolved is used as given.
pub fn convert_absolute_path_to_relative(target_path: &str, current_path: &str) -> (r: String)
    ensures
        exists|t: Seq<char>, c: Seq<char>|
            r@ == path_of_components(relative_parts(components_of(t), components_of(c), Seq::empty())),
{
    let abs_target = match canonicalized(target_path) {
        Some(p) => p,
        None => target_path.to_owned(),
    };
    let abs_current = match canonicalized(current_path) {
        Some(p) => p,
        None => current_path.to_owned(),
    };
    relative_path_between(abs_target.as_str(), abs_current.as_str())
}

} // verus!
