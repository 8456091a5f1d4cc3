//! Where a running program's files are: names resolved against the
//! program's folder and, in a classroom run, kept inside the student's
//! folder (no `..` or absolute path leads out of it).
use vstd::prelude::*;

use crate::paths::{
    comps_prefix, components, join_path, joined_path, lexical_normalize, normalized,
    path_components, starts_with_comps,
};
use crate::text::{push_str, str_chars};

verus! {

/// What `confine` answers for `path` in a run kept in the folder `root`
/// (none: a run free to go anywhere).
pub open spec fn confined(root: Option<Seq<char>>, path: Seq<char>) -> Result<Seq<char>, Seq<char>> {
    match root {
        None => Ok(path),
        Some(r) => {
            let full = normalized(path);
            if comps_prefix(components(full), components(r)) {
                Ok(full)
            } else {
                Err("caminho fora da pasta do aluno: "@ + full)
            }
        },
    }
}

/// `path` as a run kept in the folder `root` may use it: with `.` and `..`
/// worked out, and refused when it then lies outside `root`. A run with no
/// `root` uses `path` as it is.
pub fn confine(root: Option<&str>, path: &str) -> (r: Result<String, String>)
    ensures
        match confined(root.deep_view(), path@) {
            Ok(p) => r matches Ok(x) && x@ == p,
            Err(m) => r matches Err(x) && x@ == m,
        },
{
    match root {
        None => Ok(path.to_owned()),
        Some(rt) => {
            let full = lexical_normalize(path);
            let full_comps = path_components(full.as_str());
            let root_comps = path_components(rt);
            if !starts_with_comps(&full_comps, &root_comps) {
                let mut m = "caminho fora da pasta do aluno: ".to_owned();
                push_str(&mut m, full.as_str());
                return Err(m);
            }
            Ok(full)
        },
    }
}

/// `path` read against the folder `base` (an absolute path stays as it is).
pub open spec fn against(base: Seq<char>, path: Seq<char>) -> Seq<char> {
    if path.len() > 0 && path[0] == '/' {
        path
    } else {
        joined_path(base, path)
    }
}

fn path_against(base: &str, path: &str) -> (r: String)
    ensures
        r@ == against(base@, path@),
{
    let v = str_chars(path);
    if v.len() > 0 && v[0] == '/' {
        path.to_owned()
    } else {
        join_path(base, path)
    }
}

/// What `resolve_data_path` answers: the data file `path` of a program in
/// the folder `base`, confined to `root`.
pub open spec fn data_path(base: Seq<char>, root: Option<Seq<char>>, path: Seq<char>) -> Result<
    Seq<char>,
    Seq<char>,
> {
    confined(root, against(base, path))
}

/// The file a program in the folder `base` means by `path` (for
/// `leia_arquivo`, `salve_arquivo`, …), kept inside `root` when the run has
/// one.
pub fn resolve_data_path(base: &str, root: Option<&str>, path: &str) -> (r: Result<String, String>)
    ensures
        match data_path(base@, root.deep_view(), path@) {
            Ok(p) => r matches Ok(x) && x@ == p,
            Err(m) => r matches Err(x) && x@ == m,
        },
{
    let joined = path_against(base, path);
    confine(root, joined.as_str())
}

/// Name for the extension that `Path::extension` finds in `p` (none when
/// its file name has no `.` past the first character).
pub uninterp spec fn extension_of(p: Seq<char>) -> Option<Seq<char>>;

/// Calls `Path::extension`.
#[verifier::external_body]
fn path_extension(p: &str) -> (r: Option<String>)
    ensures
        r.deep_view() == extension_of(p@),
{
    match std::path::Path::new(p).extension() {
        Some(e) => Some(e.to_string_lossy().into_owned()),
        None => None,
    }
}

/// Name for the path `PathBuf::set_extension` makes of `p` with the
/// extension `ext`.
pub uninterp spec fn extension_set(p: Seq<char>, ext: Seq<char>) -> Seq<char>;

/// Calls `PathBuf::set_extension` on `p`. The standard library panics when
/// the extension holds a `/`, so that is ruled out.
#[verifier::external_body]
fn path_set_extension(p: &str, ext: &str) -> (r: String)
    requires
        !ext@.contains('/'),
    ensures
        r@ == extension_set(p@, ext@),
{
    let mut b = std::path::PathBuf::from(p);
    b.set_extension(ext);
    b.to_string_lossy().into_owned()
}

/// What `resolve_import_path` answers: the module named `spec`, given `.lep`
/// when it has no extension, read against the folder `base` and confined
/// to `root`.
pub open spec fn import_path(base: Seq<char>, root: Option<Seq<char>>, spec: Seq<char>) -> Result<
    Seq<char>,
    Seq<char>,
> {
    let p = if extension_of(spec) is Some {
        spec
    } else {
        extension_set(spec, "lep"@)
    };
    confined(root, against(base, p))
}

/// The file that `importe "spec"` loads for a program in the folder `base`:
/// `.lep` is added when `spec` has no extension, and the file is kept
/// inside `root` when the run has one.
pub fn resolve_import_path(base: &str, root: Option<&str>, spec: &str) -> (r: Result<
    String,
    String,
>)
    ensures
        match import_path(base@, root.deep_view(), spec@) {
            Ok(p) => r matches Ok(x) && x@ == p,
            Err(m) => r matches Err(x) && x@ == m,
        },
{
    let p = if path_extension(spec).is_some() {
        spec.to_owned()
    } else {
        let ext = "lep";
        proof {
            reveal_strlit("lep");
            assert(!ext@.contains('/')) by {
                if ext@.contains('/') {
                    let i = choose|i: int| 0 <= i < ext@.len() && ext@[i] == '/';
                    assert(ext@[i] != '/');
                }
            }
        }
        path_set_extension(spec, ext)
    };
    let joined = path_against(base, p.as_str());
    confine(root, joined.as_str())
}

/// Name for the path `Path::parent` gives of `p` (none for a root or an
/// empty path).
pub uninterp spec fn parent_of(p: Seq<char>) -> Option<Seq<char>>;

/// Calls `Path::parent`.
#[verifier::external_body]
fn path_parent(p: &str) -> (r: Option<String>)
    ensures
        r.deep_view() == parent_of(p@),
{
    match std::path::Path::new(p).parent() {
        Some(q) => Some(q.to_string_lossy().into_owned()),
        None => None,
    }
}

/// The folder of the program file `file`: its parent, or `.` when it has
/// none.
pub open spec fn base_dir_text(file: Seq<char>) -> Seq<char> {
    match parent_of(file) {
        Some(p) => if p.len() > 0 {
            p
        } else {
            "."@
        },
        None => "."@,
    }
}

/// The folder of the program file `file`, against which it names files.
pub fn base_dir_of(file: &str) -> (r: String)
    ensures
        r@ == base_dir_text(file@),
{
    match path_parent(file) {
        Some(p) => {
            if str_chars(p.as_str()).len() > 0 {
                p
            } else {
                ".".to_owned()
            }
        },
        None => ".".to_owned(),
    }
}

/// A run kept in a folder stays in it: every path it is let use lies inside
/// that folder (the folder's components begin the path's), whatever `..`
/// or absolute path it was given.
pub proof fn law_confined_paths_stay_inside(root: Seq<char>, path: Seq<char>)
    requires
        confined(Some(root), path) is Ok,
    ensures
        comps_prefix(components(confined(Some(root), path)->Ok_0), components(root)),
{
}

/// The files a kept run reads, writes or imports lie inside its folder.
pub proof fn law_run_files_stay_inside(base: Seq<char>, root: Seq<char>, path: Seq<char>)
    ensures
        data_path(base, Some(root), path) is Ok ==> comps_prefix(
            components(data_path(base, Some(root), path)->Ok_0),
            components(root),
        ),
        import_path(base, Some(root), path) is Ok ==> comps_prefix(
            components(import_path(base, Some(root), path)->Ok_0),
            components(root),
        ),
{
}

} // verus!
