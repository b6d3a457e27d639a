//! Finding the CLIs: the search path handed to child processes (the login
//! shell's PATH, the app's own, then the usual install folders, each folder
//! once) and the names a program may have. Reading the environment, running
//! the shell and looking at the disk are the caller's.

use vstd::prelude::*;

use crate::text::{chars_of, join, owned, split, split_vec, str_concat, str_eq, string_of, trim, trim_vec, starts_with, starts_with_exec};

verus! {

/// The PATH separator: `;` on Windows, `:` everywhere else.
pub open spec fn spec_path_sep(windows: bool) -> Seq<char> {
    if windows {
        ";"@
    } else {
        ":"@
    }
}

pub fn path_sep(windows: bool) -> (r: &'static str)
    ensures
        r@ == spec_path_sep(windows),
{
    if windows {
        ";"
    } else {
        ":"
    }
}

/// The folders of a PATH-style list not yet in `dirs`, trimmed and in order,
/// each once.
pub open spec fn add_dirs(dirs: Seq<Seq<char>>, parts: Seq<Seq<char>>) -> Seq<Seq<char>>
    decreases parts.len(),
{
    if parts.len() == 0 {
        dirs
    } else {
        let before = add_dirs(dirs, parts.drop_last());
        let d = trim(parts.last());
        if d.len() > 0 && !before.contains(d) {
            before.push(d)
        } else {
            before
        }
    }
}

fn listed(dirs: &Vec<String>, d: &str) -> (r: bool)
    ensures
        r == dirs.deep_view().contains(d@),
{
    let mut k: usize = 0;
    while k < dirs.len()
        invariant
            k <= dirs.len(),
            forall|j: int| 0 <= j < k ==> dirs.deep_view()[j] != d@,
        decreases dirs.len() - k,
    {
        assert(dirs.deep_view()[k as int] == dirs@[k as int]@);
        if str_eq(dirs[k].as_str(), d) {
            return true;
        }
        k = k + 1;
    }
    false
}

/// Adds the folders of `path` (separated by `sep`) to `dirs`.
pub fn push_split(dirs: &mut Vec<String>, path: &str, sep: &str)
    requires
        sep@.len() > 0,
    ensures
        final(dirs).deep_view() == add_dirs(old(dirs).deep_view(), split(path@, sep@)),
{
    let cs = chars_of(path);
    let sv = chars_of(sep);
    let parts = split_vec(cs.as_slice(), sv.as_slice());
    let ghost pv = parts.deep_view();
    let ghost start = dirs.deep_view();
    let mut k: usize = 0;
    assert(pv.take(0) =~= Seq::<Seq<char>>::empty());
    while k < parts.len()
        invariant
            k <= parts.len(),
            pv == parts.deep_view(),
            pv == split(path@, sep@),
            dirs.deep_view() == add_dirs(start, pv.take(k as int)),
        decreases parts.len() - k,
    {
        assert(pv.take(k + 1).drop_last() =~= pv.take(k as int));
        assert(pv.take(k + 1).last() == parts@[k as int]@);
        let t = trim_vec(parts[k].as_slice());
        let d = string_of(t.as_slice());
        if t.len() > 0 && !listed(dirs, d.as_str()) {
            let ghost before = dirs.deep_view();
            let ghost dv = d@;
            dirs.push(d);
            assert(dirs.deep_view() =~= before.push(dv));
        }
        k = k + 1;
    }
    assert(pv.take(k as int) =~= pv);
}

/// The search path for child processes: the login shell's PATH, then the
/// app's own, then the install folders the caller knows of; each folder
/// once, joined with the separator.
pub open spec fn spec_shell_path(
    login: Option<Seq<char>>,
    env_path: Option<Seq<char>>,
    known: Seq<Seq<char>>,
    windows: bool,
) -> Seq<char> {
    let sep = spec_path_sep(windows);
    let a = match login {
        Some(p) => add_dirs(Seq::empty(), split(p, sep)),
        None => Seq::empty(),
    };
    let b = match env_path {
        Some(p) => add_dirs(a, split(p, sep)),
        None => a,
    };
    join(add_known(b, known), sep)
}

/// The install folders not listed yet, in order (not trimmed).
pub open spec fn add_known(dirs: Seq<Seq<char>>, known: Seq<Seq<char>>) -> Seq<Seq<char>>
    decreases known.len(),
{
    if known.len() == 0 {
        dirs
    } else {
        let before = add_known(dirs, known.drop_last());
        if before.contains(known.last()) {
            before
        } else {
            before.push(known.last())
        }
    }
}

pub open spec fn opt_view(s: Option<&str>) -> Option<Seq<char>> {
    match s {
        Some(x) => Some(x@),
        None => None,
    }
}

/// What child processes are handed: the search path.
pub struct ShellEnv {
    pub path: String,
}

/// The environment for child processes, from the PATH the login shell
/// printed (`login`), the app's own PATH (`env_path`) and the install
/// folders the caller knows of.
pub fn shell_env(login: Option<&str>, env_path: Option<&str>, known: &[String], windows: bool) -> (r: ShellEnv)
    ensures
        r.path@ == spec_shell_path(opt_view(login), opt_view(env_path), known.deep_view(), windows),
{
    let sep = path_sep(windows);
    proof {
        reveal_strlit(";");
        reveal_strlit(":");
    }
    let mut dirs: Vec<String> = Vec::new();
    assert(dirs.deep_view() =~= Seq::<Seq<char>>::empty());
    match login {
        Some(p) => push_split(&mut dirs, p, sep),
        None => {},
    }
    match env_path {
        Some(p) => push_split(&mut dirs, p, sep),
        None => {},
    }
    let ghost b = dirs.deep_view();
    let ghost kv = known.deep_view();
    let mut k: usize = 0;
    assert(kv.take(0) =~= Seq::<Seq<char>>::empty());
    while k < known.len()
        invariant
            k <= known.len(),
            kv == known.deep_view(),
            dirs.deep_view() == add_known(b, kv.take(k as int)),
        decreases known.len() - k,
    {
        assert(kv.take(k + 1).drop_last() =~= kv.take(k as int));
        assert(kv.take(k + 1).last() == known@[k as int]@);
        if !listed(&dirs, known[k].as_str()) {
            let ghost before = dirs.deep_view();
            dirs.push(owned(known[k].as_str()));
            assert(dirs.deep_view() =~= before.push(known@[k as int]@));
        }
        k = k + 1;
    }
    assert(kv.take(k as int) =~= kv);
    let ghost dv = dirs.deep_view();
    let mut out = String::new();
    let mut j: usize = 0;
    assert(dv.take(0) =~= Seq::<Seq<char>>::empty());
    while j < dirs.len()
        invariant
            j <= dirs.len(),
            dv == dirs.deep_view(),
            out@ == join(dv.take(j as int), sep@),
        decreases dirs.len() - j,
    {
        assert(dv.take(j + 1).drop_last() =~= dv.take(j as int));
        assert(dv.take(j + 1).last() == dirs@[j as int]@);
        if j > 0 {
            out.append(sep);
        }
        out.append(dirs[j].as_str());
        assert(out@ =~= join(dv.take(j + 1), sep@));
        j = j + 1;
    }
    assert(dv.take(j as int) =~= dv);
    ShellEnv { path: out }
}

/// The folders to search, in order: the search path's folders, trimmed,
/// blank ones skipped.
pub open spec fn search_dirs(path: Seq<char>, sep: Seq<char>) -> Seq<Seq<char>> {
    split(path, sep).map_values(|d: Seq<char>| trim(d)).filter(|d: Seq<char>| d.len() > 0)
}

/// The marker the login shell prints before its PATH.
pub const MARKER: &'static str = "__RD_PATH__";

/// The script the login shell runs: print a blank line, the marker and the
/// PATH.
pub const LOGIN_SCRIPT: &'static str = "printf '\\n__RD_PATH__%s\\n' \"$PATH\"";

/// The PATH a login shell printed: from the last line (trimmed) that starts
/// with the marker, what follows it, trimmed; none when that is blank or no
/// line has the marker.
pub open spec fn marker_in(lines: Seq<Seq<char>>) -> Option<Seq<char>>
    decreases lines.len(),
{
    if lines.len() == 0 {
        None
    } else {
        let l = trim(lines.last());
        if starts_with(l, MARKER@) {
            Some(trim(l.skip(MARKER@.len() as int)))
        } else {
            marker_in(lines.drop_last())
        }
    }
}

pub open spec fn spec_marker_path(lines: Seq<Seq<char>>) -> Option<Seq<char>> {
    match marker_in(lines) {
        Some(p) => if p.len() > 0 {
            Some(p)
        } else {
            None
        },
        None => None,
    }
}

/// The PATH in the login shell's output, given as its lines.
pub fn marker_path(lines: &[String]) -> (r: Option<String>)
    ensures
        r.deep_view() == spec_marker_path(lines.deep_view()),
{
    let ghost lv = lines.deep_view();
    let m = chars_of(MARKER);
    let mut k: usize = lines.len();
    assert(lv.take(k as int) =~= lv);
    while k > 0
        invariant
            k <= lines.len(),
            lv == lines.deep_view(),
            m@ == MARKER@,
            marker_in(lv) == marker_in(lv.take(k as int)),
        decreases k,
    {
        assert(lv.take(k as int).last() == lines@[k - 1]@);
        assert(lv.take(k as int).drop_last() =~= lv.take(k - 1));
        let l = trim_vec(chars_of(lines[k - 1].as_str()).as_slice());
        if starts_with_exec(l.as_slice(), m.as_slice()) {
            let rest = crate::text::slice_vec(l.as_slice(), m.len(), l.len());
            assert(rest@ =~= l@.skip(MARKER@.len() as int));
            let t = trim_vec(rest.as_slice());
            if t.len() > 0 {
                return Some(string_of(t.as_slice()));
            } else {
                return None;
            }
        }
        k = k - 1;
    }
    assert(lv.take(0) =~= Seq::<Seq<char>>::empty());
    None
}

/// The file names a program may have in a folder: on Windows, a name
/// without an extension is tried as a real program first, then as npm's
/// wrapper scripts; elsewhere just the name.
pub open spec fn spec_candidates(name: Seq<char>, windows: bool, has_extension: bool) -> Seq<Seq<char>> {
    if windows && !has_extension {
        seq![name + ".exe"@, name + ".cmd"@, name + ".bat"@]
    } else {
        seq![name]
    }
}

pub fn candidates(name: &str, windows: bool, has_extension: bool) -> (r: Vec<String>)
    ensures
        r.deep_view() == spec_candidates(name@, windows, has_extension),
{
    let mut v: Vec<String> = Vec::new();
    if windows && !has_extension {
        v.push(str_concat(name, ".exe"));
        v.push(str_concat(name, ".cmd"));
        v.push(str_concat(name, ".bat"));
    } else {
        v.push(owned(name));
    }
    assert(v.deep_view() =~= spec_candidates(name@, windows, has_extension));
    v
}

/// What follows `~/` (or `~\`) in a path that starts at the home folder.
pub open spec fn spec_tilde_rest(p: Seq<char>) -> Option<Seq<char>> {
    if starts_with(p, "~/"@) || starts_with(p, "~\\"@) {
        Some(p.skip(2))
    } else {
        None
    }
}

fn tilde_rest(p: &str) -> (r: Option<String>)
    ensures
        r.deep_view() == spec_tilde_rest(p@),
{
    let v = chars_of(p);
    let a = chars_of("~/");
    let b = chars_of("~\\");
    proof {
        reveal_strlit("~/");
        reveal_strlit("~\\");
    }
    if starts_with_exec(v.as_slice(), a.as_slice()) || starts_with_exec(v.as_slice(), b.as_slice()) {
        let rest = crate::text::slice_vec(v.as_slice(), 2, v.len());
        Some(string_of(rest.as_slice()))
    } else {
        None
    }
}

/// A join whose shape `Path::join` settles the same way on every platform:
/// a base that does not end in a separator or a drive's colon and is not a
/// verbatim or UNC path, and a relative rest with no separator in front and
/// no colon.
pub open spec fn plain_join(base: Seq<char>, rest: Seq<char>) -> bool {
    &&& base.len() > 0
    &&& base[0] != '\\'
    &&& base.last() != '/' && base.last() != '\\' && base.last() != ':'
    &&& rest.len() > 0
    &&& rest[0] != '/' && rest[0] != '\\'
    &&& !rest.contains(':')
}

/// A base with no drive or other prefix: no colon, and not a UNC or verbatim
/// path.
pub open spec fn no_prefix(base: Seq<char>) -> bool {
    !base.contains(':') && !(base.len() > 0 && base[0] == '\\')
}

/// `Path::new(base).join(rest)`, written out as text. As `PathBuf::push`
/// documents: for a plain join (see `plain_join`) the base, the platform's
/// separator and the rest; a rest that starts at the root (`/`) replaces a
/// base with no prefix. Which separator (`/`, or `\` on Windows) and what
/// other shapes give (a base ending in a separator, an empty rest) are not
/// stated: the documentation does not say, and the answer differs between
/// platforms, so it cannot be named either.
#[verifier::external_body]
fn path_join(base: &str, rest: &str) -> (r: String)
    ensures
        plain_join(base@, rest@) ==> (r@ == base@ + "/"@ + rest@ || r@ == base@ + "\\"@ + rest@),
        rest@.len() > 0 && rest@[0] == '/' && no_prefix(base@) ==> r@ == rest@,
{
    std::path::Path::new(base).join(rest).to_string_lossy().into_owned()
}

/// A path that starts at the home folder (`~/` or `~\`) with the home
/// folder put in; `home` is the home folder, `None` (or empty) when it is not
/// known, and then the path is left as it is, as is any other path.
pub fn expand_tilde(p: &str, home: Option<&str>) -> (r: String)
    ensures
        match (spec_tilde_rest(p@), home) {
            (Some(rest), Some(h)) if h@.len() > 0 => {
                &&& plain_join(h@, rest) ==> (r@ == h@ + "/"@ + rest || r@ == h@ + "\\"@ + rest)
                &&& rest.len() > 0 && rest[0] == '/' && no_prefix(h@) ==> r@ == rest
            },
            _ => r@ == p@,
        },
{
    match tilde_rest(p) {
        Some(rest) => match home {
            Some(h) => if h.is_empty() {
                owned(p)
            } else {
                path_join(h, rest.as_str())
            },
            None => owned(p),
        },
        None => owned(p),
    }
}

/// Where to look for a program: the override alone when one is set
/// (`Some` of it, trimmed), else every folder of the search path.
pub enum BinSearch {
    Override(String),
    Folders(Vec<String>),
}

pub fn bin_search(override_path: &str, shell_path: &str, sep: &str) -> (r: BinSearch)
    requires
        sep@.len() > 0,
    ensures
        trim(override_path@).len() > 0 ==> (r matches BinSearch::Override(o) && o@ == trim(override_path@)),
        trim(override_path@).len() == 0 ==> (r matches BinSearch::Folders(ds) && ds.deep_view() == search_dirs(
            shell_path@,
            sep@,
        )),
{
    let o = crate::text::str_trim(override_path);
    if !o.as_str().is_empty() {
        return BinSearch::Override(o);
    }
    let cs = chars_of(shell_path);
    let sv = chars_of(sep);
    let parts = split_vec(cs.as_slice(), sv.as_slice());
    let ghost pv = parts.deep_view();
    let ghost trimmed = pv.map_values(|d: Seq<char>| trim(d));
    let mut out: Vec<String> = Vec::new();
    let mut k: usize = 0;
    assert(trimmed.take(0).filter(|d: Seq<char>| d.len() > 0) =~= Seq::<Seq<char>>::empty()) by {
        reveal(Seq::filter);
        assert(trimmed.take(0) =~= Seq::<Seq<char>>::empty());
    }
    while k < parts.len()
        invariant
            k <= parts.len(),
            pv == parts.deep_view(),
            pv == split(shell_path@, sep@),
            trimmed == pv.map_values(|d: Seq<char>| trim(d)),
            out.deep_view() == trimmed.take(k as int).filter(|d: Seq<char>| d.len() > 0),
        decreases parts.len() - k,
    {
        assert(trimmed.take(k + 1).drop_last() =~= trimmed.take(k as int));
        let t = trim_vec(parts[k].as_slice());
        assert(pv[k as int] == parts@[k as int]@);
        assert(trimmed.take(k + 1).last() == t@);
        let ghost before = out.deep_view();
        if t.len() > 0 {
            out.push(string_of(t.as_slice()));
            assert(out.deep_view() =~= before.push(t@));
        }
        assert(trimmed.take(k + 1).filter(|d: Seq<char>| d.len() > 0) == out.deep_view()) by {
            reveal(Seq::filter);
        }
        k = k + 1;
    }
    assert(trimmed.take(k as int) =~= trimmed);
    BinSearch::Folders(out)
}

} // verus!
