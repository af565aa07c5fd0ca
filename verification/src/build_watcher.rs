//! Rebuild-on-save for the project's C# scripts.
//!
//! The watcher thread, the debounce clock and the `dotnet build` worker live
//! with the program; what is decided here is which paths count as sources,
//! where a built assembly's project lives, how the watcher's state answers
//! each event, and what the console is told. A red build is inert: it only
//! changes what the status and the console say.

use vstd::prelude::*;

use std::time::Duration;

use crate::text::{decimal, decimal_text, str_eq};

verus! {

// ---------------------------------------------------------------------------
// Paths
//
// A path is read as its names: the maximal runs of characters between `/`
// separators, as the standard library's components read it on Unix. A `.`
// name is dropped, except at the very start of a relative path, where it
// stands for the current directory. A leading `/` makes it absolute.
// ---------------------------------------------------------------------------

/// Where the name starting at `i` ends: the first separator at or after `i`.
pub open spec fn name_end(s: Seq<char>, i: int) -> int
    decreases s.len() - i,
{
    if i >= s.len() || s[i] == '/' {
        i
    } else {
        name_end(s, i + 1)
    }
}

pub proof fn lemma_name_end(s: Seq<char>, i: int)
    requires
        0 <= i <= s.len(),
    ensures
        i <= name_end(s, i) <= s.len(),
        i < s.len() && s[i] != '/' ==> i < name_end(s, i),
        forall|j: int| i <= j < name_end(s, i) ==> s[j] != '/',
        name_end(s, i) < s.len() ==> s[name_end(s, i)] == '/',
    decreases s.len() - i,
{
    if i < s.len() && s[i] != '/' {
        lemma_name_end(s, i + 1);
    }
}

/// The names of `s` from position `i` on, each as its range of characters.
pub open spec fn names_from(s: Seq<char>, i: int) -> Seq<(int, int)>
    decreases s.len() - i,
{
    if i < 0 || i >= s.len() {
        Seq::empty()
    } else if s[i] == '/' {
        names_from(s, i + 1)
    } else {
        let e = name_end(s, i);
        proof {
            lemma_name_end(s, i);
        }
        if e == i + 1 && s[i] == '.' && i > 0 {
            names_from(s, e)
        } else {
            seq![(i, e)] + names_from(s, e)
        }
    }
}

/// The names of the path `s`, first to last.
pub open spec fn path_names(s: Seq<char>) -> Seq<(int, int)> {
    names_from(s, 0)
}

pub open spec fn name_text(s: Seq<char>, name: (int, int)) -> Seq<char> {
    s.subrange(name.0, name.1)
}

pub open spec fn is_absolute(s: Seq<char>) -> bool {
    s.len() > 0 && s[0] == '/'
}

pub open spec fn as_ranges(v: Seq<(usize, usize)>) -> Seq<(int, int)> {
    v.map_values(|p: (usize, usize)| (p.0 as int, p.1 as int))
}

/// The names of `path`, as character ranges.
fn names(path: &str) -> (r: Vec<(usize, usize)>)
    ensures
        as_ranges(r@) == path_names(path@),
        forall|k: int| 0 <= k < r@.len() ==> (#[trigger] r@[k]).0 < r@[k].1 <= path@.len(),
{
    let ghost s = path@;
    let n = path.unicode_len();
    let mut r: Vec<(usize, usize)> = Vec::new();
    let mut i: usize = 0;
    while i < n
        invariant
            n == s.len(),
            s == path@,
            i <= n,
            as_ranges(r@) + names_from(s, i as int) == path_names(s),
            forall|k: int| 0 <= k < r@.len() ==> (#[trigger] r@[k]).0 < r@[k].1 <= i,
        decreases n - i,
    {
        if path.get_char(i) == '/' {
            i += 1;
        } else {
            let mut e = i + 1;
            while e < n && path.get_char(e) != '/'
                invariant
                    n == s.len(),
                    s == path@,
                    i < e <= n,
                    i < s.len() && s[i as int] != '/',
                    name_end(s, e as int) == name_end(s, i as int),
                decreases n - e,
            {
                e += 1;
            }
            proof {
                lemma_name_end(s, i as int);
            }
            let ghost before = r@;
            if !(e == i + 1 && path.get_char(i) == '.' && i > 0) {
                r.push((i, e));
                assert(as_ranges(r@) =~= as_ranges(before) + seq![(i as int, e as int)]);
            }
            i = e;
        }
    }
    proof {
        assert(as_ranges(r@) + names_from(s, i as int) =~= as_ranges(r@));
    }
    r
}

fn is_rooted(path: &str) -> (r: bool)
    ensures
        r == is_absolute(path@),
{
    path.unicode_len() > 0 && path.get_char(0) == '/'
}

/// Where a built assembly's project lives: for
/// `<project>/bin/<configuration>/<framework>/<file>`, the project directory
/// as its parent would print it and the configuration's name.
pub open spec fn build_location_of(s: Seq<char>) -> Option<(Seq<char>, Seq<char>)> {
    let names = path_names(s);
    let n = names.len();
    if n >= 4 && name_text(s, names[n - 4]) == "bin"@ && name_text(s, names[n - 3]) != ".."@ {
        let project = if n > 4 {
            s.take(names[n - 5].1)
        } else if is_absolute(s) {
            s.take(1)
        } else {
            Seq::empty()
        };
        Some((project, name_text(s, names[n - 3])))
    } else {
        None
    }
}

/// The project directory and build configuration a built assembly came from:
/// `<scripts>/bin/Debug/net10.0/Game.dll` gives `<scripts>` and `Debug`.
pub fn build_location(game_dll: &str) -> (r: Option<(&str, &str)>)
    ensures
        match r {
            Some((project, configuration)) => build_location_of(game_dll@) == Some((project@, configuration@)),
            None => build_location_of(game_dll@) is None,
        },
{
    let ghost s = game_dll@;
    let found = names(game_dll);
    let n = found.len();
    proof {
        assert(found@.len() == path_names(s).len());
        assert forall|k: int| 0 <= k < n implies #[trigger] path_names(s)[k] == (
        found@[k].0 as int,
        found@[k].1 as int,
        ) by {
            assert(as_ranges(found@)[k] == path_names(s)[k]);
        }
    }
    if n < 4 {
        return None;
    }
    let (bin_start, bin_end) = found[n - 4];
    if !str_eq(game_dll.substring_char(bin_start, bin_end), "bin") {
        return None;
    }
    let (config_start, config_end) = found[n - 3];
    let configuration = game_dll.substring_char(config_start, config_end);
    if str_eq(configuration, "..") {
        return None;
    }
    let project = if n > 4 {
        game_dll.substring_char(0, found[n - 5].1)
    } else if is_rooted(game_dll) {
        game_dll.substring_char(0, 1)
    } else {
        game_dll.substring_char(0, 0)
    };
    proof {
        assert(project@ =~= build_location_of(s)->Some_0.0);
    }
    Some((project, configuration))
}

/// Reading names is local: within `d`, a text that continues with a
/// separator ends each name where `d` alone does.
proof fn lemma_name_end_prefix(d: Seq<char>, t: Seq<char>, i: int)
    requires
        0 <= i <= d.len(),
        t.len() > 0,
        t[0] == '/',
    ensures
        name_end(d + t, i) == name_end(d, i),
    decreases d.len() - i,
{
    let s = d + t;
    if i < d.len() && d[i] != '/' {
        assert(s[i] == d[i]);
        lemma_name_end_prefix(d, t, i + 1);
    } else if i == d.len() {
        assert(s[i] == t[0]);
    } else {
        assert(s[i] == d[i]);
    }
}

/// The names of `d` followed by a separator and more: those of `d`, then
/// the names after it.
proof fn lemma_names_prefix(d: Seq<char>, t: Seq<char>, i: int)
    requires
        0 <= i <= d.len(),
        t.len() > 0,
        t[0] == '/',
    ensures
        names_from(d + t, i) == names_from(d, i) + names_from(d + t, d.len() as int),
    decreases d.len() - i,
{
    let s = d + t;
    if i == d.len() {
        assert(names_from(d, i) =~= Seq::<(int, int)>::empty());
        assert(names_from(s, i) =~= names_from(d, i) + names_from(s, d.len() as int));
    } else {
        assert(s[i] == d[i]);
        if d[i] == '/' {
            lemma_names_prefix(d, t, i + 1);
        } else {
            lemma_name_end_prefix(d, t, i);
            lemma_name_end(d, i);
            let e = name_end(d, i);
            lemma_names_prefix(d, t, e);
            if !(e == i + 1 && d[i] == '.' && i > 0) {
                assert(names_from(s, i) =~= seq![(i, e)] + names_from(s, e));
                assert(names_from(d, i) =~= seq![(i, e)] + names_from(d, e));
            }
        }
    }
}

/// A run of characters without a separator, up to a separator or the end,
/// is one name.
proof fn lemma_name_end_run(s: Seq<char>, a: int, b: int)
    requires
        0 <= a <= b <= s.len(),
        forall|j: int| a <= j < b ==> s[j] != '/',
        b == s.len() || s[b] == '/',
    ensures
        name_end(s, a) == b,
    decreases b - a,
{
    if a < b {
        lemma_name_end_run(s, a + 1, b);
    }
}

/// A separator followed by a name that is neither empty nor `.` gives that
/// name, then the names after it.
proof fn lemma_names_step(s: Seq<char>, a: int, b: int)
    requires
        0 <= a < b <= s.len(),
        s[a] == '/',
        forall|j: int| a < j < b ==> s[j] != '/',
        b == s.len() || s[b] == '/',
        !(b == a + 2 && s[a + 1] == '.'),
        a + 1 < b,
    ensures
        names_from(s, a) == seq![(a + 1, b)] + names_from(s, b),
{
    lemma_name_end_run(s, a + 1, b);
    assert(names_from(s, a) == names_from(s, a + 1));
}

/// The names of a path that ends in one, and not in a dropped `.`, end at
/// its end.
proof fn lemma_names_reach_end(s: Seq<char>, i: int)
    requires
        0 <= i <= s.len(),
        i == 0 || i == s.len() || s[i - 1] == '/' || s[i] == '/',
        s.len() > 0,
        s[s.len() - 1] != '/',
        !(s.len() >= 2 && s[s.len() - 2] == '/' && s[s.len() - 1] == '.'),
    ensures
        i < s.len() ==> names_from(s, i).len() > 0 && names_from(s, i).last().1 == s.len(),
    decreases s.len() - i,
{
    if i < s.len() {
        if s[i] == '/' {
            lemma_names_reach_end(s, i + 1);
        } else {
            lemma_name_end(s, i);
            let e = name_end(s, i);
            lemma_names_reach_end(s, e);
            if e == i + 1 && s[i] == '.' && i > 0 {
                assert(s[i - 1] == '/');
                assert(e < s.len());
            }
        }
    }
}

/// A name no separator splits, that is neither `.` nor `..`: one normal
/// component of a path.
pub open spec fn plain_name(w: Seq<char>) -> bool {
    &&& w.len() > 0
    &&& forall|j: int| 0 <= j < w.len() ==> w[j] != '/'
    &&& w != "."@
    &&& w != ".."@
}

/// A project directory as text: not empty, and not ending in a separator or
/// in a `.` name, so that its parent prints as exactly this text.
pub open spec fn plain_dir(d: Seq<char>) -> bool {
    &&& d.len() > 0
    &&& d[d.len() - 1] != '/'
    &&& !(d.len() >= 2 && d[d.len() - 2] == '/' && d[d.len() - 1] == '.')
}

/// The path a build writes an assembly to.
pub open spec fn assembly_path(dir: Seq<char>, configuration: Seq<char>, framework: Seq<char>, file: Seq<char>) -> Seq<
    char,
> {
    dir + "/bin/"@ + configuration + "/"@ + framework + "/"@ + file
}

/// The build location round-trips: the assembly a build of the project in
/// `dir` writes for `configuration` gives back `dir` and `configuration`.
pub proof fn lemma_build_location_round_trip(
    dir: Seq<char>,
    configuration: Seq<char>,
    framework: Seq<char>,
    file: Seq<char>,
)
    requires
        plain_dir(dir),
        plain_name(configuration),
        plain_name(framework),
        plain_name(file),
    ensures
        build_location_of(assembly_path(dir, configuration, framework, file)) == Some((dir, configuration)),
{
    reveal_strlit("/bin/");
    reveal_strlit("/");
    reveal_strlit("bin");
    reveal_strlit(".");
    reveal_strlit("..");
    let s = assembly_path(dir, configuration, framework, file);
    let l = dir.len() as int;
    let c = configuration.len() as int;
    let f = framework.len() as int;
    let n = file.len() as int;
    let rest = s.skip(l);
    assert(s =~= dir + rest);
    // Positions: `/bin/` at l, the configuration at l + 5, the framework
    // after it, the file last.
    let c0 = l + 5;
    let f0 = c0 + c + 1;
    let n0 = f0 + f + 1;
    assert(s.len() == n0 + n);
    assert(s[l] == '/' && s[l + 1] == 'b' && s[l + 2] == 'i' && s[l + 3] == 'n' && s[l + 4] == '/');
    assert forall|j: int| 0 <= j < c implies s[c0 + j] == configuration[j] by {}
    assert(s[c0 + c] == '/');
    assert forall|j: int| 0 <= j < f implies s[f0 + j] == framework[j] by {}
    assert(s[f0 + f] == '/');
    assert forall|j: int| 0 <= j < n implies s[n0 + j] == file[j] by {}
    assert(s.subrange(c0, c0 + c) =~= configuration);
    assert(s.subrange(l + 1, l + 4) =~= "bin"@);
    // Each component after the directory is one name.
    lemma_names_step(s, l, l + 4);
    if c == 1 {
        assert(configuration[0] != '.') by {
            if configuration[0] == '.' {
                assert(configuration =~= "."@);
            }
        }
    }
    lemma_names_step(s, c0 - 1, c0 + c);
    if f == 1 {
        assert(framework[0] != '.') by {
            if framework[0] == '.' {
                assert(framework =~= "."@);
            }
        }
    }
    lemma_names_step(s, f0 - 1, f0 + f);
    if n == 1 {
        assert(file[0] != '.') by {
            if file[0] == '.' {
                assert(file =~= "."@);
            }
        }
    }
    lemma_names_step(s, n0 - 1, n0 + n);
    assert(names_from(s, s.len() as int) =~= Seq::<(int, int)>::empty());
    let tail = seq![(l + 1, l + 4), (c0, c0 + c), (f0, f0 + f), (n0, n0 + n)];
    assert(names_from(s, l) =~= tail);
    lemma_names_prefix(dir, rest, 0);
    let dn = names_from(dir, 0);
    assert(path_names(s) =~= dn + tail);
    lemma_names_reach_end(dir, 0);
    assert(dn.len() > 0 && dn.last().1 == l);
    let names = path_names(s);
    let k = names.len();
    assert(names[k - 4] == (l + 1, l + 4));
    assert(names[k - 3] == (c0, c0 + c));
    assert(names[k - 5] == dn.last());
    assert(name_text(s, names[k - 4]) == "bin"@);
    assert(name_text(s, names[k - 3]) == configuration);
    assert(s.take(l) =~= dir);
}

/// `path` lies under `root`: the two agree on being absolute, and the names of
/// `root` begin the names of `path`.
pub open spec fn lies_under(root: Seq<char>, path: Seq<char>) -> bool {
    let rn = path_names(root);
    let pn = path_names(path);
    &&& is_absolute(root) == is_absolute(path)
    &&& rn.len() <= pn.len()
    &&& forall|k: int| 0 <= k < rn.len() ==> name_text(root, #[trigger] rn[k]) == name_text(path, pn[k])
}

/// The last `.` in `f` before position `i`, or -1.
pub open spec fn last_dot(f: Seq<char>, i: int) -> int
    decreases i,
{
    if i <= 0 {
        -1
    } else if f[i - 1] == '.' {
        i - 1
    } else {
        last_dot(f, i - 1)
    }
}

/// The extension of file name `f`: what follows its last `.`, when that is
/// not its first character.
pub open spec fn extension_of(f: Seq<char>) -> Option<Seq<char>> {
    let d = last_dot(f, f.len() as int);
    if d > 0 {
        Some(f.skip(d + 1))
    } else {
        None
    }
}

/// Whether a changed path is a source file worth recompiling for: no name of
/// it below `root` is `bin` or `obj`, where the build writes; its file name is
/// not hidden; and it is C# source or a project file.
pub open spec fn script_source(root: Seq<char>, path: Seq<char>) -> bool {
    let pn = path_names(path);
    let first = if lies_under(root, path) {
        path_names(root).len() as int
    } else {
        0
    };
    &&& forall|k: int|
        first <= k < pn.len() ==> name_text(path, #[trigger] pn[k]) != "bin"@ && name_text(path, pn[k]) != "obj"@
    &&& pn.len() > 0
    &&& name_text(path, pn.last())[0] != '.'
    &&& extension_of(name_text(path, pn.last())) matches Some(ext) && (ext == "cs"@ || ext == "csproj"@)
}

/// Whether a changed path is a source file worth recompiling for.
///
/// The `bin`/`obj` exclusion is what keeps a build from triggering the next
/// one: `dotnet build` writes its output under both. It is relative to the
/// watched root, so a project that lives under a directory called `bin` is
/// still watched.
pub fn is_script_source(root: &str, path: &str) -> (r: bool)
    ensures
        r == script_source(root@, path@),
{
    let ghost rs = root@;
    let ghost ps = path@;
    let rn = names(root);
    let pn = names(path);
    proof {
        assert forall|k: int| 0 <= k < rn.len() implies #[trigger] path_names(rs)[k] == (
        rn@[k].0 as int,
        rn@[k].1 as int,
        ) by {
            assert(as_ranges(rn@)[k] == path_names(rs)[k]);
        }
        assert forall|k: int| 0 <= k < pn.len() implies #[trigger] path_names(ps)[k] == (
        pn@[k].0 as int,
        pn@[k].1 as int,
        ) by {
            assert(as_ranges(pn@)[k] == path_names(ps)[k]);
        }
        assert(rn@.len() == path_names(rs).len());
        assert(pn@.len() == path_names(ps).len());
    }

    // The names of `path` below `root`, or all of them when it lies elsewhere.
    let mut first: usize = 0;
    if is_rooted(root) == is_rooted(path) && rn.len() <= pn.len() {
        let mut k: usize = 0;
        let mut same = true;
        while k < rn.len()
            invariant
                rn.len() <= pn.len(),
                k <= rn.len(),
                rs == root@,
                ps == path@,
                forall|j: int| 0 <= j < rn.len() ==> #[trigger] path_names(rs)[j] == (rn@[j].0 as int, rn@[j].1 as int),
                forall|j: int| 0 <= j < pn.len() ==> #[trigger] path_names(ps)[j] == (pn@[j].0 as int, pn@[j].1 as int),
                forall|j: int| 0 <= j < rn@.len() ==> (#[trigger] rn@[j]).0 < rn@[j].1 <= root@.len(),
                forall|j: int| 0 <= j < pn@.len() ==> (#[trigger] pn@[j]).0 < pn@[j].1 <= path@.len(),
                same == forall|j: int|
                    0 <= j < k ==> name_text(rs, #[trigger] path_names(rs)[j]) == name_text(ps, path_names(ps)[j]),
            decreases rn.len() - k,
        {
            let (rs0, re0) = rn[k];
            let (ps0, pe0) = pn[k];
            let equal = str_eq(root.substring_char(rs0, re0), path.substring_char(ps0, pe0));
            proof {
                assert(path_names(rs)[k as int] == (rs0 as int, re0 as int));
                assert(path_names(ps)[k as int] == (ps0 as int, pe0 as int));
                if !equal {
                    assert(!(name_text(rs, path_names(rs)[k as int]) == name_text(ps, path_names(ps)[k as int])));
                }
            }
            same = same && equal;
            k += 1;
        }
        if same {
            first = rn.len();
        }
    }
    assert(first == if lies_under(rs, ps) {
        path_names(rs).len() as int
    } else {
        0
    });

    let mut k: usize = first;
    while k < pn.len()
        invariant
            first <= k <= pn.len(),
            ps == path@,
            rs == root@,
            pn@.len() == path_names(ps).len(),
            first == if lies_under(rs, ps) {
                path_names(rs).len() as int
            } else {
                0
            },
            forall|j: int| 0 <= j < pn.len() ==> #[trigger] path_names(ps)[j] == (pn@[j].0 as int, pn@[j].1 as int),
            forall|j: int| 0 <= j < pn@.len() ==> (#[trigger] pn@[j]).0 < pn@[j].1 <= path@.len(),
            forall|j: int|
                first <= j < k ==> name_text(ps, #[trigger] path_names(ps)[j]) != "bin"@ && name_text(
                    ps,
                    path_names(ps)[j],
                ) != "obj"@,
        decreases pn.len() - k,
    {
        let (start, end) = pn[k];
        let part = path.substring_char(start, end);
        assert(path_names(ps)[k as int] == (start as int, end as int));
        if str_eq(part, "bin") || str_eq(part, "obj") {
            assert(name_text(ps, path_names(ps)[k as int]) == part@);
            assert(!script_source(rs, ps));
            return false;
        }
        k += 1;
    }

    // Editors save through hidden temporaries; the write that matters lands
    // on the real name afterwards.
    if pn.len() == 0 {
        return false;
    }
    let (start, end) = pn[pn.len() - 1];
    let ghost f = name_text(ps, path_names(ps).last());
    assert(path_names(ps).last() == (start as int, end as int));
    if path.get_char(start) == '.' {
        return false;
    }

    let mut dot = end;
    while dot > start && path.get_char(dot - 1) != '.'
        invariant
            start < end <= path@.len(),
            start <= dot <= end,
            ps == path@,
            f == ps.subrange(start as int, end as int),
            last_dot(f, f.len() as int) == last_dot(f, dot - start),
        decreases dot,
    {
        dot -= 1;
    }
    if dot == start {
        return false;
    }
    let extension = path.substring_char(dot, end);
    assert(extension@ =~= f.skip(dot - start));
    str_eq(extension, "cs") || str_eq(extension, "csproj")
}

// ---------------------------------------------------------------------------
// Build state
// ---------------------------------------------------------------------------

/// How long the scripts directory must stay quiet before a rebuild starts, in
/// nanoseconds: long enough to coalesce a "save all", short enough that one
/// save doesn't feel ignored.
pub const DEBOUNCE_NS: u64 = 300_000_000;

/// Compiler lines put in the console per failed build. One broken file can
/// emit hundreds, and the console is a bounded ring.
pub const MAX_DIAGNOSTICS: usize = 12;

/// Lines of the log shown for a failure the compiler never diagnosed.
pub const TAIL_LINES: usize = 5;

/// The lines a failed build reports: the compiler's diagnostics, or, for a
/// failure the compiler never diagnosed, the last `TAIL_LINES` lines of the
/// build's log, which say what went wrong instead.
pub fn failure_lines(diagnostics: Vec<String>, log: &[String]) -> (r: Vec<String>)
    ensures
        diagnostics@.len() > 0 ==> r@ == diagnostics@,
        diagnostics@.len() == 0 ==> r@ == log@.skip(
            if log@.len() > TAIL_LINES {
                log@.len() - TAIL_LINES
            } else {
                0
            },
        ),
{
    if diagnostics.len() > 0 {
        return diagnostics;
    }
    let start: usize = if log.len() > TAIL_LINES {
        log.len() - TAIL_LINES
    } else {
        0
    };
    let mut tail: Vec<String> = Vec::new();
    let mut i: usize = start;
    while i < log.len()
        invariant
            start <= i <= log@.len(),
            tail@ == log@.subrange(start as int, i as int),
        decreases log.len() - i,
    {
        tail.push(log[i].clone());
        i += 1;
    }
    assert(log@.skip(start as int) =~= log@.subrange(start as int, log@.len() as int));
    tail
}

/// What the watcher has to report, in the order it happened.
pub enum BuildEvent {
    /// The debounce elapsed and a rebuild started.
    Started,
    Succeeded { duration: Duration },
    /// The compiler rejected the code. `diagnostics` are its error and warning
    /// lines, or the tail of the log when the build died before compiling.
    Failed { diagnostics: Vec<String> },
    /// The build could not be run at all.
    Unavailable { reason: String },
}

/// The console's severities.
#[derive(Clone, Copy, PartialEq, Eq, Structural, Debug)]
pub enum LogLevel {
    Info,
    Warn,
    Error,
}

/// One console line about the build, before it is worded.
pub enum BuildMessage {
    /// "scripts changed; rebuilding"
    Rebuilding,
    /// "scripts rebuilt in {seconds}s"
    Rebuilt(Duration),
    /// "script build failed; still running the previous build"
    BuildFailed,
    /// One of the compiler's lines, as it wrote it.
    Diagnostic(String),
    /// "... and {count} more": compiler lines left out of the console.
    Hidden(usize),
    /// "script build could not run: {reason}"
    CouldNotRun(String),
}

impl BuildMessage {
    #[verifier::allow_in_spec]
    pub fn level(&self) -> LogLevel
        returns
            (match self {
                BuildMessage::Rebuilding | BuildMessage::Rebuilt(_) => LogLevel::Info,
                _ => LogLevel::Error,
            }),
    {
        match self {
            BuildMessage::Rebuilding | BuildMessage::Rebuilt(_) => LogLevel::Info,
            _ => LogLevel::Error,
        }
    }
}

/// The console's words for `message`. A rebuild's time is printed in
/// seconds to one decimal, which is floating point and left to the program.
pub open spec fn message_text(message: BuildMessage) -> Option<Seq<char>> {
    match message {
        BuildMessage::Rebuilding => Some("scripts changed; rebuilding"@),
        BuildMessage::Rebuilt(_) => None,
        BuildMessage::BuildFailed => Some("script build failed; still running the previous build"@),
        BuildMessage::Diagnostic(line) => Some(line@),
        BuildMessage::Hidden(count) => Some("... and "@ + decimal(count as nat) + " more"@),
        BuildMessage::CouldNotRun(reason) => Some("script build could not run: "@ + reason@),
    }
}

impl BuildMessage {
    /// The line the console shows for this message; `None` for a rebuild's
    /// time, which the program prints.
    pub fn text(&self) -> (r: Option<String>)
        ensures
            match r {
                Some(t) => message_text(*self) == Some(t@),
                None => message_text(*self) is None,
            },
    {
        match self {
            BuildMessage::Rebuilding => Some(String::from_str("scripts changed; rebuilding")),
            BuildMessage::Rebuilt(_) => None,
            BuildMessage::BuildFailed => Some(
                String::from_str("script build failed; still running the previous build"),
            ),
            BuildMessage::Diagnostic(line) => Some(line.clone()),
            BuildMessage::Hidden(count) => {
                let text = String::from_str("... and ").concat(decimal_text(*count).as_str()).concat(" more");
                Some(text)
            },
            BuildMessage::CouldNotRun(reason) => Some(
                String::from_str("script build could not run: ").concat(reason.as_str()),
            ),
        }
    }
}

/// One console line: its severity, what it says, and the frame it was
/// logged on.
pub struct LogLine {
    pub level: LogLevel,
    pub message: BuildMessage,
    pub frame: u64,
}

/// `message` logged on `frame`, at its own level.
pub open spec fn stamp(message: BuildMessage, frame: u64) -> LogLine {
    LogLine { level: message.level(), message, frame }
}

/// Each of `messages` logged on `frame`.
pub open spec fn stamped(messages: Seq<BuildMessage>, frame: u64) -> Seq<LogLine> {
    messages.map_values(|m: BuildMessage| stamp(m, frame))
}

fn emit(log: &mut Vec<LogLine>, message: BuildMessage, frame: u64)
    ensures
        final(log)@ == old(log)@.push(stamp(message, frame)),
{
    let level = message.level();
    log.push(LogLine { level, message, frame });
}

/// What the console is told about `event`: a failure names at most
/// `MAX_DIAGNOSTICS` compiler lines and counts the rest.
pub open spec fn event_messages(event: BuildEvent) -> Seq<BuildMessage> {
    match event {
        BuildEvent::Started => seq![BuildMessage::Rebuilding],
        BuildEvent::Succeeded { duration } => seq![BuildMessage::Rebuilt(duration)],
        BuildEvent::Failed { diagnostics } => {
            let shown = if diagnostics@.len() > MAX_DIAGNOSTICS {
                MAX_DIAGNOSTICS as int
            } else {
                diagnostics@.len() as int
            };
            seq![BuildMessage::BuildFailed] + Seq::new(
                shown as nat,
                |i: int| BuildMessage::Diagnostic(diagnostics@[i]),
            ) + if diagnostics@.len() > MAX_DIAGNOSTICS {
                seq![BuildMessage::Hidden((diagnostics@.len() - MAX_DIAGNOSTICS) as usize)]
            } else {
                Seq::empty()
            }
        },
        BuildEvent::Unavailable { reason } => seq![BuildMessage::CouldNotRun(reason)],
    }
}

impl BuildEvent {
    /// Appends what the console is told about this event to `log`, each
    /// line stamped with `frame`.
    pub fn log_into(&self, log: &mut Vec<LogLine>, frame: u64)
        ensures
            final(log)@ == old(log)@ + stamped(event_messages(*self), frame),
    {
        let ghost start = log@;
        match self {
            BuildEvent::Started => emit(log, BuildMessage::Rebuilding, frame),
            BuildEvent::Succeeded { duration } => emit(log, BuildMessage::Rebuilt(*duration), frame),
            BuildEvent::Failed { diagnostics } => {
                emit(log, BuildMessage::BuildFailed, frame);
                let shown = if diagnostics.len() > MAX_DIAGNOSTICS {
                    MAX_DIAGNOSTICS
                } else {
                    diagnostics.len()
                };
                let mut i: usize = 0;
                while i < shown
                    invariant
                        i <= shown <= diagnostics@.len(),
                        shown == if diagnostics@.len() > MAX_DIAGNOSTICS {
                            MAX_DIAGNOSTICS as int
                        } else {
                            diagnostics@.len() as int
                        },
                        log@ == start + stamped(
                            seq![BuildMessage::BuildFailed] + Seq::new(
                                i as nat,
                                |j: int| BuildMessage::Diagnostic(diagnostics@[j]),
                            ),
                            frame,
                        ),
                    decreases shown - i,
                {
                    emit(log, BuildMessage::Diagnostic(diagnostics[i].clone()), frame);
                    proof {
                        assert(log@ =~= start + stamped(
                            seq![BuildMessage::BuildFailed] + Seq::new(
                                (i + 1) as nat,
                                |j: int| BuildMessage::Diagnostic(diagnostics@[j]),
                            ),
                            frame,
                        ));
                    }
                    i += 1;
                }
                if diagnostics.len() > MAX_DIAGNOSTICS {
                    let hidden = diagnostics.len() - MAX_DIAGNOSTICS;
                    emit(log, BuildMessage::Hidden(hidden), frame);
                }
            },
            BuildEvent::Unavailable { reason } => emit(log, BuildMessage::CouldNotRun(reason.clone()), frame),
        }
        proof {
            assert(log@ =~= start + stamped(event_messages(*self), frame));
        }
    }
}

/// Where the watcher is up to.
pub enum BuildState {
    /// Watching; nothing has changed yet this session.
    Idle,
    Building,
    Succeeded,
    Failed,
    /// No watcher is running. The string says why.
    Off(String),
}

/// The watcher's status as the Scripts panel shows it.
pub struct BuildStatus {
    /// Whether a green build reloads by itself. Rebuilding happens either way,
    /// so turning this off still gets compiler errors into the console.
    pub auto_reload: bool,
    pub state: BuildState,
    /// Diagnostics from the most recent failed build; empty otherwise.
    pub diagnostics: Vec<String>,
    /// How long the last successful build took.
    pub last_duration: Option<Duration>,
}

/// A `BuildStatus` as a value.
pub struct StatusView {
    pub auto_reload: bool,
    pub state: BuildState,
    pub diagnostics: Seq<String>,
    pub last_duration: Option<Duration>,
}

impl View for BuildStatus {
    type V = StatusView;

    open spec fn view(&self) -> StatusView {
        StatusView {
            auto_reload: self.auto_reload,
            state: self.state,
            diagnostics: self.diagnostics@,
            last_duration: self.last_duration,
        }
    }
}

/// The status after it observes `event`.
pub open spec fn observe_spec(status: StatusView, event: BuildEvent) -> StatusView {
    match event {
        BuildEvent::Started => StatusView { state: BuildState::Building, ..status },
        BuildEvent::Succeeded { duration } => StatusView {
            state: BuildState::Succeeded,
            diagnostics: Seq::empty(),
            last_duration: Some(duration),
            ..status
        },
        BuildEvent::Failed { diagnostics } => StatusView {
            state: BuildState::Failed,
            diagnostics: diagnostics@,
            ..status
        },
        BuildEvent::Unavailable { reason } => StatusView { state: BuildState::Off(reason), ..status },
    }
}

/// The status after it observes each of `events` in turn.
pub open spec fn observe_all(status: StatusView, events: Seq<BuildEvent>) -> StatusView
    decreases events.len(),
{
    if events.len() == 0 {
        status
    } else {
        observe_all(observe_spec(status, events[0]), events.drop_first())
    }
}

/// A failed build's diagnostics replace whatever the status held, whatever it
/// held: two statuses that observe the same failure show the same lines. A
/// success clears them; a start or a refusal to run keeps them. Only the state
/// and those two fields change; whether to reload by itself never does.
pub proof fn lemma_diagnostics_are_the_latest_failures(status: StatusView, other: StatusView, event: BuildEvent)
    ensures
        observe_spec(status, event).auto_reload == status.auto_reload,
        event matches BuildEvent::Failed { diagnostics } ==> {
            &&& observe_spec(status, event).diagnostics == diagnostics@
            &&& observe_spec(status, event).diagnostics == observe_spec(other, event).diagnostics
            &&& observe_spec(status, event).state is Failed
            &&& observe_spec(status, event).last_duration == status.last_duration
        },
        event matches BuildEvent::Succeeded { duration } ==> {
            &&& observe_spec(status, event).diagnostics.len() == 0
            &&& observe_spec(status, event).state is Succeeded
            &&& observe_spec(status, event).last_duration == Some(duration)
        },
        event is Started ==> observe_spec(status, event).diagnostics == status.diagnostics
            && observe_spec(status, event).state is Building,
        event matches BuildEvent::Unavailable { reason } ==> observe_spec(status, event).diagnostics
            == status.diagnostics && observe_spec(status, event).state == BuildState::Off(reason),
{
}

/// Observing events one after another is observing them in a row.
pub proof fn lemma_observe_all_then(status: StatusView, events: Seq<BuildEvent>, last: BuildEvent)
    ensures
        observe_all(status, events.push(last)) == observe_spec(observe_all(status, events), last),
    decreases events.len(),
{
    if events.len() > 0 {
        assert(events.push(last)[0] == events[0]);
        assert(events.push(last).drop_first() =~= events.drop_first().push(last));
        lemma_observe_all_then(observe_spec(status, events[0]), events.drop_first(), last);
        assert(observe_all(status, events) == observe_all(observe_spec(status, events[0]), events.drop_first()));
    } else {
        assert(events.push(last)[0] == last);
        assert(events.push(last).drop_first() =~= Seq::<BuildEvent>::empty());
        assert(observe_all(observe_spec(status, last), Seq::<BuildEvent>::empty()) == observe_spec(status, last));
    }
}

/// After any run of events that ends in a failure, the status shows that
/// failure's diagnostics and no earlier ones; after one that ends in a
/// success, it shows none.
pub proof fn lemma_latest_failure_wins(status: StatusView, events: Seq<BuildEvent>, last: BuildEvent)
    ensures
        last matches BuildEvent::Failed { diagnostics } ==> observe_all(status, events.push(last)).diagnostics
            == diagnostics@,
        last is Succeeded ==> observe_all(status, events.push(last)).diagnostics.len() == 0,
{
    lemma_observe_all_then(status, events, last);
    lemma_diagnostics_are_the_latest_failures(observe_all(status, events), status, last);
}

/// What the console is told about each of `events`, in order.
pub open spec fn messages_of(events: Seq<BuildEvent>) -> Seq<BuildMessage>
    decreases events.len(),
{
    if events.len() == 0 {
        Seq::empty()
    } else {
        event_messages(events[0]) + messages_of(events.drop_first())
    }
}

impl Default for BuildStatus {
    fn default() -> (r: Self)
        ensures
            r.auto_reload,
            r.state is Idle,
            r.diagnostics@ == Seq::<String>::empty(),
            r.last_duration is None,
    {
        BuildStatus { auto_reload: true, state: BuildState::Idle, diagnostics: Vec::new(), last_duration: None }
    }
}

impl BuildStatus {
    /// Records that no watcher runs, and why.
    pub fn disable(&mut self, reason: String)
        ensures
            final(self)@ == (StatusView { state: BuildState::Off(reason), ..old(self)@ }),
    {
        self.state = BuildState::Off(reason);
    }

    pub fn observe(&mut self, event: BuildEvent)
        ensures
            final(self)@ == observe_spec(old(self)@, event),
    {
        let ghost seen = event;
        self.state = match event {
            BuildEvent::Started => BuildState::Building,
            BuildEvent::Succeeded { duration } => {
                self.last_duration = Some(duration);
                self.diagnostics.clear();
                BuildState::Succeeded
            },
            BuildEvent::Failed { diagnostics } => {
                self.diagnostics = diagnostics;
                BuildState::Failed
            },
            BuildEvent::Unavailable { reason } => BuildState::Off(reason),
        };
        proof {
            assert(self@.diagnostics =~= observe_spec(old(self)@, seen).diagnostics);
        }
    }

    /// Reports `events` into the console and the status, in order, and says
    /// whether a script reload should run: when reloading by itself and a
    /// build among them succeeded.
    pub fn service(&mut self, events: Vec<BuildEvent>, log: &mut Vec<LogLine>, frame: u64) -> (reload: bool)
        ensures
            final(self)@ == observe_all(old(self)@, events@),
            final(log)@ == old(log)@ + stamped(messages_of(events@), frame),
            reload == (old(self).auto_reload && exists|i: int|
                0 <= i < events@.len() && #[trigger] events@[i] is Succeeded),
    {
        let ghost all = events@;
        let ghost start = *self;
        let ghost logged = log@;
        let mut reload = false;
        let mut rest = events;
        while rest.len() > 0
            invariant
                self.auto_reload == start.auto_reload,
                observe_all(start@, all) == observe_all(self@, rest@),
                logged + stamped(messages_of(all), frame) == log@ + stamped(messages_of(rest@), frame),
                (reload || (start.auto_reload && exists|i: int|
                    0 <= i < rest@.len() && #[trigger] rest@[i] is Succeeded)) == (start.auto_reload && exists|i: int|
                    0 <= i < all.len() && #[trigger] all[i] is Succeeded),
            decreases rest.len(),
        {
            let ghost before = rest@;
            let event = rest.remove(0);
            proof {
                assert(before[0] == event);
                assert(before.drop_first() =~= rest@);
            }
            event.log_into(log, frame);
            if self.auto_reload && matches!(event, BuildEvent::Succeeded { .. }) {
                reload = true;
            }
            self.observe(event);
            proof {
                assert(messages_of(before) == event_messages(event) + messages_of(rest@));
                assert(stamped(messages_of(before), frame) =~= stamped(event_messages(event), frame) + stamped(
                    messages_of(rest@),
                    frame,
                ));
                assert(logged + stamped(messages_of(all), frame) =~= log@ + stamped(messages_of(rest@), frame));
                if start.auto_reload {
                    if event is Succeeded {
                        assert(before[0] is Succeeded);
                    } else {
                        assert forall|i: int| 0 <= i < before.len() && #[trigger] before[i] is Succeeded implies 0 < i
                            && rest@[i - 1] is Succeeded by {
                            if i == 0 {
                                assert(before[i] == event);
                            } else {
                                assert(before[i] == rest@[i - 1]);
                            }
                        }
                        assert forall|i: int| 0 <= i < rest@.len() && #[trigger] rest@[i] is Succeeded implies before[i
                            + 1] is Succeeded by {
                            assert(before[i + 1] == rest@[i]);
                        }
                    }
                }
            }
        }
        proof {
            assert(stamped(messages_of(rest@), frame) =~= Seq::<LogLine>::empty());
            assert(log@ + Seq::<LogLine>::empty() =~= log@);
        }
        reload
    }
}

/// The watcher's two clocks, in nanoseconds: when the scripts last changed,
/// while a rebuild waits for quiet, and when the build in flight started.
pub struct Debounce {
    pub pending_since: Option<u64>,
    pub building_since: Option<u64>,
}

/// What one poll of the watcher decided.
#[derive(Clone, Copy, PartialEq, Eq, Structural, Debug)]
pub struct PollStep {
    /// How long the build whose result arrived took, if one did.
    pub finished_after: Option<u64>,
    /// Whether a rebuild starts now.
    pub start_build: bool,
}

impl Debounce {
    pub fn new() -> (r: Self)
        ensures
            r.pending_since is None,
            r.building_since is None,
    {
        Debounce { pending_since: None, building_since: None }
    }

    /// One poll at time `now`. `changed` says whether a source changed since
    /// the last poll, `finished` whether a build's result arrived.
    ///
    /// A change pushes the quiet period forward rather than starting a second
    /// timer, so a burst of saves compiles once, after the last of them. The
    /// pending change survives a build in flight, so changes saved while the
    /// compiler ran start the next build the moment this one lands, in the
    /// same poll.
    pub fn poll(&mut self, changed: bool, finished: bool, now: u64) -> (r: PollStep)
        ensures
            ({
                let pending = if changed {
                    Some(now)
                } else {
                    old(self).pending_since
                };
                let building = if finished {
                    None
                } else {
                    old(self).building_since
                };
                &&& r.finished_after == if finished {
                    Some(
                        match old(self).building_since {
                            Some(t) => if now >= t {
                                (now - t) as u64
                            } else {
                                0
                            },
                            None => 0,
                        },
                    )
                } else {
                    None
                }
                &&& r.start_build == (building is None && pending is Some && now >= pending->Some_0 && now
                    - pending->Some_0 >= DEBOUNCE_NS)
                &&& final(self).pending_since == if r.start_build {
                    None
                } else {
                    pending
                }
                &&& final(self).building_since == if r.start_build {
                    Some(now)
                } else {
                    building
                }
            }),
    {
        if changed {
            self.pending_since = Some(now);
        }
        let mut finished_after = None;
        if finished {
            let elapsed = match self.building_since {
                Some(t) => now.saturating_sub(t),
                None => 0,
            };
            self.building_since = None;
            finished_after = Some(elapsed);
        }
        let mut start_build = false;
        if self.building_since.is_none() {
            if let Some(since) = self.pending_since {
                if now >= since && now - since >= DEBOUNCE_NS {
                    self.pending_since = None;
                    self.building_since = Some(now);
                    start_build = true;
                }
            }
        }
        PollStep { finished_after, start_build }
    }
}

} // verus!
