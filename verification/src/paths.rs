//! Path rules of the plugin host, on paths written as text the way
//! `std::path::Path` reads them: on Unix `/` separates components and a
//! leading `/` makes a path absolute; on Windows `\` separates them too, and a
//! drive (`C:`) or a network prefix (`\\server`) begins an absolute path.
//! Which relative sidecar paths are safe, how paths are joined, where a
//! sidecar executable is looked for, and how paths are ordered.
use vstd::prelude::*;

use crate::error::Error;
use crate::text::{chars_of, string_of, string_of_range, trim_range, trim_s};

verus! {

/// Whether `c` separates components: `/`, and on Windows also `\`.
pub open spec fn is_sep(windows: bool, c: char) -> bool {
    c == '/' || (windows && c == '\\')
}

fn is_sep_exec(windows: bool, c: char) -> (r: bool)
    ensures
        r == is_sep(windows, c),
{
    c == '/' || (windows && c == '\\')
}

/// The separator a join puts between two paths.
pub open spec fn sep_char(windows: bool) -> char {
    if windows {
        '\\'
    } else {
        '/'
    }
}

/// Whether `p` begins with a drive such as `C:`.
pub open spec fn has_drive(p: Seq<char>) -> bool {
    p.len() >= 2 && (('a' <= p[0] <= 'z') || ('A' <= p[0] <= 'Z')) && p[1] == ':'
}

/// Whether `p` is absolute, as `Path::is_absolute` reads it: on Unix it
/// starts with `/`; on Windows it starts with a drive and a separator
/// (`C:\x`), or with two separators (a network or verbatim prefix).
pub open spec fn is_absolute_on(windows: bool, p: Seq<char>) -> bool {
    if windows {
        (has_drive(p) && p.len() >= 3 && is_sep(true, p[2])) || (p.len() >= 2 && is_sep(true, p[0])
            && is_sep(true, p[1]))
    } else {
        p.len() > 0 && p[0] == '/'
    }
}

/// Whether `p` is absolute on Unix.
pub open spec fn is_absolute_spec(p: Seq<char>) -> bool {
    is_absolute_on(false, p)
}

pub fn is_absolute_exec(windows: bool, v: &Vec<char>) -> (r: bool)
    ensures
        r == is_absolute_on(windows, v@),
{
    if windows {
        let n = v.len();
        (n >= 3 && (('a' <= v[0] && v[0] <= 'z') || ('A' <= v[0] && v[0] <= 'Z')) && v[1] == ':'
            && is_sep_exec(true, v[2])) || (n >= 2 && is_sep_exec(true, v[0]) && is_sep_exec(true, v[1]))
    } else {
        v.len() > 0 && v[0] == '/'
    }
}

/// `p[i..j]` is a whole component of `p`.
pub open spec fn is_component_on(windows: bool, p: Seq<char>, i: int, j: int) -> bool {
    &&& 0 <= i <= j <= p.len()
    &&& (i == 0 || is_sep(windows, p[i - 1]))
    &&& (j == p.len() || is_sep(windows, p[j]))
    &&& forall|k: int| i <= k < j ==> !is_sep(windows, #[trigger] p[k])
}

/// `p[i..j]` is a whole component of `p` on Unix.
pub open spec fn is_component(p: Seq<char>, i: int, j: int) -> bool {
    is_component_on(false, p, i, j)
}

/// `p` has a `..` component.
pub open spec fn has_parent_component_on(windows: bool, p: Seq<char>) -> bool {
    exists|i: int, j: int| is_component_on(windows, p, i, j) && p.subrange(i, j) == seq!['.', '.']
}

/// `p` has a `..` component on Unix.
pub open spec fn has_parent_component(p: Seq<char>) -> bool {
    has_parent_component_on(false, p)
}

/// A relative path that cannot leave the directory it is joined to: not
/// empty, without a root (a leading separator), without a drive on Windows,
/// and without a `..` component. Absolute paths are among those refused.
pub open spec fn safe_relative_on(windows: bool, p: Seq<char>) -> bool {
    p.len() > 0 && !is_sep(windows, p[0]) && !(windows && has_drive(p)) && !has_parent_component_on(
        windows,
        p,
    )
}

/// A safe relative path on Unix.
pub open spec fn safe_relative_spec(p: Seq<char>) -> bool {
    safe_relative_on(false, p)
}

/// Whether `path` is a relative path that stays inside the directory it is
/// joined to, by the path rules of Windows where `windows` holds, else of
/// Unix.
pub fn is_safe_relative_sidecar_path(path: &str, windows: bool) -> (r: bool)
    ensures
        r == safe_relative_on(windows, path@),
{
    let v = chars_of(path);
    if v.len() == 0 || is_sep_exec(windows, v[0]) {
        return false;
    }
    if windows && v.len() >= 2 && (('a' <= v[0] && v[0] <= 'z') || ('A' <= v[0] && v[0] <= 'Z'))
        && v[1] == ':' {
        return false;
    }
    !has_parent_component_exec(windows, &v)
}

/// Whether `path` has a `..` component, by the path rules of Windows where
/// `windows` holds, else of Unix.
pub fn has_parent_component_exec(windows: bool, v: &Vec<char>) -> (r: bool)
    ensures
        r == has_parent_component_on(windows, v@),
{
    let mut start: usize = 0;
    let mut i: usize = 0;
    while i < v.len()
        invariant
            0 <= start <= i <= v@.len(),
            start == 0 || is_sep(windows, v@[start - 1]),
            forall|k: int| start <= k < i ==> !is_sep(windows, #[trigger] v@[k]),
            forall|a: int, b: int|
                #![trigger is_component_on(windows, v@, a, b)]
                is_component_on(windows, v@, a, b) && b < i ==> v@.subrange(a, b) != seq!['.', '.'],
        decreases v@.len() - i,
    {
        if is_sep_exec(windows, v[i]) {
            if is_parent_segment(windows, v, start, i) {
                return true;
            }
            start = i + 1;
        }
        proof {
            assert forall|a: int, b: int|
                #![trigger is_component_on(windows, v@, a, b)]
                is_component_on(windows, v@, a, b) && b < i + 1 implies v@.subrange(a, b) != seq!['.', '.'] by {
                if b == i {
                    if !is_sep(windows, v@[i as int]) {
                    }
                }
            }
        }
        i = i + 1;
    }
    if is_parent_segment(windows, v, start, v.len()) {
        return true;
    }
    false
}

/// Whether `v[start..end]`, the component that ends at `end`, is `..`; where it
/// is not, no component ends at `end` as `..`.
fn is_parent_segment(windows: bool, v: &Vec<char>, start: usize, end: usize) -> (r: bool)
    requires
        start <= end <= v@.len(),
        start == 0 || is_sep(windows, v@[start - 1]),
        forall|k: int| start <= k < end ==> !is_sep(windows, #[trigger] v@[k]),
        end == v@.len() || is_sep(windows, v@[end as int]),
    ensures
        r ==> is_component_on(windows, v@, start as int, end as int) && v@.subrange(
            start as int,
            end as int,
        ) == seq!['.', '.'],
        !r ==> forall|a: int|
            #![trigger is_component_on(windows, v@, a, end as int)]
            is_component_on(windows, v@, a, end as int) ==> v@.subrange(a, end as int) != seq![
                '.',
                '.',
            ],
{
    if end - start == 2 && v[start] == '.' && v[start + 1] == '.' {
        assert(v@.subrange(start as int, end as int) =~= seq!['.', '.']);
        return true;
    }
    proof {
        assert forall|a: int|
            #![trigger is_component_on(windows, v@, a, end as int)]
            is_component_on(windows, v@, a, end as int) implies v@.subrange(a, end as int) != seq![
                '.',
                '.',
            ] by {
            if a < start {
                assert(is_sep(windows, v@[start - 1]));
            } else if a > start {
                assert(!is_sep(windows, v@[a - 1]));
            } else if v@.subrange(a, end as int) == seq!['.', '.'] {
                assert(v@.subrange(a, end as int).len() == 2);
                assert(v@[a] == v@.subrange(a, end as int)[0]);
                assert(v@[a + 1] == v@.subrange(a, end as int)[1]);
            }
        }
    }
    false
}

/// `base.join(rel)` for a `rel` without a root: `rel` itself where it is
/// absolute, else `base`, a separator where `base` is not empty and does not
/// end in one, then `rel`.
pub open spec fn join_on(windows: bool, base: Seq<char>, rel: Seq<char>) -> Seq<char> {
    if is_absolute_on(windows, rel) {
        rel
    } else if base.len() == 0 || is_sep(windows, base.last()) {
        base + rel
    } else {
        base + seq![sep_char(windows)] + rel
    }
}

/// `base.join(rel)` on Unix.
pub open spec fn join_spec(base: Seq<char>, rel: Seq<char>) -> Seq<char> {
    join_on(false, base, rel)
}

/// Joins a path onto a base path, by the rules of Windows where `windows`
/// holds, else of Unix.
pub fn join_path_on(windows: bool, base: &str, rel: &str) -> (r: String)
    ensures
        r@ == join_on(windows, base@, rel@),
{
    let b = chars_of(base);
    let rv = chars_of(rel);
    if is_absolute_exec(windows, &rv) {
        return String::from_str(rel);
    }
    let mut v = b;
    if !(v.len() == 0 || is_sep_exec(windows, v[v.len() - 1])) {
        if windows {
            v.push('\\');
        } else {
            v.push('/');
        }
    }
    let mut i: usize = 0;
    let ghost head = v@;
    while i < rv.len()
        invariant
            i <= rv@.len(),
            v@ == head + rv@.take(i as int),
        decreases rv@.len() - i,
    {
        v.push(rv[i]);
        i = i + 1;
        assert(v@ =~= head + rv@.take(i as int));
    }
    assert(rv@.take(rv@.len() as int) =~= rv@);
    let r = string_of(&v);
    assert(r@ =~= join_on(windows, base@, rel@));
    r
}

/// Joins a path onto a base path on Unix.
pub fn join_path(base: &str, rel: &str) -> (r: String)
    ensures
        r@ == join_spec(base@, rel@),
{
    join_path_on(false, base, rel)
}

/// Where the last component of `p` begins: just after its last separator,
/// or 0.
pub open spec fn name_start(windows: bool, p: Seq<char>) -> int
    decreases p.len(),
{
    if p.len() == 0 {
        0
    } else if is_sep(windows, p.last()) {
        p.len() as int
    } else {
        name_start(windows, p.drop_last())
    }
}

/// `s` without the separators it ends in.
pub open spec fn trim_seps_end(windows: bool, s: Seq<char>) -> Seq<char>
    decreases s.len(),
{
    if s.len() > 0 && is_sep(windows, s.last()) {
        trim_seps_end(windows, s.drop_last())
    } else {
        s
    }
}

/// The text after the last separator of `p`.
pub open spec fn last_name(windows: bool, p: Seq<char>) -> Seq<char> {
    p.subrange(name_start(windows, p), p.len() as int)
}

/// The text before the last component of `p`, without the separators it
/// ends in (empty for a single name).
pub open spec fn parent_text(windows: bool, p: Seq<char>) -> Seq<char> {
    let k = name_start(windows, p);
    if k == 0 {
        Seq::empty()
    } else {
        trim_seps_end(windows, p.subrange(0, k - 1))
    }
}

/// A file name without an extension: no `.` after its first character.
pub open spec fn has_no_extension(name: Seq<char>) -> bool {
    forall|k: int| 0 < k < name.len() ==> name[k] != '.'
}

/// Whether Windows also looks for `<name>.exe`: the executable's last name
/// is a file name without an extension.
pub open spec fn gets_exe_fallback(exe: Seq<char>) -> bool {
    let name = last_name(true, exe);
    name.len() > 0 && name != seq!['.'] && has_no_extension(name)
}

/// `dir` joined with `parent` where there is one (Windows).
pub open spec fn under_parent(dir: Seq<char>, parent: Seq<char>) -> Seq<char> {
    if parent.len() == 0 {
        dir
    } else {
        join_on(true, dir, parent)
    }
}

/// The `.exe` places Windows looks at for a relative executable without an
/// extension: `<name>.exe` beside it under the plugin root, then under `bin`.
pub open spec fn exe_fallbacks(plugin_root: Seq<char>, exe: Seq<char>) -> Seq<Seq<char>> {
    let parent = parent_text(true, exe);
    let exe_name = last_name(true, exe) + ".exe"@;
    seq![
        join_on(true, under_parent(plugin_root, parent), exe_name),
        join_on(true, under_parent(join_on(true, plugin_root, "bin"@), parent), exe_name),
    ]
}

/// Where a sidecar executable may be, in the order it is looked for, or why
/// the name is refused: blank names and unsafe relative paths are refused; an
/// absolute path is its only candidate; a relative one is looked for under
/// the plugin root, then under its `bin` directory, and on Windows, where its
/// name has no extension, then as `<name>.exe` in those two places.
pub open spec fn executable_candidates_on(windows: bool, plugin_root: Seq<char>, raw: Seq<char>) -> Option<
    Seq<Seq<char>>,
> {
    let exe = trim_s(raw);
    if exe.len() == 0 {
        None
    } else if is_absolute_on(windows, exe) {
        Some(seq![exe])
    } else if !safe_relative_on(windows, exe) {
        None
    } else {
        let plain = seq![
            join_on(windows, plugin_root, exe),
            join_on(windows, join_on(windows, plugin_root, "bin"@), exe),
        ];
        if windows && gets_exe_fallback(exe) {
            Some(plain + exe_fallbacks(plugin_root, exe))
        } else {
            Some(plain)
        }
    }
}

pub open spec fn strings_view(v: Seq<String>) -> Seq<Seq<char>> {
    v.map_values(|s: String| s@)
}

fn name_start_exec(windows: bool, v: &Vec<char>) -> (r: usize)
    ensures
        r == name_start(windows, v@),
        r <= v@.len(),
{
    let mut i: usize = v.len();
    assert(v@.take(i as int) =~= v@);
    while i > 0
        invariant
            i <= v@.len(),
            name_start(windows, v@) == name_start(windows, v@.take(i as int)),
        decreases i,
    {
        assert(v@.take(i as int).drop_last() =~= v@.take(i - 1));
        assert(v@.take(i as int).last() == v@[i - 1]);
        if is_sep_exec(windows, v[i - 1]) {
            return i;
        }
        i = i - 1;
    }
    assert(v@.take(0) =~= Seq::<char>::empty());
    0
}

/// Where `v[..hi]` ends once the separators it ends in are dropped.
fn trim_seps_end_exec(windows: bool, v: &Vec<char>, hi: usize) -> (r: usize)
    requires
        hi <= v@.len(),
    ensures
        r <= hi,
        trim_seps_end(windows, v@.subrange(0, hi as int)) == v@.subrange(0, r as int),
{
    let mut m: usize = hi;
    while m > 0 && is_sep_exec(windows, v[m - 1])
        invariant
            m <= hi <= v@.len(),
            trim_seps_end(windows, v@.subrange(0, hi as int)) == trim_seps_end(
                windows,
                v@.subrange(0, m as int),
            ),
        decreases m,
    {
        assert(v@.subrange(0, m as int).drop_last() =~= v@.subrange(0, m - 1));
        assert(v@.subrange(0, m as int).last() == v@[m - 1]);
        m = m - 1;
    }
    if m > 0 {
        assert(v@.subrange(0, m as int).last() == v@[m - 1]);
    }
    m
}

/// Whether no `.` stands in `v` from `from` on.
fn no_dot_from(v: &Vec<char>, from: usize) -> (r: bool)
    ensures
        r == forall|q: int| from <= q < v@.len() ==> v@[q] != '.',
{
    let mut j: usize = from;
    while j < v.len()
        invariant
            from <= j,
            forall|q: int| from <= q < j && q < v@.len() ==> v@[q] != '.',
        decreases v@.len() - j,
    {
        if v[j] == '.' {
            return false;
        }
        j = j + 1;
    }
    true
}

/// Joins `parent` (where it is not empty) and then `name` onto `dir`, on
/// Windows.
fn join_under(dir: &str, parent: &str, name: &str) -> (r: String)
    ensures
        r@ == join_on(true, under_parent(dir@, parent@), name@),
{
    if parent.unicode_len() == 0 {
        join_path_on(true, dir, name)
    } else {
        let d = join_path_on(true, dir, parent);
        join_path_on(true, d.as_str(), name)
    }
}

/// The paths at which the sidecar executable `raw_executable` of a plugin
/// rooted at `plugin_root` is looked for, by the path rules of Windows where
/// `windows` holds, else of Unix.
pub fn sidecar_executable_candidates(plugin_root: &str, raw_executable: &str, windows: bool) -> (r: Result<
    Vec<String>,
    Error,
>)
    ensures
        match r {
            Ok(c) => executable_candidates_on(windows, plugin_root@, raw_executable@) == Some(
                strings_view(c@),
            ),
            Err(e) => executable_candidates_on(windows, plugin_root@, raw_executable@) is None
                && (e matches Error::InvalidInput { message } && message@ == if trim_s(
                raw_executable@,
            ).len() == 0 {
                "sidecar executable is empty"@
            } else {
                "sidecar executable relative path is unsafe: "@ + trim_s(raw_executable@)
            }),
        },
{
    let v = chars_of(raw_executable);
    let (a, b) = trim_range(&v, 0, v.len());
    assert(v@.subrange(0, v@.len() as int) =~= v@);
    let exe = string_of_range(&v, a, b);
    if a == b {
        return Err(Error::invalid_input("sidecar executable is empty"));
    }
    let ev = chars_of(exe.as_str());
    if is_absolute_exec(windows, &ev) {
        let mut c: Vec<String> = Vec::new();
        c.push(exe);
        assert(strings_view(c@) =~= seq![trim_s(raw_executable@)]);
        return Ok(c);
    }
    if !is_safe_relative_sidecar_path(exe.as_str(), windows) {
        let msg = String::from_str("sidecar executable relative path is unsafe: ").concat(
            exe.as_str(),
        );
        return Err(Error::invalid_input_owned(msg));
    }
    let bin = join_path_on(windows, plugin_root, "bin");
    let first = join_path_on(windows, plugin_root, exe.as_str());
    let second = join_path_on(windows, bin.as_str(), exe.as_str());
    let mut c: Vec<String> = Vec::new();
    c.push(first);
    c.push(second);
    let ghost x = trim_s(raw_executable@);
    let ghost plain = seq![
        join_on(windows, plugin_root@, x),
        join_on(windows, join_on(windows, plugin_root@, "bin"@), x),
    ];
    assert(strings_view(c@) =~= plain);
    if windows {
        let n = ev.len();
        let k = name_start_exec(true, &ev);
        let plain_name = k < n && !(k + 1 == n && ev[k] == '.') && no_dot_from(&ev, k + 1);
        let ghost name = last_name(true, x);
        assert(name =~= ev@.subrange(k as int, n as int));
        proof {
            if plain_name {
                assert(name.len() > 0);
                assert forall|q: int| 0 < q < name.len() implies name[q] != '.' by {
                    assert(name[q] == ev@[k + q]);
                }
                if name == seq!['.'] {
                    assert(name[0] == ev@[k as int]);
                }
            } else if name.len() > 0 && name != seq!['.'] {
                if k + 1 == n && ev@[k as int] == '.' {
                    assert(name =~= seq!['.']);
                }
                let q = choose|q: int| k + 1 <= q < n && ev@[q] == '.';
                assert(name[q - k] == ev@[q]);
            }
        }
        if plain_name {
            let pend: usize = if k == 0 {
                0
            } else {
                trim_seps_end_exec(true, &ev, k - 1)
            };
            let parent = string_of_range(&ev, 0, pend);
            let exe_name = string_of_range(&ev, k, n).concat(".exe");
            assert(parent@ =~= parent_text(true, x));
            assert(exe_name@ =~= last_name(true, x) + ".exe"@);
            let third = join_under(plugin_root, parent.as_str(), exe_name.as_str());
            let fourth = join_under(bin.as_str(), parent.as_str(), exe_name.as_str());
            c.push(third);
            c.push(fourth);
            assert(strings_view(c@) =~= plain + exe_fallbacks(plugin_root@, x));
        }
    }
    Ok(c)
}

/// The first candidate that is a file, or the error that names what was looked
/// for. `is_file[i]` tells whether `candidates[i]` is a file.
pub fn pick_sidecar_executable(
    plugin_root: &str,
    raw_executable: &str,
    candidates: &Vec<String>,
    is_file: &Vec<bool>,
    windows: bool,
) -> (r: Result<String, Error>)
    requires
        candidates@.len() == is_file@.len(),
    ensures
        match r {
            Ok(p) => exists|i: int|
                0 <= i < candidates@.len() && is_file@[i] && candidates@[i]@ == p@ && forall|j: int|
                    0 <= j < i ==> !is_file@[j],
            Err(e) => (forall|i: int| 0 <= i < candidates@.len() ==> !is_file@[i]) && (e matches Error::NotFound {
                what,
                detail,
            } && what@ == "sidecar executable"@ && detail@ == if is_absolute_on(
                windows,
                trim_s(raw_executable@),
            ) {
                trim_s(raw_executable@)
            } else {
                trim_s(raw_executable@) + " (searched under plugin root `"@ + plugin_root@
                    + "` and `bin/`)"@
            }),
        },
{
    let mut i: usize = 0;
    while i < candidates.len()
        invariant
            0 <= i <= candidates@.len(),
            candidates@.len() == is_file@.len(),
            forall|j: int| 0 <= j < i ==> !is_file@[j],
        decreases candidates@.len() - i,
    {
        if is_file[i] {
            return Ok(candidates[i].clone());
        }
        i = i + 1;
    }
    let exe = crate::text::trim_string(raw_executable);
    let ev = chars_of(exe.as_str());
    if is_absolute_exec(windows, &ev) {
        return Err(Error::not_found("sidecar executable", exe));
    }
    let detail = exe.concat(" (searched under plugin root `").concat(plugin_root).concat(
        "` and `bin/`)",
    );
    Err(Error::not_found("sidecar executable", detail))
}

/// The key of a named component (neither empty nor `.`): `..` is a parent
/// component, anything else a normal one. The first character stands for
/// the kind, in the order `Path` compares kinds (root, current, parent,
/// normal); a normal component's text follows.
pub open spec fn part_key(seg: Seq<char>) -> Seq<char> {
    if seg == seq!['.', '.'] {
        seq!['\u{3}']
    } else {
        seq!['\u{4}'] + seg
    }
}

/// `acc` with the segment `cur` added, where it names a component.
pub open spec fn flush_part(acc: Seq<Seq<char>>, cur: Seq<char>) -> Seq<Seq<char>> {
    if cur.len() == 0 || cur == seq!['.'] {
        acc
    } else {
        acc.push(part_key(cur))
    }
}

/// The keys of the named components of `s` after `acc`, with `cur` the
/// segment read so far: `/` ends a segment; empty and `.` segments name none.
pub open spec fn split_parts(s: Seq<char>, acc: Seq<Seq<char>>, cur: Seq<char>) -> Seq<Seq<char>>
    decreases s.len(),
{
    if s.len() == 0 {
        flush_part(acc, cur)
    } else if s[0] == '/' {
        split_parts(s.drop_first(), flush_part(acc, cur), Seq::empty())
    } else {
        split_parts(s.drop_first(), acc, cur.push(s[0]))
    }
}

/// The components of `p` as `Path::components` gives them, one key each: a
/// root first where `p` is absolute, a current-directory component where a
/// relative `p` starts with `.` as its own component, then the named ones.
/// Comparing these lists with `seqs_lt` orders paths as `Path` does.
pub open spec fn path_order_key(p: Seq<char>) -> Seq<Seq<char>> {
    let root: Seq<Seq<char>> = if is_absolute_spec(p) {
        seq![seq!['\u{1}']]
    } else {
        Seq::empty()
    };
    let cur: Seq<Seq<char>> = if !is_absolute_spec(p) && p.len() > 0 && p[0] == '.' && (p.len() == 1
        || p[1] == '/') {
        seq![seq!['\u{2}']]
    } else {
        Seq::empty()
    };
    root + cur + split_parts(p, Seq::empty(), Seq::empty())
}

fn flush_part_exec(acc: &mut Vec<String>, cur: &Vec<char>)
    ensures
        strings_view(final(acc)@) == flush_part(strings_view(old(acc)@), cur@),
{
    if cur.len() == 0 || (cur.len() == 1 && cur[0] == '.') {
        assert(cur@.len() == 1 ==> cur@ =~= seq!['.']);
        return;
    }
    assert(cur@ != seq!['.']) by {
        if cur@ == seq!['.'] {
            assert(cur@.len() == 1 && cur@[0] == '.');
        }
    }
    let mut k: Vec<char> = Vec::new();
    if cur.len() == 2 && cur[0] == '.' && cur[1] == '.' {
        k.push('\u{3}');
        assert(cur@ =~= seq!['.', '.']);
        assert(k@ =~= part_key(cur@));
    } else {
        assert(cur@ != seq!['.', '.']) by {
            if cur@ == seq!['.', '.'] {
                assert(cur@.len() == 2 && cur@[0] == '.' && cur@[1] == '.');
            }
        }
        k.push('\u{4}');
        let mut i: usize = 0;
        while i < cur.len()
            invariant
                i <= cur@.len(),
                k@ == seq!['\u{4}'] + cur@.take(i as int),
            decreases cur@.len() - i,
        {
            k.push(cur[i]);
            i = i + 1;
            assert(k@ =~= seq!['\u{4}'] + cur@.take(i as int));
        }
        assert(cur@.take(cur@.len() as int) =~= cur@);
    }
    let ghost before = strings_view(acc@);
    let t = string_of(&k);
    acc.push(t);
    assert(strings_view(acc@) =~= before.push(part_key(cur@)));
}

/// The component keys of `p` (see `path_order_key`).
pub fn path_order_parts(p: &str) -> (r: Vec<String>)
    ensures
        strings_view(r@) == path_order_key(p@),
{
    let v = chars_of(p);
    let n = v.len();
    let mut acc: Vec<String> = Vec::new();
    let mut cur: Vec<char> = Vec::new();
    let mut i: usize = 0;
    assert(v@.skip(0) =~= v@);
    assert(strings_view(acc@) =~= Seq::<Seq<char>>::empty());
    assert(cur@ =~= Seq::<char>::empty());
    while i < n
        invariant
            i <= n == v@.len(),
            v@ == p@,
            split_parts(v@, Seq::empty(), Seq::empty()) == split_parts(v@.skip(i as int), strings_view(acc@), cur@),
        decreases n - i,
    {
        assert(v@.skip(i as int)[0] == v@[i as int]);
        assert(v@.skip(i as int).drop_first() =~= v@.skip(i + 1));
        if v[i] == '/' {
            flush_part_exec(&mut acc, &cur);
            cur = Vec::new();
            assert(cur@ =~= Seq::<char>::empty());
        } else {
            cur.push(v[i]);
        }
        i = i + 1;
    }
    assert(v@.skip(n as int) =~= Seq::<char>::empty());
    flush_part_exec(&mut acc, &cur);
    let mut out: Vec<String> = Vec::new();
    if n > 0 && v[0] == '/' {
        let mut k: Vec<char> = Vec::new();
        k.push('\u{1}');
        out.push(string_of(&k));
        assert(strings_view(out@) =~= seq![seq!['\u{1}']]);
    } else if n > 0 && v[0] == '.' && (n == 1 || v[1] == '/') {
        let mut k: Vec<char> = Vec::new();
        k.push('\u{2}');
        out.push(string_of(&k));
        assert(strings_view(out@) =~= seq![seq!['\u{2}']]);
    } else {
        assert(strings_view(out@) =~= Seq::<Seq<char>>::empty());
    }
    let ghost head = strings_view(out@);
    let mut j: usize = 0;
    while j < acc.len()
        invariant
            j <= acc@.len(),
            strings_view(out@) == head + strings_view(acc@).take(j as int),
        decreases acc@.len() - j,
    {
        let ghost before = strings_view(out@);
        let t = String::from_str(acc[j].as_str());
        assert(t@ == acc@[j as int]@);
        out.push(t);
        assert(strings_view(out@) =~= before.push(acc@[j as int]@));
        assert(strings_view(acc@).take(j + 1) =~= strings_view(acc@).take(j as int).push(acc@[j as int]@));
        j = j + 1;
        assert(strings_view(out@) =~= head + strings_view(acc@).take(j as int));
    }
    proof {
        assert(strings_view(acc@).take(acc@.len() as int) =~= strings_view(acc@));
        let root: Seq<Seq<char>> = if is_absolute_spec(p@) {
            seq![seq!['\u{1}']]
        } else {
            Seq::empty()
        };
        let cu: Seq<Seq<char>> = if !is_absolute_spec(p@) && p@.len() > 0 && p@[0] == '.' && (p@.len() == 1
            || p@[1] == '/') {
            seq![seq!['\u{2}']]
        } else {
            Seq::empty()
        };
        assert(head =~= root + cu);
    }
    out
}

} // verus!
