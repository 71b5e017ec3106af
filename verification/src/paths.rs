//! Filesystem paths as text. A path is a `String`; joining follows
//! `Path::join` for the separators of the platform: a relative part is
//! appended after one separator, an absolute part replaces the path.
use vstd::prelude::*;
use crate::platform::{Platform};
use crate::text::{Sep, append_chars, char_is_alpha, chars_of, eq_str, is_alpha, lemma_split_nonempty, non_empty, replace_char, replace_char_chars, slice_chars, split, split_chars, string_of, views};

verus! {

/// A path separator on `platform` (`'/'` everywhere, `'\\'` on Windows too).
pub open spec fn is_path_sep(c: char, platform: Platform) -> bool {
    c == '/' || (platform == Platform::Windows && c == '\\')
}

/// The separator `Path::join` inserts.
pub open spec fn main_sep(platform: Platform) -> char {
    match platform {
        Platform::Windows => '\\',
        Platform::Unix => '/',
    }
}

/// A part that replaces the path it is joined to: one that starts with a
/// separator, or on Windows one that starts with a drive (`C:`).
pub open spec fn is_absolute(part: Seq<char>, platform: Platform) -> bool {
    part.len() > 0 && (is_path_sep(part[0], platform) || (platform == Platform::Windows && part.len()
        >= 2 && is_alpha(part[0]) && part[1] == ':'))
}

/// `Path::join`.
pub open spec fn join_path(base: Seq<char>, part: Seq<char>, platform: Platform) -> Seq<char> {
    if is_absolute(part, platform) || base.len() == 0 {
        part
    } else if is_path_sep(base.last(), platform) {
        base + part
    } else {
        base.push(main_sep(platform)) + part
    }
}

/// Joins several parts in turn.
pub open spec fn join_all(base: Seq<char>, parts: Seq<Seq<char>>, platform: Platform) -> Seq<char>
    decreases parts.len(),
{
    if parts.len() == 0 {
        base
    } else {
        join_all(join_path(base, parts[0], platform), parts.drop_first(), platform)
    }
}

/// The non-empty pieces of `rel` between `/` and `\`.
pub open spec fn unix_parts(rel: Seq<char>) -> Seq<Seq<char>> {
    split(rel, Sep::Slashes).filter(|w: Seq<char>| w.len() > 0)
}

/// `join_unix`: `rel` split at both kinds of slash, each non-empty piece joined in turn.
pub open spec fn join_unix_spec(root: Seq<char>, rel: Seq<char>, platform: Platform) -> Seq<char> {
    join_all(root, unix_parts(rel), platform)
}

/// The path with every `\` turned into `/`.
pub open spec fn unix_spec(path: Seq<char>) -> Seq<char> {
    replace_char(path, '\\', '/')
}

pub fn is_path_sep_exec(c: char, platform: Platform) -> (r: bool)
    ensures
        r == is_path_sep(c, platform),
{
    c == '/' || (platform == Platform::Windows && c == '\\')
}

pub fn is_absolute_exec(part: &Vec<char>, platform: Platform) -> (r: bool)
    ensures
        r == is_absolute(part@, platform),
{
    part.len() > 0 && (is_path_sep_exec(part[0], platform) || (platform == Platform::Windows
        && part.len() >= 2 && char_is_alpha(part[0]) && part[1] == ':'))
}

/// `Path::join` on character vectors.
pub fn join_chars_path(base: &Vec<char>, part: &Vec<char>, platform: Platform) -> (r: Vec<char>)
    ensures
        r@ == join_path(base@, part@, platform),
{
    if is_absolute_exec(part, platform) || base.len() == 0 {
        slice_chars(part, 0, part.len())
    } else {
        let mut r = slice_chars(base, 0, base.len());
        if !is_path_sep_exec(base[base.len() - 1], platform) {
            r.push(
                match platform {
                    Platform::Windows => '\\',
                    Platform::Unix => '/',
                },
            );
        }
        append_chars(&mut r, part);
        r
    }
}

/// `Path::join` with a literal part.
pub fn join_lit(base: &Vec<char>, part: &str, platform: Platform) -> (r: Vec<char>)
    ensures
        r@ == join_path(base@, part@, platform),
{
    let p = chars_of(part);
    join_chars_path(base, &p, platform)
}

/// `Path::join` on strings.
pub fn join(base: &str, part: &str, platform: Platform) -> (r: String)
    ensures
        r@ == join_path(base@, part@, platform),
{
    let b = chars_of(base);
    let p = chars_of(part);
    let r = join_chars_path(&b, &p, platform);
    string_of(&r)
}

/// The path as text with forward slashes only, the form the generated
/// server configuration files use.
pub fn unix(path: &str) -> (r: String)
    ensures
        r@ == unix_spec(path@),
{
    let v = chars_of(path);
    let w = replace_char_chars(&v, '\\', '/');
    string_of(&w)
}

/// `root` with each piece of `rel` (split at `/` and `\`, empty pieces
/// dropped) joined in turn.
pub fn join_unix(root: &str, rel: &str, platform: Platform) -> (r: String)
    ensures
        r@ == join_unix_spec(root@, rel@, platform),
{
    let rv = chars_of(rel);
    let parts = split_chars(&rv, Sep::Slashes);
    let parts = non_empty(parts);
    let mut cur = chars_of(root);
    let mut i: usize = 0;
    assert(views(parts@).skip(0) == views(parts@));
    while i < parts.len()
        invariant
            i <= parts.len(),
            views(parts@) == unix_parts(rel@),
            join_all(cur@, views(parts@).skip(i as int), platform) == join_unix_spec(
                root@,
                rel@,
                platform,
            ),
        decreases parts.len() - i,
    {
        assert(views(parts@).skip(i as int)[0] == parts@[i as int]@);
        assert(views(parts@).skip(i as int).drop_first() == views(parts@).skip(i + 1));
        cur = join_chars_path(&cur, &parts[i], platform);
        i += 1;
    }
    string_of(&cur)
}

/// A file to write: its path and its whole new content.
#[derive(Clone, Debug)]
pub struct FileWrite {
    pub path: String,
    pub body: String,
}

pub open spec fn write_view(w: FileWrite) -> (Seq<char>, Seq<char>) {
    (w.path@, w.body@)
}

pub open spec fn writes_view(ws: Seq<FileWrite>) -> Seq<(Seq<char>, Seq<char>)> {
    ws.map_values(|w: FileWrite| write_view(w))
}

// ---------------------------------------------------------------------------
// Components
// ---------------------------------------------------------------------------

/// The separator characters of `platform`, as a split.
pub open spec fn sep_kind(platform: Platform) -> Sep {
    match platform {
        Platform::Windows => Sep::Slashes,
        Platform::Unix => Sep::Char('/'),
    }
}

/// The pieces of a path between separators.
pub open spec fn segments(p: Seq<char>, platform: Platform) -> Seq<Seq<char>> {
    split(p, sep_kind(platform))
}

/// A piece that is a component of its own: not empty and not `.`.
pub open spec fn named(x: Seq<char>) -> bool {
    x.len() > 0 && x != "."@
}

/// The path starts with a separator (`Component::RootDir`).
pub open spec fn has_root(p: Seq<char>, platform: Platform) -> bool {
    p.len() > 0 && is_path_sep(p[0], platform)
}

/// On Windows, a path that starts with a drive (`C:`) or with two
/// separators (a network or device path) has a `Component::Prefix`.
pub open spec fn has_prefix(p: Seq<char>, platform: Platform) -> bool {
    platform == Platform::Windows && p.len() >= 2 && ((is_alpha(p[0]) && p[1] == ':') || (
    is_path_sep(p[0], platform) && is_path_sep(p[1], platform)))
}

/// `Path::components` of a path without a prefix, each component as text:
/// `/` for the root, `.` for a leading current directory, `..` for a parent
/// directory, the piece itself otherwise. Empty pieces and other `.` pieces
/// are dropped.
/// The names a path leads through, without its root or a leading `.`:
/// its pieces between separators that are neither empty nor `.`.
pub open spec fn named_pieces(p: Seq<char>, platform: Platform) -> Seq<Seq<char>> {
    segments(p, platform).filter(|x: Seq<char>| named(x))
}

pub open spec fn components(p: Seq<char>, platform: Platform) -> Seq<Seq<char>> {
    let kept = named_pieces(p, platform);
    if has_root(p, platform) {
        seq!["/"@] + kept
    } else if segments(p, platform)[0] == "."@ {
        seq!["."@] + kept
    } else {
        kept
    }
}

/// `Component::Normal`.
pub open spec fn is_normal(c: Seq<char>) -> bool {
    c != "/"@ && c != "."@ && c != ".."@
}

fn sep_kind_exec(platform: Platform) -> (r: Sep)
    ensures
        r == sep_kind(platform),
{
    match platform {
        Platform::Windows => Sep::Slashes,
        Platform::Unix => Sep::Char('/'),
    }
}

/// The named pieces of a path.
pub fn named_pieces_chars(p: &Vec<char>, platform: Platform) -> (r: Vec<Vec<char>>)
    ensures
        views(r@) == named_pieces(p@, platform),
{
    let segs = split_chars(p, sep_kind_exec(platform));
    let ghost sv = views(segs@);
    let mut r: Vec<Vec<char>> = Vec::new();
    proof {
        reveal_strlit(".");
    }
    let mut i: usize = 0;
    while i < segs.len()
        invariant
            i <= segs.len(),
            sv == views(segs@),
            sv == segments(p@, platform),
            views(r@) == sv.take(i as int).filter(|x: Seq<char>| named(x)),
        decreases segs.len() - i,
    {
        proof {
            assert(sv.take(i + 1).drop_last() == sv.take(i as int));
            reveal(Seq::filter);
        }
        let keep = segs[i].len() > 0 && !eq_str(&segs[i], ".");
        if keep {
            let ghost old_r = r@;
            let w = slice_chars(&segs[i], 0, segs[i].len());
            assert(w@ == sv[i as int]);
            r.push(w);
            assert(views(r@) == views(old_r).push(sv[i as int]));
        }
        i += 1;
    }
    assert(sv.take(segs.len() as int) == sv);
    r
}

/// `Path::components` of a path without a prefix.
pub fn components_chars(p: &Vec<char>, platform: Platform) -> (r: Vec<Vec<char>>)
    requires
        !has_prefix(p@, platform),
    ensures
        views(r@) == components(p@, platform),
{
    let segs = split_chars(p, sep_kind_exec(platform));
    let root = p.len() > 0 && is_path_sep_exec(p[0], platform);
    proof {
        reveal_strlit("/");
        reveal_strlit(".");
    }
    assert(views(segs@).len() > 0) by {
        lemma_split_nonempty(p@, sep_kind(platform));
    }
    let mut r: Vec<Vec<char>> = Vec::new();
    if root {
        r.push(chars_of("/"));
    } else if eq_str(&segs[0], ".") {
        r.push(chars_of("."));
    }
    let kept = named_pieces_chars(p, platform);
    let ghost head = views(r@);
    let mut i: usize = 0;
    while i < kept.len()
        invariant
            i <= kept.len(),
            views(r@) == head + views(kept@).take(i as int),
        decreases kept.len() - i,
    {
        let ghost old_r = r@;
        let w = slice_chars(&kept[i], 0, kept[i].len());
        assert(w@ =~= views(kept@)[i as int]);
        r.push(w);
        assert(views(r@) == views(old_r).push(views(kept@)[i as int]));
        assert(views(kept@).take(i + 1) == views(kept@).take(i as int).push(views(kept@)[i as int]));
        i += 1;
    }
    assert(views(kept@).take(kept.len() as int) == views(kept@));
    r
}

// ---------------------------------------------------------------------------
// Parent folders
// ---------------------------------------------------------------------------

/// On Windows, a path that starts with two separators: a network or device
/// path, whose prefix rules are not modelled here.
pub open spec fn network_form(p: Seq<char>, platform: Platform) -> bool {
    platform == Platform::Windows && p.len() >= 2 && is_path_sep(p[0], platform) && is_path_sep(
        p[1],
        platform,
    )
}

/// The length of a drive prefix (`C:`), which only Windows has.
pub open spec fn drive_len(p: Seq<char>, platform: Platform) -> int {
    if platform == Platform::Windows && p.len() >= 2 && is_alpha(p[0]) && p[1] == ':' {
        2
    } else {
        0
    }
}

/// A separator right after the drive prefix (`Component::RootDir`).
pub open spec fn root_after_drive(p: Seq<char>, platform: Platform) -> bool {
    drive_len(p, platform) < p.len() && is_path_sep(p[drive_len(p, platform)], platform)
}

/// A leading `.` piece without a root (`Component::CurDir`).
pub open spec fn leading_cur_dir(p: Seq<char>, platform: Platform) -> bool {
    let d = drive_len(p, platform);
    &&& !root_after_drive(p, platform)
    &&& d < p.len()
    &&& p[d] == '.'
    &&& (p.len() == d + 1 || is_path_sep(p[d + 1], platform))
}

/// The length of what stands before the first named component: the drive,
/// then a root or a leading `.`.
pub open spec fn before_body(p: Seq<char>, platform: Platform) -> int {
    drive_len(p, platform) + if root_after_drive(p, platform) || leading_cur_dir(p, platform) {
        1int
    } else {
        0int
    }
}

/// Trailing separators and `.` pieces taken off.
pub open spec fn trim_junk(b: Seq<char>, platform: Platform) -> Seq<char>
    decreases b.len(),
{
    if b.len() == 0 {
        b
    } else if is_path_sep(b.last(), platform) || (b.last() == '.' && (b.len() == 1 || is_path_sep(
        b[b.len() - 2],
        platform,
    ))) {
        trim_junk(b.drop_last(), platform)
    } else {
        b
    }
}

/// The last piece (the characters after the last separator) taken off.
pub open spec fn drop_piece(b: Seq<char>, platform: Platform) -> Seq<char>
    decreases b.len(),
{
    if b.len() > 0 && !is_path_sep(b.last(), platform) {
        drop_piece(b.drop_last(), platform)
    } else {
        b
    }
}

/// `Path::parent` on `platform`: the path without its last named component
/// (and the separators and `.` pieces before it); `None` when it has none
/// but a drive or a root; the drive alone for a path that is just `.`.
pub open spec fn parent_of(p: Seq<char>, platform: Platform) -> Option<Seq<char>> {
    let d = before_body(p, platform);
    let t = trim_junk(p.skip(d), platform);
    if t.len() == 0 {
        if leading_cur_dir(p, platform) {
            Some(p.take(drive_len(p, platform)))
        } else {
            None
        }
    } else {
        Some(p.take(d) + trim_junk(drop_piece(t, platform), platform))
    }
}

fn junk_end(v: &Vec<char>, start: usize, end: usize, platform: Platform) -> (e: usize)
    requires
        start <= end <= v.len(),
    ensures
        start <= e <= end,
        v@.subrange(start as int, e as int) == trim_junk(v@.subrange(start as int, end as int), platform),
{
    let mut e = end;
    while e > start && (is_path_sep_exec(v[e - 1], platform) || (v[e - 1] == '.' && (e - 1 == start
        || is_path_sep_exec(v[e - 2], platform))))
        invariant
            start <= e <= end <= v.len(),
            trim_junk(v@.subrange(start as int, end as int), platform) == trim_junk(
                v@.subrange(start as int, e as int),
                platform,
            ),
        decreases e,
    {
        let ghost b = v@.subrange(start as int, e as int);
        assert(b.drop_last() =~= v@.subrange(start as int, e - 1));
        assert(b.last() == v@[e - 1]);
        if e - 1 > start {
            assert(b[b.len() - 2] == v@[e - 2]);
        }
        e -= 1;
    }
    proof {
        let b = v@.subrange(start as int, e as int);
        if e > start {
            assert(b.last() == v@[e - 1]);
            if e - 1 > start {
                assert(b[b.len() - 2] == v@[e - 2]);
            }
        }
    }
    e
}

fn piece_start(v: &Vec<char>, start: usize, end: usize, platform: Platform) -> (e: usize)
    requires
        start <= end <= v.len(),
    ensures
        start <= e <= end,
        v@.subrange(start as int, e as int) == drop_piece(v@.subrange(start as int, end as int), platform),
{
    let mut e = end;
    while e > start && !is_path_sep_exec(v[e - 1], platform)
        invariant
            start <= e <= end <= v.len(),
            drop_piece(v@.subrange(start as int, end as int), platform) == drop_piece(
                v@.subrange(start as int, e as int),
                platform,
            ),
        decreases e,
    {
        let ghost b = v@.subrange(start as int, e as int);
        assert(b.drop_last() =~= v@.subrange(start as int, e - 1));
        assert(b.last() == v@[e - 1]);
        e -= 1;
    }
    proof {
        let b = v@.subrange(start as int, e as int);
        if e > start {
            assert(b.last() == v@[e - 1]);
        }
    }
    e
}

/// `Path::parent` of `p` on `platform`, for a path that is not a Windows
/// network or device path.
pub fn parent_dir(p: &str, platform: Platform) -> (r: Option<String>)
    requires
        !network_form(p@, platform),
    ensures
        match r {
            Some(q) => parent_of(p@, platform) == Some(q@),
            None => parent_of(p@, platform) is None,
        },
{
    let v = chars_of(p);
    let dl: usize = if platform == Platform::Windows && v.len() >= 2 && char_is_alpha(v[0]) && v[1]
        == ':' {
        2
    } else {
        0
    };
    let root = dl < v.len() && is_path_sep_exec(v[dl], platform);
    let cur = !root && dl < v.len() && v[dl] == '.' && (v.len() == dl + 1 || is_path_sep_exec(
        v[dl + 1],
        platform,
    ));
    let d: usize = if root || cur {
        dl + 1
    } else {
        dl
    };
    assert(d as int == before_body(p@, platform));
    assert(v@.subrange(d as int, v.len() as int) =~= p@.skip(d as int));
    let e1 = junk_end(&v, d, v.len(), platform);
    if e1 == d {
        if cur {
            let w = slice_chars(&v, 0, dl);
            assert(w@ =~= p@.take(dl as int));
            Some(string_of(&w))
        } else {
            None
        }
    } else {
        let e2 = piece_start(&v, d, e1, platform);
        let e3 = junk_end(&v, d, e2, platform);
        let w = slice_chars(&v, 0, e3);
        assert(w@ =~= p@.take(d as int) + v@.subrange(d as int, e3 as int));
        Some(string_of(&w))
    }
}

/// Where the portable tree may be, in the order tried: the executable's
/// folder and up to four folders above it.
pub fn root_candidates(exe_dir: &str, platform: Platform) -> (r: Vec<String>)
    ensures
        r@.map_values(|s: String| s@) == seq![
            exe_dir@,
            join_path(exe_dir@, ".."@, platform),
            join_path(exe_dir@, "../.."@, platform),
            join_path(exe_dir@, "../../.."@, platform),
            join_path(exe_dir@, "../../../.."@, platform),
        ],
{
    let mut r: Vec<String> = Vec::new();
    r.push(exe_dir.to_string());
    r.push(join(exe_dir, "..", platform));
    r.push(join(exe_dir, "../..", platform));
    r.push(join(exe_dir, "../../..", platform));
    r.push(join(exe_dir, "../../../..", platform));
    assert(r@.map_values(|s: String| s@) =~= seq![
        exe_dir@,
        join_path(exe_dir@, ".."@, platform),
        join_path(exe_dir@, "../.."@, platform),
        join_path(exe_dir@, "../../.."@, platform),
        join_path(exe_dir@, "../../../.."@, platform),
    ]);
    r
}

/// A folder is the portable tree when one of these exists in it:
/// `usr/lax.toml` or `bin/apache`.
pub fn root_markers(dir: &str, platform: Platform) -> (r: Vec<String>)
    ensures
        r@.map_values(|s: String| s@) == seq![
            join_path(join_path(dir@, "usr"@, platform), "lax.toml"@, platform),
            join_path(join_path(dir@, "bin"@, platform), "apache"@, platform),
        ],
{
    let u = join(dir, "usr", platform);
    let b = join(dir, "bin", platform);
    let mut r: Vec<String> = Vec::new();
    r.push(join(u.as_str(), "lax.toml", platform));
    r.push(join(b.as_str(), "apache", platform));
    assert(r@.map_values(|s: String| s@) =~= seq![
        join_path(join_path(dir@, "usr"@, platform), "lax.toml"@, platform),
        join_path(join_path(dir@, "bin"@, platform), "apache"@, platform),
    ]);
    r
}

} // verus!
