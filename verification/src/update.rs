//! Self-update: comparing versions, reading a release, choosing its asset,
//! and deciding where each file of an update archive goes.
use vstd::prelude::*;
use crate::error::{LaxError, LaxResult, err_msg};
use crate::paths::{components, components_chars, has_prefix, has_root, is_normal, is_path_sep_exec, join, join_path, named, named_pieces, named_pieces_chars, segments, sep_kind};
use crate::platform::{Command, Platform, commands_view};
use crate::text::{CharSet, Sep, all_digits, append_chars, append_str, char_is_alpha, chars_eq, chars_of, contains, contains_str, digits_value, ends_with, ends_with_str, eq_str, is_digit, is_sep, join_chars, join_seq, lemma_filter_in, lemma_first_sep_is, lemma_split_nonempty, lemma_split_pieces, lines, lower_chars, lower_seq, parse_bounded, parse_uint, replace_char, replace_char_chars, slice_chars, split, split_chars, split_lines, string_of, strip_prefix, strip_prefix_chars, trim, trim_chars, trim_chars_set, trim_end_set, trim_set, trim_start_chars, trim_start_set, trim_str, views};

verus! {

// ---------------------------------------------------------------------------
// Versions
// ---------------------------------------------------------------------------

/// The largest `u64`.
pub open spec fn u64_top() -> nat {
    18446744073709551615nat
}

/// The numeric pieces of a version tag: trimmed, leading `v`s dropped, split
/// at every character that is not an ASCII digit.
pub open spec fn semver_pieces(v: Seq<char>) -> Seq<Seq<char>> {
    split(trim_start_set(trim(v), CharSet::One('v')), Sep::NonDigit)
}

/// The `k`-th number of a version: the `k`-th piece as a `u64`, or 0 when
/// there is no such piece or it does not parse.
pub open spec fn semver_field(v: Seq<char>, k: int) -> nat {
    let ps = semver_pieces(v);
    if 0 <= k < ps.len() {
        match parse_bounded(ps[k], u64_top()) {
            Some(n) => n,
            None => 0,
        }
    } else {
        0
    }
}

/// `(major, minor, patch)` of a version tag.
pub open spec fn semver_key(v: Seq<char>) -> (nat, nat, nat) {
    (semver_field(v, 0), semver_field(v, 1), semver_field(v, 2))
}

/// The order of `(u64, u64, u64)` tuples: lexicographic.
pub open spec fn key_lt(a: (nat, nat, nat), b: (nat, nat, nat)) -> bool {
    a.0 < b.0 || (a.0 == b.0 && (a.1 < b.1 || (a.1 == b.1 && a.2 < b.2)))
}

fn field_at(ps: &Vec<Vec<char>>, k: usize) -> (r: u64)
    ensures
        r == (if k < ps@.len() {
            match parse_bounded(ps@[k as int]@, u64_top()) {
                Some(n) => n,
                None => 0,
            }
        } else {
            0
        }),
{
    if k < ps.len() {
        match parse_uint(&ps[k], 0xffff_ffff_ffff_ffffu64) {
            Some(n) => n,
            None => 0,
        }
    } else {
        0
    }
}

/// `(major, minor, patch)` of a version tag such as `v0.1.4`; a missing or
/// unreadable number counts as 0.
pub fn cmp_semver(v: &str) -> (r: (u64, u64, u64))
    ensures
        r.0 == semver_key(v@).0,
        r.1 == semver_key(v@).1,
        r.2 == semver_key(v@).2,
{
    let t = trim_str(v);
    let s = trim_start_chars(&t, CharSet::One('v'));
    let ps = split_chars(&s, Sep::NonDigit);
    assert(views(ps@) == semver_pieces(v@));
    (field_at(&ps, 0), field_at(&ps, 1), field_at(&ps, 2))
}

/// Whether the release `latest` is newer than the running `current`.
pub fn is_newer(latest: &str, current: &str) -> (r: bool)
    ensures
        r == key_lt(semver_key(current@), semver_key(latest@)),
{
    let a = cmp_semver(latest);
    let b = cmp_semver(current);
    a.0 > b.0 || (a.0 == b.0 && (a.1 > b.1 || (a.1 == b.1 && a.2 > b.2)))
}

/// "Newer" is a strict order: no version is newer than itself, of two
/// versions at most one is newer than the other, and it is transitive.
pub proof fn lemma_newer_strict_order(a: Seq<char>, b: Seq<char>, c: Seq<char>)
    ensures
        !key_lt(semver_key(a), semver_key(a)),
        key_lt(semver_key(a), semver_key(b)) ==> !key_lt(semver_key(b), semver_key(a)),
        key_lt(semver_key(a), semver_key(b)) && key_lt(semver_key(b), semver_key(c)) ==> key_lt(
            semver_key(a),
            semver_key(c),
        ),
{
}

proof fn lemma_split_digits_dot(x: Seq<char>, rest: Seq<char>)
    requires
        all_digits(x),
    ensures
        split(x + "."@ + rest, Sep::NonDigit) == seq![x] + split(rest, Sep::NonDigit),
{
    reveal_strlit(".");
    let w = x + "."@ + rest;
    assert forall|j: int| 0 <= j < x.len() implies !is_sep(Sep::NonDigit, w[j]) by {
        assert(w[j] == x[j]);
    }
    assert(w[x.len() as int] == '.');
    lemma_first_sep_is(w, Sep::NonDigit, x.len() as int);
    assert(w.take(x.len() as int) =~= x);
    assert(w.skip(x.len() as int + 1) =~= rest);
}

proof fn lemma_split_digits(z: Seq<char>)
    requires
        all_digits(z),
    ensures
        split(z, Sep::NonDigit) == seq![z],
{
    lemma_first_sep_is(z, Sep::NonDigit, z.len() as int);
}

proof fn lemma_parse_digits(x: Seq<char>)
    requires
        x.len() > 0,
        all_digits(x),
        digits_value(x) <= u64_top(),
    ensures
        parse_bounded(x, u64_top()) == Some(digits_value(x)),
{
    assert(is_digit(x[0]));
}

/// Reading a version tag: `a.b.c` and `va.b.c`, with `a`, `b`, `c` runs of
/// ASCII digits whose values fit in a `u64`, have the numbers of those runs
/// as major, minor and patch.
pub proof fn lemma_semver_key_of_tag(x: Seq<char>, y: Seq<char>, z: Seq<char>)
    requires
        x.len() > 0,
        y.len() > 0,
        z.len() > 0,
        all_digits(x),
        all_digits(y),
        all_digits(z),
        digits_value(x) <= u64_top(),
        digits_value(y) <= u64_top(),
        digits_value(z) <= u64_top(),
    ensures
        semver_key(x + "."@ + y + "."@ + z) == (digits_value(x), digits_value(y), digits_value(z)),
        semver_key("v"@ + x + "."@ + y + "."@ + z) == (digits_value(x), digits_value(y), digits_value(z)),
{
    reveal_strlit(".");
    reveal_strlit("v");
    let t = x + "."@ + y + "."@ + z;
    let w = "v"@ + t;
    assert(is_digit(x[0]) && is_digit(z.last()));
    assert(t[0] == x[0]);
    assert(t.last() == z.last());
    assert(w[0] == 'v');
    assert(w.last() == z.last());
    // Neither text has white space at its ends.
    assert(trim_start_set(t, CharSet::Whitespace) == t);
    assert(trim_end_set(t, CharSet::Whitespace) == t);
    assert(trim(t) == t);
    assert(trim_start_set(w, CharSet::Whitespace) == w);
    assert(trim_end_set(w, CharSet::Whitespace) == w);
    assert(trim(w) == w);
    // A leading `v` goes, the digits stay.
    assert(trim_start_set(t, CharSet::One('v')) == t);
    assert(w.drop_first() =~= t);
    assert(trim_start_set(w, CharSet::One('v')) == t);
    // The pieces are the three runs.
    assert(t =~= x + "."@ + (y + "."@ + z));
    lemma_split_digits_dot(x, y + "."@ + z);
    lemma_split_digits_dot(y, z);
    lemma_split_digits(z);
    assert(semver_pieces(t) =~= seq![x, y, z]);
    assert(semver_pieces(w) =~= seq![x, y, z]);
    assert("v"@ + x + "."@ + y + "."@ + z =~= w);
    lemma_parse_digits(x);
    lemma_parse_digits(y);
    lemma_parse_digits(z);
}

/// How a release compares with the running version, number by number: a
/// larger major number makes it newer and a smaller one older, whatever the
/// minor and patch numbers; with equal majors the minor number decides the
/// same way; with equal majors and minors it is newer exactly when its patch
/// number is larger.
pub proof fn lemma_newer_major_first(latest: Seq<char>, current: Seq<char>)
    ensures
        semver_field(latest, 0) > semver_field(current, 0) ==> key_lt(semver_key(current), semver_key(latest)),
        semver_field(latest, 0) < semver_field(current, 0) ==> !key_lt(semver_key(current), semver_key(latest)),
        semver_field(latest, 0) == semver_field(current, 0) && semver_field(latest, 1) > semver_field(
            current,
            1,
        ) ==> key_lt(semver_key(current), semver_key(latest)),
        semver_field(latest, 0) == semver_field(current, 0) && semver_field(latest, 1) < semver_field(
            current,
            1,
        ) ==> !key_lt(semver_key(current), semver_key(latest)),
        semver_field(latest, 0) == semver_field(current, 0) && semver_field(latest, 1) == semver_field(
            current,
            1,
        ) ==> (key_lt(semver_key(current), semver_key(latest)) <==> semver_field(latest, 2)
            > semver_field(current, 2)),
{
}

/// Two versions with the same numbers are never newer than one another;
/// with different numbers, exactly one is newer.
pub proof fn lemma_newer_total(a: Seq<char>, b: Seq<char>)
    ensures
        semver_key(a) == semver_key(b) <==> (!key_lt(semver_key(a), semver_key(b)) && !key_lt(
            semver_key(b),
            semver_key(a),
        )),
{
}

// ---------------------------------------------------------------------------
// Releases
// ---------------------------------------------------------------------------

/// A file attached to a release.
#[derive(Clone, Debug)]
pub struct GhAsset {
    pub name: String,
    pub browser_download_url: String,
    pub size: u64,
}

/// A release as the hosting service describes it.
#[derive(Clone, Debug)]
pub struct GhRelease {
    pub tag_name: String,
    pub html_url: String,
    pub body: Option<String>,
    pub assets: Vec<GhAsset>,
}

/// What the settings screen shows of an available update.
#[derive(Clone, Debug)]
pub struct UpdateInfo {
    pub version: String,
    pub tag: String,
    pub url: String,
    pub notes: String,
    pub download_url: Option<String>,
    pub download_name: Option<String>,
    pub size: Option<u64>,
}

/// The portable archive: a `.zip` with `lax` in its name that is neither the
/// source archive nor the Linux build (names compared in ASCII lower case).
pub open spec fn want_zip(name: Seq<char>) -> bool {
    let n = lower_seq(name);
    ends_with(n, ".zip"@) && contains(n, "lax"@) && !contains(n, "source"@) && !contains(n, "linux"@)
}

/// The Linux build: an `.AppImage`.
pub open spec fn want_appimage(name: Seq<char>) -> bool {
    ends_with(lower_seq(name), ".appimage"@)
}

pub open spec fn wanted(name: Seq<char>, appimage: bool) -> bool {
    if appimage {
        want_appimage(name)
    } else {
        want_zip(name)
    }
}

/// The index of the first name that is wanted.
pub open spec fn first_wanted(names: Seq<Seq<char>>, appimage: bool) -> Option<int>
    decreases names.len(),
{
    if names.len() == 0 {
        None
    } else if wanted(names[0], appimage) {
        Some(0)
    } else {
        match first_wanted(names.drop_first(), appimage) {
            Some(i) => Some(i + 1),
            None => None,
        }
    }
}

pub proof fn lemma_first_wanted(names: Seq<Seq<char>>, appimage: bool)
    ensures
        first_wanted(names, appimage) matches Some(k) ==> 0 <= k < names.len() && wanted(
            names[k],
            appimage,
        ) && forall|j: int| 0 <= j < k ==> !wanted(names[j], appimage),
        first_wanted(names, appimage) is None ==> forall|j: int|
            0 <= j < names.len() ==> !wanted(names[j], appimage),
    decreases names.len(),
{
    if names.len() > 0 && !wanted(names[0], appimage) {
        lemma_first_wanted(names.drop_first(), appimage);
        assert forall|j: int| 1 <= j < names.len() implies names[j] == names.drop_first()[j - 1] by {}
    }
}

pub open spec fn asset_names(assets: Seq<GhAsset>) -> Seq<Seq<char>> {
    assets.map_values(|a: GhAsset| a.name@)
}

/// The asset to download: on Windows the first portable archive; elsewhere
/// the first AppImage, or else the first portable archive.
pub open spec fn pick_asset_spec(names: Seq<Seq<char>>, platform: Platform) -> Option<int> {
    match platform {
        Platform::Windows => first_wanted(names, false),
        Platform::Unix => match first_wanted(names, true) {
            Some(i) => Some(i),
            None => first_wanted(names, false),
        },
    }
}

fn want_zip_exec(name: &str) -> (r: bool)
    ensures
        r == want_zip(name@),
{
    let n = lower_chars(&chars_of(name));
    ends_with_str(&n, ".zip") && contains_str(&n, "lax") && !contains_str(&n, "source")
        && !contains_str(&n, "linux")
}

fn want_appimage_exec(name: &str) -> (r: bool)
    ensures
        r == want_appimage(name@),
{
    let n = lower_chars(&chars_of(name));
    ends_with_str(&n, ".appimage")
}

fn find_wanted(assets: &Vec<GhAsset>, appimage: bool) -> (r: Option<usize>)
    ensures
        r matches Some(i) ==> first_wanted(asset_names(assets@), appimage) == Some(i as int),
        r is None ==> first_wanted(asset_names(assets@), appimage) is None,
{
    let ghost ns = asset_names(assets@);
    proof {
        lemma_first_wanted(ns, appimage);
    }
    let mut i: usize = 0;
    while i < assets.len()
        invariant
            i <= assets.len(),
            ns == asset_names(assets@),
            forall|j: int| 0 <= j < i ==> !wanted(ns[j], appimage),
            first_wanted(ns, appimage) matches Some(k) ==> 0 <= k < ns.len() && wanted(
                ns[k],
                appimage,
            ) && forall|j: int| 0 <= j < k ==> !wanted(ns[j], appimage),
            first_wanted(ns, appimage) is None ==> forall|j: int|
                0 <= j < ns.len() ==> !wanted(ns[j], appimage),
        decreases assets.len() - i,
    {
        let w = if appimage {
            want_appimage_exec(assets[i].name.as_str())
        } else {
            want_zip_exec(assets[i].name.as_str())
        };
        assert(ns[i as int] == assets@[i as int].name@);
        if w {
            return Some(i);
        }
        i += 1;
    }
    None
}

/// The index of the asset to download for `platform`, if the release has one.
pub fn pick_asset(assets: &Vec<GhAsset>, platform: Platform) -> (r: Option<usize>)
    ensures
        r matches Some(i) ==> pick_asset_spec(asset_names(assets@), platform) == Some(i as int),
        r is None ==> pick_asset_spec(asset_names(assets@), platform) is None,
{
    match platform {
        Platform::Windows => find_wanted(assets, false),
        Platform::Unix => match find_wanted(assets, true) {
            Some(i) => Some(i),
            None => find_wanted(assets, false),
        },
    }
}

/// A line of the release text worth showing: not empty and not a heading.
pub open spec fn note_line(l: Seq<char>) -> bool {
    l.len() > 0 && l[0] != '#'
}

/// At most the first `n` entries.
pub open spec fn at_most<A>(s: Seq<A>, n: nat) -> Seq<A> {
    if s.len() <= n {
        s
    } else {
        s.take(n as int)
    }
}

/// The trimmed lines of the release text that are worth showing.
pub open spec fn note_lines(body: Seq<char>) -> Seq<Seq<char>> {
    lines(body).map_values(|l: Seq<char>| trim(l)).filter(|l: Seq<char>| note_line(l))
}

/// The release notes shown: the first eight such lines, joined by `'\n'`.
pub open spec fn release_notes_spec(body: Seq<char>) -> Seq<char> {
    join_seq(at_most(note_lines(body), 8), "\n"@)
}

/// The release notes shown for a release text (`None`: no text).
pub fn release_notes(body: Option<&str>) -> (r: String)
    ensures
        r@ == release_notes_spec(
            match body {
                Some(b) => b@,
                None => Seq::empty(),
            },
        ),
{
    let b: Vec<char> = match body {
        Some(t) => chars_of(t),
        None => Vec::new(),
    };
    let ls = split_lines(&b);
    let ghost lv = views(ls@);
    let ghost tl = lv.map_values(|l: Seq<char>| trim(l));
    let mut kept: Vec<Vec<char>> = Vec::new();
    let mut i: usize = 0;
    while i < ls.len()
        invariant
            i <= ls.len(),
            lv == views(ls@),
            tl == lv.map_values(|l: Seq<char>| trim(l)),
            views(kept@) == at_most(tl.take(i as int).filter(|l: Seq<char>| note_line(l)), 8),
        decreases ls.len() - i,
    {
        let t = trim_chars(&ls[i]);
        let ghost f0 = tl.take(i as int).filter(|l: Seq<char>| note_line(l));
        proof {
            assert(tl.take(i + 1).drop_last() == tl.take(i as int));
            assert(tl.take(i + 1).last() == t@);
            reveal(Seq::filter);
        }
        if t.len() > 0 && t[0] != '#' {
            if kept.len() < 8 {
                let ghost old_k = kept@;
                kept.push(t);
                assert(views(kept@) == views(old_k).push(t@));
            }
        }
        i += 1;
    }
    assert(tl.take(ls.len() as int) == tl);
    let nl = chars_of("\n");
    let j = join_chars(&kept, &nl);
    string_of(&j)
}

/// The version a tag names: trimmed, leading `v`s dropped.
pub open spec fn tag_version(tag: Seq<char>) -> Seq<char> {
    trim_start_set(trim(tag), CharSet::One('v'))
}

/// What the settings screen shows of `rel` on `platform`.
pub fn release_info(rel: &GhRelease, platform: Platform) -> (u: UpdateInfo)
    ensures
        u.version@ == tag_version(rel.tag_name@),
        u.tag@ == rel.tag_name@,
        u.url@ == rel.html_url@,
        u.notes@ == release_notes_spec(
            match rel.body {
                Some(b) => b@,
                None => Seq::empty(),
            },
        ),
        match pick_asset_spec(asset_names(rel.assets@), platform) {
            Some(i) => {
                &&& u.download_url matches Some(d) && d@ == rel.assets@[i].browser_download_url@
                &&& u.download_name matches Some(n) && n@ == rel.assets@[i].name@
                &&& u.size == Some(rel.assets@[i].size)
            },
            None => u.download_url is None && u.download_name is None && u.size is None,
        },
{
    let t = trim_str(rel.tag_name.as_str());
    let v = trim_start_chars(&t, CharSet::One('v'));
    let notes = match &rel.body {
        Some(b) => release_notes(Some(b.as_str())),
        None => release_notes(None),
    };
    let picked = pick_asset(&rel.assets, platform);
    proof {
        lemma_first_wanted(asset_names(rel.assets@), true);
        lemma_first_wanted(asset_names(rel.assets@), false);
    }
    let (download_url, download_name, size) = match picked {
        Some(i) => {
            let a = &rel.assets[i];
            (Some(a.browser_download_url.clone()), Some(a.name.clone()), Some(a.size))
        },
        None => (None, None, None),
    };
    UpdateInfo {
        version: string_of(&v),
        tag: rel.tag_name.clone(),
        url: rel.html_url.clone(),
        notes,
        download_url,
        download_name,
        size,
    }
}

// ---------------------------------------------------------------------------
// The update archive
// ---------------------------------------------------------------------------

/// The top-level names of a portable tree.
pub open spec fn is_tree_top(n: Seq<char>) -> bool {
    n == "lax.exe"@ || n == "lax"@ || n == "bin"@ || n == "www"@ || n == "etc"@ || n == "usr"@ || n
        == "data"@ || n == "tmp"@ || n == "logs"@
}

/// The first piece of an entry name, either kind of slash separating.
pub open spec fn first_piece(name: Seq<char>) -> Seq<char> {
    split(replace_char(name, '\\', '/'), Sep::Char('/'))[0]
}

/// Scanning entry names for a folder that wraps the whole tree: each
/// readable name must start with the same piece, and that piece must not be
/// a top-level name of the tree itself.
pub open spec fn zip_prefix_from(names: Seq<Option<Seq<char>>>, acc: Option<Seq<char>>) -> Option<
    Seq<char>,
>
    decreases names.len(),
{
    if names.len() == 0 {
        acc
    } else {
        match names[0] {
            None => zip_prefix_from(names.drop_first(), acc),
            Some(n) => {
                let f = first_piece(n);
                if f.len() == 0 || is_tree_top(lower_seq(f)) {
                    None
                } else {
                    match acc {
                        None => zip_prefix_from(names.drop_first(), Some(f)),
                        Some(p) => if p == f {
                            zip_prefix_from(names.drop_first(), acc)
                        } else {
                            None
                        },
                    }
                }
            },
        }
    }
}

pub open spec fn opt_views(v: Seq<Option<String>>) -> Seq<Option<Seq<char>>> {
    v.map_values(
        |o: Option<String>|
            match o {
                Some(s) => Some(s@),
                None => None,
            },
    )
}

/// The folder that wraps the archive's tree, judged from its first 24
/// entries (`None` for an entry whose name could not be read).
pub open spec fn zip_prefix_spec(names: Seq<Option<Seq<char>>>) -> Option<Seq<char>> {
    zip_prefix_from(at_most(names, 24), None)
}

fn first_piece_exec(name: &str) -> (r: Vec<char>)
    ensures
        r@ == first_piece(name@),
{
    let v = chars_of(name);
    let w = replace_char_chars(&v, '\\', '/');
    let parts = split_chars(&w, Sep::Char('/'));
    proof {
        lemma_split_nonempty(w@, Sep::Char('/'));
    }
    slice_chars(&parts[0], 0, parts[0].len())
}

fn is_tree_top_exec(n: &Vec<char>) -> (r: bool)
    ensures
        r == is_tree_top(n@),
{
    eq_str(n, "lax.exe") || eq_str(n, "lax") || eq_str(n, "bin") || eq_str(n, "www") || eq_str(
        n,
        "etc",
    ) || eq_str(n, "usr") || eq_str(n, "data") || eq_str(n, "tmp") || eq_str(n, "logs")
}

/// The folder that wraps the update archive's tree, if there is one.
pub fn zip_prefix(names: &Vec<Option<String>>) -> (r: Option<String>)
    ensures
        r matches Some(p) ==> zip_prefix_spec(opt_views(names@)) == Some(p@),
        r is None ==> zip_prefix_spec(opt_views(names@)) is None,
{
    let ghost nv = at_most(opt_views(names@), 24);
    let n: usize = if names.len() < 24 { names.len() } else { 24 };
    assert(nv.len() == n);
    let mut acc: Option<Vec<char>> = None;
    let mut i: usize = 0;
    assert(nv.skip(0) == nv);
    while i < n
        invariant
            i <= n,
            n <= names.len(),
            nv == at_most(opt_views(names@), 24),
            nv.len() == n,
            forall|k: int| 0 <= k < n ==> nv[k] == opt_views(names@)[k],
            zip_prefix_spec(opt_views(names@)) == zip_prefix_from(
                nv.skip(i as int),
                match acc {
                    Some(a) => Some(a@),
                    None => None,
                },
            ),
        decreases n - i,
    {
        let ghost rest = nv.skip(i as int);
        assert(rest[0] == nv[i as int]);
        assert(rest.drop_first() == nv.skip(i + 1));
        match &names[i] {
            None => {},
            Some(name) => {
                let f = first_piece_exec(name.as_str());
                let lf = lower_chars(&f);
                if f.len() == 0 || is_tree_top_exec(&lf) {
                    return None;
                }
                match &acc {
                    None => {
                        acc = Some(f);
                    },
                    Some(a) => {
                        if !chars_eq(a, &f) {
                            return None;
                        }
                    },
                }
            },
        }
        i += 1;
    }
    match acc {
        Some(a) => Some(string_of(&a)),
        None => None,
    }
}

/// An entry name with slashes made forward and trimmed off both ends.
pub open spec fn entry_name(name: Seq<char>) -> Seq<char> {
    trim_set(replace_char(name, '\\', '/'), CharSet::One('/'))
}

/// The entry's path below the wrapping folder `prefix`.
pub open spec fn zip_rest(name: Seq<char>, prefix: Option<Seq<char>>) -> Seq<char> {
    let n = entry_name(name);
    match prefix {
        Some(p) => match strip_prefix(n, p + "/"@) {
            Some(r) => r,
            None => n,
        },
        None => n,
    }
}

/// A path that leads out of the tree: it starts with a separator, it names
/// a parent directory, or on Windows it starts with a drive or a network
/// prefix.
pub open spec fn escapes(rest: Seq<char>, platform: Platform) -> bool {
    has_prefix(rest, platform) || has_root(rest, platform) || segments(rest, platform).contains(
        ".."@,
    )
}

/// Where an archive entry belongs, relative to the root (`None`: nowhere).
pub open spec fn zip_rel_spec(name: Seq<char>, prefix: Option<Seq<char>>, platform: Platform) -> Option<
    Seq<char>,
> {
    let rest = zip_rest(name, prefix);
    if entry_name(name).len() == 0 || rest.len() == 0 || escapes(rest, platform) {
        None
    } else {
        Some(rest)
    }
}

fn has_prefix_exec(p: &Vec<char>, platform: Platform) -> (r: bool)
    ensures
        r == has_prefix(p@, platform),
{
    platform == Platform::Windows && p.len() >= 2 && ((char_is_alpha(p[0]) && p[1] == ':') || (
    is_path_sep_exec(p[0], platform) && is_path_sep_exec(p[1], platform)))
}

fn names_parent(p: &Vec<char>, platform: Platform) -> (r: bool)
    ensures
        r == segments(p@, platform).contains(".."@),
{
    let sk = match platform {
        Platform::Windows => Sep::Slashes,
        Platform::Unix => Sep::Char('/'),
    };
    let segs = split_chars(p, sk);
    let ghost sv = views(segs@);
    let mut i: usize = 0;
    while i < segs.len()
        invariant
            i <= segs.len(),
            sv == views(segs@),
            sv == segments(p@, platform),
            forall|k: int| 0 <= k < i ==> sv[k] != ".."@,
        decreases segs.len() - i,
    {
        if eq_str(&segs[i], "..") {
            assert(sv[i as int] == ".."@);
            return true;
        }
        i += 1;
    }
    false
}

/// Where an archive entry belongs, relative to the root, below the wrapping
/// folder `prefix`; `None` for an empty name or one that leads out of the tree.
pub fn zip_rel(name: &str, prefix: Option<&str>, platform: Platform) -> (r: Option<String>)
    ensures
        r matches Some(x) ==> zip_rel_spec(
            name@,
            match prefix {
                Some(p) => Some(p@),
                None => None,
            },
            platform,
        ) == Some(x@),
        r is None ==> zip_rel_spec(
            name@,
            match prefix {
                Some(p) => Some(p@),
                None => None,
            },
            platform,
        ) is None,
{
    let v = chars_of(name);
    let w = replace_char_chars(&v, '\\', '/');
    let n = trim_chars_set(&w, CharSet::One('/'));
    if n.len() == 0 {
        return None;
    }
    let rest = match prefix {
        Some(p) => {
            let mut pp = chars_of(p);
            pp.push('/');
            proof {
                reveal_strlit("/");
                assert(pp@ == p@ + "/"@);
            }
            match strip_prefix_chars(&n, &pp) {
                Some(r) => r,
                None => n,
            }
        },
        None => n,
    };
    if rest.len() == 0 || has_prefix_exec(&rest, platform) || is_path_sep_exec(rest[0], platform)
        || names_parent(&rest, platform) {
        return None;
    }
    Some(string_of(&rest))
}

/// Top-level folders an update never writes into, and the settings files.
pub open spec fn skip_top(f: Seq<char>) -> bool {
    f == "www"@ || f == "data"@ || f == "logs"@ || f == "tmp"@ || f == ".git"@ || f == "src"@ || f
        == "src-tauri"@ || f == "node_modules"@ || f == "pack"@
}

/// An archive path the update leaves alone: the first folder it leads
/// through (any ASCII case, past a leading `.`) is a user-data or development
/// folder, or it is `usr/lax.toml` or `usr/.install-root`.
pub open spec fn skip_rel_spec(rel: Seq<char>, platform: Platform) -> bool {
    let cs = named_pieces(rel, platform);
    if rel.len() == 0 || cs.len() == 0 || !is_normal(cs[0]) {
        false
    } else {
        let f = lower_seq(cs[0]);
        skip_top(f) || (f == "usr"@ && (join_seq(cs.drop_first(), "/"@) == "lax.toml"@ || join_seq(
            cs.drop_first(),
            "/"@,
        ) == ".install-root"@))
    }
}

/// `Path::file_name`: the last component if it is a normal one, else empty.
pub open spec fn file_name(p: Seq<char>, platform: Platform) -> Seq<char> {
    let cs = components(p, platform);
    if cs.len() > 0 && is_normal(cs.last()) {
        cs.last()
    } else {
        ""@
    }
}

/// The application itself (`lax.exe` or `lax`, any ASCII case).
pub open spec fn is_self_exe_spec(rel: Seq<char>, platform: Platform) -> bool {
    lower_seq(file_name(rel, platform)) == "lax.exe"@ || lower_seq(file_name(rel, platform))
        == "lax"@
}

fn is_normal_exec(c: &Vec<char>) -> (r: bool)
    ensures
        r == is_normal(c@),
{
    !eq_str(c, "/") && !eq_str(c, ".") && !eq_str(c, "..")
}

fn skip_rel(rel: &Vec<char>, platform: Platform) -> (r: bool)
    requires
        !has_prefix(rel@, platform),
    ensures
        r == skip_rel_spec(rel@, platform),
{
    if rel.len() == 0 {
        return false;
    }
    let cs = named_pieces_chars(rel, platform);
    if cs.len() == 0 || !is_normal_exec(&cs[0]) {
        return false;
    }
    let f = lower_chars(&cs[0]);
    if eq_str(&f, "www") || eq_str(&f, "data") || eq_str(&f, "logs") || eq_str(&f, "tmp") || eq_str(
        &f,
        ".git",
    ) || eq_str(&f, "src") || eq_str(&f, "src-tauri") || eq_str(&f, "node_modules") || eq_str(
        &f,
        "pack",
    ) {
        return true;
    }
    if eq_str(&f, "usr") {
        let mut tail: Vec<Vec<char>> = Vec::new();
        let mut i: usize = 1;
        while i < cs.len()
            invariant
                1 <= i <= cs.len(),
                views(tail@) == views(cs@).subrange(1, i as int),
            decreases cs.len() - i,
        {
            let ghost old_t = tail@;
            let piece = slice_chars(&cs[i], 0, cs[i].len());
            assert(piece@ == views(cs@)[i as int]);
            tail.push(piece);
            assert(views(tail@) == views(old_t).push(views(cs@)[i as int]));
            assert(views(tail@) =~= views(cs@).subrange(1, i + 1));
            i += 1;
        }
        assert(views(tail@) =~= views(cs@).drop_first());
        let slash = chars_of("/");
        let rest = join_chars(&tail, &slash);
        return eq_str(&rest, "lax.toml") || eq_str(&rest, ".install-root");
    }
    false
}

fn is_self_exe(rel: &Vec<char>, platform: Platform) -> (r: bool)
    requires
        !has_prefix(rel@, platform),
    ensures
        r == is_self_exe_spec(rel@, platform),
{
    let cs = components_chars(rel, platform);
    let ghost cv = components(rel@, platform);
    assert(cs.len() > 0 ==> cv.last() == cs@[cs.len() - 1]@);
    let name = if cs.len() > 0 && is_normal_exec(&cs[cs.len() - 1]) {
        slice_chars(&cs[cs.len() - 1], 0, cs[cs.len() - 1].len())
    } else {
        proof {
            reveal_strlit("");
        }
        chars_of("")
    };
    assert(name@ == file_name(rel@, platform));
    let l = lower_chars(&name);
    eq_str(&l, "lax.exe") || eq_str(&l, "lax")
}

/// The name the new executable is staged under, next to the running one.
pub open spec fn staged_name(platform: Platform) -> Seq<char> {
    match platform {
        Platform::Windows => "lax.exe.new"@,
        Platform::Unix => "lax.new"@,
    }
}

/// Where an archive entry is written, relative to the root: `None` when it
/// belongs nowhere or is left alone; the staged name for the application
/// itself; its own path otherwise.
pub open spec fn entry_target_spec(name: Seq<char>, prefix: Option<Seq<char>>, platform: Platform) -> Option<
    Seq<char>,
> {
    match zip_rel_spec(name, prefix, platform) {
        None => None,
        Some(rel) => if skip_rel_spec(rel, platform) {
            None
        } else if is_self_exe_spec(rel, platform) {
            Some(staged_name(platform))
        } else {
            Some(rel)
        },
    }
}

/// Where the archive entry `name` is written, relative to the root.
pub fn entry_target(name: &str, prefix: Option<&str>, platform: Platform) -> (r: Option<String>)
    ensures
        r matches Some(x) ==> entry_target_spec(
            name@,
            match prefix {
                Some(p) => Some(p@),
                None => None,
            },
            platform,
        ) == Some(x@),
        r is None ==> entry_target_spec(
            name@,
            match prefix {
                Some(p) => Some(p@),
                None => None,
            },
            platform,
        ) is None,
{
    match zip_rel(name, prefix, platform) {
        None => None,
        Some(rel) => {
            let rv = chars_of(rel.as_str());
            if skip_rel(&rv, platform) {
                None
            } else if is_self_exe(&rv, platform) {
                match platform {
                    Platform::Windows => Some("lax.exe.new".to_string()),
                    Platform::Unix => Some("lax.new".to_string()),
                }
            } else {
                Some(rel)
            }
        },
    }
}

/// Whether the archive entry `name` is the application itself, which the
/// update stages under a new name in place of writing it over the running one.
pub open spec fn entry_is_self_spec(name: Seq<char>, prefix: Option<Seq<char>>, platform: Platform) -> bool {
    match zip_rel_spec(name, prefix, platform) {
        None => false,
        Some(rel) => !skip_rel_spec(rel, platform) && is_self_exe_spec(rel, platform),
    }
}

/// Whether the archive entry `name` is the application itself.
pub fn entry_is_self(name: &str, prefix: Option<&str>, platform: Platform) -> (r: bool)
    ensures
        r == entry_is_self_spec(
            name@,
            match prefix {
                Some(p) => Some(p@),
                None => None,
            },
            platform,
        ),
{
    match zip_rel(name, prefix, platform) {
        None => false,
        Some(rel) => {
            let rv = chars_of(rel.as_str());
            !skip_rel(&rv, platform) && is_self_exe(&rv, platform)
        },
    }
}

/// Whether an archive entry is left out because the file already at its
/// target has the entry's size: never for the application itself, otherwise
/// when `existing_len`, the length of the regular file at the target (`None`
/// when there is none or it cannot be read), equals `entry_size`.
pub fn keep_existing(is_self: bool, existing_len: Option<u64>, entry_size: u64) -> (r: bool)
    ensures
        r == (!is_self && existing_len == Some(entry_size)),
{
    if is_self {
        return false;
    }
    match existing_len {
        Some(n) => n == entry_size,
        None => false,
    }
}

/// A path the update must not overwrite: one below `www`, `data`, `logs`
/// or `tmp` (the first folder it leads through, past a leading `.`, in any
/// ASCII case), or the settings file `usr/lax.toml`.
pub open spec fn protected_path(d: Seq<char>, platform: Platform) -> bool {
    let cs = named_pieces(d, platform);
    cs.len() > 0 && {
        let f = lower_seq(cs[0]);
        f == "www"@ || f == "data"@ || f == "logs"@ || f == "tmp"@ || (f == "usr"@ && join_seq(
            cs.drop_first(),
            "/"@,
        ) == "lax.toml"@)
    }
}

proof fn lemma_staged_not_protected(platform: Platform)
    ensures
        !protected_path(staged_name(platform), platform),
{
    let s = staged_name(platform);
    reveal_strlit("lax.exe.new");
    reveal_strlit("lax.new");
    reveal_strlit("www");
    reveal_strlit("data");
    reveal_strlit("logs");
    reveal_strlit("tmp");
    reveal_strlit("usr");
    reveal_strlit(".");
    let sk = sep_kind(platform);
    assert(forall|j: int| 0 <= j < s.len() ==> !is_sep(sk, s[j]));
    lemma_first_sep_is(s, sk, s.len() as int);
    assert(segments(s, platform) == seq![s]);
    reveal(Seq::filter);
    assert(seq![s].drop_last() =~= Seq::<Seq<char>>::empty());
    assert(seq![s].filter(|x: Seq<char>| named(x)) =~= seq![s]);
    assert(named_pieces(s, platform) =~= seq![s]);
    assert(lower_seq(s) =~= s);
}

/// An update never writes below `www`, `data`, `logs` or `tmp`, nor over
/// `usr/lax.toml`: no archive entry is given a target there.
pub proof fn lemma_update_spares_user_data(name: Seq<char>, prefix: Option<Seq<char>>, platform: Platform)
    ensures
        entry_target_spec(name, prefix, platform) matches Some(d) ==> !protected_path(d, platform),
{
    match zip_rel_spec(name, prefix, platform) {
        None => {},
        Some(rel) => {
            if !skip_rel_spec(rel, platform) {
                if is_self_exe_spec(rel, platform) {
                    lemma_staged_not_protected(platform);
                } else {
                    let segs = segments(rel, platform);
                    let cs = named_pieces(rel, platform);
                    if cs.len() > 0 {
                        lemma_filter_in(segs, |x: Seq<char>| named(x), 0);
                        let k = choose|k: int| 0 <= k < segs.len() && segs[k] == cs[0];
                        assert(segs[k] != ".."@);
                        segs.lemma_filter_pred(|x: Seq<char>| named(x), 0);
                        lemma_split_pieces(rel, sep_kind(platform));
                        reveal_strlit("/");
                        assert(cs[0].len() > 0);
                        if cs[0] == "/"@ {
                            assert(is_sep(sep_kind(platform), segs[k][0]));
                        }
                        assert(is_normal(cs[0]));
                    }
                }
            }
        },
    }
}

// ---------------------------------------------------------------------------
// Downloading and installing
// ---------------------------------------------------------------------------

/// The error when the release has nothing to download for this platform.
pub open spec fn no_asset_msg() -> Seq<char> {
    "в релизе нет файла для этой ОС — открой страницу релиза"@
}

/// The download: its URL and the file it is saved to, `root/tmp/<name>`
/// (`LaX-update.bin` when the asset has no name).
pub fn download_target(root: &str, info: &UpdateInfo, platform: Platform) -> (r: LaxResult<(String, String)>)
    ensures
        info.download_url is None <==> r is Err,
        info.download_url is None ==> err_msg(r, no_asset_msg()),
        r matches Ok((url, dest)) ==> {
            &&& info.download_url matches Some(u) && url@ == u@
            &&& dest@ == join_path(
                join_path(root@, "tmp"@, platform),
                match info.download_name {
                    Some(n) => n@,
                    None => "LaX-update.bin"@,
                },
                platform,
            )
        },
{
    match &info.download_url {
        None => Err(LaxError::msg("в релизе нет файла для этой ОС — открой страницу релиза".to_string())),
        Some(u) => {
            let name = match &info.download_name {
                Some(n) => n.clone(),
                None => "LaX-update.bin".to_string(),
            };
            let tmp = join(root, "tmp", platform);
            let dest = join(tmp.as_str(), name.as_str(), platform);
            Ok((u.clone(), dest))
        },
    }
}

/// Download progress in percent: `copied * 100 / total`, the product
/// saturating at `u64::MAX`.
pub open spec fn download_pct_spec(copied: u64, total: u64) -> int {
    (if copied * 100 <= u64_top() {
        copied * 100
    } else {
        u64_top() as int
    }) / (total as int)
}

/// Download progress in percent.
pub fn download_pct(copied: u64, total: u64) -> (r: u64)
    requires
        total > 0,
    ensures
        r == download_pct_spec(copied, total),
{
    match copied.checked_mul(100) {
        Some(m) => m / total,
        None => 0xffff_ffff_ffff_ffffu64 / total,
    }
}

/// What to report after `copied` bytes of a download whose announced length
/// is `total`, when `last` is the percentage reported last: the new
/// percentage when the length is known and not zero and the percentage has
/// changed, nothing otherwise.
pub open spec fn download_step_spec(copied: u64, total: Option<u64>, last: u64) -> Option<int> {
    match total {
        Some(t) => if t > 0 && download_pct_spec(copied, t) != last {
            Some(download_pct_spec(copied, t))
        } else {
            None
        },
        None => None,
    }
}

/// The percentage to report after `copied` bytes, if any.
pub fn download_step(copied: u64, total: Option<u64>, last: u64) -> (r: Option<u64>)
    ensures
        match r {
            Some(p) => download_step_spec(copied, total, last) == Some(p as int),
            None => download_step_spec(copied, total, last) is None,
        },
{
    match total {
        Some(t) => {
            if t == 0 {
                return None;
            }
            let pct = download_pct(copied, t);
            if pct != last {
                Some(pct)
            } else {
                None
            }
        },
        None => None,
    }
}

/// The percentage a download starts from: none reported yet (above any
/// real percentage).
pub const PCT_NONE: u64 = 101;

/// The byte count of a sequence of chunks.
pub open spec fn chunks_len(chunks: Seq<u64>) -> int
    decreases chunks.len(),
{
    if chunks.len() == 0 {
        0
    } else {
        chunks[0] + chunks_len(chunks.drop_first())
    }
}

/// The percentages reported while the `chunks` of a download arrive, each
/// step as `download_step` takes it: `copied` bytes are in already and
/// `last` is the percentage reported last.
pub open spec fn progress_reports(chunks: Seq<u64>, total: Option<u64>, copied: int, last: u64) -> Seq<int>
    decreases chunks.len(),
{
    if chunks.len() == 0 {
        Seq::empty()
    } else {
        let c = copied + chunks[0];
        match download_step_spec(c as u64, total, last) {
            Some(p) => seq![p] + progress_reports(chunks.drop_first(), total, c, p as u64),
            None => progress_reports(chunks.drop_first(), total, c, last),
        }
    }
}

proof fn lemma_chunks_len_nonneg(chunks: Seq<u64>)
    ensures
        chunks_len(chunks) >= 0,
    decreases chunks.len(),
{
    if chunks.len() > 0 {
        lemma_chunks_len_nonneg(chunks.drop_first());
    }
}

proof fn lemma_no_length_no_reports(chunks: Seq<u64>, copied: int, last: u64)
    ensures
        progress_reports(chunks, None, copied, last) == Seq::<int>::empty(),
    decreases chunks.len(),
{
    if chunks.len() > 0 {
        lemma_no_length_no_reports(chunks.drop_first(), copied + chunks[0], last);
    }
}

proof fn lemma_reports_rise(chunks: Seq<u64>, total: u64, copied: int, last: u64)
    requires
        total > 0,
        total * 100 <= u64::MAX,
        0 <= copied,
        copied + chunks_len(chunks) == total,
        last == PCT_NONE || last <= copied * 100 / (total as int),
    ensures
        forall|i: int, j: int|
            0 <= i < j < progress_reports(chunks, Some(total), copied, last).len() ==> progress_reports(
                chunks,
                Some(total),
                copied,
                last,
            )[i] < progress_reports(chunks, Some(total), copied, last)[j],
        forall|i: int|
            0 <= i < progress_reports(chunks, Some(total), copied, last).len() ==> 0
                <= #[trigger] progress_reports(chunks, Some(total), copied, last)[i] <= 100 && (
            last == PCT_NONE || last < progress_reports(chunks, Some(total), copied, last)[i]),
        chunks.len() > 0 ==> if progress_reports(chunks, Some(total), copied, last).len() > 0 {
            progress_reports(chunks, Some(total), copied, last).last() == 100
        } else {
            last == 100
        },
    decreases chunks.len(),
{
    if chunks.len() > 0 {
        let rest = chunks.drop_first();
        let c = copied + chunks[0];
        let t = total as int;
        lemma_chunks_len_nonneg(rest);
        assert(c <= t);
        assert(c * 100 <= t * 100) by (nonlinear_arith)
            requires
                c <= t,
        ;
        assert((c as u64) * 100 <= u64_top());
        let pct = c * 100 / t;
        assert(download_pct_spec(c as u64, total) == pct);
        assert(copied * 100 / t <= pct) by {
            assert(copied * 100 <= c * 100) by (nonlinear_arith)
                requires
                    copied <= c,
            ;
            vstd::arithmetic::div_mod::lemma_div_is_ordered(copied * 100, c * 100, t);
        }
        assert(pct <= 100) by {
            vstd::arithmetic::div_mod::lemma_div_is_ordered(c * 100, t * 100, t);
            vstd::arithmetic::div_mod::lemma_div_by_multiple(100, t);
            assert(100 * t == t * 100);
        }
        assert(0 <= pct) by {
            vstd::arithmetic::div_mod::lemma_div_pos_is_pos(c * 100, t);
        }
        if rest.len() == 0 {
            assert(c == t);
            assert(pct == 100) by {
                vstd::arithmetic::div_mod::lemma_div_by_multiple(100, t);
                assert(100 * t == t * 100);
            }
        }
        let r = progress_reports(chunks, Some(total), copied, last);
        if pct != last {
            lemma_reports_rise(rest, total, c, pct as u64);
            let r1 = progress_reports(rest, Some(total), c, pct as u64);
            assert(r == seq![pct] + r1);
            if rest.len() == 0 {
                assert(r1 == Seq::<int>::empty());
            }
        } else {
            lemma_reports_rise(rest, total, c, last);
        }
    }
}

/// A whole download whose announced length `total` is the length of its
/// body (`chunks` being the pieces as they arrive): the percentages reported
/// rise strictly, stay within 0..=100, and the last one is 100. With no
/// announced length nothing is reported.
pub proof fn lemma_download_progress(chunks: Seq<u64>, total: u64)
    requires
        total > 0,
        total * 100 <= u64::MAX,
        chunks_len(chunks) == total,
    ensures
        progress_reports(chunks, Some(total), 0, PCT_NONE).len() > 0,
        forall|i: int, j: int|
            0 <= i < j < progress_reports(chunks, Some(total), 0, PCT_NONE).len() ==> progress_reports(
                chunks,
                Some(total),
                0,
                PCT_NONE,
            )[i] < progress_reports(chunks, Some(total), 0, PCT_NONE)[j],
        forall|i: int|
            0 <= i < progress_reports(chunks, Some(total), 0, PCT_NONE).len() ==> 0
                <= #[trigger] progress_reports(chunks, Some(total), 0, PCT_NONE)[i] <= 100,
        progress_reports(chunks, Some(total), 0, PCT_NONE).last() == 100,
        progress_reports(chunks, None, 0, PCT_NONE) == Seq::<int>::empty(),
{
    lemma_reports_rise(chunks, total, 0, PCT_NONE);
    lemma_no_length_no_reports(chunks, 0, PCT_NONE);
}

/// Unpacking progress in percent after `i` of `len` entries.
pub fn unpack_pct(i: usize, len: usize) -> (r: usize)
    requires
        i * 100 <= usize::MAX,
    ensures
        r == i * 100 / (if len > 0 { len } else { 1 }) as int,
{
    let total = if len > 0 { len } else { 1 };
    i * 100 / total
}

/// The kind of a downloaded update.
#[derive(Clone, Copy, Debug, PartialEq, Eq, Structural)]
pub enum AssetKind {
    AppImage,
    Zip,
}

pub open spec fn unknown_format_msg() -> Seq<char> {
    "неизвестный формат обновления"@
}

/// The kind of a downloaded file, by its name in ASCII lower case: an
/// `.AppImage`, a `.zip`, or an error.
pub fn asset_kind(file_name: &str) -> (r: LaxResult<AssetKind>)
    ensures
        ends_with(lower_seq(file_name@), ".appimage"@) ==> r matches Ok(AssetKind::AppImage),
        !ends_with(lower_seq(file_name@), ".appimage"@) && ends_with(lower_seq(file_name@), ".zip"@)
            ==> r matches Ok(AssetKind::Zip),
        !ends_with(lower_seq(file_name@), ".appimage"@) && !ends_with(lower_seq(file_name@), ".zip"@)
            ==> err_msg(r, unknown_format_msg()),
{
    let n = lower_chars(&chars_of(file_name));
    if ends_with_str(&n, ".appimage") {
        Ok(AssetKind::AppImage)
    } else if ends_with_str(&n, ".zip") {
        Ok(AssetKind::Zip)
    } else {
        Err(LaxError::msg("неизвестный формат обновления".to_string()))
    }
}

/// The paths where a downloaded new executable waits for the restart:
/// `root/lax.exe.new`, `root/lax.new`, and `<AppImage>.new` when running
/// from an AppImage.
pub open spec fn staged_exe_paths_spec(root: Seq<char>, appimage: Option<Seq<char>>, platform: Platform) -> Seq<
    Seq<char>,
> {
    let base = seq![join_path(root, "lax.exe.new"@, platform), join_path(root, "lax.new"@, platform)];
    match appimage {
        Some(img) => base.push(img + ".new"@),
        None => base,
    }
}

/// The paths to look at for a staged executable (`has_staged_exe` is true
/// when one of them exists).
pub fn staged_exe_paths(root: &str, appimage: Option<&str>, platform: Platform) -> (r: Vec<String>)
    ensures
        r@.map_values(|s: String| s@) == staged_exe_paths_spec(
            root@,
            match appimage {
                Some(a) => Some(a@),
                None => None,
            },
            platform,
        ),
{
    let mut r: Vec<String> = Vec::new();
    r.push(join(root, "lax.exe.new", platform));
    r.push(join(root, "lax.new", platform));
    match appimage {
        Some(img) => {
            let mut v = chars_of(img);
            append_str(&mut v, ".new");
            r.push(string_of(&v));
        },
        None => {},
    }
    assert(r@.map_values(|s: String| s@) =~= staged_exe_paths_spec(
        root@,
        match appimage {
            Some(a) => Some(a@),
            None => None,
        },
        platform,
    ));
    r
}

/// How the application restarts into a staged executable: once it has
/// exited, a script moves `staged` over `exe` and starts it.
#[derive(Clone, Debug)]
pub struct RelaunchPlan {
    pub exe: String,
    pub staged: String,
    pub script: String,
    pub body: String,
    pub commands: Vec<Command>,
}

/// The Windows restart script: wait up to fifteen rounds for `lax.exe` to
/// exit (then kill it), copy the staged file over the executable, start it,
/// delete itself.
pub open spec fn relaunch_cmd_text(staged: Seq<char>, exe: Seq<char>) -> Seq<char> {
    "@echo off\r\nset n=0\r\n:wait\r\nif %n% geq 15 goto kill\r\nping -n 2 127.0.0.1 >nul\r\ntasklist /FI \"IMAGENAME eq lax.exe\" | find /I \"lax.exe\" >nul\r\nif not errorlevel 1 (\r\nset /a n+=1\r\ngoto wait\r\n)\r\ngoto copy\r\n:kill\r\ntaskkill /F /IM lax.exe /T >nul 2>&1\r\nping -n 2 127.0.0.1 >nul\r\n:copy\r\ncopy /Y \""@
        + staged + "\" \""@ + exe + "\" >nul\r\ndel \""@ + staged + "\" >nul 2>&1\r\nstart \"\" \""@
        + exe + "\"\r\ndel \"%~f0\"\r\n"@
}

/// The Unix restart script: wait for the process `name` to exit, move the
/// staged file over the executable, make it executable, start it, delete
/// itself.
pub open spec fn relaunch_sh_text(name: Seq<char>, staged: Seq<char>, exe: Seq<char>) -> Seq<char> {
    "#!/bin/sh\nsleep 1\nwhile pgrep -x '"@ + name + "' >/dev/null 2>&1; do sleep 1; done\nmv -f '"@
        + staged + "' '"@ + exe + "'\nchmod +x '"@ + exe + "'\n'"@ + exe + "' &\nrm -f \"$0\"\n"@
}

/// The restart plan: on Windows `root/lax.exe` from `root/lax.exe.new`, run
/// by `cmd.exe`; elsewhere the AppImage (when running from one) or
/// `root/lax`, staged with `.new`, run by `sh` after `chmod +x`.
pub fn relaunch_plan(root: &str, appimage: Option<&str>, platform: Platform) -> (p: RelaunchPlan)
    ensures
        platform == Platform::Windows ==> {
            &&& p.exe@ == join_path(root@, "lax.exe"@, platform)
            &&& p.staged@ == join_path(root@, "lax.exe.new"@, platform)
            &&& p.script@ == join_path(join_path(root@, "tmp"@, platform), "lax-relaunch.cmd"@, platform)
            &&& p.body@ == relaunch_cmd_text(p.staged@, p.exe@)
            &&& commands_view(p.commands@) == seq![
                (
                    "cmd.exe"@,
                    seq!["/C"@, "start"@, ""@, "/min"@, "cmd.exe"@, "/C"@, p.script@],
                ),
            ]
        },
        platform == Platform::Unix ==> {
            &&& p.exe@ == match appimage {
                Some(img) => img@,
                None => join_path(root@, "lax"@, platform),
            }
            &&& p.staged@ == p.exe@ + ".new"@
            &&& p.script@ == join_path(join_path(root@, "tmp"@, platform), "lax-relaunch.sh"@, platform)
            &&& p.body@ == relaunch_sh_text(
                if file_name(p.exe@, platform).len() > 0 {
                    file_name(p.exe@, platform)
                } else {
                    "lax"@
                },
                p.staged@,
                p.exe@,
            )
            &&& commands_view(p.commands@) == seq![
                ("chmod"@, seq!["+x"@, p.script@]),
                ("sh"@, seq![p.script@]),
            ]
        },
{
    let tmp = join(root, "tmp", platform);
    match platform {
        Platform::Windows => {
            let exe = join(root, "lax.exe", platform);
            let staged = join(root, "lax.exe.new", platform);
            let script = join(tmp.as_str(), "lax-relaunch.cmd", platform);
            let mut b = chars_of(
                "@echo off\r\nset n=0\r\n:wait\r\nif %n% geq 15 goto kill\r\nping -n 2 127.0.0.1 >nul\r\ntasklist /FI \"IMAGENAME eq lax.exe\" | find /I \"lax.exe\" >nul\r\nif not errorlevel 1 (\r\nset /a n+=1\r\ngoto wait\r\n)\r\ngoto copy\r\n:kill\r\ntaskkill /F /IM lax.exe /T >nul 2>&1\r\nping -n 2 127.0.0.1 >nul\r\n:copy\r\ncopy /Y \"",
            );
            append_str(&mut b, staged.as_str());
            append_str(&mut b, "\" \"");
            append_str(&mut b, exe.as_str());
            append_str(&mut b, "\" >nul\r\ndel \"");
            append_str(&mut b, staged.as_str());
            append_str(&mut b, "\" >nul 2>&1\r\nstart \"\" \"");
            append_str(&mut b, exe.as_str());
            append_str(&mut b, "\"\r\ndel \"%~f0\"\r\n");
            let mut args: Vec<String> = Vec::new();
            args.push("/C".to_string());
            args.push("start".to_string());
            args.push("".to_string());
            args.push("/min".to_string());
            args.push("cmd.exe".to_string());
            args.push("/C".to_string());
            args.push(script.clone());
            assert(args@.map_values(|a: String| a@) =~= seq![
                "/C"@,
                "start"@,
                ""@,
                "/min"@,
                "cmd.exe"@,
                "/C"@,
                script@,
            ]);
            let mut commands: Vec<Command> = Vec::new();
            commands.push(Command { program: "cmd.exe".to_string(), args });
            let p = RelaunchPlan { exe, staged, script, body: string_of(&b), commands };
            assert(commands_view(p.commands@) =~= seq![
                (
                    "cmd.exe"@,
                    seq!["/C"@, "start"@, ""@, "/min"@, "cmd.exe"@, "/C"@, p.script@],
                ),
            ]);
            p
        },
        Platform::Unix => {
            let exe = match appimage {
                Some(img) => img.to_string(),
                None => join(root, "lax", platform),
            };
            let mut sv = chars_of(exe.as_str());
            append_str(&mut sv, ".new");
            let staged = string_of(&sv);
            let script = join(tmp.as_str(), "lax-relaunch.sh", platform);
            let ev = chars_of(exe.as_str());
            let cs = components_chars(&ev, platform);
            let name = if cs.len() > 0 && is_normal_exec(&cs[cs.len() - 1]) && cs[cs.len() - 1].len() > 0 {
                slice_chars(&cs[cs.len() - 1], 0, cs[cs.len() - 1].len())
            } else {
                chars_of("lax")
            };
            proof {
                reveal_strlit("");
                assert(cs.len() > 0 ==> components(ev@, platform).last() == cs@[cs.len() - 1]@);
            }
            let mut b = chars_of("#!/bin/sh\nsleep 1\nwhile pgrep -x '");
            append_chars(&mut b, &name);
            append_str(&mut b, "' >/dev/null 2>&1; do sleep 1; done\nmv -f '");
            append_str(&mut b, staged.as_str());
            append_str(&mut b, "' '");
            append_str(&mut b, exe.as_str());
            append_str(&mut b, "'\nchmod +x '");
            append_str(&mut b, exe.as_str());
            append_str(&mut b, "'\n'");
            append_str(&mut b, exe.as_str());
            append_str(&mut b, "' &\nrm -f \"$0\"\n");
            let mut a1: Vec<String> = Vec::new();
            a1.push("+x".to_string());
            a1.push(script.clone());
            let mut a2: Vec<String> = Vec::new();
            a2.push(script.clone());
            assert(a1@.map_values(|a: String| a@) =~= seq!["+x"@, script@]);
            assert(a2@.map_values(|a: String| a@) =~= seq![script@]);
            let mut commands: Vec<Command> = Vec::new();
            commands.push(Command { program: "chmod".to_string(), args: a1 });
            commands.push(Command { program: "sh".to_string(), args: a2 });
            let p = RelaunchPlan { exe, staged, script, body: string_of(&b), commands };
            assert(commands_view(p.commands@) =~= seq![
                ("chmod"@, seq!["+x"@, p.script@]),
                ("sh"@, seq![p.script@]),
            ]);
            p
        },
    }
}

} // verus!
