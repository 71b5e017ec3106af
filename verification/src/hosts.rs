//! The LaX block of the system hosts file: `127.0.0.1 <project>.<tld>` lines
//! between `# LaX begin` and `# LaX end`.
use vstd::prelude::*;
use crate::platform::{Platform, hosts_path_of};
use crate::text::{CharSet, append_str, chars_eq, chars_of, is_ws, lemma_lines_concat, lemma_lines_no_newline, lemma_lines_unlines, lemma_trim_end_concat, lemma_trim_strip_cr, lemma_trim_trim_end, lines, lines_of, no_newline, push_line, string_of, strip_cr, trim, trim_chars, trim_end, trim_end_chars, trim_start, unlines, views};

verus! {

pub open spec fn begin_marker() -> Seq<char> {
    "# LaX begin"@
}

pub open spec fn end_marker() -> Seq<char> {
    "# LaX end"@
}

/// The hosts file of `platform`.
pub fn hosts_path(platform: Platform) -> (r: &'static str)
    ensures
        r@ == hosts_path_of(platform),
{
    crate::platform::hosts_path(platform)
}

/// The lines kept when LaX blocks are taken out: marker lines go, and so do
/// the lines after a begin marker until the next end marker.
pub open spec fn kept_lines(ls: Seq<Seq<char>>, skip: bool) -> Seq<Seq<char>>
    decreases ls.len(),
{
    if ls.len() == 0 {
        Seq::empty()
    } else {
        let l = ls[0];
        let rest = ls.drop_first();
        if trim(l) == begin_marker() {
            kept_lines(rest, true)
        } else if trim(l) == end_marker() {
            kept_lines(rest, false)
        } else if skip {
            kept_lines(rest, true)
        } else {
            seq![l] + kept_lines(rest, false)
        }
    }
}

/// The hosts file without its LaX blocks; every line ends with `'\n'`.
pub open spec fn stripped(raw: Seq<char>) -> Seq<char> {
    unlines(kept_lines(lines(raw), false))
}

pub fn strip_block(raw: &str) -> (r: String)
    ensures
        r@ == stripped(raw@),
{
    let ls = lines_of(raw);
    let ghost lsv = lines(raw@);
    let begin = chars_of("# LaX begin");
    let end = chars_of("# LaX end");
    let mut skip = false;
    let mut out: Vec<char> = Vec::new();
    let ghost mut acc: Seq<Seq<char>> = Seq::empty();
    let mut i: usize = 0;
    assert(lsv.skip(0) == lsv);
    while i < ls.len()
        invariant
            i <= ls.len(),
            views(ls@) == lsv,
            begin@ == begin_marker(),
            end@ == end_marker(),
            out@ == unlines(acc),
            kept_lines(lsv, false) == acc + kept_lines(lsv.skip(i as int), skip),
        decreases ls.len() - i,
    {
        let ghost rest = lsv.skip(i as int);
        assert(rest[0] == ls@[i as int]@);
        assert(rest.drop_first() == lsv.skip(i + 1));
        let t = trim_chars(&ls[i]);
        if chars_eq(&t, &begin) {
            skip = true;
        } else if chars_eq(&t, &end) {
            skip = false;
        } else if !skip {
            push_line(&mut out, &ls[i]);
            proof {
                let old_acc = acc;
                acc = acc.push(ls@[i as int]@);
                assert(acc.drop_last() == old_acc);
                assert(old_acc + (seq![rest[0]] + kept_lines(rest.drop_first(), false)) == acc + kept_lines(rest.drop_first(), false));
            }
        }
        i += 1;
    }
    assert(lsv.skip(ls.len() as int) =~= Seq::<Seq<char>>::empty());
    assert(acc + Seq::<Seq<char>>::empty() == acc);
    string_of(&out)
}

/// One line of the block.
pub open spec fn host_line(name: Seq<char>, tld: Seq<char>) -> Seq<char> {
    "127.0.0.1 "@ + name + "."@ + tld + "\n"@
}

pub open spec fn host_lines(names: Seq<Seq<char>>, tld: Seq<char>) -> Seq<char>
    decreases names.len(),
{
    if names.len() == 0 {
        Seq::empty()
    } else {
        host_lines(names.drop_last(), tld) + host_line(names.last(), tld)
    }
}

/// The LaX block for the projects `names` under `tld`.
pub open spec fn hosts_block(names: Seq<Seq<char>>, tld: Seq<char>) -> Seq<char> {
    begin_marker() + "\n"@ + host_lines(names, tld) + end_marker() + "\n"@
}

/// The hosts file after syncing: the old LaX blocks taken out, trailing
/// blanks trimmed, one `'\n'`, then the block for the projects when enabled.
pub open spec fn synced_hosts(raw: Seq<char>, names: Seq<Seq<char>>, tld: Seq<char>, enabled: bool) -> Seq<char> {
    trim_end(stripped(raw)) + "\n"@ + if enabled {
        hosts_block(names, tld)
    } else {
        Seq::empty()
    }
}

/// The new content of the hosts file `raw` for the projects `names`.
pub fn sync_hosts(raw: &str, names: &Vec<String>, tld: &str, enabled: bool) -> (r: String)
    ensures
        r@ == synced_hosts(raw@, names@.map_values(|n: String| n@), tld@, enabled),
{
    let s = strip_block(raw);
    let sv = chars_of(s.as_str());
    let mut next = trim_end_chars(&sv, CharSet::Whitespace);
    append_str(&mut next, "\n");
    if enabled {
        let ghost head = next@;
        append_str(&mut next, "# LaX begin");
        append_str(&mut next, "\n");
        let ghost nv = names@.map_values(|n: String| n@);
        let ghost mid = next@;
        let mut i: usize = 0;
        while i < names.len()
            invariant
                i <= names.len(),
                nv == names@.map_values(|n: String| n@),
                next@ == mid + host_lines(nv.take(i as int), tld@),
            decreases names.len() - i,
        {
            assert(nv.take(i + 1).drop_last() == nv.take(i as int));
            append_str(&mut next, "127.0.0.1 ");
            append_str(&mut next, names[i].as_str());
            append_str(&mut next, ".");
            append_str(&mut next, tld);
            append_str(&mut next, "\n");
            assert(next@ =~= mid + host_lines(nv.take(i + 1), tld@));
            i += 1;
        }
        assert(nv.take(names.len() as int) == nv);
        append_str(&mut next, "# LaX end");
        append_str(&mut next, "\n");
        assert(next@ =~= head + hosts_block(nv, tld@));
    } else {
        assert(next@ + Seq::<char>::empty() == next@);
    }
    string_of(&next)
}

/// A hosts file taken through `strip_block` holds no marker line.
pub proof fn lemma_stripped_has_no_markers(raw: Seq<char>)
    ensures
        forall|i: int| 0 <= i < lines(stripped(raw)).len() ==> trim(#[trigger] lines(stripped(raw))[i]) != begin_marker()
            && trim(lines(stripped(raw))[i]) != end_marker(),
{
    let k = kept_lines(lines(raw), false);
    lemma_kept_lines_facts(lines(raw), false);
    lemma_lines_no_newline(raw);
    assert forall|i: int| 0 <= i < k.len() implies no_newline(#[trigger] k[i]) by {
        let j = choose|j: int| 0 <= j < lines(raw).len() && lines(raw)[j] == k[i];
    }
    lemma_lines_unlines(k);
    assert forall|i: int| 0 <= i < lines(stripped(raw)).len() implies trim(#[trigger] lines(stripped(raw))[i]) != begin_marker()
        && trim(lines(stripped(raw))[i]) != end_marker() by {
        lemma_trim_strip_cr(k[i]);
    }
}

/// The kept lines are lines of the input and none of them is a marker line.
proof fn lemma_kept_lines_facts(ls: Seq<Seq<char>>, skip: bool)
    ensures
        forall|i: int| 0 <= i < kept_lines(ls, skip).len() ==> (exists|j: int| 0 <= j < ls.len() && ls[j] == #[trigger] kept_lines(ls, skip)[i])
            && trim(kept_lines(ls, skip)[i]) != begin_marker() && trim(kept_lines(ls, skip)[i]) != end_marker(),
    decreases ls.len(),
{
    if ls.len() > 0 {
        let rest = ls.drop_first();
        lemma_kept_lines_facts(rest, true);
        lemma_kept_lines_facts(rest, false);
        let k = kept_lines(ls, skip);
        assert forall|i: int| 0 <= i < k.len() implies (exists|j: int| 0 <= j < ls.len() && ls[j] == #[trigger] k[i])
            && trim(k[i]) != begin_marker() && trim(k[i]) != end_marker() by {
            let l = ls[0];
            if trim(l) == begin_marker() || trim(l) == end_marker() || skip {
                let kr = if trim(l) == begin_marker() { kept_lines(rest, true) } else if trim(l) == end_marker() { kept_lines(rest, false) } else { kept_lines(rest, true) };
                assert(k[i] == kr[i]);
                let j = choose|j: int| 0 <= j < rest.len() && rest[j] == kr[i];
                assert(ls[j + 1] == rest[j]);
            } else if i == 0 {
                assert(ls[0] == k[0]);
            } else {
                let kr = kept_lines(rest, false);
                assert(k[i] == kr[i - 1]);
                let j = choose|j: int| 0 <= j < rest.len() && rest[j] == kr[i - 1];
                assert(ls[j + 1] == rest[j]);
            }
        }
    }
}

// ---------------------------------------------------------------------------
// Syncing twice
// ---------------------------------------------------------------------------

/// A line that `strip_block` treats as a marker.
pub open spec fn is_marker(l: Seq<char>) -> bool {
    trim(l) == begin_marker() || trim(l) == end_marker()
}

/// One project's line of the block, without its line end.
pub open spec fn host_text(name: Seq<char>, tld: Seq<char>) -> Seq<char> {
    "127.0.0.1 "@ + name + "."@ + tld
}

pub open spec fn host_texts(names: Seq<Seq<char>>, tld: Seq<char>) -> Seq<Seq<char>> {
    names.map_values(|n: Seq<char>| host_text(n, tld))
}

/// The text ends a line with `'\r'` kept in it.
pub open spec fn ends_cr(l: Seq<char>) -> bool {
    l.len() > 0 && l.last() == '\r'
}

proof fn lemma_unlines_concat(a: Seq<Seq<char>>, b: Seq<Seq<char>>)
    ensures
        unlines(a + b) == unlines(a) + unlines(b),
    decreases b.len(),
{
    if b.len() == 0 {
        assert(a + b =~= a);
        assert(unlines(b) =~= Seq::<char>::empty());
        assert(unlines(a) + unlines(b) =~= unlines(a));
    } else {
        assert((a + b).drop_last() =~= a + b.drop_last());
        lemma_unlines_concat(a, b.drop_last());
        assert(unlines(a + b) =~= unlines(a) + unlines(b));
    }
}

proof fn lemma_host_lines(names: Seq<Seq<char>>, tld: Seq<char>)
    ensures
        host_lines(names, tld) == unlines(host_texts(names, tld)),
    decreases names.len(),
{
    if names.len() > 0 {
        lemma_host_lines(names.drop_last(), tld);
        assert(host_texts(names, tld).drop_last() =~= host_texts(names.drop_last(), tld));
        reveal_strlit("\n");
        assert(host_line(names.last(), tld) =~= host_text(names.last(), tld) + seq!['\n']);
    } else {
        assert(host_texts(names, tld) =~= Seq::<Seq<char>>::empty());
    }
}

/// A text whose first character is not white space keeps it when trimmed.
proof fn lemma_trim_keeps_first(s: Seq<char>)
    requires
        s.len() > 0,
        !is_ws(s[0]),
    ensures
        trim(s).len() > 0,
        trim(s)[0] == s[0],
    decreases s.len(),
{
    assert(trim_start(s) == s);
    lemma_trim_end_keeps_first(s);
}

proof fn lemma_trim_end_keeps_first(s: Seq<char>)
    requires
        s.len() > 0,
        !is_ws(s[0]),
    ensures
        trim_end(s).len() > 0,
        trim_end(s)[0] == s[0],
    decreases s.len(),
{
    if is_ws(s.last()) {
        assert(s.len() > 1);
        lemma_trim_end_keeps_first(s.drop_last());
    }
}

/// `trim_end` leaves a prefix that is empty or ends with a character that
/// is not white space.
proof fn lemma_trim_end_shape(s: Seq<char>)
    ensures
        trim_end(s).len() <= s.len(),
        trim_end(s) == s.take(trim_end(s).len() as int),
        trim_end(s).len() > 0 ==> !is_ws(trim_end(s).last()),
    decreases s.len(),
{
    if s.len() > 0 && is_ws(s.last()) {
        lemma_trim_end_shape(s.drop_last());
        assert(s.drop_last().take(trim_end(s).len() as int) =~= s.take(trim_end(s).len() as int));
    } else {
        assert(s.take(s.len() as int) =~= s);
    }
}

proof fn lemma_markers_trimmed()
    ensures
        trim(begin_marker()) == begin_marker(),
        trim(end_marker()) == end_marker(),
        begin_marker()[0] == '#',
        end_marker()[0] == '#',
        no_newline(begin_marker()),
        no_newline(end_marker()),
        !ends_cr(begin_marker()),
        !ends_cr(end_marker()),
        begin_marker() != end_marker(),
        begin_marker().len() > 0,
        end_marker().len() > 0,
{
    reveal_strlit("# LaX begin");
    reveal_strlit("# LaX end");
    let b = begin_marker();
    let e = end_marker();
    assert(trim_start(b) == b);
    assert(trim_end(b) == b);
    assert(trim_start(e) == e);
    assert(trim_end(e) == e);
    assert(b.len() != e.len());
}

/// Lines without markers are all kept.
proof fn lemma_kept_prefix(a: Seq<Seq<char>>, c: Seq<Seq<char>>)
    requires
        forall|i: int| 0 <= i < a.len() ==> !is_marker(#[trigger] a[i]),
    ensures
        kept_lines(a + c, false) == a + kept_lines(c, false),
    decreases a.len(),
{
    if a.len() == 0 {
        assert(a + c =~= c);
        assert(a + kept_lines(c, false) =~= kept_lines(c, false));
    } else {
        assert((a + c)[0] == a[0]);
        assert((a + c).drop_first() =~= a.drop_first() + c);
        lemma_kept_prefix(a.drop_first(), c);
        assert(a + kept_lines(c, false) =~= seq![a[0]] + (a.drop_first() + kept_lines(c, false)));
    }
}

/// Inside a block, every line but an end marker is dropped.
proof fn lemma_kept_skipped(a: Seq<Seq<char>>, c: Seq<Seq<char>>)
    requires
        forall|i: int| 0 <= i < a.len() ==> trim(#[trigger] a[i]) != end_marker(),
    ensures
        kept_lines(a + c, true) == kept_lines(c, true),
    decreases a.len(),
{
    if a.len() == 0 {
        assert(a + c =~= c);
    } else {
        assert((a + c)[0] == a[0]);
        assert((a + c).drop_first() =~= a.drop_first() + c);
        lemma_kept_skipped(a.drop_first(), c);
    }
}

/// A block written by `sync_hosts` is taken out again entirely.
proof fn lemma_block_dropped(names: Seq<Seq<char>>, tld: Seq<char>)
    requires
        forall|i: int| 0 <= i < names.len() ==> no_newline(#[trigger] names[i]),
        no_newline(tld),
    ensures
        kept_lines(lines(hosts_block(names, tld)), false) == Seq::<Seq<char>>::empty(),
{
    lemma_markers_trimmed();
    let b = begin_marker();
    let e = end_marker();
    let h = host_texts(names, tld);
    lemma_host_lines(names, tld);
    let all = seq![b] + h + seq![e];
    lemma_unlines_concat(seq![b] + h, seq![e]);
    lemma_unlines_concat(seq![b], h);
    reveal_strlit("\n");
    reveal_strlit("127.0.0.1 ");
    reveal_strlit(".");
    assert(seq![b].drop_last() =~= Seq::<Seq<char>>::empty());
    assert(seq![e].drop_last() =~= Seq::<Seq<char>>::empty());
    assert(unlines(Seq::<Seq<char>>::empty()) =~= Seq::<char>::empty());
    assert(unlines(seq![b]) == unlines(seq![b].drop_last()) + b + seq!['\n']);
    assert(unlines(seq![e]) == unlines(seq![e].drop_last()) + e + seq!['\n']);
    assert(unlines(seq![b]) =~= b + seq!['\n']);
    assert(unlines(seq![e]) =~= e + seq!['\n']);
    assert(hosts_block(names, tld) =~= unlines(all));
    assert forall|i: int| 0 <= i < all.len() implies no_newline(#[trigger] all[i]) by {
        if 1 <= i < all.len() - 1 {
            let n = names[i - 1];
            assert(all[i] == host_text(n, tld));
            assert forall|j: int| 0 <= j < all[i].len() implies all[i][j] != '\n' by {
                let x = "127.0.0.1 "@;
                if j < x.len() {
                } else if j < x.len() + n.len() {
                    assert(all[i][j] == n[j - x.len()]);
                } else if j == x.len() + n.len() {
                } else {
                    assert(all[i][j] == tld[j - x.len() - n.len() - 1]);
                }
            }
        }
    }
    lemma_lines_unlines(all);
    let ls = all.map_values(|l: Seq<char>| strip_cr(l));
    let hs = h.map_values(|l: Seq<char>| strip_cr(l));
    assert(ls[0] == b);
    assert(ls.drop_first() =~= hs + seq![e]);
    assert forall|i: int| 0 <= i < hs.len() implies trim(#[trigger] hs[i]) != end_marker() by {
        let x = h[i];
        lemma_trim_strip_cr(x);
        assert(x[0] == '1');
        lemma_trim_keeps_first(x);
    }
    lemma_kept_skipped(hs, seq![e]);
    assert(seq![e].drop_first() =~= Seq::<Seq<char>>::empty());
    assert(lines(hosts_block(names, tld)) == ls);
    assert(kept_lines(ls, false) == kept_lines(ls.drop_first(), true));
    assert(seq![e][0] == e);
    assert(kept_lines(seq![e], true) == kept_lines(seq![e].drop_first(), false));
    assert(kept_lines(Seq::<Seq<char>>::empty(), false) =~= Seq::<Seq<char>>::empty());
}

/// The lines of a text with its trailing white space taken off: blank
/// lines at the end dropped, the last remaining one trimmed at its end.
pub open spec fn trimmed_lines(ls: Seq<Seq<char>>) -> Seq<Seq<char>>
    decreases ls.len(),
{
    if ls.len() == 0 {
        Seq::empty()
    } else if trim_end(ls.last()).len() == 0 {
        trimmed_lines(ls.drop_last())
    } else {
        ls.drop_last().push(trim_end(ls.last()))
    }
}

proof fn lemma_trimmed_lines(ls: Seq<Seq<char>>)
    ensures
        trimmed_lines(ls).len() == 0 ==> trim_end(unlines(ls)).len() == 0,
        trimmed_lines(ls).len() > 0 ==> trim_end(unlines(ls)) + seq!['\n'] == unlines(trimmed_lines(ls)),
        trimmed_lines(ls).len() <= ls.len(),
        forall|i: int| 0 <= i < trimmed_lines(ls).len() - 1 ==> #[trigger] trimmed_lines(ls)[i] == ls[i],
        trimmed_lines(ls).len() > 0 ==> trimmed_lines(ls)[trimmed_lines(ls).len() - 1] == trim_end(
            ls[trimmed_lines(ls).len() - 1],
        ) && trim_end(ls[trimmed_lines(ls).len() - 1]).len() > 0,
    decreases ls.len(),
{
    if ls.len() > 0 {
        let p = ls.drop_last();
        let l = ls.last();
        let nl = seq!['\n'];
        lemma_trim_end_newline();
        lemma_trim_end_concat(l, nl);
        lemma_trim_end_concat(unlines(p), l + nl);
        assert(unlines(ls) =~= unlines(p) + (l + nl));
        if trim_end(l).len() == 0 {
            lemma_trimmed_lines(p);
        } else {
            let tl = p.push(trim_end(l));
            assert(tl.drop_last() =~= p);
            assert(unlines(tl) =~= unlines(p) + trim_end(l) + nl);
        }
    }
}

/// `trim_end` of a single line end is empty.
proof fn lemma_trim_end_newline()
    ensures
        trim_end(seq!['\n']).len() == 0,
{
    let nl = seq!['\n'];
    assert(is_ws('\n'));
    assert(nl.drop_last() =~= Seq::<char>::empty());
    assert(trim_end(Seq::<char>::empty()) =~= Seq::<char>::empty());
}

/// The lines of a trimmed text with one line end after it: one empty line
/// when nothing is left.
pub open spec fn padded(g: Seq<Seq<char>>) -> Seq<Seq<char>> {
    if g.len() > 0 {
        g
    } else {
        seq![Seq::<char>::empty()]
    }
}

/// Lines kept by `strip_block`, with the trailing white space of the text
/// taken off and one line end put back, are lines of the same kind.
proof fn lemma_trimmed_kept(k: Seq<Seq<char>>)
    requires
        forall|i: int| 0 <= i < k.len() ==> no_newline(#[trigger] k[i]) && !ends_cr(k[i]) && !is_marker(k[i]),
    ensures
        unlines(padded(trimmed_lines(k))) == trim_end(unlines(k)) + seq!['\n'],
        forall|i: int| 0 <= i < padded(trimmed_lines(k)).len() ==> no_newline(#[trigger] padded(trimmed_lines(k))[i])
            && !ends_cr(padded(trimmed_lines(k))[i]) && !is_marker(padded(trimmed_lines(k))[i]),
{
    lemma_markers_trimmed();
    let g = trimmed_lines(k);
    lemma_trimmed_lines(k);
    let g2 = padded(g);
    let nl = seq!['\n'];
    if g.len() == 0 {
        assert(g2.drop_last() =~= Seq::<Seq<char>>::empty());
        assert(unlines(Seq::<Seq<char>>::empty()) =~= Seq::<char>::empty());
        assert(trim_end(unlines(k)) =~= Seq::<char>::empty());
        assert(unlines(g2) =~= trim_end(unlines(k)) + nl);
    }
    assert forall|i: int| 0 <= i < g2.len() implies no_newline(#[trigger] g2[i]) && !ends_cr(g2[i])
        && !is_marker(g2[i]) by {
        if g.len() > 0 {
            if i < g.len() - 1 {
                assert(g[i] == k[i]);
            } else {
                let x = k[i];
                assert(g[i] == trim_end(x));
                lemma_trim_end_shape(x);
                assert forall|j: int| 0 <= j < g[i].len() implies g[i][j] != '\n' by {
                    assert(g[i][j] == x[j]);
                }
                assert(is_ws('\r'));
                assert(!ends_cr(g[i]));
                lemma_trim_trim_end(x);
            }
        } else {
            let x = Seq::<char>::empty();
            assert(begin_marker().len() > 0 && end_marker().len() > 0);
            assert(trim_start(x) =~= x);
            assert(trim_end(x) =~= x);
            assert(trim(x) =~= x);
        }
    }
}

/// Syncing the hosts file again changes nothing, when no line of the file
/// ends with `'\r'` and neither the project names nor the TLD hold a line
/// break.
pub proof fn lemma_sync_hosts_idempotent(raw: Seq<char>, names: Seq<Seq<char>>, tld: Seq<char>, enabled: bool)
    requires
        forall|i: int| 0 <= i < lines(raw).len() ==> !ends_cr(#[trigger] lines(raw)[i]),
        forall|i: int| 0 <= i < names.len() ==> no_newline(#[trigger] names[i]),
        no_newline(tld),
    ensures
        synced_hosts(synced_hosts(raw, names, tld, enabled), names, tld, enabled) == synced_hosts(
            raw,
            names,
            tld,
            enabled,
        ),
{
    let k = kept_lines(lines(raw), false);
    lemma_kept_lines_facts(lines(raw), false);
    lemma_lines_no_newline(raw);
    assert forall|i: int| 0 <= i < k.len() implies no_newline(#[trigger] k[i]) && !ends_cr(k[i])
        && !is_marker(k[i]) by {
        let j = choose|j: int| 0 <= j < lines(raw).len() && lines(raw)[j] == k[i];
    }
    let s = stripped(raw);
    let t = trim_end(s);
    let nl = seq!['\n'];
    let g2 = padded(trimmed_lines(k));
    lemma_trimmed_kept(k);
    lemma_lines_unlines(g2);
    assert(g2.map_values(|l: Seq<char>| strip_cr(l)) =~= g2);
    let bk = if enabled {
        hosts_block(names, tld)
    } else {
        Seq::empty()
    };
    let out = synced_hosts(raw, names, tld, enabled);
    reveal_strlit("\n");
    assert(out =~= (t + nl) + bk);
    lemma_lines_concat(t + nl, bk);
    if enabled {
        lemma_block_dropped(names, tld);
    } else {
        assert(lines(bk) =~= Seq::<Seq<char>>::empty());
    }
    lemma_kept_prefix(g2, lines(bk));
    assert(g2 + Seq::<Seq<char>>::empty() =~= g2);
    assert(stripped(out) == t + nl);
    lemma_trim_end_newline();
    lemma_trim_end_concat(t, nl);
    lemma_trim_end_shape(s);
    assert(trim_end(t) == t);
}

} // verus!
