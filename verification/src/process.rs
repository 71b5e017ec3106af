//! The table of the services the stack has started, by name, and the
//! commands that end processes.
use vstd::prelude::*;
use crate::platform::{Command, Platform, commands_view, kill_image, kill_image_spec, kill_pid, kill_pid_spec};
use crate::text::{append_str, chars_of, eq_str, join_chars, join_seq, lemma_filter_in, starts_with, starts_with_str, string_of, views};

verus! {

/// A started service: its process id and whatever the application keeps to
/// end it (the child handle, a job object).
pub struct ManagedProcess<H> {
    pub pid: u32,
    pub handle: H,
}

/// The services started so far, each under a distinct name.
pub struct ProcessTable<H> {
    entries: Vec<(String, ManagedProcess<H>)>,
}

/// The table as a map from name to process.
pub open spec fn table_map<H>(s: Seq<(String, ManagedProcess<H>)>) -> Map<Seq<char>, ManagedProcess<H>>
    decreases s.len(),
{
    if s.len() == 0 {
        Map::empty()
    } else {
        table_map(s.drop_last()).insert(s.last().0@, s.last().1)
    }
}

/// No name occurs twice.
pub open spec fn distinct_names<H>(s: Seq<(String, ManagedProcess<H>)>) -> bool {
    forall|i: int, j: int| 0 <= i < s.len() && 0 <= j < s.len() && i != j ==> s[i].0@ != s[j].0@
}

pub proof fn lemma_table_lookup<H>(s: Seq<(String, ManagedProcess<H>)>, i: int)
    requires
        distinct_names(s),
        0 <= i < s.len(),
    ensures
        table_map(s).contains_key(s[i].0@),
        table_map(s)[s[i].0@] == s[i].1,
    decreases s.len(),
{
    if i < s.len() - 1 {
        lemma_table_lookup(s.drop_last(), i);
    }
}

pub proof fn lemma_table_absent<H>(s: Seq<(String, ManagedProcess<H>)>, k: Seq<char>)
    requires
        forall|i: int| 0 <= i < s.len() ==> s[i].0@ != k,
    ensures
        !table_map(s).contains_key(k),
    decreases s.len(),
{
    if s.len() > 0 {
        lemma_table_absent(s.drop_last(), k);
    }
}

pub proof fn lemma_table_update<H>(s: Seq<(String, ManagedProcess<H>)>, i: int, e: (String, ManagedProcess<H>))
    requires
        distinct_names(s),
        0 <= i < s.len(),
        e.0@ == s[i].0@,
    ensures
        table_map(s.update(i, e)) == table_map(s).insert(e.0@, e.1),
    decreases s.len(),
{
    if i < s.len() - 1 {
        lemma_table_update(s.drop_last(), i, e);
        assert(s.update(i, e).drop_last() =~= s.drop_last().update(i, e));
        assert(table_map(s.update(i, e)) =~= table_map(s).insert(e.0@, e.1));
    } else {
        assert(s.update(i, e).drop_last() =~= s.drop_last());
        lemma_table_absent(s.drop_last(), e.0@);
        assert(table_map(s.update(i, e)) =~= table_map(s).insert(e.0@, e.1));
    }
}

pub proof fn lemma_table_remove<H>(s: Seq<(String, ManagedProcess<H>)>, i: int)
    requires
        distinct_names(s),
        0 <= i < s.len(),
    ensures
        table_map(s.remove(i)) == table_map(s).remove(s[i].0@),
    decreases s.len(),
{
    let k = s[i].0@;
    if i < s.len() - 1 {
        lemma_table_remove(s.drop_last(), i);
        assert(s.remove(i).drop_last() =~= s.drop_last().remove(i));
        assert(s.remove(i).last() == s.last());
        assert(table_map(s.remove(i)) =~= table_map(s).remove(k));
    } else {
        assert(s.remove(i) =~= s.drop_last());
        lemma_table_absent(s.drop_last(), k);
        assert(table_map(s.remove(i)) =~= table_map(s).remove(k));
    }
}

/// A filter of a sequence without duplicates has none.
pub proof fn lemma_filter_no_dup(s: Seq<Seq<char>>, pred: spec_fn(Seq<char>) -> bool)
    requires
        s.no_duplicates(),
    ensures
        s.filter(pred).no_duplicates(),
    decreases s.len(),
{
    reveal(Seq::filter);
    if s.len() > 0 {
        let d = s.drop_last();
        assert(d.no_duplicates()) by {
            assert forall|i: int, j: int| 0 <= i < d.len() && 0 <= j < d.len() && i != j implies d[i]
                != d[j] by {
                assert(d[i] == s[i] && d[j] == s[j]);
            }
        }
        lemma_filter_no_dup(d, pred);
        let f = d.filter(pred);
        if pred(s.last()) {
            assert forall|i: int| 0 <= i < f.len() implies f[i] != s.last() by {
                lemma_filter_in(d, pred, i);
                let k = choose|k: int| 0 <= k < d.len() && d[k] == f[i];
                assert(d[k] == s[k]);
            }
            let g = f.push(s.last());
            assert forall|i: int, j: int| 0 <= i < g.len() && 0 <= j < g.len() && i != j implies g[i]
                != g[j] by {
                if i < f.len() && j < f.len() {
                    assert(g[i] == f[i] && g[j] == f[j]);
                } else if i < f.len() {
                    assert(g[i] == f[i]);
                } else if j < f.len() {
                    assert(g[j] == f[j]);
                }
            }
        }
    }
}

impl<H> ProcessTable<H> {
    /// The well-formedness of the table: each name once.
    pub closed spec fn wf(&self) -> bool {
        distinct_names(self.entries@)
    }

    /// The processes by name.
    pub closed spec fn view(&self) -> Map<Seq<char>, ManagedProcess<H>> {
        table_map(self.entries@)
    }

    /// The names in the table's order.
    pub closed spec fn names_seq(&self) -> Seq<Seq<char>> {
        self.entries@.map_values(|e: (String, ManagedProcess<H>)| e.0@)
    }

    pub proof fn lemma_names(&self)
        requires
            self.wf(),
        ensures
            self.names_seq().no_duplicates(),
            forall|k: Seq<char>| self.view().contains_key(k) <==> self.names_seq().contains(k),
    {
        let s = self.entries@;
        assert forall|k: Seq<char>| self.view().contains_key(k) <==> self.names_seq().contains(k) by {
            if self.names_seq().contains(k) {
                let i = choose|i: int| 0 <= i < self.names_seq().len() && self.names_seq()[i] == k;
                lemma_table_lookup(s, i);
            } else {
                assert forall|i: int| 0 <= i < s.len() implies s[i].0@ != k by {
                    assert(self.names_seq()[i] == s[i].0@);
                }
                lemma_table_absent(s, k);
            }
        }
    }

    /// An empty table.
    pub fn new() -> (t: Self)
        ensures
            t.wf(),
            t.view() == Map::<Seq<char>, ManagedProcess<H>>::empty(),
    {
        ProcessTable { entries: Vec::new() }
    }

    fn index_of(&self, name: &str) -> (r: Option<usize>)
        requires
            self.wf(),
        ensures
            r matches Some(i) ==> i < self.entries@.len() && self.entries@[i as int].0@ == name@,
            r is None ==> forall|i: int| 0 <= i < self.entries@.len() ==> self.entries@[i].0@ != name@,
    {
        let mut i: usize = 0;
        while i < self.entries.len()
            invariant
                i <= self.entries@.len(),
                forall|j: int| 0 <= j < i ==> self.entries@[j].0@ != name@,
            decreases self.entries.len() - i,
        {
            let v = chars_of(self.entries[i].0.as_str());
            if eq_str(&v, name) {
                return Some(i);
            }
            i += 1;
        }
        None
    }

    /// The process running under `name`.
    pub fn get(&self, name: &str) -> (r: Option<&ManagedProcess<H>>)
        requires
            self.wf(),
        ensures
            r is Some <==> self.view().contains_key(name@),
            r matches Some(p) ==> *p == self.view()[name@],
    {
        match self.index_of(name) {
            Some(i) => {
                proof {
                    lemma_table_lookup(self.entries@, i as int);
                }
                Some(&self.entries[i].1)
            },
            None => {
                proof {
                    lemma_table_absent(self.entries@, name@);
                }
                None
            },
        }
    }

    /// Records `p` under `name`, handing back the process it replaces.
    pub fn insert(&mut self, name: &str, p: ManagedProcess<H>) -> (r: Option<ManagedProcess<H>>)
        requires
            old(self).wf(),
        ensures
            final(self).wf(),
            final(self).view() == old(self).view().insert(name@, p),
            r is Some <==> old(self).view().contains_key(name@),
            r matches Some(q) ==> q == old(self).view()[name@],
    {
        match self.index_of(name) {
            Some(i) => {
                let ghost s = self.entries@;
                proof {
                    lemma_table_lookup(s, i as int);
                }
                let e = (name.to_string(), p);
                let (_, q) = self.entries.remove(i);
                self.entries.insert(i, e);
                proof {
                    assert(self.entries@ =~= s.update(i as int, e));
                    lemma_table_update(s, i as int, e);
                    assert(distinct_names(self.entries@)) by {
                        assert forall|a: int, b: int|
                            0 <= a < self.entries@.len() && 0 <= b < self.entries@.len() && a != b
                            implies self.entries@[a].0@ != self.entries@[b].0@ by {
                            assert(self.entries@[a].0@ == s[a].0@);
                            assert(self.entries@[b].0@ == s[b].0@);
                        }
                    }
                }
                Some(q)
            },
            None => {
                let ghost s = self.entries@;
                proof {
                    lemma_table_absent(s, name@);
                }
                let e = (name.to_string(), p);
                self.entries.push(e);
                proof {
                    assert(self.entries@.drop_last() =~= s);
                }
                None
            },
        }
    }

    /// Takes the process under `name` out of the table (the caller ends it).
    pub fn remove(&mut self, name: &str) -> (r: Option<ManagedProcess<H>>)
        requires
            old(self).wf(),
        ensures
            final(self).wf(),
            final(self).view() == old(self).view().remove(name@),
            r is Some <==> old(self).view().contains_key(name@),
            r matches Some(q) ==> q == old(self).view()[name@],
    {
        match self.index_of(name) {
            Some(i) => {
                let ghost s = self.entries@;
                proof {
                    lemma_table_lookup(s, i as int);
                    lemma_table_remove(s, i as int);
                }
                let (_, q) = self.entries.remove(i);
                proof {
                    assert(self.entries@ =~= s.remove(i as int));
                    assert(distinct_names(self.entries@)) by {
                        assert forall|a: int, b: int|
                            0 <= a < self.entries@.len() && 0 <= b < self.entries@.len() && a != b
                            implies self.entries@[a].0@ != self.entries@[b].0@ by {
                            let sa = if a < i { a } else { a + 1 };
                            let sb = if b < i { b } else { b + 1 };
                            assert(self.entries@[a] == s[sa]);
                            assert(self.entries@[b] == s[sb]);
                        }
                    }
                }
                Some(q)
            },
            None => {
                proof {
                    lemma_table_absent(self.entries@, name@);
                    assert(self.view() =~= self.view().remove(name@));
                }
                None
            },
        }
    }

    /// The names in the table that start with `prefix`.
    pub fn names_with_prefix(&self, prefix: &str) -> (r: Vec<String>)
        requires
            self.wf(),
        ensures
            r@.map_values(|s: String| s@) == self.names_seq().filter(
                |k: Seq<char>| starts_with(k, prefix@),
            ),
    {
        let ghost ns = self.names_seq();
        let mut r: Vec<String> = Vec::new();
        let mut i: usize = 0;
        while i < self.entries.len()
            invariant
                i <= self.entries@.len(),
                ns == self.names_seq(),
                ns.len() == self.entries@.len(),
                r@.map_values(|s: String| s@) == ns.take(i as int).filter(
                    |k: Seq<char>| starts_with(k, prefix@),
                ),
            decreases self.entries.len() - i,
        {
            proof {
                assert(ns.take(i + 1).drop_last() == ns.take(i as int));
                assert(ns.take(i + 1).last() == self.entries@[i as int].0@);
                reveal(Seq::filter);
            }
            let v = chars_of(self.entries[i].0.as_str());
            if starts_with_str(&v, prefix) {
                let ghost old_r = r@;
                r.push(self.entries[i].0.clone());
                assert(r@.map_values(|s: String| s@) =~= old_r.map_values(|s: String| s@).push(
                    self.entries@[i as int].0@,
                ));
            }
            i += 1;
        }
        assert(ns.take(self.entries@.len() as int) == ns);
        r
    }

    /// All names in the table.
    pub fn names(&self) -> (r: Vec<String>)
        requires
            self.wf(),
        ensures
            r@.map_values(|s: String| s@) == self.names_seq(),
    {
        let mut r: Vec<String> = Vec::new();
        let mut i: usize = 0;
        while i < self.entries.len()
            invariant
                i <= self.entries@.len(),
                r@.map_values(|s: String| s@) == self.names_seq().take(i as int),
            decreases self.entries.len() - i,
        {
            let ghost old_r = r@;
            r.push(self.entries[i].0.clone());
            assert(self.names_seq()[i as int] == self.entries@[i as int].0@);
            assert(r@.map_values(|s: String| s@) =~= old_r.map_values(|s: String| s@).push(
                self.entries@[i as int].0@,
            ));
            assert(r@.map_values(|s: String| s@) =~= self.names_seq().take(i + 1));
            i += 1;
        }
        assert(self.names_seq().take(self.entries@.len() as int) =~= self.names_seq());
        r
    }
    fn take_names(&mut self, names: &Vec<String>) -> (r: Vec<ManagedProcess<H>>)
        requires
            old(self).wf(),
            names@.map_values(|s: String| s@).no_duplicates(),
            forall|i: int|
                0 <= i < names@.len() ==> old(self).view().contains_key(#[trigger] names@[i]@),
        ensures
            final(self).wf(),
            final(self).view() == old(self).view().remove_keys(
                names@.map_values(|s: String| s@).to_set(),
            ),
            r@ == names@.map_values(|s: String| old(self).view()[s@]),
    {
        let ghost m0 = self.view();
        let ghost ns = names@.map_values(|s: String| s@);
        let mut r: Vec<ManagedProcess<H>> = Vec::new();
        let mut i: usize = 0;
        assert(m0.remove_keys(ns.take(0).to_set()) =~= m0);
        while i < names.len()
            invariant
                i <= names@.len(),
                self.wf(),
                ns == names@.map_values(|s: String| s@),
                ns.no_duplicates(),
                forall|j: int| 0 <= j < names@.len() ==> m0.contains_key(#[trigger] names@[j]@),
                self.view() == m0.remove_keys(ns.take(i as int).to_set()),
                r@ == names@.take(i as int).map_values(|s: String| m0[s@]),
            decreases names.len() - i,
        {
            let ghost k = names@[i as int]@;
            assert(!ns.take(i as int).contains(k)) by {
                if ns.take(i as int).contains(k) {
                    let j = choose|j: int| 0 <= j < i && ns.take(i as int)[j] == k;
                    assert(ns[j] == ns[i as int]);
                }
            }
            assert(m0.contains_key(k));
            match self.remove(names[i].as_str()) {
                Some(q) => {
                    let ghost old_r = r@;
                    r.push(q);
                    assert(r@ =~= names@.take(i + 1).map_values(|s: String| m0[s@]));
                },
                None => {
                    assert(false);
                },
            }
            assert(ns.take(i + 1) == ns.take(i as int).push(k));
            proof {
                ns.take(i as int).lemma_push_to_set_commute(k);
            }
            assert(self.view() =~= m0.remove_keys(ns.take(i + 1).to_set()));
            i += 1;
        }
        assert(ns.take(names@.len() as int) == ns);
        assert(names@.take(names@.len() as int) == names@);
        r
    }

    /// Takes every process whose name starts with `prefix` out of the table
    /// (the caller ends them), in the table's order.
    pub fn take_prefix(&mut self, prefix: &str) -> (r: Vec<ManagedProcess<H>>)
        requires
            old(self).wf(),
        ensures
            final(self).wf(),
            final(self).view() == old(self).view().remove_keys(
                Set::new(|k: Seq<char>| starts_with(k, prefix@)),
            ),
            r@ == old(self).names_seq().filter(|k: Seq<char>| starts_with(k, prefix@)).map_values(
                |k: Seq<char>| old(self).view()[k],
            ),
    {
        let ghost m0 = self.view();
        let ghost ns0 = self.names_seq();
        let names = self.names_with_prefix(prefix);
        let ghost pred = |k: Seq<char>| starts_with(k, prefix@);
        let ghost f = ns0.filter(pred);
        proof {
            self.lemma_names();
            assert(forall|k: Seq<char>| #![trigger m0.contains_key(k)] m0.contains_key(k) <==> ns0.contains(k));
            lemma_filter_no_dup(ns0, pred);
            assert forall|i: int| 0 <= i < names@.len() implies m0.contains_key(
                #[trigger] names@[i]@,
            ) by {
                assert(names@[i]@ == f[i]);
                lemma_filter_in(ns0, pred, i);
            }
        }
        let r = self.take_names(&names);
        proof {
            let ns = names@.map_values(|s: String| s@);
            assert(ns == f);
            assert forall|k: Seq<char>| m0.contains_key(k) implies (ns.to_set().contains(k)
                <==> pred(k)) by {
                if ns.to_set().contains(k) {
                    let i = choose|i: int| 0 <= i < ns.len() && ns[i] == k;
                    ns0.lemma_filter_pred(pred, i);
                }
                if pred(k) {
                    assert(ns0.contains(k));
                    let i = choose|i: int| 0 <= i < ns0.len() && ns0[i] == k;
                    ns0.lemma_filter_contains(pred, i);
                }
            }
            assert(self.view() =~= m0.remove_keys(Set::new(|k: Seq<char>| starts_with(k, prefix@))));
            assert(r@ =~= f.map_values(|k: Seq<char>| m0[k]));
        }
        r
    }

    /// Takes every process out of the table (the caller ends them), in the
    /// table's order.
    pub fn take_all(&mut self) -> (r: Vec<ManagedProcess<H>>)
        requires
            old(self).wf(),
        ensures
            final(self).wf(),
            final(self).view() == Map::<Seq<char>, ManagedProcess<H>>::empty(),
            r@ == old(self).names_seq().map_values(|k: Seq<char>| old(self).view()[k]),
    {
        let ghost m0 = self.view();
        let ghost ns0 = self.names_seq();
        let names = self.names();
        proof {
            self.lemma_names();
            assert forall|i: int| 0 <= i < names@.len() implies m0.contains_key(
                #[trigger] names@[i]@,
            ) by {
                assert(names@[i]@ == ns0[i]);
                assert(ns0.contains(ns0[i]));
            }
        }
        let r = self.take_names(&names);
        proof {
            let ns = names@.map_values(|s: String| s@);
            assert(ns == ns0);
            assert forall|k: Seq<char>| m0.contains_key(k) implies ns.to_set().contains(k) by {}
            assert(self.view() =~= Map::<Seq<char>, ManagedProcess<H>>::empty());
            assert(r@ =~= ns0.map_values(|k: Seq<char>| m0[k]));
        }
        r
    }
}

/// After `insert(name, p)`, `get(name)` finds `p`, and every other name
/// finds what it found before.
pub proof fn lemma_get_after_insert<H>(
    m: Map<Seq<char>, ManagedProcess<H>>,
    name: Seq<char>,
    p: ManagedProcess<H>,
    other: Seq<char>,
)
    ensures
        m.insert(name, p).contains_key(name),
        m.insert(name, p)[name] == p,
        other != name ==> (m.insert(name, p).contains_key(other) <==> m.contains_key(other)),
        other != name && m.contains_key(other) ==> m.insert(name, p)[other] == m[other],
{
}

/// After `remove(name)`, `get(name)` finds nothing, and every other name
/// finds what it found before.
pub proof fn lemma_get_after_remove<H>(m: Map<Seq<char>, ManagedProcess<H>>, name: Seq<char>, other: Seq<char>)
    ensures
        !m.remove(name).contains_key(name),
        other != name ==> (m.remove(name).contains_key(other) <==> m.contains_key(other)),
        other != name && m.contains_key(other) ==> m.remove(name)[other] == m[other],
{
}

/// After `take_prefix(prefix)`, no name left starts with `prefix`, and every
/// name that does not keeps its process.
pub proof fn lemma_take_prefix_effect<H>(m: Map<Seq<char>, ManagedProcess<H>>, prefix: Seq<char>, k: Seq<char>)
    ensures
        ({
            let after = m.remove_keys(Set::new(|x: Seq<char>| starts_with(x, prefix)));
            &&& after.contains_key(k) ==> !starts_with(k, prefix)
            &&& !starts_with(k, prefix) ==> (after.contains_key(k) <==> m.contains_key(k))
            &&& !starts_with(k, prefix) && m.contains_key(k) ==> after[k] == m[k]
        }),
{
}

/// The commands that end the process `pid` and its children.
pub fn taskkill(pid: u32, platform: Platform) -> (r: Vec<Command>)
    ensures
        commands_view(r@) == kill_pid_spec(pid, platform),
{
    kill_pid(pid, platform)
}

/// The commands that end every process of an executable.
pub fn taskkill_image(image: &str, platform: Platform) -> (r: Vec<Command>)
    ensures
        commands_view(r@) == kill_image_spec(image@, platform),
{
    kill_image(image, platform)
}

/// The `LD_LIBRARY_PATH` entry that lets bundled programs find their
/// libraries on Unix: the existing directories `dirs`, then the inherited
/// value `inherited` when there is one; nothing on Windows or without
/// directories.
pub open spec fn unix_lib_env_spec(dirs: Seq<Seq<char>>, inherited: Seq<char>, platform: Platform) -> Seq<
    (Seq<char>, Seq<char>),
> {
    if platform == Platform::Windows || dirs.len() == 0 {
        Seq::empty()
    } else {
        let joined = join_seq(dirs, ":"@);
        seq![
            (
                "LD_LIBRARY_PATH"@,
                if inherited.len() == 0 {
                    joined
                } else {
                    joined + ":"@ + inherited
                },
            ),
        ]
    }
}

/// The library-path entry for bundled programs, from the directories that
/// exist and the inherited `LD_LIBRARY_PATH`.
pub fn unix_lib_env(dirs: &Vec<String>, inherited: &str, platform: Platform) -> (r: Vec<(String, String)>)
    ensures
        r@.map_values(|e: (String, String)| (e.0@, e.1@)) == unix_lib_env_spec(
            dirs@.map_values(|s: String| s@),
            inherited@,
            platform,
        ),
{
    let mut r: Vec<(String, String)> = Vec::new();
    if platform == Platform::Windows || dirs.len() == 0 {
        assert(r@.map_values(|e: (String, String)| (e.0@, e.1@)) =~= Seq::<(Seq<char>, Seq<char>)>::empty());
        return r;
    }
    let mut parts: Vec<Vec<char>> = Vec::new();
    let mut i: usize = 0;
    while i < dirs.len()
        invariant
            i <= dirs@.len(),
            views(parts@) == dirs@.map_values(|s: String| s@).take(i as int),
        decreases dirs.len() - i,
    {
        let ghost old_p = parts@;
        let d = chars_of(dirs[i].as_str());
        parts.push(d);
        assert(views(parts@) =~= views(old_p).push(dirs@[i as int]@));
        assert(views(parts@) =~= dirs@.map_values(|s: String| s@).take(i + 1));
        i += 1;
    }
    assert(dirs@.map_values(|s: String| s@).take(dirs@.len() as int) =~= dirs@.map_values(|s: String| s@));
    let colon = chars_of(":");
    let mut joined = join_chars(&parts, &colon);
    let inh = chars_of(inherited);
    if inh.len() > 0 {
        append_str(&mut joined, ":");
        append_str(&mut joined, inherited);
    }
    let ghost jv = joined@;
    r.push(("LD_LIBRARY_PATH".to_string(), string_of(&joined)));
    proof {
        reveal_strlit(":");
    }
    assert(r@.map_values(|e: (String, String)| (e.0@, e.1@)) =~= seq![("LD_LIBRARY_PATH"@, jv)]);
    assert(r@.map_values(|e: (String, String)| (e.0@, e.1@)) =~= unix_lib_env_spec(
        dirs@.map_values(|s: String| s@),
        inherited@,
        platform,
    ));
    r
}

} // verus!
