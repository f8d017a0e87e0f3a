//! The record store: per namespace prefix, a mapping from option key to
//! option record, built once by merging the namespace's document sources in
//! order, with the later source winning on a duplicate key.

use vstd::prelude::*;
use vstd::pervasive::VecAdditionalExecFns;
use crate::{AnyrunConfig, Config, NixOSOption};

verus! {

/// The key-to-record mapping of one namespace.  Entries are kept in load
/// order; as a mapping, a later entry for the same key shadows an earlier
/// one.
pub struct OptionsMap {
    pub entries: Vec<(String, NixOSOption)>,
}

/// The mapping read off an entry sequence: entries inserted in order, so the
/// last entry for a key wins.
pub open spec fn map_of(entries: Seq<(String, NixOSOption)>) -> Map<Seq<char>, NixOSOption>
    decreases entries.len(),
{
    if entries.len() == 0 {
        Map::empty()
    } else {
        map_of(entries.drop_last()).insert(entries.last().0@, entries.last().1)
    }
}

/// One document source merged into a mapping, pair by pair in order.
pub open spec fn merged(
    m: Map<Seq<char>, NixOSOption>,
    doc: Seq<(String, NixOSOption)>,
) -> Map<Seq<char>, NixOSOption>
    decreases doc.len(),
{
    if doc.len() == 0 {
        m
    } else {
        merged(m.insert(doc[0].0@, doc[0].1), doc.skip(1))
    }
}

/// A sequence of document sources merged into a mapping, in order.
pub open spec fn loaded_from(
    m: Map<Seq<char>, NixOSOption>,
    docs: Seq<Vec<(String, NixOSOption)>>,
    i: int,
) -> Map<Seq<char>, NixOSOption>
    decreases docs.len() - i
    when 0 <= i <= docs.len()
{
    if i >= docs.len() {
        m
    } else {
        loaded_from(merged(m, docs[i]@), docs, i + 1)
    }
}

/// The mapping a namespace's document sources load into.
pub open spec fn loaded(docs: Seq<Vec<(String, NixOSOption)>>) -> Map<Seq<char>, NixOSOption> {
    loaded_from(Map::empty(), docs, 0)
}

/// The document holds the key somewhere.
pub open spec fn doc_has(doc: Seq<(String, NixOSOption)>, k: Seq<char>) -> bool {
    exists|i: int| 0 <= i < doc.len() && doc[i].0@ == k
}

/// The record the document assigns to the key: that of the last pair naming
/// it.
pub open spec fn doc_value(doc: Seq<(String, NixOSOption)>, k: Seq<char>) -> NixOSOption
    decreases doc.len(),
{
    if doc.len() == 0 {
        arbitrary()
    } else if doc[0].0@ == k && !doc_has(doc.skip(1), k) {
        doc[0].1
    } else {
        doc_value(doc.skip(1), k)
    }
}

/// What merging a document does to a lookup: a key the document names gets
/// the document's (last) record for it; any other key keeps what the mapping
/// already said.
pub proof fn lemma_merged_lookup(
    m: Map<Seq<char>, NixOSOption>,
    doc: Seq<(String, NixOSOption)>,
    k: Seq<char>,
)
    ensures
        doc_has(doc, k) ==> merged(m, doc).contains_key(k) && merged(m, doc)[k] == doc_value(
            doc,
            k,
        ),
        !doc_has(doc, k) ==> merged(m, doc).contains_key(k) == m.contains_key(k) && (
        m.contains_key(k) ==> merged(m, doc)[k] == m[k]),
    decreases doc.len(),
{
    if doc.len() == 0 {
    } else {
        let m1 = m.insert(doc[0].0@, doc[0].1);
        let d1 = doc.skip(1);
        lemma_merged_lookup(m1, d1, k);
        if doc_has(d1, k) {
            assert(doc_has(doc, k)) by {
                let i = choose|i: int| 0 <= i < d1.len() && d1[i].0@ == k;
                assert(doc[i + 1].0@ == k);
            }
        } else if doc[0].0@ == k {
            assert(doc_has(doc, k));
            assert(doc_value(doc, k) == doc[0].1);
        } else {
            assert(!doc_has(doc, k)) by {
                if doc_has(doc, k) {
                    let i = choose|i: int| 0 <= i < doc.len() && doc[i].0@ == k;
                    assert(i != 0);
                    assert(d1[i - 1].0@ == k);
                }
            }
        }
    }
}

/// Loading two sources into one namespace: a key the second source redefines
/// gets the second source's record; a key only the first names keeps the
/// first's record; keys unique to either source are all present.
pub proof fn lemma_last_write_wins(
    d1: Seq<(String, NixOSOption)>,
    d2: Seq<(String, NixOSOption)>,
    k: Seq<char>,
)
    ensures
        doc_has(d2, k) ==> merged(merged(Map::empty(), d1), d2).contains_key(k) && merged(
            merged(Map::empty(), d1),
            d2,
        )[k] == doc_value(d2, k),
        !doc_has(d2, k) && doc_has(d1, k) ==> merged(merged(Map::empty(), d1), d2).contains_key(k)
            && merged(merged(Map::empty(), d1), d2)[k] == doc_value(d1, k),
        !doc_has(d2, k) && !doc_has(d1, k) ==> !merged(merged(Map::empty(), d1), d2).contains_key(
            k,
        ),
{
    let m1 = merged(Map::<Seq<char>, NixOSOption>::empty(), d1);
    lemma_merged_lookup(Map::empty(), d1, k);
    lemma_merged_lookup(m1, d2, k);
}

impl OptionsMap {
    /// The mapping this store holds.
    pub open spec fn as_map(&self) -> Map<Seq<char>, NixOSOption> {
        map_of(self.entries@)
    }

    /// The store's invariant: every key stands in at most one entry, as in
    /// the mapping the store stands for.
    pub open spec fn wf(&self) -> bool {
        forall|a: int, b: int| 0 <= a < b < self.entries@.len() ==> (
        #[trigger] self.entries@[a]).0@ != (#[trigger] self.entries@[b]).0@
    }

    /// A store holding nothing.
    pub fn new() -> (m: OptionsMap)
        ensures
            m.as_map() == Map::<Seq<char>, NixOSOption>::empty(),
            m.entries@.len() == 0,
            m.wf(),
    {
        OptionsMap { entries: Vec::new() }
    }

    /// Puts one pair into the store: the entry already holding its key is
    /// replaced, else the pair is appended.
    fn insert_pair(&mut self, pair: (String, NixOSOption))
        requires
            old(self).wf(),
        ensures
            final(self).wf(),
            final(self).as_map() == old(self).as_map().insert(pair.0@, pair.1),
    {
        let ghost p = pair;
        let n = self.entries.len();
        let mut j: usize = 0;
        while j < n
            invariant
                n == self.entries@.len(),
                j <= n,
                pair == p,
                old(self).wf(),
                self.entries@ == old(self).entries@,
                forall|q: int| 0 <= q < j ==> (#[trigger] self.entries@[q]).0@ != p.0@,
            decreases n - j,
        {
            if crate::text::str_eq(self.entries[j].0.as_str(), pair.0.as_str()) {
                let ghost before = self.entries@;
                self.entries.set(j, pair);
                proof {
                    let u = before.update(j as int, p);
                    assert(u[j as int].0@ == before[j as int].0@);
                    assert forall|q: int| 0 <= q < u.len() implies (#[trigger] u[q]).0@
                        == before[q].0@ by {
                        if q != j {
                            assert(u[q] == before[q]);
                        }
                    }
                    lemma_map_of_update(before, j as int, p);
                }
                return;
            }
            j = j + 1;
        }
        self.entries.push(pair);
        proof {
            assert(self.entries@.drop_last() =~= old(self).entries@);
            assert(self.entries@.last() == p);
        }
    }

    /// Merges one parsed document source into the store: every pair of the
    /// document is put in order, so on a duplicate key the later pair, and
    /// the later document, wins, and each key keeps exactly one entry.
    pub fn merge_doc(&mut self, doc: Vec<(String, NixOSOption)>)
        requires
            old(self).wf(),
        ensures
            final(self).wf(),
            final(self).as_map() == merged(old(self).as_map(), doc@),
    {
        let ghost doc0 = doc@;
        let ghost m0 = old(self).as_map();
        let mut d = doc;
        let ghost mut t: int = 0;
        while d.len() > 0
            invariant
                self.wf(),
                0 <= t <= doc0.len(),
                d@ == doc0.skip(t),
                merged(self.as_map(), doc0.skip(t)) == merged(m0, doc0),
            decreases d@.len(),
        {
            let pair = d.remove(0);
            proof {
                assert(pair == doc0[t]);
            }
            self.insert_pair(pair);
            proof {
                t = t + 1;
                assert(d@ =~= doc0.skip(t));
                assert(doc0.skip(t - 1).skip(1) =~= doc0.skip(t));
            }
        }
        proof {
            assert(doc0.skip(t) =~= Seq::<(String, NixOSOption)>::empty());
        }
    }

    /// Looks a key up: the record of the last entry naming it, which is what
    /// the mapping says.
    pub fn get<'a>(&'a self, key: &str) -> (r: Option<&'a NixOSOption>)
        ensures
            match r {
                Some(o) => self.as_map().contains_key(key@) && *o == self.as_map()[key@],
                None => !self.as_map().contains_key(key@),
            },
    {
        let mut j: usize = self.entries.len();
        while j > 0
            invariant
                j <= self.entries@.len(),
                forall|q: int| j <= q < self.entries@.len() ==> self.entries@[q].0@ != key@,
            decreases j,
        {
            j = j - 1;
            if crate::text::str_eq(self.entries[j].0.as_str(), key) {
                proof {
                    lemma_map_of_get(self.entries@, j as int);
                }
                return Some(&self.entries[j].1);
            }
        }
        proof {
            lemma_map_of_absent(self.entries@, key@);
        }
        None
    }
}

/// An entry no later entry shadows is what the mapping assigns to its key.
proof fn lemma_map_of_get(entries: Seq<(String, NixOSOption)>, i: int)
    requires
        0 <= i < entries.len(),
        forall|q: int| i < q < entries.len() ==> entries[q].0@ != entries[i].0@,
    ensures
        map_of(entries).contains_key(entries[i].0@),
        map_of(entries)[entries[i].0@] == entries[i].1,
    decreases entries.len(),
{
    if i == entries.len() - 1 {
    } else {
        assert(entries.drop_last()[i] == entries[i]);
        lemma_map_of_get(entries.drop_last(), i);
    }
}

/// A key no entry names is not in the mapping.
proof fn lemma_map_of_absent(entries: Seq<(String, NixOSOption)>, k: Seq<char>)
    requires
        forall|q: int| 0 <= q < entries.len() ==> entries[q].0@ != k,
    ensures
        !map_of(entries).contains_key(k),
    decreases entries.len(),
{
    if entries.len() > 0 {
        lemma_map_of_absent(entries.drop_last(), k);
    }
}

/// Replacing the one entry that holds a key reads as inserting over it.
proof fn lemma_map_of_update(
    entries: Seq<(String, NixOSOption)>,
    i: int,
    p: (String, NixOSOption),
)
    requires
        0 <= i < entries.len(),
        p.0@ == entries[i].0@,
        forall|a: int, b: int| 0 <= a < b < entries.len() ==> (#[trigger] entries[a]).0@ != (
        #[trigger] entries[b]).0@,
    ensures
        map_of(entries.update(i, p)) == map_of(entries).insert(p.0@, p.1),
    decreases entries.len(),
{
    let u = entries.update(i, p);
    if i == entries.len() - 1 {
        assert(u.drop_last() =~= entries.drop_last());
        assert(u.last() == p);
        assert(map_of(u) =~= map_of(entries).insert(p.0@, p.1));
    } else {
        assert(u.drop_last() =~= entries.drop_last().update(i, p));
        assert(u.last() == entries.last());
        assert(entries.drop_last()[i] == entries[i]);
        lemma_map_of_update(entries.drop_last(), i, p);
        assert(entries.last().0@ != p.0@);
        assert(map_of(u) =~= map_of(entries).insert(p.0@, p.1));
    }
}

/// Under the store's invariant, the entries and the mapping carry the same
/// keys and records: each entry is the record its key maps to, and every key
/// of the mapping stands in some entry.
pub proof fn lemma_wf_entries_match_map(m: OptionsMap)
    requires
        m.wf(),
    ensures
        forall|i: int| 0 <= i < m.entries@.len() ==> m.as_map().contains_key(
            (#[trigger] m.entries@[i]).0@,
        ) && m.as_map()[m.entries@[i].0@] == m.entries@[i].1,
        forall|k: Seq<char>| m.as_map().contains_key(k) ==> exists|i: int|
            0 <= i < m.entries@.len() && (#[trigger] m.entries@[i]).0@ == k,
{
    assert forall|i: int| 0 <= i < m.entries@.len() implies m.as_map().contains_key(
        (#[trigger] m.entries@[i]).0@,
    ) && m.as_map()[m.entries@[i].0@] == m.entries@[i].1 by {
        lemma_map_of_get(m.entries@, i);
    }
    assert forall|k: Seq<char>| m.as_map().contains_key(k) implies exists|i: int|
        0 <= i < m.entries@.len() && (#[trigger] m.entries@[i]).0@ == k by {
        if forall|i: int| 0 <= i < m.entries@.len() ==> (#[trigger] m.entries@[i]).0@ != k {
            lemma_map_of_absent(m.entries@, k);
        }
    }
}

/// The whole plugin state: the configuration, and one store per namespace
/// prefix, in load order.
pub struct State {
    pub config: Config,
    pub options: Vec<(String, OptionsMap)>,
    pub anyrun_cfg: AnyrunConfig,
}

/// The record the state finds for a key: namespaces are tried in order and
/// the first one holding the key wins.
pub open spec fn first_hit(
    nss: Seq<(String, OptionsMap)>,
    k: Seq<char>,
    i: int,
) -> Option<NixOSOption>
    decreases nss.len() - i
    when 0 <= i <= nss.len()
{
    if i >= nss.len() {
        None
    } else if nss[i].1.as_map().contains_key(k) {
        Some(nss[i].1.as_map()[k])
    } else {
        first_hit(nss, k, i + 1)
    }
}

impl State {
    /// Every namespace store of the state keeps its keys unique.
    pub open spec fn wf(&self) -> bool {
        forall|i: int| 0 <= i < self.options@.len() ==> (#[trigger] self.options@[i]).1.wf()
    }

    /// Builds the state: each namespace's document sources are merged in
    /// order into that namespace's store, and each store keeps one entry per
    /// key.
    pub fn load(
        config: Config,
        anyrun_cfg: AnyrunConfig,
        namespaces: Vec<(String, Vec<Vec<(String, NixOSOption)>>)>,
    ) -> (s: State)
        ensures
            s.config == config,
            s.anyrun_cfg == anyrun_cfg,
            s.options@.len() == namespaces@.len(),
            forall|i: int| 0 <= i < namespaces@.len() ==> (#[trigger] s.options@[i]).0
                == namespaces@[i].0 && s.options@[i].1.as_map() == loaded(namespaces@[i].1@),
            s.wf(),
    {
        let ghost nss0 = namespaces@;
        let mut rest = namespaces;
        let mut options: Vec<(String, OptionsMap)> = Vec::new();
        let ghost mut t: int = 0;
        while rest.len() > 0
            invariant
                0 <= t <= nss0.len(),
                rest@ == nss0.skip(t),
                options@.len() == t,
                forall|i: int| 0 <= i < t ==> (#[trigger] options@[i]).0 == nss0[i].0
                    && options@[i].1.as_map() == loaded(nss0[i].1@) && options@[i].1.wf(),
            decreases rest@.len(),
        {
            let (prefix, docs) = rest.remove(0);
            proof {
                assert((prefix, docs) == nss0[t]);
            }
            let m = load_namespace(docs);
            options.push((prefix, m));
            proof {
                t = t + 1;
                assert(rest@ =~= nss0.skip(t));
            }
        }
        State { config, options, anyrun_cfg }
    }

    /// Looks a recovered key up across the namespaces, first namespace wins.
    pub fn lookup<'a>(&'a self, key: &str) -> (r: Option<&'a NixOSOption>)
        ensures
            match r {
                Some(o) => first_hit(self.options@, key@, 0) == Some(*o),
                None => first_hit(self.options@, key@, 0) is None,
            },
    {
        let mut i: usize = 0;
        while i < self.options.len()
            invariant
                i <= self.options@.len(),
                first_hit(self.options@, key@, 0) == first_hit(self.options@, key@, i as int),
            decreases self.options@.len() - i,
        {
            match self.options[i].1.get(key) {
                Some(o) => {
                    return Some(o);
                },
                None => {},
            }
            i = i + 1;
        }
        None
    }
}

/// Merges a namespace's document sources, in order, into one store.
pub fn load_namespace(docs: Vec<Vec<(String, NixOSOption)>>) -> (m: OptionsMap)
    ensures
        m.as_map() == loaded(docs@),
        m.wf(),
{
    let ghost docs0 = docs@;
    let mut rest = docs;
    let mut m = OptionsMap::new();
    let ghost mut t: int = 0;
    while rest.len() > 0
        invariant
            m.wf(),
            0 <= t <= docs0.len(),
            rest@ == docs0.skip(t),
            loaded_from(m.as_map(), docs0, t) == loaded(docs0),
        decreases rest@.len(),
    {
        let doc = rest.remove(0);
        proof {
            assert(doc == docs0[t]);
        }
        m.merge_doc(doc);
        proof {
            t = t + 1;
            assert(rest@ =~= docs0.skip(t));
        }
    }
    m
}

} // verus!
