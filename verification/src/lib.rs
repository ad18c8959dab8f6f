use vstd::prelude::*;

pub mod assoc;
pub mod error;
pub mod strutil;
pub mod trie_index;

use crate::assoc::{
    assoc_lookup, assoc_map, lemma_assoc_map_contains_entry_key, lemma_assoc_map_key_from_entry,
    lemma_assoc_map_push,
};
use crate::error::DuplicateRecordError;
use crate::strutil::{exactly_one_colon, find_sole_colon, str_concat, str_is_prefix};
use crate::trie_index::{
    builder_keys, trie_build, trie_builder_new, trie_builder_push, trie_keys, trie_prefix_matches,
};
use trie_rs::Trie;
use trie_rs::TrieBuilder;
use vstd::string::*;

verus! {

/// A CURIE record: one canonical prefix (e.g. `doid`), one canonical URI
/// prefix (e.g. `http://purl.obolibrary.org/obo/DOID_`), and the synonyms
/// under which each of them may also be written. A record is immutable
/// once constructed.
#[derive(Debug, Clone)]
pub struct Record {
    pub prefix: String,
    pub uri_prefix: String,
    pub prefix_synonyms: Vec<String>,
    pub uri_prefix_synonyms: Vec<String>,
}

/// The suffix of `uri` after the first of `forms` that is a prefix of it,
/// if any: the forms are tried in order.
pub open spec fn strip_first(forms: Seq<String>, uri: Seq<char>) -> Option<Seq<char>>
    decreases forms.len(),
{
    if forms.len() == 0 {
        None
    } else if forms[0]@.is_prefix_of(uri) {
        Some(uri.skip(forms[0]@.len() as int))
    } else {
        strip_first(forms.drop_first(), uri)
    }
}

/// Skipping leading forms that are not prefixes of `uri` does not change
/// what `strip_first` yields.
pub proof fn lemma_strip_first_skip(forms: Seq<String>, uri: Seq<char>, k: int)
    requires
        0 <= k <= forms.len(),
        forall|j: int| 0 <= j < k ==> !(#[trigger] forms[j])@.is_prefix_of(uri),
    ensures
        strip_first(forms, uri) == strip_first(forms.skip(k), uri),
    decreases k,
{
    if k > 0 {
        assert(!forms[0]@.is_prefix_of(uri));
        assert(forall|j: int|
            0 <= j < k - 1 ==> !(#[trigger] forms.drop_first()[j])@.is_prefix_of(uri));
        lemma_strip_first_skip(forms.drop_first(), uri, k - 1);
        assert(forms.drop_first().skip(k - 1) =~= forms.skip(k));
    } else {
        assert(forms.skip(0) =~= forms);
    }
}

/// The local identifier that remains when a record's URI forms are stripped
/// from the front of `uri`: the canonical URI prefix is tried first, then
/// the synonyms in order.
pub open spec fn strip_uri(rec: Record, uri: Seq<char>) -> Option<Seq<char>> {
    if rec.uri_prefix@.is_prefix_of(uri) {
        Some(uri.skip(rec.uri_prefix@.len() as int))
    } else {
        strip_first(rec.uri_prefix_synonyms@, uri)
    }
}

/// One index entry per key, all bound to the record at position `i`.
pub open spec fn entries_for(keys: Seq<String>, i: usize) -> Seq<(String, usize)> {
    keys.map_values(|s: String| (s, i))
}

/// The registry: owns the records and resolves them by CURIE prefix, by URI
/// prefix, or by the longest registered URI prefix of a full URI. The two
/// exact indexes are association lists in which a later binding for a key
/// shadows an earlier one, exactly as repeated insertion into a hash map
/// would; the longest-prefix index is a byte trie over every registered URI
/// form, canonical and synonym alike.
pub struct Converter {
    pub records: Vec<Record>,
    pub prefix_entries: Vec<(String, usize)>,
    pub uri_entries: Vec<(String, usize)>,
    pub trie_builder: TrieBuilder<u8>,
    pub trie: Trie<u8>,
}

impl Converter {
    /// The exact-match index from CURIE prefix forms to record positions.
    pub open spec fn prefix_map(self) -> Map<Seq<char>, int> {
        assoc_map(self.prefix_entries@)
    }

    /// The exact-match index from URI prefix forms to record positions.
    pub open spec fn uri_map(self) -> Map<Seq<char>, int> {
        assoc_map(self.uri_entries@)
    }

    /// The set of URI prefix strings the longest-prefix index holds.
    pub open spec fn trie_set(self) -> Set<Seq<char>> {
        trie_keys(self.trie)
    }

    /// Internal consistency: the built trie is up to date with its builder,
    /// every index entry points at a record, and every string in the trie is
    /// a key of the URI index.
    pub open spec fn wf(self) -> bool {
        &&& builder_keys(self.trie_builder) == trie_keys(self.trie)
        &&& forall|j: int|
            0 <= j < self.prefix_entries@.len() ==> (#[trigger] self.prefix_entries@[j]).1
                < self.records@.len()
        &&& forall|j: int|
            0 <= j < self.uri_entries@.len() ==> (#[trigger] self.uri_entries@[j]).1
                < self.records@.len()
        &&& forall|s: Seq<char>|
            #[trigger] trie_keys(self.trie).contains(s) ==> exists|j: int|
                0 <= j < self.uri_entries@.len() && (#[trigger] self.uri_entries@[j]).0@ == s
    }

    /// Some registered URI prefix is a prefix of `uri`.
    pub open spec fn has_uri_match(self, uri: Seq<char>) -> bool {
        exists|s: Seq<char>| #[trigger] self.trie_set().contains(s) && s.is_prefix_of(uri)
    }

    /// `s` is a registered URI prefix of `uri` and none is longer.
    pub open spec fn is_longest_uri_match(self, uri: Seq<char>, s: Seq<char>) -> bool {
        &&& self.trie_set().contains(s)
        &&& s.is_prefix_of(uri)
        &&& forall|t: Seq<char>|
            #[trigger] self.trie_set().contains(t) && t.is_prefix_of(uri) ==> t.len() <= s.len()
    }

    /// The longest registered URI prefix of `uri`.
    pub open spec fn longest_uri_match(self, uri: Seq<char>) -> Seq<char> {
        choose|s: Seq<char>| self.is_longest_uri_match(uri, s)
    }

    /// Two longest matches of one query are the same string.
    pub proof fn lemma_longest_uri_match_unique(
        self,
        uri: Seq<char>,
        s1: Seq<char>,
        s2: Seq<char>,
    )
        requires
            self.is_longest_uri_match(uri, s1),
            self.is_longest_uri_match(uri, s2),
        ensures
            s1 == s2,
    {
        assert(s1.len() == s2.len());
        assert(s1 =~= uri.subrange(0, s1.len() as int));
        assert(s2 =~= uri.subrange(0, s2.len() as int));
        assert(s1 =~= s2);
    }

    /// Position of the record a full URI resolves to: the one the URI index
    /// gives for the longest registered URI prefix of the query.
    pub open spec fn resolve_uri(self, uri: Seq<char>) -> Option<int> {
        if self.has_uri_match(uri) {
            Some(self.uri_map()[self.longest_uri_match(uri)])
        } else {
            None
        }
    }

    /// Create an empty registry.
    pub fn new() -> (c: Converter)
        ensures
            c.wf(),
            c.records@ == Seq::<Record>::empty(),
            c.prefix_map() == Map::<Seq<char>, int>::empty(),
            c.uri_map() == Map::<Seq<char>, int>::empty(),
            c.trie_set() == Set::<Seq<char>>::empty(),
    {
        let trie_builder = trie_builder_new();
        let trie = trie_build(&trie_builder);
        Converter {
            records: Vec::new(),
            prefix_entries: Vec::new(),
            uri_entries: Vec::new(),
            trie_builder,
            trie,
        }
    }

    /// Register a record. Fails with the colliding key when the record's
    /// canonical prefix or canonical URI prefix is already a key of the
    /// matching index, leaving the registry unchanged; synonym keys are not
    /// checked, and a colliding synonym silently shadows the earlier binding
    /// in the exact index, a known gap kept from the registry's design. On
    /// success the record is appended and every one of its forms is indexed:
    /// prefix forms in the prefix index, URI forms in the URI index and in
    /// the longest-prefix trie, canonical forms first. URI forms must be
    /// nonempty: the trie neither stores nor matches an empty string.
    pub fn add_record(&mut self, record: Record) -> (r: Result<(), DuplicateRecordError>)
        requires
            old(self).wf(),
            record.uri_prefix@.len() > 0,
            forall|j: int|
                0 <= j < record.uri_prefix_synonyms@.len() ==> (
                #[trigger] record.uri_prefix_synonyms@[j])@.len() > 0,
        ensures
            final(self).wf(),
            match r {
                Err(e) => *final(self) == *old(self) && (old(self).prefix_map().contains_key(
                    record.prefix@,
                ) || old(self).uri_map().contains_key(record.uri_prefix@)) && e.0@ == (
                if old(self).prefix_map().contains_key(record.prefix@) {
                    record.prefix@
                } else {
                    record.uri_prefix@
                }),
                Ok(_) => !old(self).prefix_map().contains_key(record.prefix@) && !old(
                    self,
                ).uri_map().contains_key(record.uri_prefix@) && final(self).records@ == old(
                    self,
                ).records@.push(record) && final(self).prefix_entries@ == old(
                    self,
                ).prefix_entries@.push(
                    (record.prefix, old(self).records@.len() as usize),
                ) + entries_for(record.prefix_synonyms@, old(self).records@.len() as usize)
                    && final(self).uri_entries@ == old(self).uri_entries@.push(
                    (record.uri_prefix, old(self).records@.len() as usize),
                ) + entries_for(record.uri_prefix_synonyms@, old(self).records@.len() as usize)
                    && final(self).trie_set() == old(self).trie_set().insert(
                    record.uri_prefix@,
                ).union(record.uri_prefix_synonyms@.map_values(|s: String| s@).to_set()),
            },
    {
        if assoc_lookup(&self.prefix_entries, record.prefix.as_str()).is_some() {
            return Err(DuplicateRecordError(record.prefix.clone()));
        }
        if assoc_lookup(&self.uri_entries, record.uri_prefix.as_str()).is_some() {
            return Err(DuplicateRecordError(record.uri_prefix.clone()));
        }
        let n = self.records.len();
        self.prefix_entries.push((record.prefix.clone(), n));
        let ns = record.prefix_synonyms.len();
        let mut k: usize = 0;
        while k < ns
            invariant
                ns == record.prefix_synonyms@.len(),
                k <= ns,
                self.records@ == old(self).records@,
                n as int == self.records@.len(),
                self.prefix_entries@ == old(self).prefix_entries@.push((record.prefix, n))
                    + entries_for(record.prefix_synonyms@.take(k as int), n),
                self.uri_entries@ == old(self).uri_entries@,
                self.trie_builder == old(self).trie_builder,
                self.trie == old(self).trie,
            decreases ns - k,
        {
            self.prefix_entries.push((record.prefix_synonyms[k].clone(), n));
            proof {
                let f = |s: String| (s, n);
                assert(record.prefix_synonyms@.take(k as int).map_values(f).push(
                    f(record.prefix_synonyms@[k as int]),
                ) =~= record.prefix_synonyms@.take(k as int + 1).map_values(f));
                assert(old(self).prefix_entries@.push((record.prefix, n)) + entries_for(
                    record.prefix_synonyms@.take(k as int),
                    n,
                ).push((record.prefix_synonyms@[k as int], n)) =~= (old(
                    self,
                ).prefix_entries@.push((record.prefix, n)) + entries_for(
                    record.prefix_synonyms@.take(k as int),
                    n,
                )).push((record.prefix_synonyms@[k as int], n)));
            }
            k += 1;
        }
        proof {
            assert(record.prefix_synonyms@.take(ns as int) =~= record.prefix_synonyms@);
        }
        self.uri_entries.push((record.uri_prefix.clone(), n));
        trie_builder_push(&mut self.trie_builder, record.uri_prefix.as_str());
        let ns2 = record.uri_prefix_synonyms.len();
        let mut k2: usize = 0;
        proof {
            assert(builder_keys(self.trie_builder) == trie_keys(old(self).trie).insert(
                record.uri_prefix@,
            ).union(record.uri_prefix_synonyms@.take(0).map_values(|s: String| s@).to_set()))
                by {
                assert(record.uri_prefix_synonyms@.take(0).map_values(|s: String| s@).to_set()
                    =~= Set::<Seq<char>>::empty());
                assert(trie_keys(old(self).trie).insert(record.uri_prefix@).union(
                    Set::<Seq<char>>::empty(),
                ) =~= trie_keys(old(self).trie).insert(record.uri_prefix@));
            }
        }
        while k2 < ns2
            invariant
                ns2 == record.uri_prefix_synonyms@.len(),
                k2 <= ns2,
                forall|j: int|
                    0 <= j < record.uri_prefix_synonyms@.len() ==> (
                    #[trigger] record.uri_prefix_synonyms@[j])@.len() > 0,
                self.records@ == old(self).records@,
                n as int == self.records@.len(),
                self.prefix_entries@ == old(self).prefix_entries@.push((record.prefix, n))
                    + entries_for(record.prefix_synonyms@, n),
                self.uri_entries@ == old(self).uri_entries@.push((record.uri_prefix, n))
                    + entries_for(record.uri_prefix_synonyms@.take(k2 as int), n),
                builder_keys(self.trie_builder) == trie_keys(old(self).trie).insert(
                    record.uri_prefix@,
                ).union(
                    record.uri_prefix_synonyms@.take(k2 as int).map_values(|s: String| s@).to_set(),
                ),
                self.trie == old(self).trie,
            decreases ns2 - k2,
        {
            self.uri_entries.push((record.uri_prefix_synonyms[k2].clone(), n));
            trie_builder_push(&mut self.trie_builder, record.uri_prefix_synonyms[k2].as_str());
            proof {
                let f = |s: String| (s, n);
                let g = |s: String| s@;
                assert(record.uri_prefix_synonyms@.take(k2 as int).map_values(f).push(
                    f(record.uri_prefix_synonyms@[k2 as int]),
                ) =~= record.uri_prefix_synonyms@.take(k2 as int + 1).map_values(f));
                assert(old(self).uri_entries@.push((record.uri_prefix, n)) + entries_for(
                    record.uri_prefix_synonyms@.take(k2 as int),
                    n,
                ).push((record.uri_prefix_synonyms@[k2 as int], n)) =~= (old(
                    self,
                ).uri_entries@.push((record.uri_prefix, n)) + entries_for(
                    record.uri_prefix_synonyms@.take(k2 as int),
                    n,
                )).push((record.uri_prefix_synonyms@[k2 as int], n)));
                assert(record.uri_prefix_synonyms@.take(k2 as int).map_values(g).push(
                    g(record.uri_prefix_synonyms@[k2 as int]),
                ) =~= record.uri_prefix_synonyms@.take(k2 as int + 1).map_values(g));
                assert(trie_keys(old(self).trie).insert(record.uri_prefix@).union(
                    record.uri_prefix_synonyms@.take(k2 as int).map_values(g).to_set(),
                ).insert(record.uri_prefix_synonyms@[k2 as int]@) =~= trie_keys(
                    old(self).trie,
                ).insert(record.uri_prefix@).union(
                    record.uri_prefix_synonyms@.take(k2 as int + 1).map_values(g).to_set(),
                )) by {
                    let lhs = record.uri_prefix_synonyms@.take(k2 as int).map_values(g);
                    let rhs = record.uri_prefix_synonyms@.take(k2 as int + 1).map_values(g);
                    assert(rhs =~= lhs.push(g(record.uri_prefix_synonyms@[k2 as int])));
                    assert forall|x: Seq<char>| #[trigger] rhs.to_set().contains(x) implies
                        lhs.to_set().insert(g(record.uri_prefix_synonyms@[k2 as int])).contains(
                        x,
                    ) by {
                        let w = choose|w: int| 0 <= w < rhs.len() && rhs[w] == x;
                        if w < lhs.len() {
                            assert(lhs[w] == x);
                        }
                    }
                    assert forall|x: Seq<char>| lhs.to_set().contains(x) implies
                        rhs.to_set().contains(x) by {
                        let w = choose|w: int| 0 <= w < lhs.len() && lhs[w] == x;
                        assert(rhs[w] == x);
                    }
                    assert(rhs.to_set().contains(g(record.uri_prefix_synonyms@[k2 as int])))
                        by {
                        assert(rhs[lhs.len() as int] == g(record.uri_prefix_synonyms@[k2 as int]));
                    }
                }
            }
            k2 += 1;
        }
        proof {
            assert(record.uri_prefix_synonyms@.take(ns2 as int) =~= record.uri_prefix_synonyms@);
        }
        self.trie = trie_build(&self.trie_builder);
        self.records.push(record);
        proof {
            assert(self.records@ == old(self).records@.push(record));
            let pe = self.prefix_entries@;
            let ue = self.uri_entries@;
            assert forall|j: int| 0 <= j < pe.len() implies (#[trigger] pe[j]).1
                < self.records@.len() by {
                let base = old(self).prefix_entries@;
                if j < base.len() {
                    assert(pe[j] == base[j]);
                } else if j == base.len() {
                    assert(pe[j] == (record.prefix, n));
                } else {
                    assert(pe[j] == entries_for(record.prefix_synonyms@, n)[j - base.len() - 1]);
                }
            }
            assert forall|j: int| 0 <= j < ue.len() implies (#[trigger] ue[j]).1
                < self.records@.len() by {
                let base = old(self).uri_entries@;
                if j < base.len() {
                    assert(ue[j] == base[j]);
                } else if j == base.len() {
                    assert(ue[j] == (record.uri_prefix, n));
                } else {
                    assert(ue[j] == entries_for(record.uri_prefix_synonyms@, n)[j - base.len()
                        - 1]);
                }
            }
            assert forall|s: Seq<char>| #[trigger] trie_keys(self.trie).contains(s) implies exists|
                j: int,
            | 0 <= j < ue.len() && (#[trigger] ue[j]).0@ == s by {
                let base = old(self).uri_entries@;
                if trie_keys(old(self).trie).contains(s) {
                    let j = choose|j: int|
                        0 <= j < base.len() && (#[trigger] base[j]).0@ == s;
                    assert(ue[j].0@ == s);
                } else if s == record.uri_prefix@ {
                    assert(ue[base.len() as int].0@ == s);
                } else {
                    let g = |s: String| s@;
                    let views = record.uri_prefix_synonyms@.map_values(g);
                    assert(views.to_set().contains(s));
                    let w = choose|w: int| 0 <= w < views.len() && views[w] == s;
                    assert(ue[base.len() + 1 + w].0@ == s);
                }
            }
        }
        Ok(())
    }

    /// Find the record registered under a CURIE prefix, canonical or
    /// synonym: exact lookup in the prefix index.
    pub fn find_by_prefix(&self, prefix: &str) -> (r: Option<&Record>)
        requires
            self.wf(),
        ensures
            match r {
                Some(rec) => self.prefix_map().contains_key(prefix@) && 0 <= self.prefix_map()[
                    prefix@
                ] < self.records@.len() && *rec == self.records@[self.prefix_map()[prefix@]],
                None => !self.prefix_map().contains_key(prefix@),
            },
    {
        match assoc_lookup(&self.prefix_entries, prefix) {
            Some(i) => {
                proof {
                    lemma_assoc_map_key_from_entry(self.prefix_entries@, prefix@);
                }
                Some(&self.records[i])
            },
            None => None,
        }
    }

    /// Find the record registered under a URI prefix, canonical or synonym:
    /// exact lookup in the URI index.
    pub fn find_by_uri_prefix(&self, uri_prefix: &str) -> (r: Option<&Record>)
        requires
            self.wf(),
        ensures
            match r {
                Some(rec) => self.uri_map().contains_key(uri_prefix@) && 0 <= self.uri_map()[
                    uri_prefix@
                ] < self.records@.len() && *rec == self.records@[self.uri_map()[uri_prefix@]],
                None => !self.uri_map().contains_key(uri_prefix@),
            },
    {
        match assoc_lookup(&self.uri_entries, uri_prefix) {
            Some(i) => {
                proof {
                    lemma_assoc_map_key_from_entry(self.uri_entries@, uri_prefix@);
                }
                Some(&self.records[i])
            },
            None => None,
        }
    }

    /// Find the record whose registered URI prefix is the longest one that
    /// prefixes the given full URI.
    pub fn find_by_uri(&self, uri: &str) -> (r: Option<&Record>)
        requires
            self.wf(),
        ensures
            match r {
                Some(rec) => self.has_uri_match(uri@) && self.uri_map().contains_key(
                    self.longest_uri_match(uri@),
                ) && {
                    let i = self.uri_map()[self.longest_uri_match(uri@)];
                    0 <= i < self.records@.len() && *rec == self.records@[i]
                },
                None => !self.has_uri_match(uri@),
            },
    {
        let found = trie_prefix_matches(&self.trie, uri);
        if found.len() == 0 {
            proof {
                if self.has_uri_match(uri@) {
                    let s = choose|s: Seq<char>|
                        #[trigger] self.trie_set().contains(s) && s.is_prefix_of(uri@);
                    assert(exists|i: int| 0 <= i < found@.len() && found@[i]@ == s);
                }
            }
            return None;
        }
        let last = &found[found.len() - 1];
        proof {
            let li = found@.len() - 1;
            assert(self.trie_set().contains(found@[li]@) && found@[li]@.is_prefix_of(uri@));
            assert forall|t: Seq<char>|
                #[trigger] self.trie_set().contains(t) && t.is_prefix_of(uri@) implies t.len()
                <= last@.len() by {
                let i = choose|i: int| 0 <= i < found@.len() && found@[i]@ == t;
                if i < li {
                    assert(found@[i]@.len() < found@[li]@.len());
                }
            }
            assert(self.is_longest_uri_match(uri@, last@));
            self.lemma_longest_uri_match_unique(uri@, self.longest_uri_match(uri@), last@);
            let j = choose|j: int|
                0 <= j < self.uri_entries@.len() && (#[trigger] self.uri_entries@[j]).0@ == last@;
            lemma_assoc_map_contains_entry_key(self.uri_entries@, j);
        }
        match assoc_lookup(&self.uri_entries, last.as_str()) {
            Some(i) => {
                proof {
                    lemma_assoc_map_key_from_entry(self.uri_entries@, last@);
                }
                Some(&self.records[i])
            },
            None => {
                proof {
                    assert(false);
                }
                None
            },
        }
    }

    /// What `expand` returns: when the CURIE holds exactly one colon and
    /// the part before it is a registered prefix form, the owning record's
    /// canonical URI prefix concatenated with the part after the colon.
    pub open spec fn expand_spec(self, curie: Seq<char>) -> Option<Seq<char>> {
        if exactly_one_colon(curie) {
            let i = choose|i: int|
                0 <= i < curie.len() && curie[i] == ':' && (forall|j: int|
                    0 <= j < curie.len() && curie[j] == ':' ==> j == i);
            let p = curie.take(i);
            let id = curie.skip(i + 1);
            if self.prefix_map().contains_key(p) {
                Some(self.records@[self.prefix_map()[p]].uri_prefix@ + id)
            } else {
                None
            }
        } else {
            None
        }
    }

    /// Expand a CURIE of the form `prefix:local_id` to a full URI. The URI
    /// prefix is expected to already end in its joining character, so the
    /// two parts are concatenated directly.
    pub fn expand(&self, curie: &str) -> (r: Option<String>)
        requires
            self.wf(),
        ensures
            r.deep_view() == self.expand_spec(curie@),
    {
        let len = curie.unicode_len();
        match find_sole_colon(curie) {
            None => None,
            Some(ci) => {
                proof {
                    assert(exactly_one_colon(curie@));
                    let w = choose|i: int|
                        0 <= i < curie@.len() && curie@[i] == ':' && (forall|j: int|
                            0 <= j < curie@.len() && curie@[j] == ':' ==> j == i);
                    assert(w == ci as int);
                }
                let p = curie.substring_char(0, ci);
                let id = curie.substring_char(ci + 1, len);
                proof {
                    assert(p@ =~= curie@.take(ci as int));
                    assert(id@ =~= curie@.skip(ci as int + 1));
                }
                match self.find_by_prefix(p) {
                    None => None,
                    Some(rec) => Some(str_concat(rec.uri_prefix.as_str(), id)),
                }
            },
        }
    }

    /// What `compress` returns: the record the URI resolves to by longest
    /// registered URI prefix, written as its canonical prefix, a colon, and
    /// the local identifier left when the record's URI forms are stripped
    /// from the front of `uri`.
    pub open spec fn compress_spec(self, uri: Seq<char>) -> Option<Seq<char>> {
        match self.resolve_uri(uri) {
            Some(i) => match strip_uri(self.records@[i], uri) {
                Some(id) => Some(self.records@[i].prefix@ + seq![':'] + id),
                None => None,
            },
            None => None,
        }
    }

    /// Compress a full URI to a CURIE `prefix:local_id`.
    pub fn compress(&self, uri: &str) -> (r: Option<String>)
        requires
            self.wf(),
        ensures
            r.deep_view() == self.compress_spec(uri@),
    {
        let uri_len = uri.unicode_len();
        match self.find_by_uri(uri) {
            None => None,
            Some(rec) => {
                if str_is_prefix(rec.uri_prefix.as_str(), uri) {
                    let plen = rec.uri_prefix.as_str().unicode_len();
                    let id = uri.substring_char(plen, uri_len);
                    proof {
                        assert(id@ =~= uri@.skip(rec.uri_prefix@.len() as int));
                    }
                    Some(make_curie(rec.prefix.as_str(), id))
                } else {
                    let n = rec.uri_prefix_synonyms.len();
                    let mut k: usize = 0;
                    while k < n
                        invariant
                            self.wf(),
                            uri_len == uri@.len(),
                            self.has_uri_match(uri@),
                            self.uri_map().contains_key(self.longest_uri_match(uri@)),
                            0 <= self.uri_map()[self.longest_uri_match(uri@)]
                                < self.records@.len(),
                            *rec == self.records@[self.uri_map()[self.longest_uri_match(uri@)]],
                            !rec.uri_prefix@.is_prefix_of(uri@),
                            n == rec.uri_prefix_synonyms@.len(),
                            k <= n,
                            forall|j: int|
                                0 <= j < k ==> !(
                                #[trigger] rec.uri_prefix_synonyms@[j])@.is_prefix_of(uri@),
                        decreases n - k,
                    {
                        if str_is_prefix(rec.uri_prefix_synonyms[k].as_str(), uri) {
                            let plen = rec.uri_prefix_synonyms[k].as_str().unicode_len();
                            let id = uri.substring_char(plen, uri_len);
                            proof {
                                lemma_strip_first_skip(rec.uri_prefix_synonyms@, uri@, k as int);
                                assert(rec.uri_prefix_synonyms@.skip(k as int)[0]
                                    == rec.uri_prefix_synonyms@[k as int]);
                                assert(id@ =~= uri@.skip(
                                    rec.uri_prefix_synonyms@[k as int]@.len() as int,
                                ));
                            }
                            return Some(make_curie(rec.prefix.as_str(), id));
                        }
                        k += 1;
                    }
                    proof {
                        lemma_strip_first_skip(rec.uri_prefix_synonyms@, uri@, n as int);
                        assert(rec.uri_prefix_synonyms@.skip(n as int) =~= Seq::<String>::empty());
                    }
                    None
                }
            },
        }
    }
}

impl Default for Converter {
    /// Same as `Converter::new`: an empty registry.
    fn default() -> (c: Self)
        ensures
            c.wf(),
            c.records@ == Seq::<Record>::empty(),
            c.prefix_map() == Map::<Seq<char>, int>::empty(),
            c.uri_map() == Map::<Seq<char>, int>::empty(),
            c.trie_set() == Set::<Seq<char>>::empty(),
    {
        Converter::new()
    }
}

/// A longest match among those of length at most `n`, when any match of
/// length at most `n` exists.
proof fn lemma_longest_bounded(c: Converter, uri: Seq<char>, n: int) -> (s: Seq<char>)
    requires
        0 <= n,
        exists|t: Seq<char>|
            #[trigger] c.trie_set().contains(t) && t.is_prefix_of(uri) && t.len() <= n,
    ensures
        c.trie_set().contains(s),
        s.is_prefix_of(uri),
        s.len() <= n,
        forall|t: Seq<char>|
            #[trigger] c.trie_set().contains(t) && t.is_prefix_of(uri) && t.len() <= n ==> t.len()
                <= s.len(),
    decreases n,
{
    if exists|t: Seq<char>|
        #[trigger] c.trie_set().contains(t) && t.is_prefix_of(uri) && t.len() == n {
        let s = choose|t: Seq<char>|
            #[trigger] c.trie_set().contains(t) && t.is_prefix_of(uri) && t.len() == n;
        s
    } else {
        let t0 = choose|t: Seq<char>|
            #[trigger] c.trie_set().contains(t) && t.is_prefix_of(uri) && t.len() <= n;
        assert(t0.len() <= n - 1);
        lemma_longest_bounded(c, uri, n - 1)
    }
}

/// Whenever some registered URI prefix is a prefix of the query, a longest
/// such prefix exists, and it is the one the resolution model picks.
pub proof fn lemma_longest_match_exists(c: Converter, uri: Seq<char>)
    requires
        c.has_uri_match(uri),
    ensures
        c.is_longest_uri_match(uri, c.longest_uri_match(uri)),
{
    let s0 = choose|s: Seq<char>| #[trigger] c.trie_set().contains(s) && s.is_prefix_of(uri);
    assert(s0.len() <= uri.len() as int);
    let s = lemma_longest_bounded(c, uri, uri.len() as int);
    assert(c.is_longest_uri_match(uri, s));
}

/// Longest-prefix precedence: when two registered URI prefixes both prefix
/// a query and one is strictly longer, resolution never goes through the
/// shorter one; and when the longer one is the longest such match, the
/// query resolves to exactly the record position the URI index binds it to.
pub proof fn lemma_longest_prefix_precedence(
    c: Converter,
    uri: Seq<char>,
    s1: Seq<char>,
    s2: Seq<char>,
)
    requires
        c.trie_set().contains(s1),
        c.trie_set().contains(s2),
        s1.is_prefix_of(uri),
        s2.is_prefix_of(uri),
        s1.len() < s2.len(),
    ensures
        c.has_uri_match(uri),
        c.longest_uri_match(uri) != s1,
        (forall|t: Seq<char>|
            #[trigger] c.trie_set().contains(t) && t.is_prefix_of(uri) ==> t.len() <= s2.len())
            ==> c.resolve_uri(uri) == Some(c.uri_map()[s2]),
{
    assert(c.has_uri_match(uri));
    lemma_longest_match_exists(c, uri);
    assert(s2.len() <= c.longest_uri_match(uri).len());
    if forall|t: Seq<char>|
        #[trigger] c.trie_set().contains(t) && t.is_prefix_of(uri) ==> t.len() <= s2.len() {
        assert(c.is_longest_uri_match(uri, s2));
        c.lemma_longest_uri_match_unique(uri, c.longest_uri_match(uri), s2);
    }
}

/// What `expand_spec` yields on a CURIE assembled from a colon-free prefix
/// and a colon-free local identifier.
pub proof fn lemma_expand_spec_at(c: Converter, p: Seq<char>, id: Seq<char>)
    requires
        !p.contains(':'),
        !id.contains(':'),
    ensures
        c.expand_spec(p + seq![':'] + id) == (if c.prefix_map().contains_key(p) {
            Some(c.records@[c.prefix_map()[p]].uri_prefix@ + id)
        } else {
            None
        }),
{
    let curie = p + seq![':'] + id;
    let ci = p.len() as int;
    assert(curie[ci] == ':');
    assert forall|j: int| 0 <= j < curie.len() && curie[j] == ':' implies j == ci by {
        if j < ci {
            assert(curie[j] == p[j]);
            assert(p.contains(':')) by {
                assert(p[j] == ':');
            }
        } else if j > ci {
            assert(curie[j] == id[j - ci - 1]);
            assert(id.contains(':')) by {
                assert(id[j - ci - 1] == ':');
            }
        }
    }
    assert(exactly_one_colon(curie));
    let w = choose|i: int|
        0 <= i < curie.len() && curie[i] == ':' && (forall|j: int|
            0 <= j < curie.len() && curie[j] == ':' ==> j == i);
    assert(w == ci);
    assert(curie.take(ci) =~= p);
    assert(curie.skip(ci + 1) =~= id);
}

/// What `compress_spec` yields on a URI assembled from a record's canonical
/// URI prefix, when that prefix is the longest registered match and the URI
/// index binds it to that record.
pub proof fn lemma_compress_canonical(c: Converter, i: int, id: Seq<char>)
    requires
        0 <= i < c.records@.len(),
        c.uri_map().contains_key(c.records@[i].uri_prefix@),
        c.uri_map()[c.records@[i].uri_prefix@] == i,
        c.is_longest_uri_match(c.records@[i].uri_prefix@ + id, c.records@[i].uri_prefix@),
    ensures
        c.compress_spec(c.records@[i].uri_prefix@ + id) == Some(
            c.records@[i].prefix@ + seq![':'] + id,
        ),
{
    let rec = c.records@[i];
    let u = rec.uri_prefix@ + id;
    assert(c.has_uri_match(u));
    lemma_longest_match_exists(c, u);
    c.lemma_longest_uri_match_unique(u, c.longest_uri_match(u), rec.uri_prefix@);
    assert(c.resolve_uri(u) == Some(i));
    assert(rec.uri_prefix@.is_prefix_of(u));
    assert(u.skip(rec.uri_prefix@.len() as int) =~= id);
    assert(strip_uri(rec, u) == Some(id));
}

/// What `compress_spec` yields on a URI assembled from one of a record's
/// URI prefix synonyms, when that synonym is the longest registered match,
/// the URI index binds it to that record, the canonical URI prefix does not
/// also prefix the URI, and no earlier synonym does either.
pub proof fn lemma_compress_via_synonym(c: Converter, i: int, w: int, id: Seq<char>)
    requires
        0 <= i < c.records@.len(),
        0 <= w < c.records@[i].uri_prefix_synonyms@.len(),
        c.uri_map().contains_key(c.records@[i].uri_prefix_synonyms@[w]@),
        c.uri_map()[c.records@[i].uri_prefix_synonyms@[w]@] == i,
        c.is_longest_uri_match(
            c.records@[i].uri_prefix_synonyms@[w]@ + id,
            c.records@[i].uri_prefix_synonyms@[w]@,
        ),
        !c.records@[i].uri_prefix@.is_prefix_of(c.records@[i].uri_prefix_synonyms@[w]@ + id),
        forall|j: int|
            0 <= j < w ==> !(#[trigger] c.records@[i].uri_prefix_synonyms@[j])@.is_prefix_of(
                c.records@[i].uri_prefix_synonyms@[w]@ + id,
            ),
    ensures
        c.compress_spec(c.records@[i].uri_prefix_synonyms@[w]@ + id) == Some(
            c.records@[i].prefix@ + seq![':'] + id,
        ),
{
    let rec = c.records@[i];
    let syn = rec.uri_prefix_synonyms@[w]@;
    let u = syn + id;
    assert(syn.is_prefix_of(u)) by {
        assert(u.subrange(0, syn.len() as int) =~= syn);
    }
    assert(c.has_uri_match(u));
    lemma_longest_match_exists(c, u);
    c.lemma_longest_uri_match_unique(u, c.longest_uri_match(u), syn);
    assert(c.resolve_uri(u) == Some(i));
    lemma_strip_first_skip(rec.uri_prefix_synonyms@, u, w);
    assert(rec.uri_prefix_synonyms@.skip(w)[0] == rec.uri_prefix_synonyms@[w]);
    assert(u.skip(syn.len() as int) =~= id);
    assert(strip_uri(rec, u) == Some(id));
}

/// Round trip: a URI assembled from a record's canonical URI prefix
/// compresses to the record's canonical CURIE, and that CURIE expands back
/// to the very same URI; likewise starting from the CURIE. This holds when
/// both canonical keys resolve to the record (no later record shadows
/// them), the canonical URI prefix is the longest registered match of the
/// assembled URI, and neither the prefix nor the local identifier holds a
/// colon.
pub proof fn lemma_round_trip(c: Converter, i: int, id: Seq<char>)
    requires
        0 <= i < c.records@.len(),
        c.prefix_map().contains_key(c.records@[i].prefix@),
        c.prefix_map()[c.records@[i].prefix@] == i,
        c.uri_map().contains_key(c.records@[i].uri_prefix@),
        c.uri_map()[c.records@[i].uri_prefix@] == i,
        c.is_longest_uri_match(c.records@[i].uri_prefix@ + id, c.records@[i].uri_prefix@),
        !c.records@[i].prefix@.contains(':'),
        !id.contains(':'),
    ensures
        c.compress_spec(c.records@[i].uri_prefix@ + id) == Some(
            c.records@[i].prefix@ + seq![':'] + id,
        ),
        c.expand_spec(c.records@[i].prefix@ + seq![':'] + id) == Some(
            c.records@[i].uri_prefix@ + id,
        ),
{
    lemma_compress_canonical(c, i, id);
    lemma_expand_spec_at(c, c.records@[i].prefix@, id);
}

/// Synonym equivalence for expansion: two prefix forms that the prefix
/// index binds to the same record expand any local identifier to the
/// identical URI.
pub proof fn lemma_expand_synonym_equivalence(
    c: Converter,
    p1: Seq<char>,
    p2: Seq<char>,
    id: Seq<char>,
)
    requires
        c.prefix_map().contains_key(p1),
        c.prefix_map().contains_key(p2),
        c.prefix_map()[p1] == c.prefix_map()[p2],
        !p1.contains(':'),
        !p2.contains(':'),
        !id.contains(':'),
    ensures
        c.expand_spec(p1 + seq![':'] + id) == c.expand_spec(p2 + seq![':'] + id),
        c.expand_spec(p1 + seq![':'] + id) is Some,
{
    lemma_expand_spec_at(c, p1, id);
    lemma_expand_spec_at(c, p2, id);
}

/// Synonym equivalence for compression: a URI written with the canonical
/// URI prefix and one written with a synonym compress to the identical
/// CURIE, under the same resolution conditions as the round-trip law.
pub proof fn lemma_compress_synonym_equivalence(c: Converter, i: int, w: int, id: Seq<char>)
    requires
        0 <= i < c.records@.len(),
        c.uri_map().contains_key(c.records@[i].uri_prefix@),
        c.uri_map()[c.records@[i].uri_prefix@] == i,
        c.is_longest_uri_match(c.records@[i].uri_prefix@ + id, c.records@[i].uri_prefix@),
        0 <= w < c.records@[i].uri_prefix_synonyms@.len(),
        c.uri_map().contains_key(c.records@[i].uri_prefix_synonyms@[w]@),
        c.uri_map()[c.records@[i].uri_prefix_synonyms@[w]@] == i,
        c.is_longest_uri_match(
            c.records@[i].uri_prefix_synonyms@[w]@ + id,
            c.records@[i].uri_prefix_synonyms@[w]@,
        ),
        !c.records@[i].uri_prefix@.is_prefix_of(c.records@[i].uri_prefix_synonyms@[w]@ + id),
        forall|j: int|
            0 <= j < w ==> !(#[trigger] c.records@[i].uri_prefix_synonyms@[j])@.is_prefix_of(
                c.records@[i].uri_prefix_synonyms@[w]@ + id,
            ),
    ensures
        c.compress_spec(c.records@[i].uri_prefix@ + id) == c.compress_spec(
            c.records@[i].uri_prefix_synonyms@[w]@ + id,
        ),
        c.compress_spec(c.records@[i].uri_prefix@ + id) is Some,
{
    lemma_compress_canonical(c, i, id);
    lemma_compress_via_synonym(c, i, w, id);
}

/// `prefix`, a colon, and `id`, joined into one owned string.
fn make_curie(prefix: &str, id: &str) -> (r: String)
    ensures
        r@ == prefix@ + seq![':'] + id@,
{
    let mut r = prefix.to_owned();
    r.append(":");
    r.append(id);
    proof {
        reveal_strlit(":");
        assert(":"@ =~= seq![':']);
    }
    r
}

} // verus!
