use vstd::prelude::*;
use trie_rs::Trie;
use trie_rs::TrieBuilder;

verus! {

#[verifier::external_type_specification]
#[verifier::external_body]
#[verifier::reject_recursive_types(Label)]
pub struct ExTrieBuilder<Label>(TrieBuilder<Label>);

#[verifier::external_type_specification]
#[verifier::external_body]
#[verifier::reject_recursive_types(Label)]
pub struct ExTrie<Label>(Trie<Label>);

/// The set of strings pushed into the builder so far. Entries are pushed as
/// UTF-8 byte strings; since UTF-8 encoding is injective, the set of their
/// character sequences describes the builder's contents exactly.
pub uninterp spec fn builder_keys(b: TrieBuilder<u8>) -> Set<Seq<char>>;

/// The set of strings a built trie holds.
pub uninterp spec fn trie_keys(t: Trie<u8>) -> Set<Seq<char>>;

/// Relies on trie_rs::TrieBuilder::new: a fresh builder holds no entries.
#[verifier::external_body]
pub(crate) fn trie_builder_new() -> (b: TrieBuilder<u8>)
    ensures
        builder_keys(b) == Set::<Seq<char>>::empty(),
{
    TrieBuilder::new()
}

/// Relies on trie_rs::TrieBuilder::push: adds the bytes of `entry` to the
/// builder's entries and nothing else. An empty entry is excluded: push
/// panics on one, and the prefix search never yields one.
#[verifier::external_body]
pub(crate) fn trie_builder_push(b: &mut TrieBuilder<u8>, entry: &str)
    requires
        entry@.len() > 0,
    ensures
        builder_keys(*final(b)) == builder_keys(*old(b)).insert(entry@),
{
    b.push(entry);
}

/// Relies on trie_rs::TrieBuilder::build: the built trie holds exactly the
/// entries pushed so far. `build` consumes the builder, which this registry
/// keeps for later insertions, so a clone of it is consumed instead.
#[verifier::external_body]
pub(crate) fn trie_build(b: &TrieBuilder<u8>) -> (t: Trie<u8>)
    ensures
        trie_keys(t) == builder_keys(*b),
{
    b.clone().build()
}

/// Relies on trie_rs::Trie::common_prefix_search: walking the trie along the
/// query yields exactly the stored entries whose bytes are a prefix of the
/// query's bytes, shortest first, each one strictly longer than the one
/// before. Every entry was stored as a whole UTF-8 string, and UTF-8 decoding
/// is prefix-synchronized, so an entry is a byte prefix of the query exactly
/// when its characters are a prefix of the query's characters. An entry whose
/// bytes fail to decode is dropped defensively; by the above none can.
#[verifier::external_body]
pub(crate) fn trie_prefix_matches(t: &Trie<u8>, query: &str) -> (r: Vec<String>)
    ensures
        forall|i: int|
            0 <= i < r@.len() ==> trie_keys(*t).contains(#[trigger] r@[i]@) && r@[
                i
            ]@.is_prefix_of(query@),
        forall|s: Seq<char>|
            #[trigger] trie_keys(*t).contains(s) && s.is_prefix_of(query@) ==> exists|i: int|
                0 <= i < r@.len() && r@[i]@ == s,
        forall|i: int, j: int| 0 <= i < j < r@.len() ==> r@[i]@.len() < r@[j]@.len(),
{
    let found: Vec<Vec<u8>> = t.common_prefix_search(query).collect();
    let mut r: Vec<String> = Vec::new();
    for bytes in found {
        if let Ok(s) = String::from_utf8(bytes) {
            r.push(s);
        }
    }
    r
}

} // verus!
