use vstd::prelude::*;

verus! {

/// A content-keyed index from stored text to symbol number, held in a
/// `hashbrown::HashMap<String, usize>`.
#[verifier::external_body]
pub struct TextIndex {
    map: hashbrown::HashMap<String, usize>,
}

/// The entries of the index, keyed by the characters of the text.
pub uninterp spec fn index_entries(index: TextIndex) -> Map<Seq<char>, usize>;

impl TextIndex {
    /// Relies on hashbrown::HashMap::new: the map starts with no entry.
    #[verifier::external_body]
    pub(crate) fn new() -> (r: TextIndex)
        ensures
            index_entries(r).dom() == Set::<Seq<char>>::empty(),
    {
        TextIndex { map: hashbrown::HashMap::new() }
    }

    /// Relies on hashbrown::HashMap::get: a `&str` key finds the `String`
    /// entry with the same characters, if there is one.
    #[verifier::external_body]
    pub(crate) fn get(&self, key: &str) -> (r: Option<usize>)
        ensures
            r is Some == index_entries(*self).contains_key(key@),
            r is Some ==> r->Some_0 == index_entries(*self)[key@],
    {
        self.map.get(key).copied()
    }

    /// Relies on hashbrown::HashMap::insert: the key maps to the value
    /// afterwards, and every other entry is kept.
    #[verifier::external_body]
    pub(crate) fn insert(&mut self, key: String, value: usize)
        ensures
            index_entries(*final(self)) == index_entries(*old(self)).insert(key@, value),
    {
        self.map.insert(key, value);
    }
}

} // verus!
