use crate::text_index::{index_entries, TextIndex};
use vstd::prelude::*;
use vstd::string::StringSliceAdditionalSpecFns;
use vstd::utf8::{encode_utf8, valid_utf8};

verus! {

/// Texts of at least this many bytes get an allocation of their own.
pub const LARGE_SYMBOL_THRESHOLD: usize = 512;

/// Size in bytes of a page that holds small texts side by side.
pub const PAGE_CAPACITY: usize = 4096;

/// A handle to a text stored in a `SymbolTable`.
///
/// Two symbols are equal when they are the same handle, never because their
/// texts agree: a symbol made by `gensym` equals no other symbol that the
/// table hands out.
#[derive(Clone, Copy, PartialEq, Eq, Structural, Hash, Debug)]
pub struct Symbol {
    id: usize,
}

impl View for Symbol {
    type V = nat;

    /// The number of the symbol in its table, in order of creation.
    closed spec fn view(&self) -> nat {
        self.id as nat
    }
}

impl Symbol {
    /// The symbol with number `id`.
    pub fn new(id: usize) -> (r: Symbol)
        ensures
            r@ == id,
    {
        Symbol { id }
    }
}

/// Two symbols are equal exactly when their numbers are.
pub proof fn lemma_symbol_identity(a: Symbol, b: Symbol)
    ensures
        (a == b) == (a@ == b@),
{
}

/// What a symbol table holds, as values.
pub struct TableModel {
    /// The text of each symbol, by symbol number.
    pub texts: Seq<Seq<char>>,
    /// The interned texts and their symbol numbers.
    pub index: Map<Seq<char>, nat>,
    /// The UTF-8 bytes written to the small-text pages; the last page is the
    /// one being filled.
    pub pages: Seq<Seq<u8>>,
    /// The texts that were given an allocation of their own, in order.
    pub large: Seq<Seq<char>>,
}

/// A table that holds nothing and has one empty page.
pub open spec fn empty_model() -> TableModel {
    TableModel {
        texts: Seq::empty(),
        index: Map::empty(),
        pages: seq![Seq::empty()],
        large: Seq::empty(),
    }
}

impl TableModel {
    /// There is a current page, and every interned text maps to a symbol
    /// with that text.
    pub open spec fn wf(self) -> bool {
        &&& self.pages.len() >= 1
        &&& forall|t: Seq<char>| #[trigger]
            self.index.contains_key(t) ==> self.index[t] < self.texts.len()
                && self.texts[self.index[t] as int] == t
    }

    /// Stores `text` as a new symbol. A text of `LARGE_SYMBOL_THRESHOLD`
    /// bytes or more goes to the large texts. A smaller one is appended to
    /// the current page; if it does not fit there, a new page is started
    /// and the old one keeps its unused end.
    pub open spec fn store(self, text: Seq<char>) -> TableModel {
        let bytes = encode_utf8(text);
        let texts = self.texts.push(text);
        if bytes.len() >= LARGE_SYMBOL_THRESHOLD {
            TableModel { texts, index: self.index, pages: self.pages, large: self.large.push(text) }
        } else if self.pages.last().len() + bytes.len() > PAGE_CAPACITY {
            TableModel { texts, index: self.index, pages: self.pages.push(bytes), large: self.large }
        } else {
            TableModel {
                texts,
                index: self.index,
                pages: self.pages.update(self.pages.len() - 1, self.pages.last() + bytes),
                large: self.large,
            }
        }
    }

    /// The table and the symbol number after `gensym(text)`: the text is
    /// stored under a new number and the index is left alone.
    pub open spec fn gensym(self, text: Seq<char>) -> (TableModel, nat) {
        (self.store(text), self.texts.len())
    }

    /// The table and the symbol number after `intern(text)`: the number the
    /// index holds for `text`, else a new symbol that the index then holds.
    pub open spec fn intern(self, text: Seq<char>) -> (TableModel, nat) {
        if self.index.contains_key(text) {
            (self, self.index[text])
        } else {
            let stored = self.store(text);
            (
                TableModel {
                    texts: stored.texts,
                    index: stored.index.insert(text, self.texts.len()),
                    pages: stored.pages,
                    large: stored.large,
                },
                self.texts.len(),
            )
        }
    }
}

/// The number of every symbol, and the text of every earlier symbol, is kept by `store`.
proof fn lemma_store_keeps(m: TableModel, text: Seq<char>)
    requires
        m.wf(),
    ensures
        m.store(text).wf(),
        m.store(text).texts == m.texts.push(text),
        m.store(text).index == m.index,
{
    let bytes = encode_utf8(text);
    if bytes.len() < LARGE_SYMBOL_THRESHOLD && m.pages.last().len() + bytes.len()
        <= PAGE_CAPACITY {
        assert(m.store(text).pages.len() == m.pages.len());
    }
}

/// What `intern` keeps and what it makes sure of: earlier texts and
/// interned texts stay as they were, and the result is interned with `text`.
proof fn lemma_intern_keeps(m: TableModel, text: Seq<char>)
    requires
        m.wf(),
    ensures
        ({
            let (m1, s) = m.intern(text);
            &&& m1.wf()
            &&& m.texts.len() <= m1.texts.len()
            &&& forall|i: int| 0 <= i < m.texts.len() ==> #[trigger] m1.texts[i] == m.texts[i]
            &&& forall|t: Seq<char>| #[trigger]
                m.index.contains_key(t) ==> m1.index.contains_key(t) && m1.index[t] == m.index[t]
            &&& m1.index.contains_key(text) && m1.index[text] == s
            &&& s < m1.texts.len() && m1.texts[s as int] == text
        }),
{
    lemma_store_keeps(m, text);
}

/// Interning goes by content: `intern(a)` and then `intern(b)` on the same
/// table give the same symbol exactly when `a` and `b` are the same text.
pub proof fn lemma_intern_identity(m: TableModel, a: Seq<char>, b: Seq<char>)
    requires
        m.wf(),
    ensures
        ({
            let (m1, s1) = m.intern(a);
            let (m2, s2) = m1.intern(b);
            s1 == s2 <==> a == b
        }),
{
    lemma_intern_keeps(m, a);
    let (m1, s1) = m.intern(a);
    lemma_intern_keeps(m1, b);
}

/// A symbol made by `gensym` is fresh: it differs from the symbol that any
/// `intern` or `gensym` returned before it, and from the one that any
/// `intern` or `gensym` returns right after it, whatever the texts.
pub proof fn lemma_gensym_fresh(m: TableModel, s: Seq<char>, t: Seq<char>)
    requires
        m.wf(),
    ensures
        m.gensym(s).0.intern(t).1 != m.gensym(s).1,
        m.gensym(s).0.gensym(t).1 != m.gensym(s).1,
        m.intern(t).0.gensym(s).1 != m.intern(t).1,
        m.gensym(t).0.gensym(s).1 != m.gensym(t).1,
{
    lemma_store_keeps(m, s);
    lemma_intern_keeps(m, t);
}

/// The table after interning each of `texts`, in order.
pub open spec fn intern_each(m: TableModel, texts: Seq<Seq<char>>) -> TableModel
    decreases texts.len(),
{
    if texts.len() == 0 {
        m
    } else {
        intern_each(m, texts.drop_last()).intern(texts.last()).0
    }
}

/// Interning each of `texts` keeps every interned text at its symbol.
proof fn lemma_intern_each_keeps(m: TableModel, texts: Seq<Seq<char>>)
    requires
        m.wf(),
    ensures
        intern_each(m, texts).wf(),
        forall|t: Seq<char>| #[trigger]
            m.index.contains_key(t) ==> intern_each(m, texts).index.contains_key(t)
                && intern_each(m, texts).index[t] == m.index[t],
    decreases texts.len(),
{
    if texts.len() > 0 {
        lemma_intern_each_keeps(m, texts.drop_last());
        lemma_intern_keeps(intern_each(m, texts.drop_last()), texts.last());
    }
}

/// An interned text keeps its symbol: after interning any further texts,
/// however many pages they fill, interning the text again returns the
/// symbol it got the first time.
pub proof fn lemma_intern_stable(m: TableModel, a: Seq<char>, others: Seq<Seq<char>>)
    requires
        m.wf(),
    ensures
        intern_each(m.intern(a).0, others).intern(a).1 == m.intern(a).1,
{
    lemma_intern_keeps(m, a);
    lemma_intern_each_keeps(m.intern(a).0, others);
}

/// Storing keeps the text whole: the symbol that `intern` or `gensym`
/// returns has exactly the text it was given, whatever its length or bytes.
pub proof fn lemma_round_trip(m: TableModel, text: Seq<char>)
    requires
        m.wf(),
    ensures
        m.intern(text).1 < m.intern(text).0.texts.len(),
        m.intern(text).0.texts[m.intern(text).1 as int] == text,
        m.gensym(text).1 < m.gensym(text).0.texts.len(),
        m.gensym(text).0.texts[m.gensym(text).1 as int] == text,
{
    lemma_intern_keeps(m, text);
    lemma_store_keeps(m, text);
}

/// Where the bytes of a symbol's text are.
#[derive(Clone, Copy)]
enum Place {
    /// Bytes `start..end` of page `page`.
    Small { page: usize, start: usize, end: usize },
    /// Large text number `index`.
    Large { index: usize },
}

/// Relies on std::str::from_utf8: valid UTF-8 is accepted, as a string
/// with exactly those bytes, and anything else is refused.
#[verifier::external_body]
fn str_from_utf8(bytes: &[u8]) -> (r: Option<&str>)
    ensures
        r is Some == valid_utf8(bytes@),
        r is Some ==> r->Some_0.spec_bytes() == bytes@,
{
    std::str::from_utf8(bytes).ok()
}

/// Appends `bytes` to `page`.
fn append_bytes(page: &mut Vec<u8>, bytes: &[u8])
    ensures
        final(page)@ == old(page)@ + bytes@,
{
    let ghost start = page@;
    let mut i: usize = 0;
    while i < bytes.len()
        invariant
            i <= bytes@.len(),
            page@ == start + bytes@.subrange(0, i as int),
        decreases bytes@.len() - i,
    {
        page.push(bytes[i]);
        i = i + 1;
        assert(page@ =~= start + bytes@.subrange(0, i as int));
    }
    assert(bytes@.subrange(0, bytes@.len() as int) =~= bytes@);
}

/// A set of strings, each stored once and named by a `Symbol`.
///
/// Small texts are written side by side into pages of `PAGE_CAPACITY`
/// bytes; large ones get an allocation each. Nothing written is ever moved
/// or removed while the table lives.
pub struct SymbolTable {
    /// Interned texts and their symbol numbers.
    lookup: TextIndex,
    /// Pages that are full, in order.
    sealed: Vec<Vec<u8>>,
    /// The page being filled; it comes after the sealed ones.
    tail: Vec<u8>,
    /// Texts of `LARGE_SYMBOL_THRESHOLD` bytes or more.
    large_symbols: Vec<String>,
    /// Where each symbol's text is, by symbol number.
    places: Vec<Place>,
    /// The text of each symbol, by symbol number.
    texts: Ghost<Seq<Seq<char>>>,
}

impl View for SymbolTable {
    type V = TableModel;

    closed spec fn view(&self) -> TableModel {
        TableModel {
            texts: self.texts@,
            index: Map::new(
                |t: Seq<char>| index_entries(self.lookup).contains_key(t),
                |t: Seq<char>| index_entries(self.lookup)[t] as nat,
            ),
            pages: self.sealed@.map_values(|p: Vec<u8>| p@).push(self.tail@),
            large: self.large_symbols@.map_values(|s: String| s@),
        }
    }
}

impl SymbolTable {
    /// The bytes of page `page`; the page after the sealed ones is the tail.
    spec fn page_bytes(&self, page: int) -> Seq<u8> {
        if page < self.sealed@.len() {
            self.sealed@[page]@
        } else {
            self.tail@
        }
    }

    /// Symbol `id`'s place holds its text.
    spec fn place_holds(&self, id: int) -> bool {
        match self.places@[id] {
            Place::Small { page, start, end } => {
                &&& page <= self.sealed@.len()
                &&& start <= end <= self.page_bytes(page as int).len()
                &&& self.page_bytes(page as int).subrange(start as int, end as int)
                    == encode_utf8(self.texts@[id])
            },
            Place::Large { index } => {
                &&& index < self.large_symbols@.len()
                &&& self.large_symbols@[index as int]@ == self.texts@[id]
            },
        }
    }

    /// Each symbol has a place that holds its text, and the index maps
    /// each interned text to a symbol with that text.
    pub closed spec fn wf(&self) -> bool {
        &&& self.places@.len() == self.texts@.len()
        &&& self.tail@.len() <= PAGE_CAPACITY
        &&& forall|id: int| 0 <= id < self.places@.len() ==> #[trigger] self.place_holds(id)
        &&& forall|t: Seq<char>| #[trigger]
            index_entries(self.lookup).contains_key(t) ==> index_entries(self.lookup)[t]
                < self.texts@.len() && self.texts@[index_entries(self.lookup)[t] as int] == t
    }

    /// The well-formed table has a well-formed model.
    pub proof fn lemma_model_wf(&self)
        requires
            self.wf(),
        ensures
            self@.wf(),
    {
    }

    /// Creates an empty table; its first page is allocated right away.
    pub fn new() -> (r: SymbolTable)
        ensures
            r.wf(),
            r@ == empty_model(),
    {
        let r = SymbolTable {
            lookup: TextIndex::new(),
            sealed: Vec::new(),
            tail: Vec::with_capacity(PAGE_CAPACITY),
            large_symbols: Vec::new(),
            places: Vec::new(),
            texts: Ghost(Seq::empty()),
        };
        assert(r@.index =~= empty_model().index);
        assert(r@.pages =~= empty_model().pages);
        assert(r@.large =~= empty_model().large);
        r
    }

    /// Stores `text` as a new symbol, which the index does not hold: the
    /// result equals no symbol made before or after it.
    pub fn gensym(&mut self, text: &str) -> (r: Symbol)
        requires
            old(self).wf(),
            old(self)@.texts.len() < usize::MAX,
        ensures
            final(self).wf(),
            (final(self)@, r@) == old(self)@.gensym(text@),
    {
        let ghost before = *self;
        let id = self.places.len();
        let n = text.len();
        if n >= LARGE_SYMBOL_THRESHOLD {
            let index = self.large_symbols.len();
            self.large_symbols.push(text.to_owned());
            self.places.push(Place::Large { index });
        } else {
            if self.tail.len() + n > PAGE_CAPACITY {
                let mut full = Vec::with_capacity(PAGE_CAPACITY);
                std::mem::swap(&mut full, &mut self.tail);
                self.sealed.push(full);
            }
            let start = self.tail.len();
            append_bytes(&mut self.tail, text.as_bytes());
            assert(self.tail@.subrange(start as int, self.tail@.len() as int) =~= encode_utf8(
                text@,
            ));
            self.places.push(Place::Small { page: self.sealed.len(), start, end: self.tail.len() });
        }
        self.texts = Ghost(self.texts@.push(text@));
        proof {
            assert forall|i: int| 0 <= i < self.places@.len() implies #[trigger] self.place_holds(
                i,
            ) by {
                if i < before.places@.len() {
                    assert(before.place_holds(i));
                    match self.places@[i] {
                        Place::Small { page, start, end } => {
                            if page < before.sealed@.len() {
                            } else {
                                assert(before.page_bytes(page as int).subrange(
                                    start as int,
                                    end as int,
                                ) =~= self.page_bytes(page as int).subrange(
                                    start as int,
                                    end as int,
                                ));
                            }
                        },
                        Place::Large { index } => {},
                    }
                }
            }
            assert(self@.pages =~= before@.gensym(text@).0.pages);
            assert(self@.large =~= before@.gensym(text@).0.large);
            assert(self@.index =~= before@.gensym(text@).0.index);
        }
        Symbol { id }
    }

    /// The symbol for `text`: the one interned before with the same
    /// characters, else a newly stored one that the index keeps from now on.
    pub fn intern(&mut self, text: &str) -> (r: Symbol)
        requires
            old(self).wf(),
            old(self)@.texts.len() < usize::MAX,
        ensures
            final(self).wf(),
            (final(self)@, r@) == old(self)@.intern(text@),
    {
        match self.lookup.get(text) {
            Some(id) => Symbol { id },
            None => {
                let ghost before = *self;
                let symbol = self.gensym(text);
                let ghost stored = *self;
                self.lookup.insert(text.to_owned(), symbol.id);
                proof {
                    assert forall|i: int| 0 <= i < self.places@.len() implies #[trigger]
                        self.place_holds(i) by {
                        assert(stored.place_holds(i));
                    }
                    assert(self@.index =~= before@.intern(text@).0.index);
                }
                symbol
            },
        }
    }

    /// The text of `symbol`.
    pub fn text(&self, symbol: Symbol) -> (r: &str)
        requires
            self.wf(),
            symbol@ < self@.texts.len(),
        ensures
            r@ == self@.texts[symbol@ as int],
    {
        let ghost t = self.texts@[symbol.id as int];
        assert(self.place_holds(symbol.id as int));
        match self.places[symbol.id] {
            Place::Small { page, start, end } => {
                let bytes: &[u8] = if page < self.sealed.len() {
                    self.sealed[page].as_slice()
                } else {
                    self.tail.as_slice()
                };
                let piece = vstd::slice::slice_subrange(bytes, start, end);
                proof {
                    vstd::utf8::encode_utf8_valid_utf8(t);
                }
                let r = str_from_utf8(piece).unwrap();
                proof {
                    vstd::utf8::encode_utf8_decode_utf8(t);
                    vstd::utf8::encode_utf8_decode_utf8(r@);
                }
                r
            },
            Place::Large { index } => self.large_symbols[index].as_str(),
        }
    }
}

impl Default for SymbolTable {
    fn default() -> (r: SymbolTable)
        ensures
            r.wf(),
            r@ == empty_model(),
    {
        SymbolTable::new()
    }
}

} // verus!
