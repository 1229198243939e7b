//! Passes over the properties of an object: all of them, or those of one
//! namespace; as entries, as keys or as values.
//!
//! A pass holds the object by a shared reference, so the object cannot
//! change while the pass lasts. Its view is the sequence of the items that
//! it has yet to yield, so its length is known from the start.

use vstd::prelude::*;
use crate::builtins::object::{Object, ObjectView};
use crate::builtins::property::{Property, PropertyKey, PropertyKeyView, PropertyView};
use crate::builtins::symbol::{Symbol, SymbolView};
use crate::keyed::{ascending, views};

verus! {

/// The keys of a list of entries, in their order.
pub open spec fn keys_of<A, B>(entries: Seq<(A, B)>) -> Seq<A> {
    Seq::new(entries.len(), |i: int| entries[i].0)
}

/// The values of a list of entries, in their order.
pub open spec fn values_of<A, B>(entries: Seq<(A, B)>) -> Seq<B> {
    Seq::new(entries.len(), |i: int| entries[i].1)
}

/// The entries of the indexed namespace under keys of any namespace.
pub open spec fn indexed_entries(entries: Seq<(u32, PropertyView)>) -> Seq<
    (PropertyKeyView, PropertyView),
> {
    Seq::new(entries.len(), |i: int| (PropertyKeyView::Index(entries[i].0), entries[i].1))
}

/// The entries of the string namespace under keys of any namespace.
pub open spec fn string_entries(entries: Seq<(Seq<char>, PropertyView)>) -> Seq<
    (PropertyKeyView, PropertyView),
> {
    Seq::new(entries.len(), |i: int| (PropertyKeyView::String(entries[i].0), entries[i].1))
}

/// The entries of the symbol namespace under keys of any namespace.
pub open spec fn symbol_entries(entries: Seq<(SymbolView, PropertyView)>) -> Seq<
    (PropertyKeyView, PropertyView),
> {
    Seq::new(entries.len(), |i: int| (PropertyKeyView::Symbol(entries[i].0), entries[i].1))
}

/// The three namespaces one behind the other: the indexed entries, then
/// the string entries, then the symbol entries.
pub open spec fn all_entries(
    indexed: Seq<(u32, PropertyView)>,
    strings: Seq<(Seq<char>, PropertyView)>,
    symbols: Seq<(SymbolView, PropertyView)>,
) -> Seq<(PropertyKeyView, PropertyView)> {
    indexed_entries(indexed) + string_entries(strings) + symbol_entries(symbols)
}

/// The place of a key's namespace in the order of enumeration.
pub open spec fn namespace_rank(key: PropertyKeyView) -> int {
    match key {
        PropertyKeyView::Index(_) => 0,
        PropertyKeyView::String(_) => 1,
        PropertyKeyView::Symbol(_) => 2,
    }
}

impl ObjectView {
    /// Every entry of the object in the order of enumeration: the indexed
    /// entries in ascending order, then the string entries and then the
    /// symbol entries, each in the order in which their keys came.
    pub open spec fn entries(self) -> Seq<(PropertyKeyView, PropertyView)> {
        all_entries(self.indexed, self.strings, self.symbols)
    }
}

/// The order of enumeration: of any two entries of a valid object, the
/// earlier one is of the same namespace as the later one or of one that
/// comes before it, indexed before string before symbol; and of two
/// indexed entries the earlier one has the smaller index.
pub proof fn lemma_enumeration_order(object: ObjectView)
    requires
        object.wf(),
    ensures
        forall|i: int, j: int|
            #![trigger object.entries()[i], object.entries()[j]]
            0 <= i < j < object.entries().len() ==> {
                &&& namespace_rank(object.entries()[i].0) <= namespace_rank(object.entries()[j].0)
                &&& match (object.entries()[i].0, object.entries()[j].0) {
                    (PropertyKeyView::Index(a), PropertyKeyView::Index(b)) => a < b,
                    _ => true,
                }
            },
        object.entries().len() == object.indexed.len() + object.strings.len()
            + object.symbols.len(),
{
    let all = object.entries();
    let n = object.indexed.len() as int;
    let m = object.strings.len() as int;
    assert forall|i: int, j: int|
        #![trigger all[i], all[j]]
        0 <= i < j < all.len() implies {
        &&& namespace_rank(all[i].0) <= namespace_rank(all[j].0)
        &&& match (all[i].0, all[j].0) {
            (PropertyKeyView::Index(a), PropertyKeyView::Index(b)) => a < b,
            _ => true,
        }
    } by {
        if j < n {
            assert(object.indexed[i].0 < object.indexed[j].0);
        }
    }
}

/// A pass over the entries of one namespace.
#[derive(Debug)]
pub struct Entries<'a, K> {
    entries: &'a Vec<(K, Property)>,
    position: usize,
}

impl<'a, K: View> Clone for Entries<'a, K> {
    fn clone(&self) -> (copy: Self)
        ensures
            copy@ == self@,
    {
        Entries { entries: self.entries, position: self.position }
    }
}

impl<'a, K: View> View for Entries<'a, K> {
    type V = Seq<(K::V, PropertyView)>;

    closed spec fn view(&self) -> Seq<(K::V, PropertyView)> {
        if self.position <= self.entries@.len() {
            views(self.entries@).subrange(self.position as int, self.entries@.len() as int)
        } else {
            Seq::empty()
        }
    }
}

impl<'a, K: View> Entries<'a, K> {
    /// A pass over all the entries of a namespace.
    pub(crate) fn new(entries: &'a Vec<(K, Property)>) -> (pass: Self)
        ensures
            pass@ == views(entries@),
    {
        let pass = Entries { entries, position: 0 };
        assert(pass@ =~= views(entries@));
        pass
    }

    /// Yields the next entry, if one is left.
    pub fn next(&mut self) -> (item: Option<(&'a K, &'a Property)>)
        ensures
            match item {
                Some(entry) => old(self)@.len() > 0 && entry.0@ == old(self)@[0].0 && entry.1@
                    == old(self)@[0].1 && final(self)@ == old(self)@.drop_first(),
                None => old(self)@.len() == 0 && final(self)@ == old(self)@,
            },
    {
        let entries: &'a Vec<(K, Property)> = self.entries;
        if self.position < entries.len() {
            let entry: &'a (K, Property) = &entries[self.position];
            self.position = self.position + 1;
            assert(self@ =~= old(self)@.drop_first());
            Some((&entry.0, &entry.1))
        } else {
            None
        }
    }

    /// The number of entries that are left.
    pub fn len(&self) -> (len: usize)
        ensures
            len == self@.len(),
    {
        if self.position <= self.entries.len() {
            self.entries.len() - self.position
        } else {
            0
        }
    }

    /// The number of entries that are left, as the bounds of a size hint:
    /// both bounds are that number.
    pub fn size_hint(&self) -> (hint: (usize, Option<usize>))
        ensures
            hint.0 == self@.len(),
            hint.1 == Some(hint.0),
    {
        let len = self.len();
        (len, Some(len))
    }
}

/// What the three passes of a pass over all properties have left, one
/// behind the other.
pub proof fn lemma_all_entries_first(
    indexed: Seq<(u32, PropertyView)>,
    strings: Seq<(Seq<char>, PropertyView)>,
    symbols: Seq<(SymbolView, PropertyView)>,
)
    ensures
        all_entries(indexed, strings, symbols).len() == indexed.len() + strings.len()
            + symbols.len(),
        indexed.len() > 0 ==> all_entries(indexed, strings, symbols)[0] == (
            PropertyKeyView::Index(indexed[0].0),
            indexed[0].1,
        ) && all_entries(indexed, strings, symbols).drop_first() == all_entries(
            indexed.drop_first(),
            strings,
            symbols,
        ),
        indexed.len() == 0 && strings.len() > 0 ==> all_entries(indexed, strings, symbols)[0] == (
            PropertyKeyView::String(strings[0].0),
            strings[0].1,
        ) && all_entries(indexed, strings, symbols).drop_first() == all_entries(
            indexed,
            strings.drop_first(),
            symbols,
        ),
        indexed.len() == 0 && strings.len() == 0 && symbols.len() > 0 ==> all_entries(
            indexed,
            strings,
            symbols,
        )[0] == (PropertyKeyView::Symbol(symbols[0].0), symbols[0].1) && all_entries(
            indexed,
            strings,
            symbols,
        ).drop_first() == all_entries(indexed, strings, symbols.drop_first()),
{
    let all = all_entries(indexed, strings, symbols);
    if indexed.len() > 0 {
        assert(all.drop_first() =~= all_entries(indexed.drop_first(), strings, symbols));
    } else if strings.len() > 0 {
        assert(all.drop_first() =~= all_entries(indexed, strings.drop_first(), symbols));
    } else if symbols.len() > 0 {
        assert(all.drop_first() =~= all_entries(indexed, strings, symbols.drop_first()));
    }
}

/// A pass over all the properties of an object, in the order of
/// enumeration.
#[derive(Debug)]
pub struct Iter<'a> {
    indexed_properties: Entries<'a, u32>,
    string_properties: Entries<'a, String>,
    symbol_properties: Entries<'a, Symbol>,
}

impl<'a> Clone for Iter<'a> {
    fn clone(&self) -> (copy: Self)
        ensures
            copy@ == self@,
    {
        Iter {
            indexed_properties: self.indexed_properties.clone(),
            string_properties: self.string_properties.clone(),
            symbol_properties: self.symbol_properties.clone(),
        }
    }
}

impl<'a> View for Iter<'a> {
    type V = Seq<(PropertyKeyView, PropertyView)>;

    closed spec fn view(&self) -> Seq<(PropertyKeyView, PropertyView)> {
        all_entries(self.indexed_properties@, self.string_properties@, self.symbol_properties@)
    }
}

impl<'a> Iter<'a> {
    /// Yields the next property with its key, if one is left.
    pub fn next(&mut self) -> (item: Option<(PropertyKey, &'a Property)>)
        ensures
            match item {
                Some(entry) => old(self)@.len() > 0 && entry.0@ == old(self)@[0].0 && entry.1@
                    == old(self)@[0].1 && final(self)@ == old(self)@.drop_first(),
                None => old(self)@.len() == 0 && final(self)@ == old(self)@,
            },
    {
        proof {
            lemma_all_entries_first(
                self.indexed_properties@,
                self.string_properties@,
                self.symbol_properties@,
            );
        }
        if let Some((key, value)) = self.indexed_properties.next() {
            Some((PropertyKey::Index(*key), value))
        } else if let Some((key, value)) = self.string_properties.next() {
            Some((PropertyKey::String(key.clone()), value))
        } else {
            match self.symbol_properties.next() {
                Some((key, value)) => Some((PropertyKey::Symbol(key.clone()), value)),
                None => None,
            }
        }
    }

    /// The number of properties that are left.
    pub fn len(&self) -> (len: usize)
        requires
            self@.len() <= usize::MAX,
        ensures
            len == self@.len(),
    {
        proof {
            lemma_all_entries_first(
                self.indexed_properties@,
                self.string_properties@,
                self.symbol_properties@,
            );
        }
        self.indexed_properties.len() + self.string_properties.len() + self.symbol_properties.len()
    }
}

/// A pass over the keys of all the properties of an object.
#[derive(Debug)]
pub struct Keys<'a>(Iter<'a>);

impl<'a> Clone for Keys<'a> {
    fn clone(&self) -> (copy: Self)
        ensures
            copy@ == self@,
    {
        Keys(self.0.clone())
    }
}

impl<'a> View for Keys<'a> {
    type V = Seq<PropertyKeyView>;

    closed spec fn view(&self) -> Seq<PropertyKeyView> {
        keys_of(self.0@)
    }
}

impl<'a> Keys<'a> {
    /// Yields the next key, if one is left.
    pub fn next(&mut self) -> (item: Option<PropertyKey>)
        ensures
            match item {
                Some(key) => old(self)@.len() > 0 && key@ == old(self)@[0] && final(self)@ == old(
                    self,
                )@.drop_first(),
                None => old(self)@.len() == 0 && final(self)@ == old(self)@,
            },
    {
        match self.0.next() {
            Some((key, _)) => {
                assert(self@ =~= old(self)@.drop_first());
                Some(key)
            },
            None => None,
        }
    }

    /// The number of keys that are left.
    pub fn len(&self) -> (len: usize)
        requires
            self@.len() <= usize::MAX,
        ensures
            len == self@.len(),
    {
        self.0.len()
    }
}

/// A pass over the properties of an object, without their keys.
#[derive(Debug)]
pub struct Values<'a>(Iter<'a>);

impl<'a> Clone for Values<'a> {
    fn clone(&self) -> (copy: Self)
        ensures
            copy@ == self@,
    {
        Values(self.0.clone())
    }
}

impl<'a> View for Values<'a> {
    type V = Seq<PropertyView>;

    closed spec fn view(&self) -> Seq<PropertyView> {
        values_of(self.0@)
    }
}

impl<'a> Values<'a> {
    /// Yields the next property, if one is left.
    pub fn next(&mut self) -> (item: Option<&'a Property>)
        ensures
            match item {
                Some(value) => old(self)@.len() > 0 && value@ == old(self)@[0] && final(self)@
                    == old(self)@.drop_first(),
                None => old(self)@.len() == 0 && final(self)@ == old(self)@,
            },
    {
        match self.0.next() {
            Some((_, value)) => {
                assert(self@ =~= old(self)@.drop_first());
                Some(value)
            },
            None => None,
        }
    }

    /// The number of properties that are left.
    pub fn len(&self) -> (len: usize)
        requires
            self@.len() <= usize::MAX,
        ensures
            len == self@.len(),
    {
        self.0.len()
    }
}

/// A pass over the entries of the symbol namespace of an object.
#[derive(Debug)]
pub struct SymbolProperties<'a>(Entries<'a, Symbol>);

impl<'a> Clone for SymbolProperties<'a> {
    fn clone(&self) -> (copy: Self)
        ensures
            copy@ == self@,
    {
        SymbolProperties(self.0.clone())
    }
}

impl<'a> View for SymbolProperties<'a> {
    type V = Seq<(SymbolView, PropertyView)>;

    closed spec fn view(&self) -> Seq<(SymbolView, PropertyView)> {
        self.0@
    }
}

impl<'a> SymbolProperties<'a> {
    /// Yields the next entry, if one is left.
    pub fn next(&mut self) -> (item: Option<(&'a Symbol, &'a Property)>)
        ensures
            match item {
                Some(entry) => old(self)@.len() > 0 && entry.0@ == old(self)@[0].0 && entry.1@
                    == old(self)@[0].1 && final(self)@ == old(self)@.drop_first(),
                None => old(self)@.len() == 0 && final(self)@ == old(self)@,
            },
    {
        self.0.next()
    }

    /// The bounds of the number of entries that are left: both are that
    /// number.
    pub fn size_hint(&self) -> (hint: (usize, Option<usize>))
        ensures
            hint.0 == self@.len(),
            hint.1 == Some(hint.0),
    {
        self.0.size_hint()
    }

    /// The number of entries that are left.
    pub fn len(&self) -> (len: usize)
        ensures
            len == self@.len(),
    {
        self.0.len()
    }
}

/// A pass over the keys of the symbol namespace of an object.
#[derive(Debug)]
pub struct SymbolPropertyKeys<'a>(Entries<'a, Symbol>);

impl<'a> Clone for SymbolPropertyKeys<'a> {
    fn clone(&self) -> (copy: Self)
        ensures
            copy@ == self@,
    {
        SymbolPropertyKeys(self.0.clone())
    }
}

impl<'a> View for SymbolPropertyKeys<'a> {
    type V = Seq<SymbolView>;

    closed spec fn view(&self) -> Seq<SymbolView> {
        keys_of(self.0@)
    }
}

impl<'a> SymbolPropertyKeys<'a> {
    /// Yields the next key, if one is left.
    pub fn next(&mut self) -> (item: Option<&'a Symbol>)
        ensures
            match item {
                Some(key) => old(self)@.len() > 0 && key@ == old(self)@[0] && final(self)@ == old(
                    self,
                )@.drop_first(),
                None => old(self)@.len() == 0 && final(self)@ == old(self)@,
            },
    {
        match self.0.next() {
            Some((key, _)) => {
                assert(self@ =~= old(self)@.drop_first());
                Some(key)
            },
            None => None,
        }
    }

    /// The bounds of the number of keys that are left: both are that
    /// number.
    pub fn size_hint(&self) -> (hint: (usize, Option<usize>))
        ensures
            hint.0 == self@.len(),
            hint.1 == Some(hint.0),
    {
        self.0.size_hint()
    }

    /// The number of keys that are left.
    pub fn len(&self) -> (len: usize)
        ensures
            len == self@.len(),
    {
        self.0.len()
    }
}

/// A pass over the properties of the symbol namespace of an object,
/// without their keys.
#[derive(Debug)]
pub struct SymbolPropertyValues<'a>(Entries<'a, Symbol>);

impl<'a> Clone for SymbolPropertyValues<'a> {
    fn clone(&self) -> (copy: Self)
        ensures
            copy@ == self@,
    {
        SymbolPropertyValues(self.0.clone())
    }
}

impl<'a> View for SymbolPropertyValues<'a> {
    type V = Seq<PropertyView>;

    closed spec fn view(&self) -> Seq<PropertyView> {
        values_of(self.0@)
    }
}

impl<'a> SymbolPropertyValues<'a> {
    /// Yields the next property, if one is left.
    pub fn next(&mut self) -> (item: Option<&'a Property>)
        ensures
            match item {
                Some(value) => old(self)@.len() > 0 && value@ == old(self)@[0] && final(self)@
                    == old(self)@.drop_first(),
                None => old(self)@.len() == 0 && final(self)@ == old(self)@,
            },
    {
        match self.0.next() {
            Some((_, value)) => {
                assert(self@ =~= old(self)@.drop_first());
                Some(value)
            },
            None => None,
        }
    }

    /// The bounds of the number of properties that are left: both are
    /// that number.
    pub fn size_hint(&self) -> (hint: (usize, Option<usize>))
        ensures
            hint.0 == self@.len(),
            hint.1 == Some(hint.0),
    {
        self.0.size_hint()
    }

    /// The number of properties that are left.
    pub fn len(&self) -> (len: usize)
        ensures
            len == self@.len(),
    {
        self.0.len()
    }
}

/// A pass over the entries of the indexed namespace of an object.
#[derive(Debug)]
pub struct IndexProperties<'a>(Entries<'a, u32>);

impl<'a> Clone for IndexProperties<'a> {
    fn clone(&self) -> (copy: Self)
        ensures
            copy@ == self@,
    {
        IndexProperties(self.0.clone())
    }
}

impl<'a> View for IndexProperties<'a> {
    type V = Seq<(u32, PropertyView)>;

    closed spec fn view(&self) -> Seq<(u32, PropertyView)> {
        self.0@
    }
}

impl<'a> IndexProperties<'a> {
    /// Yields the next entry, if one is left.
    pub fn next(&mut self) -> (item: Option<(&'a u32, &'a Property)>)
        ensures
            match item {
                Some(entry) => old(self)@.len() > 0 && entry.0@ == old(self)@[0].0 && entry.1@
                    == old(self)@[0].1 && final(self)@ == old(self)@.drop_first(),
                None => old(self)@.len() == 0 && final(self)@ == old(self)@,
            },
    {
        self.0.next()
    }

    /// The bounds of the number of entries that are left: both are that
    /// number.
    pub fn size_hint(&self) -> (hint: (usize, Option<usize>))
        ensures
            hint.0 == self@.len(),
            hint.1 == Some(hint.0),
    {
        self.0.size_hint()
    }

    /// The number of entries that are left.
    pub fn len(&self) -> (len: usize)
        ensures
            len == self@.len(),
    {
        self.0.len()
    }
}

/// A pass over the keys of the indexed namespace of an object.
#[derive(Debug)]
pub struct IndexPropertyKeys<'a>(Entries<'a, u32>);

impl<'a> Clone for IndexPropertyKeys<'a> {
    fn clone(&self) -> (copy: Self)
        ensures
            copy@ == self@,
    {
        IndexPropertyKeys(self.0.clone())
    }
}

impl<'a> View for IndexPropertyKeys<'a> {
    type V = Seq<u32>;

    closed spec fn view(&self) -> Seq<u32> {
        keys_of(self.0@)
    }
}

impl<'a> IndexPropertyKeys<'a> {
    /// Yields the next key, if one is left.
    pub fn next(&mut self) -> (item: Option<&'a u32>)
        ensures
            match item {
                Some(key) => old(self)@.len() > 0 && key@ == old(self)@[0] && final(self)@ == old(
                    self,
                )@.drop_first(),
                None => old(self)@.len() == 0 && final(self)@ == old(self)@,
            },
    {
        match self.0.next() {
            Some((key, _)) => {
                assert(self@ =~= old(self)@.drop_first());
                Some(key)
            },
            None => None,
        }
    }

    /// The bounds of the number of keys that are left: both are that
    /// number.
    pub fn size_hint(&self) -> (hint: (usize, Option<usize>))
        ensures
            hint.0 == self@.len(),
            hint.1 == Some(hint.0),
    {
        self.0.size_hint()
    }

    /// The number of keys that are left.
    pub fn len(&self) -> (len: usize)
        ensures
            len == self@.len(),
    {
        self.0.len()
    }
}

/// A pass over the properties of the indexed namespace of an object,
/// without their keys.
#[derive(Debug)]
pub struct IndexPropertyValues<'a>(Entries<'a, u32>);

impl<'a> Clone for IndexPropertyValues<'a> {
    fn clone(&self) -> (copy: Self)
        ensures
            copy@ == self@,
    {
        IndexPropertyValues(self.0.clone())
    }
}

impl<'a> View for IndexPropertyValues<'a> {
    type V = Seq<PropertyView>;

    closed spec fn view(&self) -> Seq<PropertyView> {
        values_of(self.0@)
    }
}

impl<'a> IndexPropertyValues<'a> {
    /// Yields the next property, if one is left.
    pub fn next(&mut self) -> (item: Option<&'a Property>)
        ensures
            match item {
                Some(value) => old(self)@.len() > 0 && value@ == old(self)@[0] && final(self)@
                    == old(self)@.drop_first(),
                None => old(self)@.len() == 0 && final(self)@ == old(self)@,
            },
    {
        match self.0.next() {
            Some((_, value)) => {
                assert(self@ =~= old(self)@.drop_first());
                Some(value)
            },
            None => None,
        }
    }

    /// The bounds of the number of properties that are left: both are
    /// that number.
    pub fn size_hint(&self) -> (hint: (usize, Option<usize>))
        ensures
            hint.0 == self@.len(),
            hint.1 == Some(hint.0),
    {
        self.0.size_hint()
    }

    /// The number of properties that are left.
    pub fn len(&self) -> (len: usize)
        ensures
            len == self@.len(),
    {
        self.0.len()
    }
}

/// A pass over the entries of the string namespace of an object.
#[derive(Debug)]
pub struct StringProperties<'a>(Entries<'a, String>);

impl<'a> Clone for StringProperties<'a> {
    fn clone(&self) -> (copy: Self)
        ensures
            copy@ == self@,
    {
        StringProperties(self.0.clone())
    }
}

impl<'a> View for StringProperties<'a> {
    type V = Seq<(Seq<char>, PropertyView)>;

    closed spec fn view(&self) -> Seq<(Seq<char>, PropertyView)> {
        self.0@
    }
}

impl<'a> StringProperties<'a> {
    /// Yields the next entry, if one is left.
    pub fn next(&mut self) -> (item: Option<(&'a String, &'a Property)>)
        ensures
            match item {
                Some(entry) => old(self)@.len() > 0 && entry.0@ == old(self)@[0].0 && entry.1@
                    == old(self)@[0].1 && final(self)@ == old(self)@.drop_first(),
                None => old(self)@.len() == 0 && final(self)@ == old(self)@,
            },
    {
        self.0.next()
    }

    /// The bounds of the number of entries that are left: both are that
    /// number.
    pub fn size_hint(&self) -> (hint: (usize, Option<usize>))
        ensures
            hint.0 == self@.len(),
            hint.1 == Some(hint.0),
    {
        self.0.size_hint()
    }

    /// The number of entries that are left.
    pub fn len(&self) -> (len: usize)
        ensures
            len == self@.len(),
    {
        self.0.len()
    }
}

/// A pass over the keys of the string namespace of an object.
#[derive(Debug)]
pub struct StringPropertyKeys<'a>(Entries<'a, String>);

impl<'a> Clone for StringPropertyKeys<'a> {
    fn clone(&self) -> (copy: Self)
        ensures
            copy@ == self@,
    {
        StringPropertyKeys(self.0.clone())
    }
}

impl<'a> View for StringPropertyKeys<'a> {
    type V = Seq<Seq<char>>;

    closed spec fn view(&self) -> Seq<Seq<char>> {
        keys_of(self.0@)
    }
}

impl<'a> StringPropertyKeys<'a> {
    /// Yields the next key, if one is left.
    pub fn next(&mut self) -> (item: Option<&'a String>)
        ensures
            match item {
                Some(key) => old(self)@.len() > 0 && key@ == old(self)@[0] && final(self)@ == old(
                    self,
                )@.drop_first(),
                None => old(self)@.len() == 0 && final(self)@ == old(self)@,
            },
    {
        match self.0.next() {
            Some((key, _)) => {
                assert(self@ =~= old(self)@.drop_first());
                Some(key)
            },
            None => None,
        }
    }

    /// The bounds of the number of keys that are left: both are that
    /// number.
    pub fn size_hint(&self) -> (hint: (usize, Option<usize>))
        ensures
            hint.0 == self@.len(),
            hint.1 == Some(hint.0),
    {
        self.0.size_hint()
    }

    /// The number of keys that are left.
    pub fn len(&self) -> (len: usize)
        ensures
            len == self@.len(),
    {
        self.0.len()
    }
}

/// A pass over the properties of the string namespace of an object,
/// without their keys.
#[derive(Debug)]
pub struct StringPropertyValues<'a>(Entries<'a, String>);

impl<'a> Clone for StringPropertyValues<'a> {
    fn clone(&self) -> (copy: Self)
        ensures
            copy@ == self@,
    {
        StringPropertyValues(self.0.clone())
    }
}

impl<'a> View for StringPropertyValues<'a> {
    type V = Seq<PropertyView>;

    closed spec fn view(&self) -> Seq<PropertyView> {
        values_of(self.0@)
    }
}

impl<'a> StringPropertyValues<'a> {
    /// Yields the next property, if one is left.
    pub fn next(&mut self) -> (item: Option<&'a Property>)
        ensures
            match item {
                Some(value) => old(self)@.len() > 0 && value@ == old(self)@[0] && final(self)@
                    == old(self)@.drop_first(),
                None => old(self)@.len() == 0 && final(self)@ == old(self)@,
            },
    {
        match self.0.next() {
            Some((_, value)) => {
                assert(self@ =~= old(self)@.drop_first());
                Some(value)
            },
            None => None,
        }
    }

    /// The bounds of the number of properties that are left: both are
    /// that number.
    pub fn size_hint(&self) -> (hint: (usize, Option<usize>))
        ensures
            hint.0 == self@.len(),
            hint.1 == Some(hint.0),
    {
        self.0.size_hint()
    }

    /// The number of properties that are left.
    pub fn len(&self) -> (len: usize)
        ensures
            len == self@.len(),
    {
        self.0.len()
    }
}

impl Object {
    /// A pass over all the properties of the object in the order of
    /// enumeration: the indexed ones in ascending order, then those with
    /// string keys and then those with symbol keys, each in the order in
    /// which their keys came.
    pub fn iter(&self) -> (pass: Iter<'_>)
        ensures
            pass@ == self@.entries(),
    {
        Iter {
            indexed_properties: Entries::new(&self.indexed_properties),
            string_properties: Entries::new(&self.properties),
            symbol_properties: Entries::new(&self.symbol_properties),
        }
    }

    /// A pass over the keys of all the properties, in the order of
    /// enumeration.
    pub fn keys(&self) -> (pass: Keys<'_>)
        ensures
            pass@ == keys_of(self@.entries()),
    {
        Keys(self.iter())
    }

    /// A pass over all the properties without their keys, in the order of
    /// enumeration.
    pub fn values(&self) -> (pass: Values<'_>)
        ensures
            pass@ == values_of(self@.entries()),
    {
        Values(self.iter())
    }

    /// A pass over the entries of the symbol namespace.
    pub fn symbol_properties(&self) -> (pass: SymbolProperties<'_>)
        ensures
            pass@ == self@.symbols,
    {
        SymbolProperties(Entries::new(&self.symbol_properties))
    }

    /// A pass over the keys of the symbol namespace.
    pub fn symbol_property_keys(&self) -> (pass: SymbolPropertyKeys<'_>)
        ensures
            pass@ == keys_of(self@.symbols),
    {
        SymbolPropertyKeys(Entries::new(&self.symbol_properties))
    }

    /// A pass over the properties of the symbol namespace.
    pub fn symbol_property_values(&self) -> (pass: SymbolPropertyValues<'_>)
        ensures
            pass@ == values_of(self@.symbols),
    {
        SymbolPropertyValues(Entries::new(&self.symbol_properties))
    }

    /// A pass over the entries of the indexed namespace, in ascending
    /// order of their keys.
    pub fn index_properties(&self) -> (pass: IndexProperties<'_>)
        ensures
            pass@ == self@.indexed,
    {
        IndexProperties(Entries::new(&self.indexed_properties))
    }

    /// A pass over the keys of the indexed namespace, in ascending order.
    pub fn index_property_keys(&self) -> (pass: IndexPropertyKeys<'_>)
        ensures
            pass@ == keys_of(self@.indexed),
    {
        IndexPropertyKeys(Entries::new(&self.indexed_properties))
    }

    /// A pass over the properties of the indexed namespace, in ascending
    /// order of their keys.
    pub fn index_property_values(&self) -> (pass: IndexPropertyValues<'_>)
        ensures
            pass@ == values_of(self@.indexed),
    {
        IndexPropertyValues(Entries::new(&self.indexed_properties))
    }

    /// A pass over the entries of the string namespace.
    pub fn string_properties(&self) -> (pass: StringProperties<'_>)
        ensures
            pass@ == self@.strings,
    {
        StringProperties(Entries::new(&self.properties))
    }

    /// A pass over the keys of the string namespace.
    pub fn string_property_keys(&self) -> (pass: StringPropertyKeys<'_>)
        ensures
            pass@ == keys_of(self@.strings),
    {
        StringPropertyKeys(Entries::new(&self.properties))
    }

    /// A pass over the properties of the string namespace.
    pub fn string_property_values(&self) -> (pass: StringPropertyValues<'_>)
        ensures
            pass@ == values_of(self@.strings),
    {
        StringPropertyValues(Entries::new(&self.properties))
    }
}

} // verus!
