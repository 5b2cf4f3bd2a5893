//! The arguments of an attribute: items, each with a key; where two share a
//! key the later one counts.

use vstd::prelude::*;
use crate::text::same_text;

verus! {

/// An item of an attribute's arguments, named by its key.
pub trait AttrsItem {
    spec fn spec_key(&self) -> Seq<char>;

    fn key(&self) -> (k: &String)
        ensures
            k@ == self.spec_key(),
    ;
}

/// The items by key, the later of two with the same key counting.
pub open spec fn keyed_last<I: AttrsItem>(items: Seq<I>) -> Map<Seq<char>, I>
    decreases items.len(),
{
    if items.len() == 0 {
        Map::empty()
    } else {
        keyed_last(items.drop_last()).insert(items.last().spec_key(), items.last())
    }
}

/// An attribute's arguments, in the order they were written.
pub struct Attrs<I> {
    items: Vec<I>,
}

impl<I: AttrsItem> Attrs<I> {
    /// The items, in the order they were written.
    pub closed spec fn items(&self) -> Seq<I> {
        self.items@
    }

    /// The items by key.
    pub closed spec fn map(&self) -> Map<Seq<char>, I> {
        keyed_last(self.items@)
    }

    /// The arguments made of `items`, in the order they were written.
    pub fn parse(items: Vec<I>) -> (a: Attrs<I>)
        ensures
            a.items() == items@,
            a.map() == keyed_last(items@),
    {
        Attrs { items }
    }

    /// The item with this key.
    pub fn get(&self, key: &str) -> (r: Option<&I>)
        ensures
            match r {
                Some(item) => self.map().contains_key(key@) && *item == self.map()[key@],
                None => !self.map().contains_key(key@),
            },
    {
        let mut j: usize = self.items.len();
        while j > 0
            invariant
                j <= self.items@.len(),
                forall|k: int| j <= k < self.items@.len() ==> #[trigger] self.items@[k].spec_key() != key@,
            decreases j,
        {
            let item = &self.items[j - 1];
            if same_text(item.key().as_str(), key) {
                proof {
                    lemma_keyed_last_suffix(self.items@, j as int, key@);
                    assert(self.items@.take(j as int).drop_last() =~= self.items@.take(j - 1));
                }
                return Some(item);
            }
            j = j - 1;
        }
        proof {
            lemma_keyed_last_suffix(self.items@, 0, key@);
        }
        None
    }

    /// `f` of the item with this key: `Ok(None)` where there is none,
    /// otherwise what `f` gives, its success in `Some`.
    pub fn find<R, E, F>(&self, key: &str, f: F) -> (r: Result<Option<R>, E>)
        where
            F: FnOnce(&I) -> Result<R, E>,
        requires
            self.map().contains_key(key@) ==> f.requires((&self.map()[key@],)),
        ensures
            !self.map().contains_key(key@) ==> r matches Ok(None),
            self.map().contains_key(key@) ==> match r {
                Ok(Some(v)) => f.ensures((&self.map()[key@],), Ok::<R, E>(v)),
                Err(e) => f.ensures((&self.map()[key@],), Err::<R, E>(e)),
                Ok(None) => false,
            },
    {
        match self.get(key) {
            Some(item) => match f(item) {
                Ok(v) => Ok(Some(v)),
                Err(e) => Err(e),
            },
            None => Ok(None),
        }
    }
}

/// Items after the first `j` whose keys differ from `key` do not change
/// which item `key` finds.
pub proof fn lemma_keyed_last_suffix<I: AttrsItem>(items: Seq<I>, j: int, key: Seq<char>)
    requires
        0 <= j <= items.len(),
        forall|k: int| j <= k < items.len() ==> #[trigger] items[k].spec_key() != key,
    ensures
        keyed_last(items).contains_key(key) == keyed_last(items.take(j)).contains_key(key),
        keyed_last(items).contains_key(key) ==> keyed_last(items)[key] == keyed_last(items.take(j))[key],
    decreases items.len(),
{
    if j < items.len() {
        assert(items.drop_last().take(j) =~= items.take(j));
        assert(items[items.len() - 1].spec_key() != key);
        lemma_keyed_last_suffix(items.drop_last(), j, key);
    } else {
        assert(items.take(j) =~= items);
    }
}

/// Of the items with a key, the last one written counts.
pub proof fn law_last_item_counts<I: AttrsItem>(items: Seq<I>, j: int)
    requires
        0 <= j < items.len(),
        forall|k: int| j < k < items.len() ==> #[trigger] items[k].spec_key() != items[j].spec_key(),
    ensures
        keyed_last(items).contains_key(items[j].spec_key()),
        keyed_last(items)[items[j].spec_key()] == items[j],
{
    lemma_keyed_last_suffix(items, j + 1, items[j].spec_key());
    assert(items.take(j + 1).drop_last() =~= items.take(j));
    assert(items.take(j + 1).last() == items[j]);
}

} // verus!
