//! The shopping list — recipes and bare ingredients, in one single list.

use vstd::prelude::*;

use crate::ids::{IngredientId, ListEntryId, RecipeId, Timestamp, UserId};
use crate::overlay::Overlay;
use crate::quantity::Quantity;
use crate::recipe::Servings;

verus! {

/// What a list entry asks for.
#[derive(Debug, PartialEq, Eq)]
pub enum ListItem {
    /// A recipe, for a possibly different number of people than it is
    /// written for.
    Recipe { recipe: RecipeId, servings: Servings },
    /// A bare ingredient, added by hand.
    Ingredient { ingredient: IngredientId, quantity: Quantity },
}

impl Clone for ListItem {
    fn clone(&self) -> (r: Self)
        ensures
            r == *self,
    {
        match self {
            ListItem::Recipe { recipe, servings } => ListItem::Recipe {
                recipe: recipe.clone(),
                servings: *servings,
            },
            ListItem::Ingredient { ingredient, quantity } => ListItem::Ingredient {
                ingredient: ingredient.clone(),
                quantity: *quantity,
            },
        }
    }
}

#[derive(Debug, PartialEq, Eq)]
pub struct ListEntry {
    pub id: ListEntryId,
    pub item: ListItem,
    /// Declarative attribution — a convenience, never access control.
    pub added_by: UserId,
    pub added_at: Timestamp,
}

impl Clone for ListEntry {
    fn clone(&self) -> (r: Self)
        ensures
            r == *self,
    {
        ListEntry {
            id: self.id.clone(),
            item: self.item.clone(),
            added_by: self.added_by.clone(),
            added_at: self.added_at,
        }
    }
}

/// The one shopping list. It has no name and no id because there is never a
/// second one to tell it apart from.
#[derive(Debug, Clone, Default, PartialEq, Eq)]
pub struct ShoppingList {
    pub entries: Vec<ListEntry>,
}

/// The first entry of `entries` with id `id`.
pub open spec fn entry_in(entries: Seq<ListEntry>, id: Seq<char>) -> Option<ListEntry>
    decreases entries.len(),
{
    if entries.len() == 0 {
        None
    } else if entries[0].id@ == id {
        Some(entries[0])
    } else {
        entry_in(entries.drop_first(), id)
    }
}

/// Keeps the entries whose id is not `gone`.
pub open spec fn not_id(gone: Seq<char>) -> spec_fn(ListEntry) -> bool {
    |e: ListEntry| e.id@ != gone
}

impl ShoppingList {
    pub fn new() -> (r: ShoppingList)
        ensures
            r.entries@.len() == 0,
    {
        ShoppingList { entries: Vec::new() }
    }

    /// The entry with id `id`, if any.
    pub fn entry(&self, id: &ListEntryId) -> (r: Option<&ListEntry>)
        ensures
            r matches Some(e) ==> entry_in(self.entries@, id@) == Some(*e),
            r is None ==> entry_in(self.entries@, id@) is None,
    {
        let mut i: usize = 0;
        proof {
            assert(self.entries@.skip(0) =~= self.entries@);
        }
        while i < self.entries.len()
            invariant
                i <= self.entries@.len(),
                entry_in(self.entries@, id@) == entry_in(self.entries@.skip(i as int), id@),
            decreases self.entries@.len() - i,
        {
            proof {
                assert(self.entries@.skip(i as int)[0] == self.entries@[i as int]);
                assert(self.entries@.skip(i as int).drop_first() =~= self.entries@.skip(i + 1));
            }
            if self.entries[i].id.same(id) {
                return Some(&self.entries[i]);
            }
            i = i + 1;
        }
        None
    }

    /// Removes every entry with id `id`, keeping the others in order.
    pub fn remove(&mut self, id: &ListEntryId)
        ensures
            final(self).entries@ == old(self).entries@.filter(not_id(id@)),
    {
        let ghost before = self.entries@;
        let mut kept: Vec<ListEntry> = Vec::new();
        let mut i: usize = 0;
        while i < self.entries.len()
            invariant
                i <= self.entries@.len(),
                self.entries@ == before,
                kept@ == before.take(i as int).filter(not_id(id@)),
            decreases self.entries@.len() - i,
        {
            proof {
                reveal_with_fuel(Seq::filter, 1);
                assert(before.take(i + 1).drop_last() =~= before.take(i as int));
            }
            if !self.entries[i].id.same(id) {
                kept.push(self.entries[i].clone());
            }
            i = i + 1;
        }
        proof {
            assert(before.take(i as int) =~= before);
        }
        self.entries = kept;
    }

    /// Adds an entry, purging the overlay entry of a bare ingredient.
    ///
    /// The purge is the load-bearing half: putting an ingredient on the list
    /// by hand means "I need this", so it must return to its derived default
    /// and become visible — whether it was auto-checked as a staple or
    /// checked off earlier in the same trip. Adding a *recipe* purges nothing,
    /// since it makes no statement about any single ingredient.
    pub fn add(&mut self, entry: ListEntry, overlay: &mut Overlay)
        ensures
            final(self).entries@ == old(self).entries@.push(entry),
            match entry.item {
                ListItem::Ingredient { ingredient, .. } => {
                    &&& final(overlay).spec_get(ingredient@) is None
                    &&& forall|k: Seq<char>|
                        k != ingredient@ ==> final(overlay).spec_get(k) == old(overlay).spec_get(k)
                },
                ListItem::Recipe { .. } => forall|k: Seq<char>|
                    final(overlay).spec_get(k) == old(overlay).spec_get(k),
            },
    {
        if let ListItem::Ingredient { ingredient, .. } = &entry.item {
            overlay.remove(ingredient);
        }
        self.entries.push(entry);
    }
}

} // verus!
