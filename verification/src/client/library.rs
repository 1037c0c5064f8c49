//! The whole family document, read into plain domain values. Every command
//! and every render starts from one of these: one representation of the
//! truth, so the screen cannot disagree with the document.

use vstd::prelude::*;

use crate::expand::RecipeIndex;
use crate::ids::{DeviceId, IngredientId, UserId};
use crate::ingredient_index::IngredientIndex;
use crate::list::{ListEntry, ShoppingList};
use crate::overlay::Overlay;
use crate::people::{Device, User};

verus! {

pub struct Library {
    pub recipes: RecipeIndex,
    pub ingredients: IngredientIndex,
    pub list: ShoppingList,
    pub overlay: Overlay,
    pub users: Vec<User>,
    /// The devices those people carry.
    pub devices: Vec<Device>,
}

/// The name of the first of `users` with id `id`.
pub open spec fn name_of(users: Seq<User>, id: Seq<char>) -> Option<Seq<char>>
    decreases users.len(),
{
    if users.len() == 0 {
        None
    } else if users[0].id@ == id {
        Some(users[0].name@)
    } else {
        name_of(users.drop_first(), id)
    }
}

/// The text of an optional string.
pub open spec fn text_of(s: Option<&str>) -> Option<Seq<char>> {
    match s {
        Some(t) => Some(t@),
        None => None,
    }
}

impl Library {
    /// The name of the ingredient filed under `id`.
    pub open spec fn spec_ingredient_name(self, id: Seq<char>) -> Option<Seq<char>> {
        match self.ingredients.spec_get(id) {
            Some(i) => Some(i.name@),
            None => None,
        }
    }

    /// The name to show for a person, or `None` if that user is not in the
    /// document — which a concurrent delete can perfectly well arrange.
    pub fn user_name(&self, id: &UserId) -> (r: Option<&str>)
        ensures
            text_of(r) == name_of(self.users@, id@),
    {
        let mut i: usize = 0;
        proof {
            assert(self.users@.skip(0) =~= self.users@);
        }
        while i < self.users.len()
            invariant
                i <= self.users@.len(),
                name_of(self.users@, id@) == name_of(self.users@.skip(i as int), id@),
            decreases self.users@.len() - i,
        {
            proof {
                assert(self.users@.skip(i as int)[0] == self.users@[i as int]);
                assert(self.users@.skip(i as int).drop_first() =~= self.users@.skip(i + 1));
            }
            if self.users[i].id.same(id) {
                return Some(self.users[i].name.as_str());
            }
            i = i + 1;
        }
        None
    }

    /// The name of the ingredient filed under `id`, if any.
    pub fn ingredient_name(&self, id: &IngredientId) -> (r: Option<&str>)
        ensures
            text_of(r) == self.spec_ingredient_name(id@),
    {
        match self.ingredients.get(id) {
            Some(ingredient) => Some(ingredient.name.as_str()),
            None => None,
        }
    }
}


/// Where the first of `users` with id `id` sits.
pub open spec fn user_at(users: Seq<User>, id: Seq<char>) -> Option<int> {
    if exists|i: int| 0 <= i < users.len() && users[i].id@ == id {
        Some(choose|i: int| 0 <= i < users.len() && users[i].id@ == id && forall|j: int| 0 <= j < i ==> users[j].id@ != id)
    } else {
        None
    }
}

/// `users` with `user` written in: over the first with its id, or at the end.
pub open spec fn put_user_in(users: Seq<User>, user: User) -> Seq<User> {
    match user_at(users, user.id@) {
        Some(i) => users.update(i, user),
        None => users.push(user),
    }
}

/// Where the first of `devices` with id `id` sits.
pub open spec fn device_at(devices: Seq<Device>, id: Seq<char>) -> Option<int> {
    if exists|i: int| 0 <= i < devices.len() && devices[i].id@ == id {
        Some(choose|i: int| 0 <= i < devices.len() && devices[i].id@ == id && forall|j: int| 0 <= j < i ==> devices[j].id@ != id)
    } else {
        None
    }
}

/// `devices` with `device` written in: over the first with its id, or at the end.
pub open spec fn put_device_in(devices: Seq<Device>, device: Device) -> Seq<Device> {
    match device_at(devices, device.id@) {
        Some(i) => devices.update(i, device),
        None => devices.push(device),
    }
}

/// Every entry of `entries` with `entry`'s id replaced by `entry`.
pub open spec fn updated_entries(entries: Seq<ListEntry>, entry: ListEntry) -> Seq<ListEntry> {
    entries.map_values(|e: ListEntry| if e.id@ == entry.id@ {
        entry
    } else {
        e
    })
}

impl Library {
    /// Whether the roster has a user with id `id`.
    pub fn has_user(&self, id: &UserId) -> (b: bool)
        ensures
            b == (user_at(self.users@, id@) is Some),
    {
        self.find_user(id).is_some()
    }

    fn find_user(&self, id: &UserId) -> (r: Option<usize>)
        ensures
            r is Some ==> r->0 < self.users@.len(),
            match (r, user_at(self.users@, id@)) {
                (Some(i), Some(j)) => i == j,
                (None, None) => true,
                _ => false,
            },
    {
        let mut i: usize = 0;
        while i < self.users.len()
            invariant
                i <= self.users@.len(),
                forall|j: int| 0 <= j < i ==> self.users@[j].id@ != id@,
            decreases self.users@.len() - i,
        {
            if self.users[i].id.same(id) {
                proof {
                    let k = choose|k: int| 0 <= k < self.users@.len() && self.users@[k].id@ == id@ && forall|j: int| 0 <= j < k ==> self.users@[j].id@ != id@;
                    assert(k == i) by {
                        if k < i {
                            assert(self.users@[k].id@ != id@);
                        }
                        if k > i {
                            assert(self.users@[i as int].id@ != id@);
                        }
                    }
                }
                return Some(i);
            }
            i = i + 1;
        }
        None
    }

    /// Writes `user` into the roster, over the one with the same id.
    pub fn put_user(&mut self, user: User)
        ensures
            final(self).users@ == put_user_in(old(self).users@, user),
            final(self).devices == old(self).devices,
            final(self).list == old(self).list,
            final(self).overlay == old(self).overlay,
            final(self).recipes == old(self).recipes,
            final(self).ingredients == old(self).ingredients,
    {
        match self.find_user(&user.id) {
            Some(i) => self.users.set(i, user),
            None => self.users.push(user),
        }
    }

    fn find_device(&self, id: &DeviceId) -> (r: Option<usize>)
        ensures
            r is Some ==> r->0 < self.devices@.len(),
            match (r, device_at(self.devices@, id@)) {
                (Some(i), Some(j)) => i == j,
                (None, None) => true,
                _ => false,
            },
    {
        let mut i: usize = 0;
        while i < self.devices.len()
            invariant
                i <= self.devices@.len(),
                forall|j: int| 0 <= j < i ==> self.devices@[j].id@ != id@,
            decreases self.devices@.len() - i,
        {
            if self.devices[i].id.same(id) {
                proof {
                    let k = choose|k: int| 0 <= k < self.devices@.len() && self.devices@[k].id@ == id@ && forall|j: int| 0 <= j < k ==> self.devices@[j].id@ != id@;
                    assert(k == i) by {
                        if k < i {
                            assert(self.devices@[k].id@ != id@);
                        }
                        if k > i {
                            assert(self.devices@[i as int].id@ != id@);
                        }
                    }
                }
                return Some(i);
            }
            i = i + 1;
        }
        None
    }

    /// Whether some device has id `id`.
    pub fn has_device(&self, id: &DeviceId) -> (b: bool)
        ensures
            b == (device_at(self.devices@, id@) is Some),
    {
        self.find_device(id).is_some()
    }

    /// Writes `device` in, over the one with the same id.
    pub fn put_device(&mut self, device: Device)
        ensures
            final(self).devices@ == put_device_in(old(self).devices@, device),
            final(self).users == old(self).users,
            final(self).list == old(self).list,
            final(self).overlay == old(self).overlay,
            final(self).recipes == old(self).recipes,
            final(self).ingredients == old(self).ingredients,
    {
        match self.find_device(&device.id) {
            Some(i) => self.devices.set(i, device),
            None => self.devices.push(device),
        }
    }

    /// Replaces every list entry with `entry`'s id by `entry`, where it is.
    pub fn update_list_entry(&mut self, entry: ListEntry)
        ensures
            final(self).list.entries@ == updated_entries(old(self).list.entries@, entry),
            final(self).users == old(self).users,
            final(self).devices == old(self).devices,
            final(self).overlay == old(self).overlay,
            final(self).recipes == old(self).recipes,
            final(self).ingredients == old(self).ingredients,
    {
        let ghost before = self.list.entries@;
        let mut i: usize = 0;
        while i < self.list.entries.len()
            invariant
                i <= before.len(),
                self.list.entries@.len() == before.len(),
                forall|k: int| 0 <= k < i ==> self.list.entries@[k] == updated_entries(before, entry)[k],
                forall|k: int| i <= k < before.len() ==> self.list.entries@[k] == before[k],
                self.users == old(self).users,
                self.devices == old(self).devices,
                self.overlay == old(self).overlay,
                self.recipes == old(self).recipes,
                self.ingredients == old(self).ingredients,
            decreases before.len() - i,
        {
            if self.list.entries[i].id.same(&entry.id) {
                self.list.entries.set(i, entry.clone());
            }
            i = i + 1;
        }
        proof {
            assert(self.list.entries@ =~= updated_entries(before, entry));
        }
    }
}

} // verus!
