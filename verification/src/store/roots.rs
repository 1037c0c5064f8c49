//! Reading the document's roots: the schema marker, the entities kept by
//! id, the list, the overlay and the event log.
//!
//! Entities come back ordered by id. The order is imposed rather than
//! inherited: a map hands its keys back in an order that is not stable
//! between replicas, and two devices showing the same library in different
//! orders is a bug that only appears on the second device.

use vstd::prelude::*;

use crate::event::{Event, EventLog};
use crate::ids::{IngredientId, ListEntryId};
use crate::ingredient::Ingredient;
use crate::list::{ListEntry, ShoppingList};
use crate::overlay::Overlay;
use crate::people::{Device, User};
use crate::recipe::Recipe;
use crate::store::error::StoreError;
use crate::store::mapping::{
    device_ok, event_ok, explicit_ok, ingredient_ok, list_entry_ok, read_device, read_event, read_explicit,
    read_ingredient, read_list_entry, read_recipe, read_user, reads_device, reads_event, reads_explicit,
    reads_ingredient, reads_list_entry, reads_recipe, reads_user, recipe_ok, user_ok,
};
use crate::store::schema::{ID, SCHEMA, SCHEMA_VERSION};
use crate::store::value::{as_int, as_list, as_map, corrupt, entry, joined, optional, present, table, text_at, Value};
use crate::text::{decimal, lemma_seq_lt_transitive, push_decimal, push_str, seq_lt, str_lt, string_of};

verus! {

// --- the schema marker ------------------------------------------------------

/// The schema marker `meta` holds, if any.
pub open spec fn schema_marker(meta: Value) -> Option<Value> {
    match as_map(meta) {
        Some(m) => present(m, SCHEMA@),
        None => None,
    }
}

/// The number the schema marker holds, if it holds one.
pub open spec fn marker_number(meta: Value) -> Option<i64> {
    match schema_marker(meta) {
        Some(s) => as_int(s),
        None => None,
    }
}

/// `meta` is a map whose marker, if any, is a version this build reads.
pub open spec fn schema_accepted(meta: Value) -> bool {
    &&& as_map(meta) is Some
    &&& match schema_marker(meta) {
        Some(s) => match as_int(s) {
            Some(n) => n <= SCHEMA_VERSION,
            None => false,
        },
        None => true,
    }
}

/// `meta` names a version newer than this build.
pub open spec fn from_the_future(meta: Value) -> bool {
    match marker_number(meta) {
        Some(n) => n > SCHEMA_VERSION,
        None => false,
    }
}

/// Refuses a document written by a newer build. A missing marker is accepted
/// as this build's version: an empty document has nothing to be incompatible
/// about, and refusing it would make a fresh install unopenable.
pub fn check_schema(meta: &Value) -> (r: Result<(), StoreError>)
    ensures
        match r {
            Ok(_) => schema_accepted(*meta),
            Err(e) => !schema_accepted(*meta) && if from_the_future(*meta) {
                e == (StoreError::FutureSchema {
                    found: marker_number(*meta)->0,
                    supported: SCHEMA_VERSION,
                })
            } else {
                e is Corrupt
            },
        },
{
    let m = table(meta, "meta")?;
    match optional(m, SCHEMA) {
        None => Ok(()),
        Some(found) => match found {
            Value::I64(n) => if *n > SCHEMA_VERSION {
                Err(StoreError::FutureSchema { found: *n, supported: SCHEMA_VERSION })
            } else {
                Ok(())
            },
            _ => Err(corrupt("meta.schema", "expected an integer")),
        },
    }
}

// --- entities kept by id ----------------------------------------------------

/// The positions of `m`'s entries, ordered by key.
fn key_order(m: &Vec<(String, Value)>) -> (order: Vec<usize>)
    ensures
        order@.len() == m@.len(),
        forall|k: int| 0 <= k < order@.len() ==> order@[k] < m@.len(),
        forall|j: usize| j < m@.len() ==> #[trigger] order@.contains(j),
        forall|a: int, b: int|
            0 <= a < b < order@.len() ==> !seq_lt(
                (#[trigger] m@[order@[b] as int]).0@,
                (#[trigger] m@[order@[a] as int]).0@,
            ),
{
    let mut order: Vec<usize> = Vec::new();
    let mut i: usize = 0;
    while i < m.len()
        invariant
            i <= m@.len(),
            order@.len() == i,
            forall|k: int| 0 <= k < order@.len() ==> order@[k] < i,
            forall|j: usize| j < i ==> #[trigger] order@.contains(j),
            forall|a: int, b: int|
                0 <= a < b < order@.len() ==> !seq_lt(
                    (#[trigger] m@[order@[b] as int]).0@,
                    (#[trigger] m@[order@[a] as int]).0@,
                ),
        decreases m@.len() - i,
    {
        let mut p: usize = 0;
        while p < order.len() && !str_lt(m[i].0.as_str(), m[order[p]].0.as_str())
            invariant
                i < m@.len(),
                p <= order@.len(),
                forall|k: int| 0 <= k < order@.len() ==> order@[k] < i,
                forall|q: int| 0 <= q < p ==> !seq_lt(m@[i as int].0@, (#[trigger] m@[order@[q] as int]).0@),
            decreases order@.len() - p,
        {
            p = p + 1;
        }
        let ghost old_order = order@;
        order.insert(p, i);
        proof {
            assert(order@ == old_order.insert(p as int, i));
            assert forall|j: usize| j < i + 1 implies #[trigger] order@.contains(j) by {
                if j == i {
                    assert(order@[p as int] == i);
                } else {
                    assert(old_order.contains(j));
                    let k0 = choose|k0: int| 0 <= k0 < old_order.len() && old_order[k0] == j;
                    if k0 < p {
                        assert(order@[k0] == j);
                    } else {
                        assert(order@[k0 + 1] == j);
                    }
                }
            }
            assert forall|a: int, b: int| 0 <= a < b < order@.len() implies !seq_lt(
                (#[trigger] m@[order@[b] as int]).0@,
                (#[trigger] m@[order@[a] as int]).0@,
            ) by {
                let x = m@[i as int].0@;
                if b < p {
                    assert(order@[a] == old_order[a] && order@[b] == old_order[b]);
                } else if b == p {
                    assert(order@[b] == i && order@[a] == old_order[a]);
                } else if a > p {
                    assert(order@[a] == old_order[a - 1] && order@[b] == old_order[b - 1]);
                } else if a == p {
                    assert(order@[a] == i && order@[b] == old_order[b - 1]);
                    let y = m@[old_order[b - 1] as int].0@;
                    let z = m@[old_order[p as int] as int].0@;
                    assert(seq_lt(x, z));
                    if seq_lt(y, x) {
                        lemma_seq_lt_transitive(y, x, z);
                        if b - 1 > p {
                            assert(!seq_lt(y, z));
                        } else {
                            crate::text::lemma_seq_lt_irreflexive(y);
                        }
                    }
                } else {
                    assert(order@[a] == old_order[a] && order@[b] == old_order[b - 1]);
                }
            }
        }
        i = i + 1;
    }
    order
}

/// The ids of `out`, by `id`.
pub open spec fn ids_of<T>(out: Seq<T>, id: spec_fn(T) -> Seq<char>) -> Seq<Seq<char>> {
    out.map_values(|x: T| id(x))
}

/// `out` is every entry of `m` read by `reads`, ordered by the id `id`
/// gives each: one item per entry, each item read from the entry at
/// `source[k]` under its own id, every entry's id among the items.
pub open spec fn keyed<T>(
    m: Seq<(String, Value)>,
    out: Seq<T>,
    source: Seq<int>,
    reads: spec_fn(Seq<char>, Value, T) -> bool,
    id: spec_fn(T) -> Seq<char>,
) -> bool {
    &&& out.len() == m.len()
    &&& source.len() == out.len()
    &&& forall|k: int|
        0 <= k < out.len() ==> 0 <= source[k] < m.len() && #[trigger] reads(m[source[k]].0@, m[source[k]].1, out[k])
            && id(out[k]) == m[source[k]].0@
    &&& forall|j: int| 0 <= j < m.len() ==> #[trigger] source.contains(j)
    &&& forall|a: int, b: int| 0 <= a < b < out.len() ==> !seq_lt(id(#[trigger] out[b]), id(#[trigger] out[a]))
}

/// The positions `order` holds, as integers.
pub open spec fn positions(order: Seq<usize>) -> Seq<int> {
    order.map_values(|x: usize| x as int)
}

/// Reading the entries in key order gives them all, ordered.
proof fn lemma_keyed<T>(
    m: Seq<(String, Value)>,
    order: Seq<usize>,
    out: Seq<T>,
    reads: spec_fn(Seq<char>, Value, T) -> bool,
    id: spec_fn(T) -> Seq<char>,
)
    requires
        m.len() <= usize::MAX,
        order.len() == m.len(),
        out.len() == m.len(),
        forall|q: int| 0 <= q < order.len() ==> order[q] < m.len(),
        forall|j: usize| j < m.len() ==> #[trigger] order.contains(j),
        forall|a: int, b: int|
            0 <= a < b < order.len() ==> !seq_lt(
                (#[trigger] m[order[b] as int]).0@,
                (#[trigger] m[order[a] as int]).0@,
            ),
        forall|q: int|
            0 <= q < out.len() ==> #[trigger] reads(m[order[q] as int].0@, m[order[q] as int].1, out[q])
                && id(out[q]) == m[order[q] as int].0@,
    ensures
        keyed(m, out, positions(order), reads, id),
{
    let source = positions(order);
    assert forall|k: int| 0 <= k < out.len() implies 0 <= source[k] < m.len() && #[trigger] reads(
        m[source[k]].0@,
        m[source[k]].1,
        out[k],
    ) && id(out[k]) == m[source[k]].0@ by {
        assert(source[k] == order[k] as int);
        assert(reads(m[order[k] as int].0@, m[order[k] as int].1, out[k]));
    }
    assert forall|j: int| 0 <= j < m.len() implies #[trigger] source.contains(j) by {
        let u = j as usize;
        assert(order.contains(u));
        let q = choose|q: int| 0 <= q < order.len() && order[q] == u;
        assert(source[q] == j);
    }
    assert forall|a: int, b: int| 0 <= a < b < out.len() implies !seq_lt(id(#[trigger] out[b]), id(#[trigger] out[a])) by {
        assert(reads(m[order[a] as int].0@, m[order[a] as int].1, out[a]));
        assert(reads(m[order[b] as int].0@, m[order[b] as int].1, out[b]));
        assert(!seq_lt(m[order[b] as int].0@, m[order[a] as int].0@));
    }
}

/// Every entry of `m` holds a well-formed ingredient.
pub open spec fn ingredients_ok(m: Seq<(String, Value)>) -> bool {
    forall|j: int| 0 <= j < m.len() ==> #[trigger] ingredient_ok(m[j].1)
}

/// `out` is every ingredient of `m`, read, in id order.
pub open spec fn reads_ingredients(m: Seq<(String, Value)>, out: Seq<Ingredient>) -> bool {
    exists|source: Seq<int>| #[trigger] keyed(m, out, source, ingredient_reader(), ingredient_id())
}

/// Reading an ingredient, as a function.
pub open spec fn ingredient_reader() -> spec_fn(Seq<char>, Value, Ingredient) -> bool {
    |k: Seq<char>, v: Value, x: Ingredient| reads_ingredient(k, v, x)
}

/// An ingredient's id, as a function.
pub open spec fn ingredient_id() -> spec_fn(Ingredient) -> Seq<char> {
    |x: Ingredient| x.id@
}

/// The ingredients, ordered by id.
pub fn ingredients(root: &Value) -> (r: Result<Vec<Ingredient>, StoreError>)
    ensures
        match r {
            Ok(out) => as_map(*root) matches Some(m) && ingredients_ok(m) && reads_ingredients(m, out@),
            Err(e) => !(as_map(*root) matches Some(m) && ingredients_ok(m)) && e is Corrupt,
        },
{
    let m = table(root, "ingredients")?;
    let order = key_order(m);
    let mut out: Vec<Ingredient> = Vec::new();
    let mut k: usize = 0;
    while k < order.len()
        invariant
            k <= order@.len(),
            out@.len() == k,
            as_map(*root) == Some(m@),
            order@.len() == m@.len(),
            forall|q: int| 0 <= q < order@.len() ==> order@[q] < m@.len(),
            forall|q: int| 0 <= q < k ==> #[trigger] reads_ingredient(m@[order@[q] as int].0@, m@[order@[q] as int].1, out@[q]),
            forall|q: int| 0 <= q < k ==> #[trigger] ingredient_ok(m@[order@[q] as int].1),
        decreases order@.len() - k,
    {
        let j = order[k];
        let x = match read_ingredient(m[j].0.as_str(), &m[j].1) {
            Ok(x) => x,
            Err(e) => {
                proof {
                    assert(!ingredients_ok(m@));
                }
                return Err(e);
            },
        };
        out.push(x);
        k = k + 1;
    }
    proof {
        let reads = ingredient_reader();
        let id = ingredient_id();
        assert forall|q: int| 0 <= q < out@.len() implies #[trigger] reads(m@[order@[q] as int].0@, m@[order@[q] as int].1, out@[q])
            && id(out@[q]) == m@[order@[q] as int].0@ by {
            assert(reads_ingredient(m@[order@[q] as int].0@, m@[order@[q] as int].1, out@[q]));
        }
        lemma_keyed(m@, order@, out@, reads, id);
        assert(keyed(m@, out@, positions(order@), reads, id));
        assert forall|j: int| 0 <= j < m@.len() implies #[trigger] ingredient_ok(m@[j].1) by {
            assert(order@.contains(j as usize));
            let q = choose|q: int| 0 <= q < order@.len() && order@[q] == j as usize;
            assert(ingredient_ok(m@[order@[q] as int].1));
        }
    }
    Ok(out)
}

/// Every entry of `m` holds a well-formed recipe.
pub open spec fn recipes_ok(m: Seq<(String, Value)>) -> bool {
    forall|j: int| 0 <= j < m.len() ==> #[trigger] recipe_ok(m[j].1)
}

/// `out` is every recipe of `m`, read, in id order.
pub open spec fn reads_recipes(m: Seq<(String, Value)>, out: Seq<Recipe>) -> bool {
    exists|source: Seq<int>| #[trigger] keyed(m, out, source, recipe_reader(), recipe_id())
}

/// Reading a recipe, as a function.
pub open spec fn recipe_reader() -> spec_fn(Seq<char>, Value, Recipe) -> bool {
    |k: Seq<char>, v: Value, x: Recipe| reads_recipe(k, v, x)
}

/// A recipe's id, as a function.
pub open spec fn recipe_id() -> spec_fn(Recipe) -> Seq<char> {
    |x: Recipe| x.id@
}

/// The recipes, ordered by id.
pub fn recipes(root: &Value) -> (r: Result<Vec<Recipe>, StoreError>)
    ensures
        match r {
            Ok(out) => as_map(*root) matches Some(m) && recipes_ok(m) && reads_recipes(m, out@),
            Err(e) => !(as_map(*root) matches Some(m) && recipes_ok(m)) && e is Corrupt,
        },
{
    let m = table(root, "recipes")?;
    let order = key_order(m);
    let mut out: Vec<Recipe> = Vec::new();
    let mut k: usize = 0;
    while k < order.len()
        invariant
            k <= order@.len(),
            out@.len() == k,
            as_map(*root) == Some(m@),
            order@.len() == m@.len(),
            forall|q: int| 0 <= q < order@.len() ==> order@[q] < m@.len(),
            forall|q: int| 0 <= q < k ==> #[trigger] reads_recipe(m@[order@[q] as int].0@, m@[order@[q] as int].1, out@[q]),
            forall|q: int| 0 <= q < k ==> #[trigger] recipe_ok(m@[order@[q] as int].1),
        decreases order@.len() - k,
    {
        let j = order[k];
        let x = match read_recipe(m[j].0.as_str(), &m[j].1) {
            Ok(x) => x,
            Err(e) => {
                proof {
                    assert(!recipes_ok(m@));
                }
                return Err(e);
            },
        };
        out.push(x);
        k = k + 1;
    }
    proof {
        let reads = recipe_reader();
        let id = recipe_id();
        assert forall|q: int| 0 <= q < out@.len() implies #[trigger] reads(m@[order@[q] as int].0@, m@[order@[q] as int].1, out@[q])
            && id(out@[q]) == m@[order@[q] as int].0@ by {
            assert(reads_recipe(m@[order@[q] as int].0@, m@[order@[q] as int].1, out@[q]));
        }
        lemma_keyed(m@, order@, out@, reads, id);
        assert(keyed(m@, out@, positions(order@), reads, id));
        assert forall|j: int| 0 <= j < m@.len() implies #[trigger] recipe_ok(m@[j].1) by {
            assert(order@.contains(j as usize));
            let q = choose|q: int| 0 <= q < order@.len() && order@[q] == j as usize;
            assert(recipe_ok(m@[order@[q] as int].1));
        }
    }
    Ok(out)
}

/// Every entry of `m` holds a well-formed user.
pub open spec fn users_ok(m: Seq<(String, Value)>) -> bool {
    forall|j: int| 0 <= j < m.len() ==> #[trigger] user_ok(m[j].1)
}

/// `out` is every user of `m`, read, in id order.
pub open spec fn reads_users(m: Seq<(String, Value)>, out: Seq<User>) -> bool {
    exists|source: Seq<int>| #[trigger] keyed(m, out, source, user_reader(), user_id())
}

/// Reading a user, as a function.
pub open spec fn user_reader() -> spec_fn(Seq<char>, Value, User) -> bool {
    |k: Seq<char>, v: Value, x: User| reads_user(k, v, x)
}

/// A user's id, as a function.
pub open spec fn user_id() -> spec_fn(User) -> Seq<char> {
    |x: User| x.id@
}

/// The users, ordered by id.
pub fn users(root: &Value) -> (r: Result<Vec<User>, StoreError>)
    ensures
        match r {
            Ok(out) => as_map(*root) matches Some(m) && users_ok(m) && reads_users(m, out@),
            Err(e) => !(as_map(*root) matches Some(m) && users_ok(m)) && e is Corrupt,
        },
{
    let m = table(root, "users")?;
    let order = key_order(m);
    let mut out: Vec<User> = Vec::new();
    let mut k: usize = 0;
    while k < order.len()
        invariant
            k <= order@.len(),
            out@.len() == k,
            as_map(*root) == Some(m@),
            order@.len() == m@.len(),
            forall|q: int| 0 <= q < order@.len() ==> order@[q] < m@.len(),
            forall|q: int| 0 <= q < k ==> #[trigger] reads_user(m@[order@[q] as int].0@, m@[order@[q] as int].1, out@[q]),
            forall|q: int| 0 <= q < k ==> #[trigger] user_ok(m@[order@[q] as int].1),
        decreases order@.len() - k,
    {
        let j = order[k];
        let x = match read_user(m[j].0.as_str(), &m[j].1) {
            Ok(x) => x,
            Err(e) => {
                proof {
                    assert(!users_ok(m@));
                }
                return Err(e);
            },
        };
        out.push(x);
        k = k + 1;
    }
    proof {
        let reads = user_reader();
        let id = user_id();
        assert forall|q: int| 0 <= q < out@.len() implies #[trigger] reads(m@[order@[q] as int].0@, m@[order@[q] as int].1, out@[q])
            && id(out@[q]) == m@[order@[q] as int].0@ by {
            assert(reads_user(m@[order@[q] as int].0@, m@[order@[q] as int].1, out@[q]));
        }
        lemma_keyed(m@, order@, out@, reads, id);
        assert(keyed(m@, out@, positions(order@), reads, id));
        assert forall|j: int| 0 <= j < m@.len() implies #[trigger] user_ok(m@[j].1) by {
            assert(order@.contains(j as usize));
            let q = choose|q: int| 0 <= q < order@.len() && order@[q] == j as usize;
            assert(user_ok(m@[order@[q] as int].1));
        }
    }
    Ok(out)
}

/// Every entry of `m` holds a well-formed device.
pub open spec fn devices_ok(m: Seq<(String, Value)>) -> bool {
    forall|j: int| 0 <= j < m.len() ==> #[trigger] device_ok(m[j].1)
}

/// `out` is every device of `m`, read, in id order.
pub open spec fn reads_devices(m: Seq<(String, Value)>, out: Seq<Device>) -> bool {
    exists|source: Seq<int>| #[trigger] keyed(m, out, source, device_reader(), device_id())
}

/// Reading a device, as a function.
pub open spec fn device_reader() -> spec_fn(Seq<char>, Value, Device) -> bool {
    |k: Seq<char>, v: Value, x: Device| reads_device(k, v, x)
}

/// A device's id, as a function.
pub open spec fn device_id() -> spec_fn(Device) -> Seq<char> {
    |x: Device| x.id@
}

/// The devices, ordered by id.
pub fn devices(root: &Value) -> (r: Result<Vec<Device>, StoreError>)
    ensures
        match r {
            Ok(out) => as_map(*root) matches Some(m) && devices_ok(m) && reads_devices(m, out@),
            Err(e) => !(as_map(*root) matches Some(m) && devices_ok(m)) && e is Corrupt,
        },
{
    let m = table(root, "devices")?;
    let order = key_order(m);
    let mut out: Vec<Device> = Vec::new();
    let mut k: usize = 0;
    while k < order.len()
        invariant
            k <= order@.len(),
            out@.len() == k,
            as_map(*root) == Some(m@),
            order@.len() == m@.len(),
            forall|q: int| 0 <= q < order@.len() ==> order@[q] < m@.len(),
            forall|q: int| 0 <= q < k ==> #[trigger] reads_device(m@[order@[q] as int].0@, m@[order@[q] as int].1, out@[q]),
            forall|q: int| 0 <= q < k ==> #[trigger] device_ok(m@[order@[q] as int].1),
        decreases order@.len() - k,
    {
        let j = order[k];
        let x = match read_device(m[j].0.as_str(), &m[j].1) {
            Ok(x) => x,
            Err(e) => {
                proof {
                    assert(!devices_ok(m@));
                }
                return Err(e);
            },
        };
        out.push(x);
        k = k + 1;
    }
    proof {
        let reads = device_reader();
        let id = device_id();
        assert forall|q: int| 0 <= q < out@.len() implies #[trigger] reads(m@[order@[q] as int].0@, m@[order@[q] as int].1, out@[q])
            && id(out@[q]) == m@[order@[q] as int].0@ by {
            assert(reads_device(m@[order@[q] as int].0@, m@[order@[q] as int].1, out@[q]));
        }
        lemma_keyed(m@, order@, out@, reads, id);
        assert(keyed(m@, out@, positions(order@), reads, id));
        assert forall|j: int| 0 <= j < m@.len() implies #[trigger] device_ok(m@[j].1) by {
            assert(order@.contains(j as usize));
            let q = choose|q: int| 0 <= q < order@.len() && order@[q] == j as usize;
            assert(device_ok(m@[order@[q] as int].1));
        }
    }
    Ok(out)
}

// --- the list, the overlay and the log --------------------------------------

/// `root` followed by the index `i` in brackets.
fn indexed(root: &str, i: usize) -> (s: String)
    ensures
        s@ == root@ + seq!['['] + decimal(i as nat) + seq![']'],
{
    let mut out: Vec<char> = Vec::new();
    push_str(&mut out, root);
    out.push('[');
    push_decimal(&mut out, i as u64);
    out.push(']');
    proof {
        assert(out@ =~= root@ + seq!['['] + decimal(i as nat) + seq![']']);
    }
    string_of(&out)
}

/// Every item of `l` is a well-formed list entry.
pub open spec fn entries_ok(l: Seq<Value>) -> bool {
    forall|i: int| 0 <= i < l.len() ==> #[trigger] list_entry_ok(l[i])
}

/// `out` is `l`, each item read as a list entry, in the order held.
pub open spec fn reads_entries(l: Seq<Value>, out: Seq<ListEntry>) -> bool {
    out.len() == l.len() && forall|i: int| 0 <= i < l.len() ==> #[trigger] reads_list_entry(l[i], out[i])
}

/// The shopping list, in the order the document holds it.
pub fn list(root: &Value) -> (r: Result<ShoppingList, StoreError>)
    ensures
        match r {
            Ok(s) => as_list(*root) matches Some(l) && entries_ok(l) && reads_entries(l, s.entries@),
            Err(e) => !(as_list(*root) matches Some(l) && entries_ok(l)) && e is Corrupt,
        },
{
    let l = crate::store::value::list(root, "list")?;
    let mut entries: Vec<ListEntry> = Vec::new();
    let mut i: usize = 0;
    while i < l.len()
        invariant
            i <= l@.len(),
            entries@.len() == i,
            as_list(*root) == Some(l@),
            forall|j: int| 0 <= j < i ==> #[trigger] list_entry_ok(l@[j]),
            forall|j: int| 0 <= j < i ==> #[trigger] reads_list_entry(l@[j], entries@[j]),
        decreases l@.len() - i,
    {
        let path = indexed("list", i);
        let e = match read_list_entry(&l[i], path.as_str()) {
            Ok(e) => e,
            Err(e) => {
                proof {
                    assert(!entries_ok(l@));
                }
                return Err(e);
            },
        };
        entries.push(e);
        i = i + 1;
    }
    Ok(ShoppingList { entries })
}

/// Every item of `l` is a well-formed event.
pub open spec fn events_ok(l: Seq<Value>) -> bool {
    forall|i: int| 0 <= i < l.len() ==> #[trigger] event_ok(l[i])
}

/// `out` is `l`, each item read as an event, in the order held.
pub open spec fn reads_events(l: Seq<Value>, out: Seq<Event>) -> bool {
    out.len() == l.len() && forall|i: int| 0 <= i < l.len() ==> #[trigger] reads_event(l[i], out[i])
}

/// The event log, oldest first.
pub fn events(root: &Value) -> (r: Result<EventLog, StoreError>)
    ensures
        match r {
            Ok(log) => as_list(*root) matches Some(l) && events_ok(l) && reads_events(l, log.events@),
            Err(e) => !(as_list(*root) matches Some(l) && events_ok(l)) && e is Corrupt,
        },
{
    let l = crate::store::value::list(root, "events")?;
    let mut out: Vec<Event> = Vec::new();
    let mut i: usize = 0;
    while i < l.len()
        invariant
            i <= l@.len(),
            out@.len() == i,
            as_list(*root) == Some(l@),
            forall|j: int| 0 <= j < i ==> #[trigger] event_ok(l@[j]),
            forall|j: int| 0 <= j < i ==> #[trigger] reads_event(l@[j], out@[j]),
        decreases l@.len() - i,
    {
        let path = indexed("events", i);
        let e = match read_event(&l[i], path.as_str()) {
            Ok(e) => e,
            Err(e) => {
                proof {
                    assert(!events_ok(l@));
                }
                return Err(e);
            },
        };
        out.push(e);
        i = i + 1;
    }
    Ok(EventLog { events: out })
}

/// How many of the oldest events a log of `len` loses to the cap.
pub fn excess_events(len: usize) -> (n: usize)
    ensures
        n == if len > EventLog::CAP {
            len - EventLog::CAP
        } else {
            0
        },
{
    if len > EventLog::CAP {
        len - EventLog::CAP
    } else {
        0
    }
}

/// Every entry of `m` holds a well-formed explicit action.
pub open spec fn overlay_ok(m: Seq<(String, Value)>) -> bool {
    forall|j: int| 0 <= j < m.len() ==> #[trigger] explicit_ok(m[j].1)
}

/// `o` holds, for each ingredient id, the action `m` holds under it.
pub open spec fn reads_overlay(m: Seq<(String, Value)>, o: Overlay) -> bool {
    forall|k: Seq<char>|
        match #[trigger] entry(m, k) {
            Some(v) => o.spec_get(k) matches Some(x) && reads_explicit(v, x),
            None => o.spec_get(k) is None,
        }
}

/// The explicit actions, by ingredient. Only explicit actions are ever
/// stored: a derived state never is.
pub fn overlay(root: &Value) -> (r: Result<Overlay, StoreError>)
    ensures
        match r {
            Ok(o) => as_map(*root) matches Some(m) && overlay_ok(m) && reads_overlay(m, o),
            Err(e) => !(as_map(*root) matches Some(m) && overlay_ok(m)) && e is Corrupt,
        },
{
    let m = table(root, "overlay")?;
    let mut o = Overlay::new();
    let mut i: usize = m.len();
    proof {
        assert forall|k: Seq<char>| #[trigger] entry(m@.skip(m@.len() as int), k) is None by {
            assert(m@.skip(m@.len() as int).len() == 0);
        }
    }
    while i > 0
        invariant
            i <= m@.len(),
            as_map(*root) == Some(m@),
            forall|j: int| i <= j < m@.len() ==> #[trigger] explicit_ok(m@[j].1),
            forall|k: Seq<char>|
                match #[trigger] entry(m@.skip(i as int), k) {
                    Some(v) => o.spec_get(k) matches Some(x) && reads_explicit(v, x),
                    None => o.spec_get(k) is None,
                },
        decreases i,
    {
        let j = i - 1;
        let path = joined("overlay.", m[j].0.as_str());
        let x = match read_explicit(&m[j].1, path.as_str()) {
            Ok(x) => x,
            Err(e) => {
                proof {
                    assert(!overlay_ok(m@));
                }
                return Err(e);
            },
        };
        let ghost before = o;
        let ghost key = m@[j as int].0@;
        let ghost read = x;
        o.insert(IngredientId::from_raw(m[j].0.as_str()), x);
        proof {
            assert(m@.skip(j as int)[0] == m@[j as int]);
            assert(m@.skip(j as int).drop_first() =~= m@.skip(i as int));
            assert forall|k: Seq<char>|
                match #[trigger] entry(m@.skip(j as int), k) {
                    Some(v) => o.spec_get(k) matches Some(x) && reads_explicit(v, x),
                    None => o.spec_get(k) is None,
                } by {
                if k == key {
                    assert(o.spec_get(k) == Some(read));
                } else {
                    assert(entry(m@.skip(j as int), k) == entry(m@.skip(i as int), k));
                    assert(o.spec_get(k) == before.spec_get(k));
                }
            }
        }
        i = j;
    }
    proof {
        assert(m@.skip(0) =~= m@);
    }
    Ok(o)
}

/// The id a list entry's value holds.
pub open spec fn entry_id(v: Value) -> Option<Seq<char>> {
    match as_map(v) {
        Some(m) => text_at(m, ID@),
        None => None,
    }
}

/// The positions in `l` of the entries whose id is `id`, in order.
pub open spec fn positions_of(l: Seq<Value>, id: Seq<char>) -> Seq<int>
    decreases l.len(),
{
    if l.len() == 0 {
        Seq::empty()
    } else {
        let before = positions_of(l.drop_last(), id);
        if entry_id(l.last()) == Some(id) {
            before.push(l.len() - 1)
        } else {
            before
        }
    }
}

/// Where the entries with id `id` stand in the list, first to last. Every
/// entry is read on the way, so a corrupt one is reported rather than
/// skipped.
pub fn list_positions(root: &Value, id: &ListEntryId) -> (r: Result<Vec<usize>, StoreError>)
    ensures
        match r {
            Ok(ps) => as_list(*root) matches Some(l) && entries_ok(l) && positions(ps@) == positions_of(l, id@),
            Err(e) => !(as_list(*root) matches Some(l) && entries_ok(l)) && e is Corrupt,
        },
{
    let l = crate::store::value::list(root, "list")?;
    let mut found: Vec<usize> = Vec::new();
    let mut i: usize = 0;
    proof {
        assert(l@.take(0) =~= Seq::<Value>::empty());
        assert(positions(found@) =~= positions_of(l@.take(0), id@));
    }
    while i < l.len()
        invariant
            i <= l@.len(),
            as_list(*root) == Some(l@),
            forall|j: int| 0 <= j < i ==> #[trigger] list_entry_ok(l@[j]),
            positions(found@) == positions_of(l@.take(i as int), id@),
        decreases l@.len() - i,
    {
        let path = indexed("list", i);
        let e = match read_list_entry(&l[i], path.as_str()) {
            Ok(e) => e,
            Err(e) => {
                proof {
                    assert(!entries_ok(l@));
                }
                return Err(e);
            },
        };
        proof {
            assert(l@.take(i + 1).drop_last() =~= l@.take(i as int));
            assert(l@.take(i + 1).last() == l@[i as int]);
        }
        if e.id.same(id) {
            found.push(i);
            proof {
                assert(positions(found@) =~= positions(found@.drop_last()).push(i as int));
                assert(found@.drop_last() =~= found@.take(found@.len() - 1));
            }
        }
        i = i + 1;
    }
    proof {
        assert(l@.take(l@.len() as int) =~= l@);
    }
    Ok(found)
}

} // verus!
