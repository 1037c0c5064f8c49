//! The document layout, in one place.
//!
//! The persisted shape is a compatibility surface: a phone left in a pocket
//! for three weeks must still converge with the relay, so changing anything
//! named here is a breaking change.
//!
//! ```text
//! meta        map     { schema: i64 }
//! ingredients map     IngredientId -> map
//! recipes     map     RecipeId     -> map
//! list        movable list of maps          (the single shopping list)
//! overlay     map     IngredientId -> value map  (explicit actions only)
//! users       map     UserId       -> map
//! devices     map     DeviceId     -> map
//! events      list of value maps            (append-only, capped)
//! ```
//!
//! A quantity, wherever one appears, is `{ value: "3/2", unit: "kg" }`: the
//! value is a string, never a number, because the document offers no exact
//! numeric type and a rounding step between two devices that must agree is
//! not acceptable.

use vstd::prelude::*;

verus! {

/// Bumped whenever the layout changes in a way an older build cannot read.
/// Written into `meta` on creation and checked on load.
pub const SCHEMA_VERSION: i64 = 1;

/// The root holding the schema marker.
pub const META: &'static str = "meta";

/// Ingredients by id.
pub const INGREDIENTS: &'static str = "ingredients";

/// Recipes by id.
pub const RECIPES: &'static str = "recipes";

/// The single shopping list.
pub const LIST: &'static str = "list";

/// Explicit check actions by ingredient id.
pub const OVERLAY: &'static str = "overlay";

/// Users by id.
pub const USERS: &'static str = "users";

/// Devices by id.
pub const DEVICES: &'static str = "devices";

/// The capped event log.
pub const EVENTS: &'static str = "events";

/// The schema marker inside `meta`.
pub const SCHEMA: &'static str = "schema";

/// A quantity's exact value, as `"numerator/denominator"`.
pub const VALUE: &'static str = "value";

/// A quantity's unit tag.
pub const UNIT: &'static str = "unit";

/// The name of an ingredient, recipe, user or device.
pub const NAME: &'static str = "name";

/// An ingredient's other names.
pub const ALIASES: &'static str = "aliases";

/// An ingredient's aisle tag.
pub const AISLE: &'static str = "aisle";

/// Whether an ingredient is a staple.
pub const STAPLE: &'static str = "staple";

/// An ingredient's density, in g/ml.
pub const DENSITY: &'static str = "density";

/// An ingredient's weight per piece, in g.
pub const UNIT_WEIGHT: &'static str = "unit_weight";

/// A serving count.
pub const SERVINGS: &'static str = "servings";

/// What a recipe yields, as a quantity.
pub const YIELDS: &'static str = "yields";

/// A recipe's lines.
pub const COMPONENTS: &'static str = "components";

/// A recipe's steps.
pub const STEPS: &'static str = "steps";

/// Which form a line, segment or list entry takes.
pub const KIND: &'static str = "kind";

/// The id of a line or list entry.
pub const ID: &'static str = "id";

/// An ingredient reference; also the kind of an ingredient line, segment, entry or subject.
pub const INGREDIENT: &'static str = "ingredient";

/// A quantity, as a map.
pub const QUANTITY: &'static str = "quantity";

/// A recipe reference; also the kind of a recipe entry or subject.
pub const RECIPE: &'static str = "recipe";

/// The kind of a sub-recipe line.
pub const SUB_RECIPE: &'static str = "sub_recipe";

/// A sub-recipe taken as a multiple of itself.
pub const FACTOR: &'static str = "factor";

/// A sub-recipe taken as an amount of what it yields.
pub const OF_YIELD: &'static str = "of_yield";

/// A step's segments.
pub const SEGMENTS: &'static str = "segments";

/// A run of text; also the kind of a text segment.
pub const TEXT: &'static str = "text";

/// The usage a segment refers to.
pub const USAGE: &'static str = "usage";

/// How a reference renders.
pub const DISPLAY: &'static str = "display";

/// Who added a list entry.
pub const ADDED_BY: &'static str = "added_by";

/// When a list entry was added.
pub const ADDED_AT: &'static str = "added_at";

/// An explicit action's state.
pub const STATE: &'static str = "state";

/// The checked state.
pub const CHECKED: &'static str = "checked";

/// The unchecked state, stored rather than absent.
pub const UNCHECKED: &'static str = "unchecked";

/// Who acted.
pub const BY: &'static str = "by";

/// When they acted.
pub const AT: &'static str = "at";

/// A device's owner.
pub const OWNER: &'static str = "owner";

/// When a device joined.
pub const PAIRED_AT: &'static str = "paired_at";

/// What an event did.
pub const ACTION: &'static str = "action";

/// An edit.
pub const EDITED: &'static str = "edited";

/// A deletion.
pub const DELETED: &'static str = "deleted";

/// What kind of thing an event touched.
pub const SUBJECT_KIND: &'static str = "subject_kind";

/// The kind of a list-entry subject.
pub const LIST_ENTRY: &'static str = "list_entry";

/// The id of what an event touched.
pub const SUBJECT_ID: &'static str = "subject_id";

/// An event's label.
pub const LABEL: &'static str = "label";

/// The spelling of every key and tag above, character by character: what a
/// proof needs to tell two of them apart.
pub proof fn lemma_spellings()
    ensures
        META@.len() == 4,
        META@[0] == 'm',
        META@[1] == 'e',
        META@[2] == 't',
        META@[3] == 'a',
        INGREDIENTS@.len() == 11,
        INGREDIENTS@[0] == 'i',
        INGREDIENTS@[1] == 'n',
        INGREDIENTS@[2] == 'g',
        INGREDIENTS@[3] == 'r',
        INGREDIENTS@[4] == 'e',
        INGREDIENTS@[5] == 'd',
        INGREDIENTS@[6] == 'i',
        INGREDIENTS@[7] == 'e',
        INGREDIENTS@[8] == 'n',
        INGREDIENTS@[9] == 't',
        INGREDIENTS@[10] == 's',
        RECIPES@.len() == 7,
        RECIPES@[0] == 'r',
        RECIPES@[1] == 'e',
        RECIPES@[2] == 'c',
        RECIPES@[3] == 'i',
        RECIPES@[4] == 'p',
        RECIPES@[5] == 'e',
        RECIPES@[6] == 's',
        LIST@.len() == 4,
        LIST@[0] == 'l',
        LIST@[1] == 'i',
        LIST@[2] == 's',
        LIST@[3] == 't',
        OVERLAY@.len() == 7,
        OVERLAY@[0] == 'o',
        OVERLAY@[1] == 'v',
        OVERLAY@[2] == 'e',
        OVERLAY@[3] == 'r',
        OVERLAY@[4] == 'l',
        OVERLAY@[5] == 'a',
        OVERLAY@[6] == 'y',
        USERS@.len() == 5,
        USERS@[0] == 'u',
        USERS@[1] == 's',
        USERS@[2] == 'e',
        USERS@[3] == 'r',
        USERS@[4] == 's',
        DEVICES@.len() == 7,
        DEVICES@[0] == 'd',
        DEVICES@[1] == 'e',
        DEVICES@[2] == 'v',
        DEVICES@[3] == 'i',
        DEVICES@[4] == 'c',
        DEVICES@[5] == 'e',
        DEVICES@[6] == 's',
        EVENTS@.len() == 6,
        EVENTS@[0] == 'e',
        EVENTS@[1] == 'v',
        EVENTS@[2] == 'e',
        EVENTS@[3] == 'n',
        EVENTS@[4] == 't',
        EVENTS@[5] == 's',
        SCHEMA@.len() == 6,
        SCHEMA@[0] == 's',
        SCHEMA@[1] == 'c',
        SCHEMA@[2] == 'h',
        SCHEMA@[3] == 'e',
        SCHEMA@[4] == 'm',
        SCHEMA@[5] == 'a',
        VALUE@.len() == 5,
        VALUE@[0] == 'v',
        VALUE@[1] == 'a',
        VALUE@[2] == 'l',
        VALUE@[3] == 'u',
        VALUE@[4] == 'e',
        UNIT@.len() == 4,
        UNIT@[0] == 'u',
        UNIT@[1] == 'n',
        UNIT@[2] == 'i',
        UNIT@[3] == 't',
        NAME@.len() == 4,
        NAME@[0] == 'n',
        NAME@[1] == 'a',
        NAME@[2] == 'm',
        NAME@[3] == 'e',
        ALIASES@.len() == 7,
        ALIASES@[0] == 'a',
        ALIASES@[1] == 'l',
        ALIASES@[2] == 'i',
        ALIASES@[3] == 'a',
        ALIASES@[4] == 's',
        ALIASES@[5] == 'e',
        ALIASES@[6] == 's',
        AISLE@.len() == 5,
        AISLE@[0] == 'a',
        AISLE@[1] == 'i',
        AISLE@[2] == 's',
        AISLE@[3] == 'l',
        AISLE@[4] == 'e',
        STAPLE@.len() == 6,
        STAPLE@[0] == 's',
        STAPLE@[1] == 't',
        STAPLE@[2] == 'a',
        STAPLE@[3] == 'p',
        STAPLE@[4] == 'l',
        STAPLE@[5] == 'e',
        DENSITY@.len() == 7,
        DENSITY@[0] == 'd',
        DENSITY@[1] == 'e',
        DENSITY@[2] == 'n',
        DENSITY@[3] == 's',
        DENSITY@[4] == 'i',
        DENSITY@[5] == 't',
        DENSITY@[6] == 'y',
        UNIT_WEIGHT@.len() == 11,
        UNIT_WEIGHT@[0] == 'u',
        UNIT_WEIGHT@[1] == 'n',
        UNIT_WEIGHT@[2] == 'i',
        UNIT_WEIGHT@[3] == 't',
        UNIT_WEIGHT@[4] == '_',
        UNIT_WEIGHT@[5] == 'w',
        UNIT_WEIGHT@[6] == 'e',
        UNIT_WEIGHT@[7] == 'i',
        UNIT_WEIGHT@[8] == 'g',
        UNIT_WEIGHT@[9] == 'h',
        UNIT_WEIGHT@[10] == 't',
        SERVINGS@.len() == 8,
        SERVINGS@[0] == 's',
        SERVINGS@[1] == 'e',
        SERVINGS@[2] == 'r',
        SERVINGS@[3] == 'v',
        SERVINGS@[4] == 'i',
        SERVINGS@[5] == 'n',
        SERVINGS@[6] == 'g',
        SERVINGS@[7] == 's',
        YIELDS@.len() == 6,
        YIELDS@[0] == 'y',
        YIELDS@[1] == 'i',
        YIELDS@[2] == 'e',
        YIELDS@[3] == 'l',
        YIELDS@[4] == 'd',
        YIELDS@[5] == 's',
        COMPONENTS@.len() == 10,
        COMPONENTS@[0] == 'c',
        COMPONENTS@[1] == 'o',
        COMPONENTS@[2] == 'm',
        COMPONENTS@[3] == 'p',
        COMPONENTS@[4] == 'o',
        COMPONENTS@[5] == 'n',
        COMPONENTS@[6] == 'e',
        COMPONENTS@[7] == 'n',
        COMPONENTS@[8] == 't',
        COMPONENTS@[9] == 's',
        STEPS@.len() == 5,
        STEPS@[0] == 's',
        STEPS@[1] == 't',
        STEPS@[2] == 'e',
        STEPS@[3] == 'p',
        STEPS@[4] == 's',
        KIND@.len() == 4,
        KIND@[0] == 'k',
        KIND@[1] == 'i',
        KIND@[2] == 'n',
        KIND@[3] == 'd',
        ID@.len() == 2,
        ID@[0] == 'i',
        ID@[1] == 'd',
        INGREDIENT@.len() == 10,
        INGREDIENT@[0] == 'i',
        INGREDIENT@[1] == 'n',
        INGREDIENT@[2] == 'g',
        INGREDIENT@[3] == 'r',
        INGREDIENT@[4] == 'e',
        INGREDIENT@[5] == 'd',
        INGREDIENT@[6] == 'i',
        INGREDIENT@[7] == 'e',
        INGREDIENT@[8] == 'n',
        INGREDIENT@[9] == 't',
        QUANTITY@.len() == 8,
        QUANTITY@[0] == 'q',
        QUANTITY@[1] == 'u',
        QUANTITY@[2] == 'a',
        QUANTITY@[3] == 'n',
        QUANTITY@[4] == 't',
        QUANTITY@[5] == 'i',
        QUANTITY@[6] == 't',
        QUANTITY@[7] == 'y',
        RECIPE@.len() == 6,
        RECIPE@[0] == 'r',
        RECIPE@[1] == 'e',
        RECIPE@[2] == 'c',
        RECIPE@[3] == 'i',
        RECIPE@[4] == 'p',
        RECIPE@[5] == 'e',
        SUB_RECIPE@.len() == 10,
        SUB_RECIPE@[0] == 's',
        SUB_RECIPE@[1] == 'u',
        SUB_RECIPE@[2] == 'b',
        SUB_RECIPE@[3] == '_',
        SUB_RECIPE@[4] == 'r',
        SUB_RECIPE@[5] == 'e',
        SUB_RECIPE@[6] == 'c',
        SUB_RECIPE@[7] == 'i',
        SUB_RECIPE@[8] == 'p',
        SUB_RECIPE@[9] == 'e',
        FACTOR@.len() == 6,
        FACTOR@[0] == 'f',
        FACTOR@[1] == 'a',
        FACTOR@[2] == 'c',
        FACTOR@[3] == 't',
        FACTOR@[4] == 'o',
        FACTOR@[5] == 'r',
        OF_YIELD@.len() == 8,
        OF_YIELD@[0] == 'o',
        OF_YIELD@[1] == 'f',
        OF_YIELD@[2] == '_',
        OF_YIELD@[3] == 'y',
        OF_YIELD@[4] == 'i',
        OF_YIELD@[5] == 'e',
        OF_YIELD@[6] == 'l',
        OF_YIELD@[7] == 'd',
        SEGMENTS@.len() == 8,
        SEGMENTS@[0] == 's',
        SEGMENTS@[1] == 'e',
        SEGMENTS@[2] == 'g',
        SEGMENTS@[3] == 'm',
        SEGMENTS@[4] == 'e',
        SEGMENTS@[5] == 'n',
        SEGMENTS@[6] == 't',
        SEGMENTS@[7] == 's',
        TEXT@.len() == 4,
        TEXT@[0] == 't',
        TEXT@[1] == 'e',
        TEXT@[2] == 'x',
        TEXT@[3] == 't',
        USAGE@.len() == 5,
        USAGE@[0] == 'u',
        USAGE@[1] == 's',
        USAGE@[2] == 'a',
        USAGE@[3] == 'g',
        USAGE@[4] == 'e',
        DISPLAY@.len() == 7,
        DISPLAY@[0] == 'd',
        DISPLAY@[1] == 'i',
        DISPLAY@[2] == 's',
        DISPLAY@[3] == 'p',
        DISPLAY@[4] == 'l',
        DISPLAY@[5] == 'a',
        DISPLAY@[6] == 'y',
        ADDED_BY@.len() == 8,
        ADDED_BY@[0] == 'a',
        ADDED_BY@[1] == 'd',
        ADDED_BY@[2] == 'd',
        ADDED_BY@[3] == 'e',
        ADDED_BY@[4] == 'd',
        ADDED_BY@[5] == '_',
        ADDED_BY@[6] == 'b',
        ADDED_BY@[7] == 'y',
        ADDED_AT@.len() == 8,
        ADDED_AT@[0] == 'a',
        ADDED_AT@[1] == 'd',
        ADDED_AT@[2] == 'd',
        ADDED_AT@[3] == 'e',
        ADDED_AT@[4] == 'd',
        ADDED_AT@[5] == '_',
        ADDED_AT@[6] == 'a',
        ADDED_AT@[7] == 't',
        STATE@.len() == 5,
        STATE@[0] == 's',
        STATE@[1] == 't',
        STATE@[2] == 'a',
        STATE@[3] == 't',
        STATE@[4] == 'e',
        CHECKED@.len() == 7,
        CHECKED@[0] == 'c',
        CHECKED@[1] == 'h',
        CHECKED@[2] == 'e',
        CHECKED@[3] == 'c',
        CHECKED@[4] == 'k',
        CHECKED@[5] == 'e',
        CHECKED@[6] == 'd',
        UNCHECKED@.len() == 9,
        UNCHECKED@[0] == 'u',
        UNCHECKED@[1] == 'n',
        UNCHECKED@[2] == 'c',
        UNCHECKED@[3] == 'h',
        UNCHECKED@[4] == 'e',
        UNCHECKED@[5] == 'c',
        UNCHECKED@[6] == 'k',
        UNCHECKED@[7] == 'e',
        UNCHECKED@[8] == 'd',
        BY@.len() == 2,
        BY@[0] == 'b',
        BY@[1] == 'y',
        AT@.len() == 2,
        AT@[0] == 'a',
        AT@[1] == 't',
        OWNER@.len() == 5,
        OWNER@[0] == 'o',
        OWNER@[1] == 'w',
        OWNER@[2] == 'n',
        OWNER@[3] == 'e',
        OWNER@[4] == 'r',
        PAIRED_AT@.len() == 9,
        PAIRED_AT@[0] == 'p',
        PAIRED_AT@[1] == 'a',
        PAIRED_AT@[2] == 'i',
        PAIRED_AT@[3] == 'r',
        PAIRED_AT@[4] == 'e',
        PAIRED_AT@[5] == 'd',
        PAIRED_AT@[6] == '_',
        PAIRED_AT@[7] == 'a',
        PAIRED_AT@[8] == 't',
        ACTION@.len() == 6,
        ACTION@[0] == 'a',
        ACTION@[1] == 'c',
        ACTION@[2] == 't',
        ACTION@[3] == 'i',
        ACTION@[4] == 'o',
        ACTION@[5] == 'n',
        EDITED@.len() == 6,
        EDITED@[0] == 'e',
        EDITED@[1] == 'd',
        EDITED@[2] == 'i',
        EDITED@[3] == 't',
        EDITED@[4] == 'e',
        EDITED@[5] == 'd',
        DELETED@.len() == 7,
        DELETED@[0] == 'd',
        DELETED@[1] == 'e',
        DELETED@[2] == 'l',
        DELETED@[3] == 'e',
        DELETED@[4] == 't',
        DELETED@[5] == 'e',
        DELETED@[6] == 'd',
        SUBJECT_KIND@.len() == 12,
        SUBJECT_KIND@[0] == 's',
        SUBJECT_KIND@[1] == 'u',
        SUBJECT_KIND@[2] == 'b',
        SUBJECT_KIND@[3] == 'j',
        SUBJECT_KIND@[4] == 'e',
        SUBJECT_KIND@[5] == 'c',
        SUBJECT_KIND@[6] == 't',
        SUBJECT_KIND@[7] == '_',
        SUBJECT_KIND@[8] == 'k',
        SUBJECT_KIND@[9] == 'i',
        SUBJECT_KIND@[10] == 'n',
        SUBJECT_KIND@[11] == 'd',
        LIST_ENTRY@.len() == 10,
        LIST_ENTRY@[0] == 'l',
        LIST_ENTRY@[1] == 'i',
        LIST_ENTRY@[2] == 's',
        LIST_ENTRY@[3] == 't',
        LIST_ENTRY@[4] == '_',
        LIST_ENTRY@[5] == 'e',
        LIST_ENTRY@[6] == 'n',
        LIST_ENTRY@[7] == 't',
        LIST_ENTRY@[8] == 'r',
        LIST_ENTRY@[9] == 'y',
        SUBJECT_ID@.len() == 10,
        SUBJECT_ID@[0] == 's',
        SUBJECT_ID@[1] == 'u',
        SUBJECT_ID@[2] == 'b',
        SUBJECT_ID@[3] == 'j',
        SUBJECT_ID@[4] == 'e',
        SUBJECT_ID@[5] == 'c',
        SUBJECT_ID@[6] == 't',
        SUBJECT_ID@[7] == '_',
        SUBJECT_ID@[8] == 'i',
        SUBJECT_ID@[9] == 'd',
        LABEL@.len() == 5,
        LABEL@[0] == 'l',
        LABEL@[1] == 'a',
        LABEL@[2] == 'b',
        LABEL@[3] == 'e',
        LABEL@[4] == 'l',
{
    reveal_strlit("meta");
    reveal_strlit("ingredients");
    reveal_strlit("recipes");
    reveal_strlit("list");
    reveal_strlit("overlay");
    reveal_strlit("users");
    reveal_strlit("devices");
    reveal_strlit("events");
    reveal_strlit("schema");
    reveal_strlit("value");
    reveal_strlit("unit");
    reveal_strlit("name");
    reveal_strlit("aliases");
    reveal_strlit("aisle");
    reveal_strlit("staple");
    reveal_strlit("density");
    reveal_strlit("unit_weight");
    reveal_strlit("servings");
    reveal_strlit("yields");
    reveal_strlit("components");
    reveal_strlit("steps");
    reveal_strlit("kind");
    reveal_strlit("id");
    reveal_strlit("ingredient");
    reveal_strlit("quantity");
    reveal_strlit("recipe");
    reveal_strlit("sub_recipe");
    reveal_strlit("factor");
    reveal_strlit("of_yield");
    reveal_strlit("segments");
    reveal_strlit("text");
    reveal_strlit("usage");
    reveal_strlit("display");
    reveal_strlit("added_by");
    reveal_strlit("added_at");
    reveal_strlit("state");
    reveal_strlit("checked");
    reveal_strlit("unchecked");
    reveal_strlit("by");
    reveal_strlit("at");
    reveal_strlit("owner");
    reveal_strlit("paired_at");
    reveal_strlit("action");
    reveal_strlit("edited");
    reveal_strlit("deleted");
    reveal_strlit("subject_kind");
    reveal_strlit("list_entry");
    reveal_strlit("subject_id");
    reveal_strlit("label");
}

} // verus!
