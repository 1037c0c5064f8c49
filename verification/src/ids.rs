//! Stable identifiers. Opaque on purpose: they are minted once and travel
//! through the replicated document, so nothing here parses or orders them by
//! meaning — only by their text, to keep every device's output identical.

use vstd::prelude::*;

use crate::text::{seq_lt, str_lt};

verus! {

/// A canonical ingredient — the aggregation key of the cart. Two spellings that
/// do not resolve to the same id never merge.
#[derive(Debug, PartialEq, Eq, PartialOrd, Ord, Hash)]
pub struct IngredientId(String);

impl View for IngredientId {
    type V = Seq<char>;

    closed spec fn view(&self) -> Seq<char> {
        self.0@
    }
}

impl Clone for IngredientId {
    fn clone(&self) -> (r: Self)
        ensures
            r == *self,
    {
        IngredientId(self.0.clone())
    }
}

impl IngredientId {
    /// Wraps an already-minted identifier.
    pub fn from_raw(raw: &str) -> (r: Self)
        ensures
            r@ == raw@,
    {
        IngredientId(raw.to_owned())
    }

    pub fn as_str(&self) -> (s: &str)
        ensures
            s@ == self@,
    {
        self.0.as_str()
    }

    /// The same identifier as `other`.
    pub fn same(&self, other: &Self) -> (b: bool)
        ensures
            b == (self@ == other@),
    {
        self.0 == other.0
    }

    /// Orders before `other`, by text.
    pub fn precedes(&self, other: &Self) -> (b: bool)
        ensures
            b == seq_lt(self@, other@),
    {
        str_lt(self.0.as_str(), other.0.as_str())
    }
}

/// A recipe. Recipes may reference other recipes as sub-recipes, forming a DAG.
#[derive(Debug, PartialEq, Eq, PartialOrd, Ord, Hash)]
pub struct RecipeId(String);

impl View for RecipeId {
    type V = Seq<char>;

    closed spec fn view(&self) -> Seq<char> {
        self.0@
    }
}

impl Clone for RecipeId {
    fn clone(&self) -> (r: Self)
        ensures
            r == *self,
    {
        RecipeId(self.0.clone())
    }
}

impl RecipeId {
    /// Wraps an already-minted identifier.
    pub fn from_raw(raw: &str) -> (r: Self)
        ensures
            r@ == raw@,
    {
        RecipeId(raw.to_owned())
    }

    pub fn as_str(&self) -> (s: &str)
        ensures
            s@ == self@,
    {
        self.0.as_str()
    }

    /// The same identifier as `other`.
    pub fn same(&self, other: &Self) -> (b: bool)
        ensures
            b == (self@ == other@),
    {
        self.0 == other.0
    }

    /// Orders before `other`, by text.
    pub fn precedes(&self, other: &Self) -> (b: bool)
        ensures
            b == seq_lt(self@, other@),
    {
        str_lt(self.0.as_str(), other.0.as_str())
    }
}

/// One line of a recipe's ingredient list. Steps reference a usage, not an
/// ingredient: a recipe may use flour twice, in different amounts.
#[derive(Debug, PartialEq, Eq, PartialOrd, Ord, Hash)]
pub struct UsageId(String);

impl View for UsageId {
    type V = Seq<char>;

    closed spec fn view(&self) -> Seq<char> {
        self.0@
    }
}

impl Clone for UsageId {
    fn clone(&self) -> (r: Self)
        ensures
            r == *self,
    {
        UsageId(self.0.clone())
    }
}

impl UsageId {
    /// Wraps an already-minted identifier.
    pub fn from_raw(raw: &str) -> (r: Self)
        ensures
            r@ == raw@,
    {
        UsageId(raw.to_owned())
    }

    pub fn as_str(&self) -> (s: &str)
        ensures
            s@ == self@,
    {
        self.0.as_str()
    }

    /// The same identifier as `other`.
    pub fn same(&self, other: &Self) -> (b: bool)
        ensures
            b == (self@ == other@),
    {
        self.0 == other.0
    }

    /// Orders before `other`, by text.
    pub fn precedes(&self, other: &Self) -> (b: bool)
        ensures
            b == seq_lt(self@, other@),
    {
        str_lt(self.0.as_str(), other.0.as_str())
    }
}

/// An entry of the shopping list — a recipe or a bare ingredient.
#[derive(Debug, PartialEq, Eq, PartialOrd, Ord, Hash)]
pub struct ListEntryId(String);

impl View for ListEntryId {
    type V = Seq<char>;

    closed spec fn view(&self) -> Seq<char> {
        self.0@
    }
}

impl Clone for ListEntryId {
    fn clone(&self) -> (r: Self)
        ensures
            r == *self,
    {
        ListEntryId(self.0.clone())
    }
}

impl ListEntryId {
    /// Wraps an already-minted identifier.
    pub fn from_raw(raw: &str) -> (r: Self)
        ensures
            r@ == raw@,
    {
        ListEntryId(raw.to_owned())
    }

    pub fn as_str(&self) -> (s: &str)
        ensures
            s@ == self@,
    {
        self.0.as_str()
    }

    /// The same identifier as `other`.
    pub fn same(&self, other: &Self) -> (b: bool)
        ensures
            b == (self@ == other@),
    {
        self.0 == other.0
    }

    /// Orders before `other`, by text.
    pub fn precedes(&self, other: &Self) -> (b: bool)
        ensures
            b == seq_lt(self@, other@),
    {
        str_lt(self.0.as_str(), other.0.as_str())
    }
}

/// A person. Attribution keyed on this is declarative, never access control.
#[derive(Debug, PartialEq, Eq, PartialOrd, Ord, Hash)]
pub struct UserId(String);

impl View for UserId {
    type V = Seq<char>;

    closed spec fn view(&self) -> Seq<char> {
        self.0@
    }
}

impl Clone for UserId {
    fn clone(&self) -> (r: Self)
        ensures
            r == *self,
    {
        UserId(self.0.clone())
    }
}

impl UserId {
    /// Wraps an already-minted identifier.
    pub fn from_raw(raw: &str) -> (r: Self)
        ensures
            r@ == raw@,
    {
        UserId(raw.to_owned())
    }

    pub fn as_str(&self) -> (s: &str)
        ensures
            s@ == self@,
    {
        self.0.as_str()
    }

    /// The same identifier as `other`.
    pub fn same(&self, other: &Self) -> (b: bool)
        ensures
            b == (self@ == other@),
    {
        self.0 == other.0
    }

    /// Orders before `other`, by text.
    pub fn precedes(&self, other: &Self) -> (b: bool)
        ensures
            b == seq_lt(self@, other@),
    {
        str_lt(self.0.as_str(), other.0.as_str())
    }
}

/// A paired device. Belongs to exactly one user.
#[derive(Debug, PartialEq, Eq, PartialOrd, Ord, Hash)]
pub struct DeviceId(String);

impl View for DeviceId {
    type V = Seq<char>;

    closed spec fn view(&self) -> Seq<char> {
        self.0@
    }
}

impl Clone for DeviceId {
    fn clone(&self) -> (r: Self)
        ensures
            r == *self,
    {
        DeviceId(self.0.clone())
    }
}

impl DeviceId {
    /// Wraps an already-minted identifier.
    pub fn from_raw(raw: &str) -> (r: Self)
        ensures
            r@ == raw@,
    {
        DeviceId(raw.to_owned())
    }

    pub fn as_str(&self) -> (s: &str)
        ensures
            s@ == self@,
    {
        self.0.as_str()
    }

    /// The same identifier as `other`.
    pub fn same(&self, other: &Self) -> (b: bool)
        ensures
            b == (self@ == other@),
    {
        self.0 == other.0
    }

    /// Orders before `other`, by text.
    pub fn precedes(&self, other: &Self) -> (b: bool)
        ensures
            b == seq_lt(self@, other@),
    {
        str_lt(self.0.as_str(), other.0.as_str())
    }
}

/// Milliseconds since the Unix epoch. Always supplied by the caller: the
/// domain reads no clock.
#[derive(Debug, Clone, Copy, PartialEq, Eq, PartialOrd, Ord, Hash, Structural)]
pub struct Timestamp(pub i64);

} // verus!
