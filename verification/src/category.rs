//! Memory categories and how their names are read.
use vstd::prelude::*;

use crate::text::{normalize, normalized, spells, string_of};

verus! {

/// The category a memory entry is filed under.
#[derive(Debug, Clone, PartialEq, Eq)]
pub enum MemoryCategory {
    Core,
    Daily,
    Conversation,
    Custom(String),
}

/// A category with its custom name as characters.
pub enum CategoryName {
    Core,
    Daily,
    Conversation,
    Custom(Seq<char>),
}

impl View for MemoryCategory {
    type V = CategoryName;

    open spec fn view(&self) -> CategoryName {
        match self {
            MemoryCategory::Core => CategoryName::Core,
            MemoryCategory::Daily => CategoryName::Daily,
            MemoryCategory::Conversation => CategoryName::Conversation,
            MemoryCategory::Custom(name) => CategoryName::Custom(name@),
        }
    }
}

/// The category that an already normalised name denotes.
pub open spec fn category_named(name: Seq<char>) -> CategoryName {
    if name == "core"@ {
        CategoryName::Core
    } else if name == "daily"@ {
        CategoryName::Daily
    } else if name == "conversation"@ {
        CategoryName::Conversation
    } else {
        CategoryName::Custom(name)
    }
}

/// Reads a category name, ignoring surrounding whitespace and ASCII case;
/// a name that is none of the built-in ones becomes a custom category with
/// the normalised name.
pub fn parse_category(cat: &str) -> (c: MemoryCategory)
    ensures
        c@ == category_named(normalized(cat@)),
{
    let n = normalize(cat);
    if spells(&n, "core") {
        MemoryCategory::Core
    } else if spells(&n, "daily") {
        MemoryCategory::Daily
    } else if spells(&n, "conversation") {
        MemoryCategory::Conversation
    } else {
        MemoryCategory::Custom(string_of(&n))
    }
}

/// An optional category filter: absent stays absent, a name is read as by
/// `parse_category`.
pub fn parse_category_filter(cat: &Option<String>) -> (c: Option<MemoryCategory>)
    ensures
        match cat {
            None => c is None,
            Some(name) => c matches Some(k) && k@ == category_named(normalized(name@)),
        },
{
    match cat {
        None => None,
        Some(name) => Some(parse_category(name.as_str())),
    }
}

/// How a category is written: the built-in ones by their lower-case name, a
/// custom one by its own name.
pub open spec fn category_text(c: CategoryName) -> Seq<char> {
    match c {
        CategoryName::Core => "core"@,
        CategoryName::Daily => "daily"@,
        CategoryName::Conversation => "conversation"@,
        CategoryName::Custom(name) => name,
    }
}

/// How a category is written.
pub fn category_label(c: &MemoryCategory) -> (s: String)
    ensures
        s@ == category_text(c@),
{
    match c {
        MemoryCategory::Core => String::from_str("core"),
        MemoryCategory::Daily => String::from_str("daily"),
        MemoryCategory::Conversation => String::from_str("conversation"),
        MemoryCategory::Custom(name) => name.clone(),
    }
}

} // verus!
