//! Story characters: display data and expression portraits.

use vstd::prelude::*;

use indexmap::IndexMap;

use crate::po::{lookup, new_table, table_entries, table_get};
use crate::strings::owned;

verus! {

/// A named character in the story.
#[derive(Debug)]
pub struct Character {
    /// Stable id (script name).
    pub id: String,
    /// Display name.
    pub name: String,
    /// Name color.
    pub color: String,
    /// Default portrait path.
    pub portrait: Option<String>,
    /// Expression to portrait path.
    pub expressions: IndexMap<String, String>,
}

impl Character {
    /// Create a minimal character: white name, no portraits.
    pub fn new(id: &str, name: &str) -> (c: Self)
        ensures
            c.id@ == id@,
            c.name@ == name@,
            c.color@ == "#ffffff"@,
            c.portrait is None,
            table_entries(c.expressions) == Seq::<(Seq<char>, Seq<char>)>::empty(),
    {
        Character {
            id: owned(id),
            name: owned(name),
            color: owned("#ffffff"),
            portrait: None,
            expressions: new_table(),
        }
    }

    /// Portrait for an expression: the expression's own portrait when it
    /// has one, else the default portrait.
    pub fn portrait_for(&self, expression: Option<&str>) -> (r: Option<&str>)
        ensures
            match r {
                Some(p) => match expression {
                    Some(e) => match lookup(table_entries(self.expressions), e@) {
                        Some(v) => p@ == v,
                        None => self.portrait matches Some(d) && p@ == d@,
                    },
                    None => self.portrait matches Some(d) && p@ == d@,
                },
                None => self.portrait is None && match expression {
                    Some(e) => lookup(table_entries(self.expressions), e@) is None,
                    None => true,
                },
            },
    {
        if let Some(expr) = expression {
            if let Some(p) = table_get(&self.expressions, expr) {
                return Some(p.as_str());
            }
        }
        match &self.portrait {
            Some(d) => Some(d.as_str()),
            None => None,
        }
    }
}

} // verus!
