//! Character categories, and the table that gives each character its own.

use crate::text::str_eq;
use vstd::prelude::*;

verus! {

/// A category of characters and how unknown words are made from it.
///
/// `invoke`: unknown candidates are made even where a known term starts.
/// `group`: a candidate extends over all following characters of the
/// category. `length`: how long a candidate may be without grouping.
#[derive(Debug, PartialEq)]
pub struct CharCategory {
    pub name: String,
    pub invoke: bool,
    pub group: bool,
    pub length: usize,
}

/// What a `CharCategory` holds, with its name as characters.
pub struct CharCategoryView {
    pub name: Seq<char>,
    pub invoke: bool,
    pub group: bool,
    pub length: usize,
}

impl View for CharCategory {
    type V = CharCategoryView;

    open spec fn view(&self) -> CharCategoryView {
        CharCategoryView {
            name: self.name@,
            invoke: self.invoke,
            group: self.group,
            length: self.length,
        }
    }
}

impl CharCategory {
    pub fn new(name: String, invoke: bool, group: bool, length: usize) -> (category: Self)
        ensures
            category@ == (CharCategoryView { name: name@, invoke, group, length }),
    {
        Self { name, invoke, group, length }
    }

    /// Whether two categories agree in name and in every flag.
    pub fn same_as(&self, other: &CharCategory) -> (same: bool)
        ensures
            same == (self@ == other@),
    {
        str_eq(self.name.as_str(), other.name.as_str()) && self.invoke == other.invoke
            && self.group == other.group && self.length == other.length
    }
}

impl Clone for CharCategory {
    fn clone(&self) -> (copy: Self)
        ensures
            copy@ == self@,
    {
        Self {
            name: self.name.clone(),
            invoke: self.invoke,
            group: self.group,
            length: self.length,
        }
    }
}

impl Default for CharCategory {
    fn default() -> (category: Self)
        ensures
            category@ == (CharCategoryView {
                name: Seq::empty(),
                invoke: false,
                group: false,
                length: 0,
            }),
    {
        Self { name: String::new(), invoke: false, group: false, length: 0 }
    }
}

/// The views of a list of categories, in order.
pub open spec fn category_views(list: Seq<CharCategory>) -> Seq<CharCategoryView> {
    list.map_values(|c: CharCategory| c@)
}

/// The views of the lists of a table, slot by slot.
pub open spec fn slot_views(map: Seq<Vec<CharCategory>>) -> Seq<Seq<CharCategoryView>> {
    map.map_values(|slot: Vec<CharCategory>| category_views(slot@))
}

/// The category of a character that no other category claims: not
/// invoked beside known terms, grouped, of no fixed length.
pub open spec fn default_category() -> CharCategoryView {
    CharCategoryView { name: "DEFAULT"@, invoke: false, group: true, length: 0 }
}

/// The slot of a character: its code point, or the last slot for a
/// character beyond the basic plane.
pub open spec fn slot_of(character: char) -> int {
    if (character as u32) <= 0xFFFF {
        character as u32 as int
    } else {
        0xFFFF
    }
}

/// Whether a list of categories holds one equal to `category`.
pub fn categories_contain(list: &[CharCategory], category: &CharCategory) -> (found: bool)
    ensures
        found == category_views(list@).contains(category@),
{
    let mut i: usize = 0;
    while i < list.len()
        invariant
            i <= list.len(),
            forall|k: int| 0 <= k < i ==> category_views(list@)[k] != category@,
        decreases list.len() - i,
    {
        if list[i].same_as(category) {
            assert(category_views(list@)[i as int] == category@);
            return true;
        }
        i += 1;
    }
    false
}

/// For each character, the categories it belongs to, in the order in
/// which unknown words are to be made from them.
#[derive(Debug)]
pub struct CharTable {
    map: Vec<Vec<CharCategory>>,
    fallback: Vec<CharCategory>,
}

impl CharTable {
    /// The lists of categories, slot by slot.
    pub closed spec fn slots(&self) -> Seq<Seq<CharCategoryView>> {
        slot_views(self.map@)
    }

    #[verifier::type_invariant]
    spec fn fallback_is_default(&self) -> bool {
        category_views(self.fallback@) == seq![default_category()]
    }

    /// The categories of `character`: those of its slot, and where the
    /// slot is missing or empty the default category alone.
    pub open spec fn categories(&self, character: char) -> Seq<CharCategoryView> {
        let slot = slot_of(character);
        if slot < self.slots().len() && self.slots()[slot].len() > 0 {
            self.slots()[slot]
        } else {
            seq![default_category()]
        }
    }

    /// A table over `map`.
    pub fn new(map: Vec<Vec<CharCategory>>) -> (table: Self)
        ensures
            table.slots() == slot_views(map@),
    {
        let mut fallback: Vec<CharCategory> = Vec::new();
        fallback.push(CharCategory::new("DEFAULT".to_owned(), false, true, 0));
        assert(category_views(fallback@) =~= seq![default_category()]);
        Self { map, fallback }
    }

    /// The table as lists to store, slot by slot.
    pub fn slots_ref(&self) -> (map: &Vec<Vec<CharCategory>>)
        ensures
            slot_views(map@) == self.slots(),
    {
        &self.map
    }

    pub fn lookup(&self, character: char) -> (categories: &[CharCategory])
        ensures
            category_views(categories@) == self.categories(character),
            categories@.len() > 0,
    {
        proof {
            use_type_invariant(self);
        }
        let code: u32 = character as u32;
        let index: usize = if code <= 0xFFFF {
            code as usize
        } else {
            0xFFFF
        };
        if index < self.map.len() && self.map[index].len() > 0 {
            self.map[index].as_slice()
        } else {
            self.fallback.as_slice()
        }
    }
}

} // verus!
