//! Quiz questions and the categories they belong to.

use vstd::prelude::*;

verus! {

broadcast use vstd::string::to_string_from_display_ensures_for_str;

/// The category of a question. The database stores it under the name that
/// `Category::to_string` gives.
#[derive(Clone, Copy, Debug, PartialEq, Eq, Structural)]
pub enum Category {
    Informatique,
    Sciences,
    Histoire,
    Geographie,
    Classique,
    Moderne,
    Generale,
    Internet,
    Sport,
}

/// The name under which a category is stored: the variant's own name.
pub open spec fn category_name(category: Category) -> Seq<char> {
    match category {
        Category::Informatique => "Informatique"@,
        Category::Sciences => "Sciences"@,
        Category::Histoire => "Histoire"@,
        Category::Geographie => "Geographie"@,
        Category::Classique => "Classique"@,
        Category::Moderne => "Moderne"@,
        Category::Generale => "Generale"@,
        Category::Internet => "Internet"@,
        Category::Sport => "Sport"@,
    }
}

impl Category {
    /// The category's name, as the database knows it.
    pub fn to_string(&self) -> (name: String)
        ensures
            name@ == category_name(*self),
    {
        match self {
            Category::Informatique => "Informatique".to_string(),
            Category::Sciences => "Sciences".to_string(),
            Category::Histoire => "Histoire".to_string(),
            Category::Geographie => "Geographie".to_string(),
            Category::Classique => "Classique".to_string(),
            Category::Moderne => "Moderne".to_string(),
            Category::Generale => "Generale".to_string(),
            Category::Internet => "Internet".to_string(),
            Category::Sport => "Sport".to_string(),
        }
    }
}

/// A quiz question as the database stores it.
#[derive(Debug)]
pub struct Question {
    pub id: i32,
    pub question: String,
    pub answer: String,
    pub category: Category,
    pub notes: Option<String>,
    pub is_public: bool,
}

/// Distinct categories have distinct names, so a stored name gives back its
/// category.
pub proof fn lemma_category_names_distinct(a: Category, b: Category)
    requires
        a != b,
    ensures
        category_name(a) != category_name(b),
{
    reveal_strlit("Informatique");
    reveal_strlit("Sciences");
    reveal_strlit("Histoire");
    reveal_strlit("Geographie");
    reveal_strlit("Classique");
    reveal_strlit("Moderne");
    reveal_strlit("Generale");
    reveal_strlit("Internet");
    reveal_strlit("Sport");
    assert(category_name(a)[0] != category_name(b)[0] || category_name(a).len()
        != category_name(b).len() || category_name(a)[1] != category_name(b)[1]);
}

} // verus!
