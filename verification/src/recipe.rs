//! The recipe data: what a recipe file holds, and what the editor sends.
use vstd::prelude::*;

verus! {

/// The YAML frontmatter of a recipe file.
#[derive(Debug, Clone)]
pub struct RecipeFrontmatter {
    pub title: String,
    pub slug: Option<String>,
    pub manuscript: Option<String>,
    pub category: String,
    pub excerpt: Option<String>,
    pub prep_time: Option<String>,
    pub cook_time: Option<String>,
    pub servings: Option<String>,
    pub difficulty: Option<String>,
    pub ingredients: Vec<String>,
    /// Title for the second ingredient list (e.g. "Pour la pâte")
    pub ingredients2_title: Option<String>,
    /// Optional second ingredient list (items only, no title)
    pub ingredients2: Option<Vec<String>>,
    pub notes: Option<String>,
    /// Caption of the handwritten manuscript
    pub legende: Option<String>,
    /// Name (without extension) of the scanned manuscript image
    pub source_image: Option<String>,
}

/// A recipe read from its file.
#[derive(Debug, Clone)]
pub struct Recipe {
    pub filename: String,
    pub slug: String,
    pub frontmatter: RecipeFrontmatter,
    pub steps: Vec<String>,
}

/// A recipe as the editor sends it, to be written to a file.
#[derive(Debug, Clone)]
pub struct RecipeInput {
    pub title: String,
    pub slug: Option<String>,
    pub category: String,
    pub excerpt: Option<String>,
    pub prep_time: Option<String>,
    pub cook_time: Option<String>,
    pub servings: Option<String>,
    pub difficulty: Option<String>,
    pub ingredients: Vec<String>,
    /// Title for the second ingredient list (e.g. "Pour la pâte")
    pub ingredients2_title: Option<String>,
    /// Items for the second ingredient list (title NOT included)
    pub ingredients2: Option<Vec<String>>,
    pub notes: Option<String>,
    pub legende: Option<String>,
    pub source_image: Option<String>,
    pub steps: Vec<String>,
}

/// The characters of each string of `v`.
pub open spec fn views(v: Seq<String>) -> Seq<Seq<char>> {
    Seq::new(v.len(), |i: int| v[i]@)
}

} // verus!
