//! The cookbook's data: ingredients, recipes, the pantry and knowledge-base
//! entries, and the errors that the library reports.

use vstd::prelude::*;

verus! {

/// A quantity, held as the bit pattern of the IEEE-754 double that the data
/// files store (`f64::to_bits`). The library never computes with it; it only
/// stores it and asks whether it exceeds one.
#[derive(Clone, Copy, Debug, PartialEq, Eq, Structural)]
pub struct Quantity {
    pub bits: u64,
}

/// Bit pattern of the double `1.0`.
pub const ONE_BITS: u64 = 0x3FF0_0000_0000_0000;

/// Bit pattern of the double `+infinity`.
pub const INFINITY_BITS: u64 = 0x7FF0_0000_0000_0000;

/// Whether the double with these bits is greater than `1.0`. For doubles with
/// a clear sign bit the order of the bit patterns is the order of the values,
/// `+infinity` is the largest such value and the patterns above it are NaN;
/// every double with the sign bit set is negative or NaN.
pub open spec fn exceeds_one(bits: u64) -> bool {
    ONE_BITS < bits <= INFINITY_BITS
}

impl Quantity {
    /// The quantity whose double has these bits.
    pub fn from_bits(bits: u64) -> (q: Quantity)
        ensures
            q.bits == bits,
    {
        Quantity { bits }
    }

    /// The bits of the double that this quantity holds.
    pub fn to_bits(&self) -> (b: u64)
        ensures
            b == self.bits,
    {
        self.bits
    }

    /// Whether the quantity is greater than one.
    pub fn is_more_than_one(&self) -> (r: bool)
        ensures
            r == exceeds_one(self.bits),
    {
        ONE_BITS < self.bits && self.bits <= INFINITY_BITS
    }
}

/// The singular and plural forms of an ingredient's name in one language.
#[derive(Clone, Debug)]
pub struct TranslationForms {
    pub one: String,
    pub other: String,
}

/// An ingredient, as stored in `ingredients/<name>.yaml`.
///
/// `translations` maps a language code to the name's forms in that language;
/// where a code occurs more than once, its first entry counts.
#[derive(Clone, Debug)]
pub struct Ingredient {
    pub name: String,
    pub slug: String,
    pub category: String,
    pub kb: Option<String>,
    pub tags: Option<Vec<String>>,
    pub translations: Option<Vec<(String, TranslationForms)>>,
}

/// One ingredient line of a recipe.
#[derive(Clone, Debug)]
pub struct RecipeIngredient {
    pub ingredient: String,
    pub quantity: Option<Quantity>,
    pub quantity_type: Option<String>,
}

/// A recipe, as stored in `recipes/<title>.md`: YAML front matter and the
/// instructions after it.
#[derive(Clone, Debug)]
pub struct Recipe {
    pub title: String,
    pub ingredients: Vec<RecipeIngredient>,
    pub prep_time: Option<u32>,
    pub downtime: Option<u32>,
    pub servings: Option<u32>,
    pub tags: Option<Vec<String>>,
    pub image: Option<String>,
    pub instructions: String,
}

/// A value that is absent counts as zero.
pub open spec fn minutes(t: Option<u32>) -> int {
    match t {
        Some(m) => m as int,
        None => 0,
    }
}

impl Recipe {
    /// The total time of the recipe: preparation time plus downtime, an absent
    /// time counting as zero.
    pub fn total_time(&self) -> (t: u32)
        requires
            minutes(self.prep_time) + minutes(self.downtime) <= u32::MAX,
        ensures
            t == minutes(self.prep_time) + minutes(self.downtime),
    {
        let p: u32 = match self.prep_time {
            Some(m) => m,
            None => 0,
        };
        let d: u32 = match self.downtime {
            Some(m) => m,
            None => 0,
        };
        p + d
    }
}

/// One entry of the pantry.
#[derive(Clone, Debug)]
pub struct PantryItem {
    pub ingredient: String,
    pub quantity: Option<Quantity>,
    pub quantity_type: String,
    pub last_updated: String,
}

/// The user's pantry, as stored in `pantry.yaml`.
#[derive(Debug)]
pub struct Pantry {
    pub version: u8,
    pub items: Vec<PantryItem>,
}

/// A knowledge-base article, as stored in `kb/<slug>.md`.
#[derive(Debug)]
pub struct KnowledgeBaseEntry {
    pub slug: String,
    pub title: String,
    pub image: Option<String>,
    pub content: String,
}

/// What can go wrong while reading, writing or changing cookbook data.
#[derive(Debug)]
pub enum CookbookError {
    ReadError(String),
    ParseError(String),
    MarkdownError(String),
    DataDirError(String),
    ListDirError(String),
    WriteError(String),
    UpdateError(String),
}

/// The text that an error shows: a fixed prefix per kind, then its detail.
pub open spec fn error_message(e: CookbookError) -> Seq<char> {
    match e {
        CookbookError::ReadError(d) => "Failed to read file: "@ + d@,
        CookbookError::ParseError(d) => "Failed to parse YAML: "@ + d@,
        CookbookError::MarkdownError(d) => "Failed to parse Markdown: "@ + d@,
        CookbookError::DataDirError(d) => "Data directory not found: "@ + d@,
        CookbookError::ListDirError(d) => "Failed to list directory: "@ + d@,
        CookbookError::WriteError(d) => "Failed to write file: "@ + d@,
        CookbookError::UpdateError(d) => "Failed to update ingredient: "@ + d@,
    }
}

/// `prefix` followed by `rest`.
pub fn prefixed(prefix: &str, rest: &str) -> (s: String)
    ensures
        s@ == prefix@ + rest@,
{
    let mut s = String::from_str(prefix);
    s.append(rest);
    s
}

impl CookbookError {
    /// The text of the error, as the application shows it.
    pub fn message(&self) -> (s: String)
        ensures
            s@ == error_message(*self),
    {
        match self {
            CookbookError::ReadError(d) => prefixed("Failed to read file: ", d.as_str()),
            CookbookError::ParseError(d) => prefixed("Failed to parse YAML: ", d.as_str()),
            CookbookError::MarkdownError(d) => prefixed("Failed to parse Markdown: ", d.as_str()),
            CookbookError::DataDirError(d) => prefixed("Data directory not found: ", d.as_str()),
            CookbookError::ListDirError(d) => prefixed("Failed to list directory: ", d.as_str()),
            CookbookError::WriteError(d) => prefixed("Failed to write file: ", d.as_str()),
            CookbookError::UpdateError(d) => prefixed("Failed to update ingredient: ", d.as_str()),
        }
    }
}

/// The forms of the first translation entry for `lang`.
pub open spec fn lookup_translation(ts: Seq<(String, TranslationForms)>, lang: Seq<char>) -> Option<
    TranslationForms,
>
    decreases ts.len(),
{
    if ts.len() == 0 {
        None
    } else if ts[0].0@ == lang {
        Some(ts[0].1)
    } else {
        lookup_translation(ts.drop_first(), lang)
    }
}

/// The forms of an ingredient's name in `lang`, if it has a translation there.
pub open spec fn translation_of(ing: Ingredient, lang: Seq<char>) -> Option<TranslationForms> {
    match ing.translations {
        Some(ts) => lookup_translation(ts@, lang),
        None => None,
    }
}

/// How an ingredient is shown in `lang` for a quantity: the plural form when
/// the quantity is more than one, else the singular form; the plain name when
/// there is no translation for `lang`.
pub open spec fn display_name(ing: Ingredient, lang: Seq<char>, quantity: Option<Quantity>) -> Seq<
    char,
> {
    match translation_of(ing, lang) {
        Some(forms) => match quantity {
            Some(q) => if exceeds_one(q.bits) {
                forms.other@
            } else {
                forms.one@
            },
            None => forms.one@,
        },
        None => ing.name@,
    }
}

impl Ingredient {
    /// The forms of this ingredient's name in `lang`.
    pub fn translation(&self, lang: &str) -> (r: Option<&TranslationForms>)
        ensures
            match r {
                Some(f) => translation_of(*self, lang@) == Some(*f),
                None => translation_of(*self, lang@) is None,
            },
    {
        match &self.translations {
            None => None,
            Some(ts) => {
                let mut i: usize = 0;
                assert(ts@.subrange(0, ts@.len() as int) =~= ts@);
                while i < ts.len()
                    invariant
                        self.translations == Some(*ts),
                        i <= ts@.len(),
                        lookup_translation(ts@, lang@) == lookup_translation(
                            ts@.subrange(i as int, ts@.len() as int),
                            lang@,
                        ),
                    decreases ts@.len() - i,
                {
                    let ghost rest = ts@.subrange(i as int, ts@.len() as int);
                    assert(rest.drop_first() =~= ts@.subrange(i + 1, ts@.len() as int));
                    if crate::text::same_text(ts[i].0.as_str(), lang) {
                        return Some(&ts[i].1);
                    }
                    i = i + 1;
                }
                None
            },
        }
    }
}

} // verus!
