//! The in-memory cookbook: lookups, filters, searches and updates.

use vstd::prelude::*;
use crate::model::{
    prefixed, CookbookError,
    display_name, translation_of, Ingredient, KnowledgeBaseEntry, Pantry, PantryItem, Quantity, Recipe,
    RecipeIngredient,
};
use crate::text::{
    chars_of, contains_chars, contains_text, lowercase, occurs_at, same_text, to_lower, trim, trim_str,
};
use crate::sorting::{insert_by_name, insert_sorted_unique, names, strictly_sorted, views};

verus! {

/// Whether some ingredient of `s` has this name.
pub open spec fn has_ingredient(s: Seq<Ingredient>, name: Seq<char>) -> bool {
    exists|i: int| 0 <= i < s.len() && (#[trigger] s[i]).name@ == name
}

/// Whether the pantry lists this ingredient.
pub open spec fn pantry_lists(p: Option<Pantry>, name: Seq<char>) -> bool {
    match p {
        Some(p) => exists|i: int| 0 <= i < p.items@.len() && (#[trigger] p.items@[i]).ingredient@ == name,
        None => false,
    }
}

/// `i` is the first position in `items` that holds this ingredient.
pub open spec fn first_item_at(items: Seq<PantryItem>, name: Seq<char>, i: int) -> bool {
    &&& 0 <= i < items.len()
    &&& items[i].ingredient@ == name
    &&& forall|j: int| 0 <= j < i ==> (#[trigger] items[j]).ingredient@ != name
}

/// `i` is the first position in `recipes` that holds a recipe with this title.
pub open spec fn first_recipe_at(recipes: Seq<Recipe>, title: Seq<char>, i: int) -> bool {
    &&& 0 <= i < recipes.len()
    &&& recipes[i].title@ == title
    &&& forall|j: int| 0 <= j < i ==> (#[trigger] recipes[j]).title@ != title
}

/// Whether some recipe of `s` has this title.
pub open spec fn has_recipe(s: Seq<Recipe>, title: Seq<char>) -> bool {
    exists|i: int| 0 <= i < s.len() && (#[trigger] s[i]).title@ == title
}

/// Whether some knowledge-base entry of `s` has this slug.
pub open spec fn has_kb_entry(s: Seq<KnowledgeBaseEntry>, slug: Seq<char>) -> bool {
    exists|i: int| 0 <= i < s.len() && (#[trigger] s[i]).slug@ == slug
}

/// Whether a recipe lists this ingredient.
pub open spec fn recipe_uses(r: Recipe, name: Seq<char>) -> bool {
    exists|i: int| 0 <= i < r.ingredients@.len() && (#[trigger] r.ingredients@[i]).ingredient@ == name
}

/// Whether an ingredient matches a (lower-cased) search text: its name
/// contains the text once lower-cased.
pub open spec fn matches_search(ing: Ingredient, needle: Seq<char>) -> bool {
    contains_text(lowercase(ing.name@), needle)
}

/// Whether one of `categories` is this text.
pub open spec fn lists_text(categories: Seq<String>, t: Seq<char>) -> bool {
    exists|k: int| 0 <= k < categories.len() && (#[trigger] categories[k])@ == t
}

/// Whether an ingredient passes the pantry filters: the search text (empty:
/// anything) against its name, the categories (none: any) and the in-stock
/// switch. The language does not take part in the match.
pub open spec fn passes_filter(
    ing: Ingredient,
    search: Seq<char>,
    categories: Seq<String>,
    in_stock_only: bool,
    lang: Seq<char>,
    pantry: Option<Pantry>,
) -> bool {
    &&& (search.len() == 0 || matches_search(ing, lowercase(search)))
    &&& (categories.len() == 0 || lists_text(categories, ing.category@))
    &&& (!in_stock_only || pantry_lists(pantry, ing.name@))
}

/// Whether a recipe matches a (lower-cased) query: in its title, an ingredient,
/// its instructions or a tag, each lower-cased.
pub open spec fn recipe_matches(r: Recipe, q: Seq<char>) -> bool {
    ||| contains_text(lowercase(r.title@), q)
    ||| exists|i: int|
        0 <= i < r.ingredients@.len() && contains_text(
            lowercase((#[trigger] r.ingredients@[i]).ingredient@),
            q,
        )
    ||| contains_text(lowercase(r.instructions@), q)
    ||| match r.tags {
        Some(ts) => exists|i: int|
            0 <= i < ts@.len() && contains_text(lowercase((#[trigger] ts@[i])@), q),
        None => false,
    }
}

/// Whether an ingredient refers to this knowledge-base entry.
pub open spec fn refers_to_kb(ing: Ingredient, slug: Seq<char>) -> bool {
    match ing.kb {
        Some(k) => k@ == slug,
        None => false,
    }
}

/// Whether a form of the ingredient's name in `lang` is this text.
pub open spec fn translation_is(ing: Ingredient, lang: Seq<char>, t: Seq<char>) -> bool {
    match translation_of(ing, lang) {
        Some(f) => f.one@ == t || f.other@ == t,
        None => false,
    }
}

/// `i` is the first position in `s` whose ingredient satisfies `p`.
pub open spec fn first_ingredient_at(s: Seq<Ingredient>, p: spec_fn(Ingredient) -> bool, i: int) -> bool {
    &&& 0 <= i < s.len()
    &&& p(s[i])
    &&& forall|j: int| 0 <= j < i ==> !p(#[trigger] s[j])
}

/// Whether some ingredient of `s` is in this category.
pub open spec fn is_category_of(s: Seq<Ingredient>, t: Seq<char>) -> bool {
    exists|i: int| 0 <= i < s.len() && (#[trigger] s[i]).category@ == t
}

/// The category names of a grouping.
pub open spec fn group_keys<T>(g: Seq<(String, T)>) -> Seq<Seq<char>> {
    g.map_values(|e: (String, T)| e.0@)
}

/// `item` is what the pantry holds for this ingredient: its first item, or
/// nothing when the pantry does not list it.
pub open spec fn is_pantry_item_for(p: Option<Pantry>, name: Seq<char>, item: Option<&PantryItem>) -> bool {
    match item {
        Some(x) => p is Some && exists|i: int|
            first_item_at(p.unwrap().items@, name, i) && *x == p.unwrap().items@[i],
        None => !pantry_lists(p, name),
    }
}

/// Whether a recipe line is for exactly this ingredient.
pub open spec fn line_names(name: Seq<char>) -> spec_fn(RecipeIngredient) -> bool {
    |ri: RecipeIngredient| ri.ingredient@ == name
}

/// How many lines of a recipe name this ingredient.
pub open spec fn occurrences(r: Recipe, name: Seq<char>) -> nat {
    r.ingredients@.filter(line_names(name)).len()
}

/// The recipes that use an ingredient, in order, each once per line that
/// names it.
pub open spec fn usage(rs: Seq<Recipe>, name: Seq<char>) -> Seq<Recipe>
    decreases rs.len(),
{
    if rs.len() == 0 {
        Seq::empty()
    } else {
        usage(rs.drop_last(), name) + Seq::new(occurrences(rs.last(), name), |_i: int| rs.last())
    }
}

/// The ingredients after adding `ing` the way a map adds a keyed value: it
/// replaces the ingredient with its name, or else comes last.
pub open spec fn with_ingredient(s: Seq<Ingredient>, ing: Ingredient) -> Seq<Ingredient> {
    if has_ingredient(s, ing.name@) {
        let i = choose|i: int| 0 <= i < s.len() && (#[trigger] s[i]).name@ == ing.name@;
        s.update(i, ing)
    } else {
        s.push(ing)
    }
}

/// The entries after adding `e` keyed by its slug.
pub open spec fn with_kb_entry(s: Seq<KnowledgeBaseEntry>, e: KnowledgeBaseEntry) -> Seq<
    KnowledgeBaseEntry,
> {
    if has_kb_entry(s, e.slug@) {
        let i = choose|i: int| 0 <= i < s.len() && (#[trigger] s[i]).slug@ == e.slug@;
        s.update(i, e)
    } else {
        s.push(e)
    }
}

/// `item` records this ingredient with these values.
pub open spec fn item_holds(
    item: PantryItem,
    name: Seq<char>,
    quantity: Option<Quantity>,
    quantity_type: Seq<char>,
    today: Seq<char>,
) -> bool {
    &&& item.ingredient@ == name
    &&& item.quantity == quantity
    &&& item.quantity_type@ == quantity_type
    &&& item.last_updated@ == today
}

/// `after` is `before` with this ingredient's first item set to these values,
/// or with a new item for it at the end when there was none.
pub open spec fn items_updated(
    before: Seq<PantryItem>,
    after: Seq<PantryItem>,
    name: Seq<char>,
    quantity: Option<Quantity>,
    quantity_type: Seq<char>,
    today: Seq<char>,
) -> bool {
    if exists|i: int| first_item_at(before, name, i) {
        let i = choose|i: int| first_item_at(before, name, i);
        &&& after.len() == before.len()
        &&& forall|j: int| 0 <= j < after.len() && j != i ==> after[j] == before[j]
        &&& item_holds(after[i], name, quantity, quantity_type, today)
    } else {
        &&& after.len() == before.len() + 1
        &&& after.drop_last() == before
        &&& item_holds(after.last(), name, quantity, quantity_type, today)
    }
}

/// The text of an absent unit: empty.
pub open spec fn unit_text(t: Option<String>) -> Seq<char> {
    match t {
        Some(s) => s@,
        None => Seq::empty(),
    }
}

/// The items that are not for this ingredient.
pub open spec fn items_without(items: Seq<PantryItem>, name: Seq<char>) -> Seq<PantryItem> {
    items.filter(|x: PantryItem| x.ingredient@ != name)
}

/// `e` is an update error with this text.
pub open spec fn is_update_error(e: CookbookError, text: Seq<char>) -> bool {
    e matches CookbookError::UpdateError(m) && m@ == text
}

/// `r` is an update error with this text.
pub open spec fn update_failed<T>(r: Result<T, CookbookError>, text: Seq<char>) -> bool {
    match r {
        Err(e) => is_update_error(e, text),
        Ok(_) => false,
    }
}

/// The ingredients without the one with this name.
pub open spec fn without_ingredient(s: Seq<Ingredient>, name: Seq<char>) -> Seq<Ingredient> {
    if has_ingredient(s, name) {
        let i = choose|i: int| 0 <= i < s.len() && (#[trigger] s[i]).name@ == name;
        s.remove(i)
    } else {
        s
    }
}

/// The item with its ingredient renamed when it is `from`.
pub open spec fn renamed_item(x: PantryItem, from: Seq<char>, to: String) -> PantryItem {
    if x.ingredient@ == from {
        PantryItem {
            ingredient: to,
            quantity: x.quantity,
            quantity_type: x.quantity_type,
            last_updated: x.last_updated,
        }
    } else {
        x
    }
}

/// The items with every reference to ingredient `from` renamed to `to`.
pub open spec fn renamed_items(items: Seq<PantryItem>, from: Seq<char>, to: String) -> Seq<
    PantryItem,
> {
    items.map_values(|x: PantryItem| renamed_item(x, from, to))
}

/// The recipes without those with this title.
pub open spec fn recipes_without(s: Seq<Recipe>, title: Seq<char>) -> Seq<Recipe> {
    s.filter(not_titled(title))
}

/// Whether a recipe's title is another one than `title`.
pub open spec fn not_titled(title: Seq<char>) -> spec_fn(Recipe) -> bool {
    |x: Recipe| x.title@ != title
}

/// The values behind a sequence of references.
pub open spec fn derefs<T>(s: Seq<&T>) -> Seq<T> {
    s.map_values(|x: &T| *x)
}

/// Pushing a reference pushes the value behind it.
pub proof fn lemma_derefs_push<T>(s: Seq<&T>, x: &T)
    ensures
        derefs(s.push(x)) == derefs(s).push(*x),
{
    assert(derefs(s.push(x)) =~= derefs(s).push(*x));
}

/// The value behind an optional reference.
pub open spec fn deref_opt<T>(o: Option<&T>) -> Option<T> {
    match o {
        Some(x) => Some(*x),
        None => None,
    }
}

/// `r` is what a search by name, slug or translation finds among `s`: the
/// ingredient with the name `query`; else the first one whose slug is
/// `query`; else the first one with a form in `lang` that is `query`; else
/// nothing.
pub open spec fn finds_ingredient(
    s: Seq<Ingredient>,
    query: Seq<char>,
    lang: Seq<char>,
    r: Option<Ingredient>,
) -> bool {
    &&& has_ingredient(s, query) ==> r is Some && r.unwrap().name@ == query && s.contains(
        r.unwrap(),
    )
    &&& !has_ingredient(s, query) ==> match r {
        Some(x) => exists|i: int|
            x == s[i] && (first_ingredient_at(s, |y: Ingredient| y.slug@ == query, i) || ((forall|
                j: int,
            | 0 <= j < s.len() ==> (#[trigger] s[j]).slug@ != query) && first_ingredient_at(
                s,
                |y: Ingredient| translation_is(y, lang, query),
                i,
            ))),
        None => forall|j: int|
            0 <= j < s.len() ==> (#[trigger] s[j]).slug@ != query && !translation_is(
                s[j],
                lang,
                query,
            ),
    }
}

/// `r` is a knowledge-base entry for the ingredient with this name: one whose
/// slug the ingredient refers to; none when the ingredient refers to no entry
/// that exists.
pub open spec fn kb_entry_for(dm: DataManager, name: Seq<char>, r: Option<KnowledgeBaseEntry>) -> bool {
    match r {
        Some(e) => exists|i: int, k: int|
            0 <= i < dm.ingredient_seq().len() && dm.ingredient_seq()[i].name@ == name && 0 <= k
                < dm.kb_seq().len() && e == dm.kb_seq()[k] && refers_to_kb(
                dm.ingredient_seq()[i],
                e.slug@,
            ),
        None => forall|i: int|
            0 <= i < dm.ingredient_seq().len() && (#[trigger] dm.ingredient_seq()[i]).name@ == name
                ==> match dm.ingredient_seq()[i].kb {
                Some(s) => !has_kb_entry(dm.kb_seq(), s@),
                None => true,
            },
    }
}

/// Whether the first recipe with this title exists and the pantry lists
/// every ingredient of it.
pub open spec fn all_in_pantry(dm: DataManager, title: Seq<char>) -> bool {
    exists|i: int|
        first_recipe_at(dm.recipe_seq(), title, i) && forall|j: int|
            0 <= j < dm.recipe_seq()[i].ingredients@.len() ==> pantry_lists(
                dm.pantry_state(),
                (#[trigger] dm.recipe_seq()[i].ingredients@[j]).ingredient@,
            )
}

/// The cookbook's data, loaded from one data directory.
///
/// Ingredients are keyed by name and knowledge-base entries by slug: no two
/// share a key. Recipes keep the order in which they were added.
#[derive(Debug)]
pub struct DataManager {
    data_dir: String,
    ingredients: Vec<Ingredient>,
    recipes: Vec<Recipe>,
    pantry: Option<Pantry>,
    kb_entries: Vec<KnowledgeBaseEntry>,
}

impl DataManager {
    /// The data directory.
    pub closed spec fn dir(&self) -> Seq<char> {
        self.data_dir@
    }

    /// The ingredients.
    pub closed spec fn ingredient_seq(&self) -> Seq<Ingredient> {
        self.ingredients@
    }

    /// The recipes.
    pub closed spec fn recipe_seq(&self) -> Seq<Recipe> {
        self.recipes@
    }

    /// The pantry, if one was loaded.
    pub closed spec fn pantry_state(&self) -> Option<Pantry> {
        self.pantry
    }

    /// The knowledge-base entries.
    pub closed spec fn kb_seq(&self) -> Seq<KnowledgeBaseEntry> {
        self.kb_entries@
    }

    /// No two ingredients share a name and no two entries share a slug.
    pub open spec fn wf(&self) -> bool {
        &&& forall|i: int, j: int|
            0 <= i < j < self.ingredient_seq().len() ==> (#[trigger] self.ingredient_seq()[i]).name@
                != (#[trigger] self.ingredient_seq()[j]).name@
        &&& forall|i: int, j: int|
            0 <= i < j < self.kb_seq().len() ==> (#[trigger] self.kb_seq()[i]).slug@ != (
            #[trigger] self.kb_seq()[j]).slug@
    }

    /// An empty cookbook for this data directory.
    pub fn empty(data_dir: String) -> (m: DataManager)
        ensures
            m.wf(),
            m.dir() == data_dir@,
            m.ingredient_seq().len() == 0,
            m.recipe_seq().len() == 0,
            m.pantry_state() is None,
            m.kb_seq().len() == 0,
    {
        DataManager {
            data_dir,
            ingredients: Vec::new(),
            recipes: Vec::new(),
            pantry: None,
            kb_entries: Vec::new(),
        }
    }

    /// The data directory.
    pub fn get_data_dir(&self) -> (d: &String)
        ensures
            d@ == self.dir(),
    {
        &self.data_dir
    }

    /// Position of the ingredient with this name.
    fn ingredient_index(&self, name: &str) -> (r: Option<usize>)
        ensures
            match r {
                Some(i) => i < self.ingredient_seq().len() && self.ingredient_seq()[i as int].name@
                    == name@,
                None => !has_ingredient(self.ingredient_seq(), name@),
            },
    {
        let mut i: usize = 0;
        while i < self.ingredients.len()
            invariant
                i <= self.ingredients@.len(),
                forall|j: int| 0 <= j < i ==> (#[trigger] self.ingredients@[j]).name@ != name@,
            decreases self.ingredients@.len() - i,
        {
            if same_text(self.ingredients[i].name.as_str(), name) {
                return Some(i);
            }
            i = i + 1;
        }
        None
    }

    /// Every ingredient, in the order in which they are held.
    pub fn get_all_ingredients(&self) -> (r: Vec<&Ingredient>)
        ensures
            r@.len() == self.ingredient_seq().len(),
            forall|i: int| 0 <= i < r@.len() ==> *r@[i] == self.ingredient_seq()[i],
    {
        let mut r: Vec<&Ingredient> = Vec::new();
        let mut i: usize = 0;
        while i < self.ingredients.len()
            invariant
                i <= self.ingredients@.len(),
                r@.len() == i,
                forall|j: int| 0 <= j < i ==> *r@[j] == self.ingredients@[j],
            decreases self.ingredients@.len() - i,
        {
            r.push(&self.ingredients[i]);
            i = i + 1;
        }
        r
    }

    /// The ingredient with this name.
    pub fn get_ingredient(&self, name: &str) -> (r: Option<&Ingredient>)
        requires
            self.wf(),
        ensures
            r is Some <==> has_ingredient(self.ingredient_seq(), name@),
            match r {
                Some(x) => x.name@ == name@ && exists|i: int|
                    0 <= i < self.ingredient_seq().len() && *x == self.ingredient_seq()[i],
                None => true,
            },
    {
        match self.ingredient_index(name) {
            Some(i) => Some(&self.ingredients[i]),
            None => None,
        }
    }
}

impl DataManager {
    /// Position of the first pantry item for this ingredient.
    fn pantry_index(&self, name: &str) -> (r: Option<usize>)
        ensures
            match r {
                Some(i) => self.pantry_state() is Some && first_item_at(
                    self.pantry_state().unwrap().items@,
                    name@,
                    i as int,
                ),
                None => !pantry_lists(self.pantry_state(), name@),
            },
    {
        match &self.pantry {
            None => None,
            Some(p) => {
                let mut i: usize = 0;
                while i < p.items.len()
                    invariant
                        self.pantry_state() == Some(*p),
                        i <= p.items@.len(),
                        forall|j: int| 0 <= j < i ==> (#[trigger] p.items@[j]).ingredient@ != name@,
                    decreases p.items@.len() - i,
                {
                    if same_text(p.items[i].ingredient.as_str(), name) {
                        return Some(i);
                    }
                    i = i + 1;
                }
                None
            },
        }
    }

    /// Whether the pantry lists this ingredient (no pantry: it does not).
    pub fn is_in_pantry(&self, ingredient_name: &str) -> (r: bool)
        ensures
            r == pantry_lists(self.pantry_state(), ingredient_name@),
    {
        self.pantry_index(ingredient_name).is_some()
    }

    /// The first pantry item for this ingredient.
    pub fn get_pantry_item(&self, ingredient_name: &str) -> (r: Option<&PantryItem>)
        ensures
            r is Some <==> pantry_lists(self.pantry_state(), ingredient_name@),
            match r {
                Some(x) => exists|i: int|
                    first_item_at(self.pantry_state().unwrap().items@, ingredient_name@, i) && *x
                        == self.pantry_state().unwrap().items@[i],
                None => true,
            },
    {
        match self.pantry_index(ingredient_name) {
            Some(i) => {
                match &self.pantry {
                    Some(p) => Some(&p.items[i]),
                    None => None,
                }
            },
            None => None,
        }
    }

    /// Every recipe, in order.
    pub fn get_all_recipes(&self) -> (r: &[Recipe])
        ensures
            r@ == self.recipe_seq(),
    {
        self.recipes.as_slice()
    }

    /// Position of the first recipe with this title.
    fn recipe_index(&self, title: &str) -> (r: Option<usize>)
        ensures
            match r {
                Some(i) => first_recipe_at(self.recipe_seq(), title@, i as int),
                None => !has_recipe(self.recipe_seq(), title@),
            },
    {
        let mut i: usize = 0;
        while i < self.recipes.len()
            invariant
                i <= self.recipes@.len(),
                forall|j: int| 0 <= j < i ==> (#[trigger] self.recipes@[j]).title@ != title@,
            decreases self.recipes@.len() - i,
        {
            if same_text(self.recipes[i].title.as_str(), title) {
                return Some(i);
            }
            i = i + 1;
        }
        None
    }

    /// The first recipe with this title.
    pub fn get_recipe(&self, title: &str) -> (r: Option<&Recipe>)
        ensures
            r is Some <==> has_recipe(self.recipe_seq(), title@),
            match r {
                Some(x) => exists|i: int|
                    first_recipe_at(self.recipe_seq(), title@, i) && *x == self.recipe_seq()[i],
                None => true,
            },
    {
        match self.recipe_index(title) {
            Some(i) => Some(&self.recipes[i]),
            None => None,
        }
    }

    /// The pantry, if one was loaded.
    pub fn get_pantry(&self) -> (r: Option<&Pantry>)
        ensures
            match r {
                Some(p) => self.pantry_state() == Some(*p),
                None => self.pantry_state() is None,
            },
    {
        match &self.pantry {
            Some(p) => Some(p),
            None => None,
        }
    }

    /// Position of the knowledge-base entry with this slug.
    fn kb_index(&self, slug: &str) -> (r: Option<usize>)
        ensures
            match r {
                Some(i) => i < self.kb_seq().len() && self.kb_seq()[i as int].slug@ == slug@,
                None => !has_kb_entry(self.kb_seq(), slug@),
            },
    {
        let mut i: usize = 0;
        while i < self.kb_entries.len()
            invariant
                i <= self.kb_entries@.len(),
                forall|j: int| 0 <= j < i ==> (#[trigger] self.kb_entries@[j]).slug@ != slug@,
            decreases self.kb_entries@.len() - i,
        {
            if same_text(self.kb_entries[i].slug.as_str(), slug) {
                return Some(i);
            }
            i = i + 1;
        }
        None
    }

    /// The knowledge-base entry with this slug.
    pub fn get_kb_entry(&self, slug: &str) -> (r: Option<&KnowledgeBaseEntry>)
        ensures
            r is Some <==> has_kb_entry(self.kb_seq(), slug@),
            match r {
                Some(x) => x.slug@ == slug@ && exists|i: int|
                    0 <= i < self.kb_seq().len() && *x == self.kb_seq()[i],
                None => true,
            },
    {
        match self.kb_index(slug) {
            Some(i) => Some(&self.kb_entries[i]),
            None => None,
        }
    }

    /// Every knowledge-base entry, in the order in which they are held.
    pub fn get_all_kb_entries(&self) -> (r: Vec<&KnowledgeBaseEntry>)
        ensures
            derefs(r@) == self.kb_seq(),
    {
        let mut r: Vec<&KnowledgeBaseEntry> = Vec::new();
        let mut i: usize = 0;
        while i < self.kb_entries.len()
            invariant
                i <= self.kb_entries@.len(),
                derefs(r@) =~= self.kb_entries@.take(i as int),
            decreases self.kb_entries@.len() - i,
        {
            proof {
                lemma_derefs_push(r@, &self.kb_entries@[i as int]);
            }
            r.push(&self.kb_entries[i]);
            i = i + 1;
            assert(self.kb_entries@.take(i as int) =~= self.kb_entries@.take(i - 1).push(
                self.kb_entries@[i - 1],
            ));
        }
        assert(self.kb_entries@.take(i as int) =~= self.kb_entries@);
        r
    }

    /// Whether this recipe lists this ingredient.
    fn uses_ingredient(recipe: &Recipe, name: &str) -> (r: bool)
        ensures
            r == recipe_uses(*recipe, name@),
    {
        let mut i: usize = 0;
        while i < recipe.ingredients.len()
            invariant
                i <= recipe.ingredients@.len(),
                forall|j: int| 0 <= j < i ==> (#[trigger] recipe.ingredients@[j]).ingredient@ != name@,
            decreases recipe.ingredients@.len() - i,
        {
            if same_text(recipe.ingredients[i].ingredient.as_str(), name) {
                return true;
            }
            i = i + 1;
        }
        false
    }

    /// The recipes that list this ingredient, in order.
    pub fn get_recipes_with_ingredient(&self, ingredient_name: &str) -> (r: Vec<&Recipe>)
        ensures
            derefs(r@) == self.recipe_seq().filter(|x: Recipe| recipe_uses(x, ingredient_name@)),
    {
        let ghost pred = |x: Recipe| recipe_uses(x, ingredient_name@);
        let mut r: Vec<&Recipe> = Vec::new();
        let mut i: usize = 0;
        while i < self.recipes.len()
            invariant
                i <= self.recipes@.len(),
                pred == (|x: Recipe| recipe_uses(x, ingredient_name@)),
                derefs(r@) =~= self.recipes@.take(i as int).filter(pred),
            decreases self.recipes@.len() - i,
        {
            assert(self.recipes@.take(i + 1).drop_last() =~= self.recipes@.take(i as int));
            assert(self.recipes@.take(i + 1).last() == self.recipes@[i as int]);
            let ghost prev = self.recipes@.take(i as int).filter(pred);
            proof {
                reveal(Seq::filter);
            }
            if Self::uses_ingredient(&self.recipes[i], ingredient_name) {
                assert(pred(self.recipes@[i as int]));
                assert(self.recipes@.take(i + 1).filter(pred) == prev.push(self.recipes@[i as int]));
                proof {
                    lemma_derefs_push(r@, &self.recipes@[i as int]);
                }
                r.push(&self.recipes[i]);
            } else {
                assert(!pred(self.recipes@[i as int]));
                assert(self.recipes@.take(i + 1).filter(pred) == prev);
            }
            i = i + 1;
        }
        assert(self.recipes@.take(i as int) =~= self.recipes@);
        r
    }
}

/// Filtering by a predicate that every element satisfies keeps everything.
proof fn lemma_filter_all<T>(s: Seq<T>, p: spec_fn(T) -> bool)
    requires
        forall|k: int| 0 <= k < s.len() ==> p(#[trigger] s[k]),
    ensures
        s.filter(p) == s,
    decreases s.len(),
{
    reveal(Seq::filter);
    if s.len() > 0 {
        lemma_filter_all(s.drop_last(), p);
        assert(s.drop_last().push(s.last()) =~= s);
    }
}

/// Whether the lower-cased `hay` contains `needle`.
fn lower_contains(hay: &str, needle: &[char]) -> (r: bool)
    ensures
        r == contains_text(lowercase(hay@), needle@),
{
    let l = to_lower(hay);
    let c = chars_of(l.as_str());
    contains_chars(c.as_slice(), needle)
}

impl DataManager {
    /// How an ingredient is shown in `lang` for a quantity.
    pub fn ingredient_display_name(ingredient: &Ingredient, lang: &str, quantity: Option<Quantity>) -> (s:
        String)
        ensures
            s@ == display_name(*ingredient, lang@, quantity),
    {
        match ingredient.translation(lang) {
            Some(forms) => {
                let plural = match quantity {
                    Some(q) => q.is_more_than_one(),
                    None => false,
                };
                if plural {
                    forms.other.clone()
                } else {
                    forms.one.clone()
                }
            },
            None => ingredient.name.clone(),
        }
    }

    /// Whether an ingredient matches the lower-cased search text.
    fn ingredient_matches(ing: &Ingredient, needle: &[char]) -> (r: bool)
        ensures
            r == matches_search(*ing, needle@),
    {
        lower_contains(ing.name.as_str(), needle)
    }

    /// Whether one of `categories` is `t`.
    fn category_listed(categories: &[String], t: &str) -> (r: bool)
        ensures
            r == lists_text(categories@, t@),
    {
        let mut k: usize = 0;
        while k < categories.len()
            invariant
                k <= categories@.len(),
                forall|j: int| 0 <= j < k ==> (#[trigger] categories@[j])@ != t@,
            decreases categories@.len() - k,
        {
            if same_text(categories[k].as_str(), t) {
                return true;
            }
            k = k + 1;
        }
        false
    }

    /// The ingredients that pass the search text, the category filter and the
    /// in-stock switch, in the order in which they are held.
    pub fn filter_ingredients(
        &self,
        search_text: &str,
        categories: &[String],
        in_stock_only: bool,
        lang: &str,
    ) -> (r: Vec<&Ingredient>)
        ensures
            derefs(r@) == self.ingredient_seq().filter(
                |x: Ingredient|
                    passes_filter(
                        x,
                        search_text@,
                        categories@,
                        in_stock_only,
                        lang@,
                        self.pantry_state(),
                    ),
            ),
    {
        let ghost pred = |x: Ingredient|
            passes_filter(x, search_text@, categories@, in_stock_only, lang@, self.pantry_state());
        let lowered = to_lower(search_text);
        let needle = chars_of(lowered.as_str());
        let search_empty = chars_of(search_text).len() == 0;
        let mut r: Vec<&Ingredient> = Vec::new();
        let mut i: usize = 0;
        while i < self.ingredients.len()
            invariant
                i <= self.ingredients@.len(),
                pred == (|x: Ingredient|
                    passes_filter(
                        x,
                        search_text@,
                        categories@,
                        in_stock_only,
                        lang@,
                        self.pantry_state(),
                    )),
                needle@ == lowercase(search_text@),
                search_empty == (search_text@.len() == 0),
                derefs(r@) =~= self.ingredients@.take(i as int).filter(pred),
            decreases self.ingredients@.len() - i,
        {
            assert(self.ingredients@.take(i + 1).drop_last() =~= self.ingredients@.take(i as int));
            assert(self.ingredients@.take(i + 1).last() == self.ingredients@[i as int]);
            let ghost prev = self.ingredients@.take(i as int).filter(pred);
            proof {
                reveal(Seq::filter);
            }
            let ing = &self.ingredients[i];
            let ok = (search_empty || Self::ingredient_matches(ing, needle.as_slice())) && (
            categories.len() == 0 || Self::category_listed(categories, ing.category.as_str())) && (
            !in_stock_only || self.is_in_pantry(ing.name.as_str()));
            if ok {
                assert(pred(self.ingredients@[i as int]));
                assert(self.ingredients@.take(i + 1).filter(pred) == prev.push(
                    self.ingredients@[i as int],
                ));
                proof {
                    lemma_derefs_push(r@, &self.ingredients@[i as int]);
                }
                r.push(ing);
            } else {
                assert(!pred(self.ingredients@[i as int]));
                assert(self.ingredients@.take(i + 1).filter(pred) == prev);
            }
            i = i + 1;
        }
        assert(self.ingredients@.take(i as int) =~= self.ingredients@);
        r
    }
}

impl DataManager {
    /// Whether a recipe matches the lower-cased query.
    fn recipe_matches_exec(r: &Recipe, q: &[char]) -> (b: bool)
        ensures
            b == recipe_matches(*r, q@),
    {
        if lower_contains(r.title.as_str(), q) {
            return true;
        }
        let mut i: usize = 0;
        while i < r.ingredients.len()
            invariant
                i <= r.ingredients@.len(),
                forall|j: int|
                    0 <= j < i ==> !contains_text(
                        lowercase((#[trigger] r.ingredients@[j]).ingredient@),
                        q@,
                    ),
            decreases r.ingredients@.len() - i,
        {
            if lower_contains(r.ingredients[i].ingredient.as_str(), q) {
                return true;
            }
            i = i + 1;
        }
        if lower_contains(r.instructions.as_str(), q) {
            return true;
        }
        match &r.tags {
            Some(ts) => {
                let mut k: usize = 0;
                while k < ts.len()
                    invariant
                        r.tags == Some(*ts),
                        k <= ts@.len(),
                        forall|j: int|
                            0 <= j < k ==> !contains_text(lowercase((#[trigger] ts@[j])@), q@),
                    decreases ts@.len() - k,
                {
                    if lower_contains(ts[k].as_str(), q) {
                        assert(contains_text(lowercase(ts@[k as int]@), q@));
                        let ghost tv = r.tags.unwrap();
                        assert(tv@[k as int] == ts@[k as int]);
                        assert(recipe_matches(*r, q@));
                        return true;
                    }
                    k = k + 1;
                }
                false
            },
            None => false,
        }
    }

    /// The recipes whose title, ingredients, instructions or tags contain the
    /// query, compared without case, in order.
    pub fn search_recipes(&self, query: &str) -> (r: Vec<&Recipe>)
        ensures
            derefs(r@) == self.recipe_seq().filter(
                |x: Recipe| recipe_matches(x, lowercase(query@)),
            ),
            query@.len() == 0 ==> derefs(r@) == self.recipe_seq(),
    {
        let ghost pred = |x: Recipe| recipe_matches(x, lowercase(query@));
        let lowered = to_lower(query);
        assert(query@.len() == 0 ==> lowercase(query@).len() == 0);
        let q = chars_of(lowered.as_str());
        let mut r: Vec<&Recipe> = Vec::new();
        let mut i: usize = 0;
        while i < self.recipes.len()
            invariant
                i <= self.recipes@.len(),
                pred == (|x: Recipe| recipe_matches(x, lowercase(query@))),
                q@ == lowercase(query@),
                derefs(r@) =~= self.recipes@.take(i as int).filter(pred),
            decreases self.recipes@.len() - i,
        {
            assert(self.recipes@.take(i + 1).drop_last() =~= self.recipes@.take(i as int));
            assert(self.recipes@.take(i + 1).last() == self.recipes@[i as int]);
            let ghost prev = self.recipes@.take(i as int).filter(pred);
            proof {
                reveal(Seq::filter);
            }
            if Self::recipe_matches_exec(&self.recipes[i], q.as_slice()) {
                assert(self.recipes@.take(i + 1).filter(pred) == prev.push(self.recipes@[i as int]));
                proof {
                    lemma_derefs_push(r@, &self.recipes@[i as int]);
                }
                r.push(&self.recipes[i]);
            } else {
                assert(self.recipes@.take(i + 1).filter(pred) == prev);
            }
            i = i + 1;
        }
        assert(self.recipes@.take(i as int) =~= self.recipes@);
        proof {
            if query@.len() == 0 {
                assert forall|k: int| 0 <= k < self.recipes@.len() implies pred(
                    #[trigger] self.recipes@[k],
                ) by {
                    let t = lowercase(self.recipes@[k].title@);
                    assert(q@.len() == 0);
                    assert(t.subrange(0, 0) =~= q@);
                    assert(occurs_at(t, q@, 0));
                }
                lemma_filter_all(self.recipes@, pred);
            }
        }
        r
    }

    /// The knowledge-base entry that the named ingredient refers to.
    pub fn get_kb_entry_for_ingredient(&self, ingredient_name: &str) -> (r: Option<
        &KnowledgeBaseEntry,
    >)
        requires
            self.wf(),
        ensures
            kb_entry_for(*self, ingredient_name@, deref_opt(r)),
    {
        match self.ingredient_index(ingredient_name) {
            Some(i) => {
                let ing = &self.ingredients[i];
                match &ing.kb {
                    Some(slug) => self.get_kb_entry(slug.as_str()),
                    None => None,
                }
            },
            None => None,
        }
    }

    /// The ingredients that refer to this knowledge-base entry, in order.
    pub fn get_ingredients_with_kb_reference(&self, kb_slug: &str) -> (r: Vec<&Ingredient>)
        ensures
            derefs(r@) == self.ingredient_seq().filter(|x: Ingredient| refers_to_kb(x, kb_slug@)),
    {
        let ghost pred = |x: Ingredient| refers_to_kb(x, kb_slug@);
        let mut r: Vec<&Ingredient> = Vec::new();
        let mut i: usize = 0;
        while i < self.ingredients.len()
            invariant
                i <= self.ingredients@.len(),
                pred == (|x: Ingredient| refers_to_kb(x, kb_slug@)),
                derefs(r@) =~= self.ingredients@.take(i as int).filter(pred),
            decreases self.ingredients@.len() - i,
        {
            assert(self.ingredients@.take(i + 1).drop_last() =~= self.ingredients@.take(i as int));
            assert(self.ingredients@.take(i + 1).last() == self.ingredients@[i as int]);
            let ghost prev = self.ingredients@.take(i as int).filter(pred);
            proof {
                reveal(Seq::filter);
            }
            let ok = match &self.ingredients[i].kb {
                Some(k) => same_text(k.as_str(), kb_slug),
                None => false,
            };
            if ok {
                assert(self.ingredients@.take(i + 1).filter(pred) == prev.push(
                    self.ingredients@[i as int],
                ));
                proof {
                    lemma_derefs_push(r@, &self.ingredients@[i as int]);
                }
                r.push(&self.ingredients[i]);
            } else {
                assert(self.ingredients@.take(i + 1).filter(pred) == prev);
            }
            i = i + 1;
        }
        assert(self.ingredients@.take(i as int) =~= self.ingredients@);
        r
    }

    /// Whether the recipe with this title exists and the pantry lists every one
    /// of its ingredients.
    pub fn are_all_ingredients_in_pantry(&self, recipe_title: &str) -> (b: bool)
        ensures
            b == all_in_pantry(*self, recipe_title@),
    {
        match self.recipe_index(recipe_title) {
            None => false,
            Some(i) => {
                let recipe = &self.recipes[i];
                let mut j: usize = 0;
                while j < recipe.ingredients.len()
                    invariant
                        i < self.recipes@.len(),
                        first_recipe_at(self.recipe_seq(), recipe_title@, i as int),
                        *recipe == self.recipes@[i as int],
                        j <= recipe.ingredients@.len(),
                        forall|k: int|
                            0 <= k < j ==> pantry_lists(
                                self.pantry_state(),
                                (#[trigger] recipe.ingredients@[k]).ingredient@,
                            ),
                    decreases recipe.ingredients@.len() - j,
                {
                    if !self.is_in_pantry(recipe.ingredients[j].ingredient.as_str()) {
                        proof {
                            assert forall|i2: int|
                                first_recipe_at(
                                    self.recipe_seq(),
                                    recipe_title@,
                                    i2,
                                ) implies i2 == i by {
                                if i2 < i {
                                    assert(self.recipe_seq()[i2].title@ != recipe_title@);
                                } else if i2 > i {
                                    assert(self.recipe_seq()[i as int].title@ == recipe_title@);
                                }
                            }
                        }
                        return false;
                    }
                    j = j + 1;
                }
                true
            },
        }
    }
}

impl DataManager {
    /// Every ingredient category, once each, in lexicographic order.
    pub fn get_all_ingredient_categories(&self) -> (r: Vec<String>)
        ensures
            strictly_sorted(views(r@)),
            forall|t: Seq<char>|
                #![trigger views(r@).contains(t)]
                views(r@).contains(t) <==> is_category_of(self.ingredient_seq(), t),
    {
        let mut r: Vec<String> = Vec::new();
        let mut i: usize = 0;
        while i < self.ingredients.len()
            invariant
                i <= self.ingredients@.len(),
                strictly_sorted(views(r@)),
                forall|t: Seq<char>|
                    #![trigger views(r@).contains(t)]
                    views(r@).contains(t) <==> is_category_of(self.ingredients@.take(i as int), t),
            decreases self.ingredients@.len() - i,
        {
            let c = self.ingredients[i].category.clone();
            let ghost old_r = r@;
            insert_sorted_unique(&mut r, c);
            let ghost cat = self.ingredients@[i as int].category@;
            assert forall|t: Seq<char>|
                #![trigger views(r@).contains(t)]
                views(r@).contains(t) <==> is_category_of(self.ingredients@.take(i + 1), t) by {
                let s1 = self.ingredients@.take(i + 1);
                let s0 = self.ingredients@.take(i as int);
                if is_category_of(s1, t) {
                    let k = choose|k: int| 0 <= k < s1.len() && (#[trigger] s1[k]).category@ == t;
                    if k < i {
                        assert(s0[k] == s1[k]);
                        assert(is_category_of(s0, t));
                        assert(views(old_r).contains(t));
                    }
                }
                if views(old_r).contains(t) {
                    let k = choose|k: int| 0 <= k < s0.len() && (#[trigger] s0[k]).category@ == t;
                    assert(s1[k] == s0[k]);
                }
                if t == cat {
                    assert(s1[i as int].category@ == t);
                }
            }
            i = i + 1;
        }
        assert(self.ingredients@.take(i as int) =~= self.ingredients@);
        r
    }

    /// The same list as [`DataManager::get_all_ingredient_categories`].
    pub fn get_unique_categories(&self) -> (r: Vec<String>)
        ensures
            strictly_sorted(views(r@)),
            forall|t: Seq<char>|
                #![trigger views(r@).contains(t)]
                views(r@).contains(t) <==> is_category_of(self.ingredient_seq(), t),
    {
        self.get_all_ingredient_categories()
    }

    /// The ingredients of one category, strictly sorted by name.
    fn ingredients_in(&self, category: &str) -> (r: Vec<&Ingredient>)
        requires
            self.wf(),
        ensures
            strictly_sorted(names(r@)),
            forall|y: &Ingredient|
                #![trigger r@.contains(y)]
                r@.contains(y) <==> (self.ingredient_seq().contains(*y) && y.category@
                    == category@),
    {
        let mut r: Vec<&Ingredient> = Vec::new();
        let mut i: usize = 0;
        while i < self.ingredients.len()
            invariant
                self.wf(),
                i <= self.ingredients@.len(),
                strictly_sorted(names(r@)),
                forall|y: &Ingredient|
                    #![trigger r@.contains(y)]
                    r@.contains(y) <==> (self.ingredients@.take(i as int).contains(*y)
                        && y.category@ == category@),
            decreases self.ingredients@.len() - i,
        {
            let ing = &self.ingredients[i];
            let ghost old_r = r@;
            let ghost s0 = self.ingredients@.take(i as int);
            let ghost s1 = self.ingredients@.take(i + 1);
            if same_text(ing.category.as_str(), category) {
                assert(!names(r@).contains(ing.name@)) by {
                    if names(r@).contains(ing.name@) {
                        let m = choose|m: int| 0 <= m < names(r@).len() && names(r@)[m] == ing.name@;
                        assert(r@.contains(r@[m]));
                        let j = choose|j: int| 0 <= j < s0.len() && s0[j] == *r@[m];
                        assert(self.ingredient_seq()[j].name@ != self.ingredient_seq()[i as int].name@);
                    }
                }
                insert_by_name(&mut r, ing);
            }
            assert forall|y: &Ingredient|
                #![trigger r@.contains(y)]
                r@.contains(y) <==> (s1.contains(*y) && y.category@ == category@) by {
                if s1.contains(*y) {
                    let k = choose|k: int| 0 <= k < s1.len() && s1[k] == *y;
                    if k < i {
                        assert(s0[k] == *y);
                        assert(s0.contains(*y));
                    }
                }
                if s0.contains(*y) {
                    let k = choose|k: int| 0 <= k < s0.len() && s0[k] == *y;
                    assert(s1[k] == *y);
                }
                if *y == self.ingredients@[i as int] {
                    assert(s1[i as int] == *y);
                }
            }
            i = i + 1;
        }
        assert(self.ingredients@.take(i as int) =~= self.ingredients@);
        r
    }

    /// The ingredients grouped by category: one group per category, in
    /// lexicographic order, each group strictly sorted by name.
    pub fn get_ingredients_by_category(&self) -> (r: Vec<(String, Vec<&Ingredient>)>)
        requires
            self.wf(),
        ensures
            strictly_sorted(group_keys(r@)),
            forall|t: Seq<char>|
                #![trigger group_keys(r@).contains(t)]
                group_keys(r@).contains(t) <==> is_category_of(self.ingredient_seq(), t),
            forall|k: int|
                #![trigger r@[k]]
                0 <= k < r@.len() ==> strictly_sorted(names(r@[k].1@)) && forall|y: &Ingredient|
                    #![trigger r@[k].1@.contains(y)]
                    r@[k].1@.contains(y) <==> (self.ingredient_seq().contains(*y) && y.category@
                        == r@[k].0@),
    {
        let cats = self.get_all_ingredient_categories();
        let mut r: Vec<(String, Vec<&Ingredient>)> = Vec::new();
        let mut k: usize = 0;
        while k < cats.len()
            invariant
                self.wf(),
                k <= cats@.len(),
                strictly_sorted(views(cats@)),
                forall|t: Seq<char>|
                    #![trigger views(cats@).contains(t)]
                    views(cats@).contains(t) <==> is_category_of(self.ingredient_seq(), t),
                group_keys(r@) =~= views(cats@).take(k as int),
                forall|m: int|
                    #![trigger r@[m]]
                    0 <= m < r@.len() ==> strictly_sorted(names(r@[m].1@)) && forall|
                        y: &Ingredient,
                    |
                        #![trigger r@[m].1@.contains(y)]
                        r@[m].1@.contains(y) <==> (self.ingredient_seq().contains(*y)
                            && y.category@ == r@[m].0@),
            decreases cats@.len() - k,
        {
            let list = self.ingredients_in(cats[k].as_str());
            let key = cats[k].clone();
            let ghost old_r = r@;
            r.push((key, list));
            assert(group_keys(r@) =~= group_keys(old_r).push(cats@[k as int]@));
            assert(views(cats@).take(k + 1) =~= views(cats@).take(k as int).push(cats@[k as int]@));
            k = k + 1;
        }
        assert(views(cats@).take(k as int) =~= views(cats@));
        r
    }
}

impl DataManager {
    /// The ingredients grouped by category as in
    /// [`DataManager::get_ingredients_by_category`], each with its pantry item.
    pub fn get_pantry_items_by_category(&self) -> (r: Vec<(String, Vec<(&Ingredient, Option<&PantryItem>)>)>)
        requires
            self.wf(),
        ensures
            strictly_sorted(group_keys(r@)),
            forall|t: Seq<char>|
                #![trigger group_keys(r@).contains(t)]
                group_keys(r@).contains(t) <==> is_category_of(self.ingredient_seq(), t),
            forall|k: int|
                #![trigger r@[k]]
                0 <= k < r@.len() ==> {
                    let g = r@[k].1@.map_values(|e: (&Ingredient, Option<&PantryItem>)| e.0);
                    &&& strictly_sorted(names(g))
                    &&& forall|y: &Ingredient|
                        #![trigger g.contains(y)]
                        g.contains(y) <==> (self.ingredient_seq().contains(*y) && y.category@
                            == r@[k].0@)
                    &&& forall|j: int|
                        #![trigger r@[k].1@[j]]
                        0 <= j < r@[k].1@.len() ==> is_pantry_item_for(
                            self.pantry_state(),
                            r@[k].1@[j].0.name@,
                            r@[k].1@[j].1,
                        )
                },
    {
        let groups = self.get_ingredients_by_category();
        let mut r: Vec<(String, Vec<(&Ingredient, Option<&PantryItem>)>)> = Vec::new();
        let mut k: usize = 0;
        while k < groups.len()
            invariant
                self.wf(),
                k <= groups@.len(),
                strictly_sorted(group_keys(groups@)),
                forall|t: Seq<char>|
                    #![trigger group_keys(groups@).contains(t)]
                    group_keys(groups@).contains(t) <==> is_category_of(self.ingredient_seq(), t),
                forall|m: int|
                    #![trigger groups@[m]]
                    0 <= m < groups@.len() ==> strictly_sorted(names(groups@[m].1@)) && forall|
                        y: &Ingredient,
                    |
                        #![trigger groups@[m].1@.contains(y)]
                        groups@[m].1@.contains(y) <==> (self.ingredient_seq().contains(*y)
                            && y.category@ == groups@[m].0@),
                r@.len() == k,
                forall|m: int|
                    #![trigger r@[m]]
                    0 <= m < k ==> r@[m].0@ == groups@[m].0@ && r@[m].1@.map_values(
                        |e: (&Ingredient, Option<&PantryItem>)| e.0,
                    ) == groups@[m].1@ && forall|j: int|
                        #![trigger r@[m].1@[j]]
                        0 <= j < r@[m].1@.len() ==> is_pantry_item_for(
                            self.pantry_state(),
                            r@[m].1@[j].0.name@,
                            r@[m].1@[j].1,
                        ),
            decreases groups@.len() - k,
        {
            let g = &groups[k].1;
            let mut items: Vec<(&Ingredient, Option<&PantryItem>)> = Vec::new();
            let mut j: usize = 0;
            while j < g.len()
                invariant
                    k < groups@.len(),
                    *g == groups@[k as int].1,
                    j <= g@.len(),
                    items@.len() == j,
                    forall|a: int| #![trigger items@[a]] 0 <= a < j ==> items@[a].0 == g@[a],
                    forall|a: int|
                        #![trigger items@[a]]
                        0 <= a < j ==> is_pantry_item_for(
                            self.pantry_state(),
                            items@[a].0.name@,
                            items@[a].1,
                        ),
                decreases g@.len() - j,
            {
                let ing: &Ingredient = g[j];
                let item = self.get_pantry_item(ing.name.as_str());
                items.push((ing, item));
                j = j + 1;
            }
            assert(items@.map_values(|e: (&Ingredient, Option<&PantryItem>)| e.0) =~= g@);
            let key = groups[k].0.clone();
            r.push((key, items));
            k = k + 1;
        }
        assert(group_keys(r@) =~= group_keys(groups@));
        r
    }

    /// The recipes that use an ingredient, in order, each once per line that
    /// names it.
    pub(crate) fn usage_for(&self, name: &str) -> (r: Vec<&Recipe>)
        ensures
            derefs(r@) == usage(self.recipe_seq(), name@),
    {
        let ghost pred = line_names(name@);
        let mut r: Vec<&Recipe> = Vec::new();
        let mut i: usize = 0;
        while i < self.recipes.len()
            invariant
                i <= self.recipes@.len(),
                pred == line_names(name@),
                derefs(r@) == usage(self.recipes@.take(i as int), name@),
            decreases self.recipes@.len() - i,
        {
            let rec = &self.recipes[i];
            let ghost base = derefs(r@);
            let mut j: usize = 0;
            while j < rec.ingredients.len()
                invariant
                    i < self.recipes@.len(),
                    *rec == self.recipes@[i as int],
                    pred == line_names(name@),
                    j <= rec.ingredients@.len(),
                    derefs(r@) == base + Seq::new(
                        rec.ingredients@.take(j as int).filter(pred).len(),
                        |_i: int| *rec,
                    ),
                decreases rec.ingredients@.len() - j,
            {
                assert(rec.ingredients@.take(j + 1).drop_last() =~= rec.ingredients@.take(j as int));
                assert(rec.ingredients@.take(j + 1).last() == rec.ingredients@[j as int]);
                proof {
                    reveal(Seq::filter);
                }
                let ghost n0 = rec.ingredients@.take(j as int).filter(pred).len();
                if same_text(rec.ingredients[j].ingredient.as_str(), name) {
                    assert(rec.ingredients@.take(j + 1).filter(pred).len() == n0 + 1);
                    proof {
                        lemma_derefs_push(r@, rec);
                    }
                    r.push(rec);
                    assert(derefs(r@) =~= base + Seq::new(n0 + 1, |_i: int| *rec));
                } else {
                    assert(rec.ingredients@.take(j + 1).filter(pred).len() == n0);
                }
                j = j + 1;
            }
            assert(rec.ingredients@.take(j as int) =~= rec.ingredients@);
            assert(self.recipes@.take(i + 1).drop_last() =~= self.recipes@.take(i as int));
            assert(self.recipes@.take(i + 1).last() == self.recipes@[i as int]);
            assert(occurrences(*rec, name@) == rec.ingredients@.filter(pred).len());
            i = i + 1;
        }
        assert(self.recipes@.take(i as int) =~= self.recipes@);
        r
    }

    /// For each ingredient, in order, its name and the recipes that use it
    /// (each recipe once per line that names the ingredient).
    pub fn get_ingredient_usage(&self) -> (r: Vec<(String, Vec<&Recipe>)>)
        ensures
            r@.len() == self.ingredient_seq().len(),
            forall|i: int|
                #![trigger r@[i]]
                0 <= i < r@.len() ==> r@[i].0@ == self.ingredient_seq()[i].name@ && derefs(
                    r@[i].1@,
                ) == usage(self.recipe_seq(), self.ingredient_seq()[i].name@),
    {
        let mut r: Vec<(String, Vec<&Recipe>)> = Vec::new();
        let mut i: usize = 0;
        while i < self.ingredients.len()
            invariant
                i <= self.ingredients@.len(),
                r@.len() == i,
                forall|k: int|
                    #![trigger r@[k]]
                    0 <= k < i ==> r@[k].0@ == self.ingredients@[k].name@ && derefs(r@[k].1@)
                        == usage(self.recipes@, self.ingredients@[k].name@),
            decreases self.ingredients@.len() - i,
        {
            let name = self.ingredients[i].name.clone();
            let list = self.usage_for(name.as_str());
            r.push((name, list));
            i = i + 1;
        }
        r
    }
}

impl DataManager {
    /// Position of the first ingredient with this slug.
    fn slug_index(&self, slug: &str) -> (r: Option<usize>)
        ensures
            match r {
                Some(i) => first_ingredient_at(
                    self.ingredient_seq(),
                    |x: Ingredient| x.slug@ == slug@,
                    i as int,
                ),
                None => forall|j: int|
                    0 <= j < self.ingredient_seq().len() ==> (#[trigger] self.ingredient_seq()[j]).slug@
                        != slug@,
            },
    {
        let mut i: usize = 0;
        while i < self.ingredients.len()
            invariant
                i <= self.ingredients@.len(),
                forall|j: int| 0 <= j < i ==> (#[trigger] self.ingredients@[j]).slug@ != slug@,
            decreases self.ingredients@.len() - i,
        {
            if same_text(self.ingredients[i].slug.as_str(), slug) {
                return Some(i);
            }
            i = i + 1;
        }
        None
    }

    /// Position of the first ingredient with a form of its name in `lang`
    /// equal to `text`.
    fn translation_index(&self, text: &str, lang: &str) -> (r: Option<usize>)
        ensures
            match r {
                Some(i) => first_ingredient_at(
                    self.ingredient_seq(),
                    |x: Ingredient| translation_is(x, lang@, text@),
                    i as int,
                ),
                None => forall|j: int|
                    0 <= j < self.ingredient_seq().len() ==> !translation_is(
                        #[trigger] self.ingredient_seq()[j],
                        lang@,
                        text@,
                    ),
            },
    {
        let mut i: usize = 0;
        while i < self.ingredients.len()
            invariant
                i <= self.ingredients@.len(),
                forall|j: int|
                    0 <= j < i ==> !translation_is(#[trigger] self.ingredients@[j], lang@, text@),
            decreases self.ingredients@.len() - i,
        {
            let hit = match self.ingredients[i].translation(lang) {
                Some(f) => same_text(f.one.as_str(), text) || same_text(f.other.as_str(), text),
                None => false,
            };
            if hit {
                return Some(i);
            }
            i = i + 1;
        }
        None
    }

    /// Resolves a text to an ingredient: the ingredient with that name; else
    /// the first with that slug; else the first with a form of its name in
    /// `lang` equal to the text.
    pub fn find_ingredient_by_name_or_translation(&self, query: &str, lang: &str) -> (r: Option<
        &Ingredient,
    >)
        requires
            self.wf(),
        ensures
            finds_ingredient(self.ingredient_seq(), query@, lang@, deref_opt(r)),
    {
        if let Some(i) = self.ingredient_index(query) {
            assert(self.ingredient_seq().contains(self.ingredients@[i as int]));
            return Some(&self.ingredients[i]);
        }
        if let Some(i) = self.slug_index(query) {
            return Some(&self.ingredients[i]);
        }
        match self.translation_index(query, lang) {
            Some(i) => Some(&self.ingredients[i]),
            None => None,
        }
    }
}

/// `prefix`, then `name`, then `suffix`.
fn quoted(prefix: &str, name: &str, suffix: &str) -> (s: String)
    ensures
        s@ == prefix@ + name@ + suffix@,
{
    let mut s = prefixed(prefix, name);
    s.append(suffix);
    s
}

/// Removes the items for this ingredient, keeping the order of the others.
fn remove_items_for(items: &mut Vec<PantryItem>, name: &str)
    ensures
        final(items)@ == items_without(old(items)@, name@),
{
    let ghost orig = old(items)@;
    let ghost pred = |x: PantryItem| x.ingredient@ != name@;
    let mut i: usize = 0;
    let ghost mut j: int = 0;
    while i < items.len()
        invariant
            pred == (|x: PantryItem| x.ingredient@ != name@),
            0 <= j <= orig.len(),
            i <= items@.len(),
            items@.take(i as int) == orig.take(j).filter(pred),
            items@.skip(i as int) == orig.skip(j),
        decreases items@.len() - i,
    {
        proof {
            reveal(Seq::filter);
        }
        assert(items@.skip(i as int).len() > 0);
        assert(j < orig.len());
        assert(orig.take(j + 1).drop_last() =~= orig.take(j));
        assert(items@.skip(i as int)[0] == orig.skip(j)[0]);
        assert(orig.take(j + 1).last() == orig[j]);
        if same_text(items[i].ingredient.as_str(), name) {
            let ghost before = items@;
            items.remove(i);
            assert(items@.take(i as int) =~= before.take(i as int));
            assert(items@.skip(i as int) =~= orig.skip(j + 1)) by {
                assert(before.skip(i as int).skip(1) =~= before.skip(i + 1));
                assert(orig.skip(j).skip(1) =~= orig.skip(j + 1));
                assert(items@.skip(i as int) =~= before.skip(i + 1));
            }
            proof {
                j = j + 1;
            }
        } else {
            let ghost before = items@;
            assert(items@.take(i + 1) =~= before.take(i as int).push(before[i as int]));
            assert(items@.skip(i + 1) =~= orig.skip(j + 1)) by {
                assert(before.skip(i as int).skip(1) =~= before.skip(i + 1));
                assert(orig.skip(j).skip(1) =~= orig.skip(j + 1));
            }
            i = i + 1;
            proof {
                j = j + 1;
            }
        }
    }
    assert(items@.take(i as int) =~= items@);
    assert(orig.skip(j).len() == 0);
    assert(orig.take(j) =~= orig);
}

impl DataManager {
    /// Adds a loaded ingredient, replacing the one with its name.
    pub fn insert_ingredient(&mut self, ingredient: Ingredient)
        requires
            old(self).wf(),
        ensures
            final(self).wf(),
            final(self).ingredient_seq() == with_ingredient(old(self).ingredient_seq(), ingredient),
            final(self).recipe_seq() == old(self).recipe_seq(),
            final(self).pantry_state() == old(self).pantry_state(),
            final(self).kb_seq() == old(self).kb_seq(),
            final(self).dir() == old(self).dir(),
    {
        match self.ingredient_index(ingredient.name.as_str()) {
            Some(i) => {
                let ghost k = choose|k: int|
                    0 <= k < self.ingredients@.len() && (#[trigger] self.ingredients@[k]).name@
                        == ingredient.name@;
                assert(k == i);
                self.ingredients.set(i, ingredient);
            },
            None => {
                self.ingredients.push(ingredient);
            },
        }
    }

    /// Adds a loaded recipe after the others.
    pub fn push_recipe(&mut self, recipe: Recipe)
        requires
            old(self).wf(),
        ensures
            final(self).wf(),
            final(self).recipe_seq() == old(self).recipe_seq().push(recipe),
            final(self).ingredient_seq() == old(self).ingredient_seq(),
            final(self).pantry_state() == old(self).pantry_state(),
            final(self).kb_seq() == old(self).kb_seq(),
            final(self).dir() == old(self).dir(),
    {
        self.recipes.push(recipe);
    }

    /// Sets the loaded pantry.
    pub fn set_pantry(&mut self, pantry: Pantry)
        requires
            old(self).wf(),
        ensures
            final(self).wf(),
            final(self).pantry_state() == Some(pantry),
            final(self).ingredient_seq() == old(self).ingredient_seq(),
            final(self).recipe_seq() == old(self).recipe_seq(),
            final(self).kb_seq() == old(self).kb_seq(),
            final(self).dir() == old(self).dir(),
    {
        self.pantry = Some(pantry);
    }

    /// Adds a loaded knowledge-base entry, replacing the one with its slug.
    pub fn insert_kb_entry(&mut self, entry: KnowledgeBaseEntry)
        requires
            old(self).wf(),
        ensures
            final(self).wf(),
            final(self).kb_seq() == with_kb_entry(old(self).kb_seq(), entry),
            final(self).ingredient_seq() == old(self).ingredient_seq(),
            final(self).recipe_seq() == old(self).recipe_seq(),
            final(self).pantry_state() == old(self).pantry_state(),
            final(self).dir() == old(self).dir(),
    {
        match self.kb_index(entry.slug.as_str()) {
            Some(i) => {
                let ghost k = choose|k: int|
                    0 <= k < self.kb_entries@.len() && (#[trigger] self.kb_entries@[k]).slug@
                        == entry.slug@;
                assert(k == i);
                self.kb_entries.set(i, entry);
            },
            None => {
                self.kb_entries.push(entry);
            },
        }
    }
}

/// What [`DataManager::update_pantry_item_on`] does: `a` becomes `b` and the
/// call returns `r`.
pub open spec fn sets_pantry_item_on(
    a: DataManager,
    ingredient_name: Seq<char>,
    quantity: Option<Quantity>,
    quantity_type: Option<String>,
    today: Seq<char>,
    b: DataManager,
    r: Result<bool, CookbookError>,
) -> bool {
    &&& b.ingredient_seq() == a.ingredient_seq()
    &&& b.recipe_seq() == a.recipe_seq()
    &&& b.kb_seq() == a.kb_seq()
    &&& b.dir() == a.dir()
    &&& a.pantry_state() is None ==> {
        &&& update_failed(r, "No pantry loaded"@)
        &&& b.pantry_state() is None
    }
    &&& a.pantry_state() is Some && !has_ingredient(a.ingredient_seq(), ingredient_name) ==> {
        &&& update_failed(r, "Ingredient '"@ + ingredient_name + "' does not exist"@)
        &&& b.pantry_state() == a.pantry_state()
    }
    &&& a.pantry_state() is Some && has_ingredient(a.ingredient_seq(), ingredient_name) ==> {
        &&& r == Ok::<bool, CookbookError>(true)
        &&& b.pantry_state() is Some
        &&& b.pantry_state().unwrap().version == a.pantry_state().unwrap().version
        &&& items_updated(
            a.pantry_state().unwrap().items@,
            b.pantry_state().unwrap().items@,
            ingredient_name,
            quantity,
            unit_text(quantity_type),
            today,
        )
    }
}

/// What [`DataManager::delete_ingredient`] does: `a` becomes `b` and the
/// call returns `r`.
pub open spec fn deletes_ingredient(
    a: DataManager,
    ingredient_name: Seq<char>,
    b: DataManager,
    r: Result<bool, CookbookError>,
) -> bool {
    &&& b.recipe_seq() == a.recipe_seq()
    &&& b.kb_seq() == a.kb_seq()
    &&& b.dir() == a.dir()
    &&& !has_ingredient(a.ingredient_seq(), ingredient_name) ==> {
        &&& update_failed(r, "Ingredient '"@ + ingredient_name + "' does not exist"@)
        &&& b.ingredient_seq() == a.ingredient_seq()
        &&& b.pantry_state() == a.pantry_state()
    }
    &&& has_ingredient(a.ingredient_seq(), ingredient_name) ==> {
        &&& r == Ok::<bool, CookbookError>(true)
        &&& b.ingredient_seq() == without_ingredient(a.ingredient_seq(), ingredient_name)
        &&& match a.pantry_state() {
            None => b.pantry_state() is None,
            Some(p) => {
                &&& b.pantry_state() is Some
                &&& b.pantry_state().unwrap().version == p.version
                &&& b.pantry_state().unwrap().items@ == items_without(p.items@, ingredient_name)
            },
        }
    }
}

/// What [`DataManager::update_pantry_item`] does: `a` becomes `b` and the
/// call returns `r`, for some date of the day written as a date.
pub open spec fn sets_pantry_item(
    a: DataManager,
    ingredient_name: Seq<char>,
    quantity: Option<Quantity>,
    quantity_type: Option<String>,
    b: DataManager,
    r: Result<bool, CookbookError>,
) -> bool {
    exists|today: Seq<char>|
        is_date_text(today) && sets_pantry_item_on(a, ingredient_name, quantity, quantity_type, today, b, r)
}

/// A decimal digit.
pub open spec fn is_digit(c: char) -> bool {
    '0' <= c <= '9'
}

/// The shape of a date written `%Y-%m-%d`: a year ending in at least four
/// digits, `-`, two digits of the month, `-`, two digits of the day.
pub open spec fn is_date_text(s: Seq<char>) -> bool {
    let n = s.len() as int;
    &&& n >= 10
    &&& s[n - 3] == '-'
    &&& s[n - 6] == '-'
    &&& is_digit(s[n - 1]) && is_digit(s[n - 2])
    &&& is_digit(s[n - 4]) && is_digit(s[n - 5])
    &&& is_digit(s[n - 7]) && is_digit(s[n - 8]) && is_digit(s[n - 9]) && is_digit(s[n - 10])
}

/// What [`DataManager::remove_from_pantry`] does: `a` becomes `b` and the
/// call returns `r`.
pub open spec fn removes_pantry_items(
    a: DataManager,
    ingredient_name: Seq<char>,
    b: DataManager,
    r: Result<bool, CookbookError>,
) -> bool {
    &&& b.ingredient_seq() == a.ingredient_seq()
    &&& b.recipe_seq() == a.recipe_seq()
    &&& b.kb_seq() == a.kb_seq()
    &&& b.dir() == a.dir()
    &&& a.pantry_state() is None ==> {
        &&& r == Ok::<bool, CookbookError>(false)
        &&& b.pantry_state() is None
    }
    &&& a.pantry_state() is Some ==> {
        &&& r == Ok::<bool, CookbookError>(true)
        &&& b.pantry_state() is Some
        &&& b.pantry_state().unwrap().version == a.pantry_state().unwrap().version
        &&& b.pantry_state().unwrap().items@ == items_without(a.pantry_state().unwrap().items@, ingredient_name)
    }
}

/// What [`DataManager::create_ingredient`] does: `a` becomes `b` and the
/// call returns `r`.
pub open spec fn creates_ingredient(
    a: DataManager,
    ingredient: Ingredient,
    b: DataManager,
    r: Result<bool, CookbookError>,
) -> bool {
    &&& b.recipe_seq() == a.recipe_seq()
    &&& b.pantry_state() == a.pantry_state()
    &&& b.kb_seq() == a.kb_seq()
    &&& b.dir() == a.dir()
    &&& has_ingredient(a.ingredient_seq(), ingredient.name@) ==> {
        &&& update_failed(r, "Ingredient '"@ + ingredient.name@ + "' already exists"@)
        &&& b.ingredient_seq() == a.ingredient_seq()
    }
    &&& !has_ingredient(a.ingredient_seq(), ingredient.name@) ==> {
        &&& r == Ok::<bool, CookbookError>(true)
        &&& b.ingredient_seq() == a.ingredient_seq().push(ingredient)
    }
}

/// What [`DataManager::update_ingredient`] does: `a` becomes `b` and the
/// call returns `r`.
pub open spec fn updates_ingredient(
    a: DataManager,
    original_name: Seq<char>,
    new_ingredient: Ingredient,
    b: DataManager,
    r: Result<bool, CookbookError>,
) -> bool {
    &&& b.recipe_seq() == a.recipe_seq()
    &&& b.kb_seq() == a.kb_seq()
    &&& b.dir() == a.dir()
    &&& !has_ingredient(a.ingredient_seq(), original_name) ==> {
        &&& update_failed(r, "Ingredient '"@ + original_name + "' does not exist"@)
        &&& b.ingredient_seq() == a.ingredient_seq()
        &&& b.pantry_state() == a.pantry_state()
    }
    &&& has_ingredient(a.ingredient_seq(), original_name) && original_name != new_ingredient.name@
        && has_ingredient(a.ingredient_seq(), new_ingredient.name@) ==> {
        &&& update_failed(
            r,
            "Cannot rename: ingredient '"@ + new_ingredient.name@ + "' already exists"@,
        )
        &&& b.ingredient_seq() == a.ingredient_seq()
        &&& b.pantry_state() == a.pantry_state()
    }
    &&& has_ingredient(a.ingredient_seq(), original_name) && original_name == new_ingredient.name@ ==> {
        &&& r == Ok::<bool, CookbookError>(true)
        &&& b.ingredient_seq() == with_ingredient(a.ingredient_seq(), new_ingredient)
        &&& b.pantry_state() == a.pantry_state()
    }
    &&& has_ingredient(a.ingredient_seq(), original_name) && original_name != new_ingredient.name@
        && !has_ingredient(a.ingredient_seq(), new_ingredient.name@) ==> {
        &&& r == Ok::<bool, CookbookError>(true)
        &&& b.ingredient_seq() == without_ingredient(a.ingredient_seq(), original_name).push(
            new_ingredient,
        )
        &&& match a.pantry_state() {
            None => b.pantry_state() is None,
            Some(p) => {
                &&& b.pantry_state() is Some
                &&& b.pantry_state().unwrap().version == p.version
                &&& b.pantry_state().unwrap().items@ == renamed_items(
                    p.items@,
                    original_name,
                    new_ingredient.name,
                )
            },
        }
    }
}

/// Today's date in the local time zone, as `YYYY-MM-DD`
/// (`chrono::Local::now().format("%Y-%m-%d")`). Which date it is depends on
/// the clock and is left unsaid; what holds of every outcome is the shape
/// that chrono writes: the year zero-padded to at least four digits (with a
/// sign before it outside 0 to 9999), then `-`, the month and `-`, the day,
/// each zero-padded to two digits.
#[verifier::external_body]
fn current_date() -> (d: String)
    ensures
        is_date_text(d@),
{
    chrono::Local::now().format("%Y-%m-%d").to_string()
}

impl DataManager {
    /// Sets the quantity and unit of an ingredient in the pantry, dated
    /// `today`: its first item changes, or a new item is added at the end. An
    /// absent unit is stored as empty text. Fails, changing nothing, when no
    /// pantry is loaded or no ingredient has the name.
    pub fn update_pantry_item_on(
        &mut self,
        ingredient_name: &str,
        quantity: Option<Quantity>,
        quantity_type: Option<String>,
        today: String,
    ) -> (r: Result<bool, CookbookError>)
        requires
            old(self).wf(),
        ensures
            final(self).wf(),
            sets_pantry_item_on(*old(self), ingredient_name@, quantity, quantity_type, today@, *final(self), r),

    {
        if self.pantry.is_none() {
            return Err(CookbookError::UpdateError(String::from_str("No pantry loaded")));
        }
        if self.ingredient_index(ingredient_name).is_none() {
            return Err(
                CookbookError::UpdateError(
                    quoted("Ingredient '", ingredient_name, "' does not exist"),
                ),
            );
        }
        let unit = match quantity_type {
            Some(t) => t,
            None => String::new(),
        };
        let idx = self.pantry_index(ingredient_name);
        let mut p = self.pantry.take().unwrap();
        let ghost before = p.items@;
        match idx {
            Some(i) => {
                let ing = p.items[i].ingredient.clone();
                p.items.set(
                    i,
                    PantryItem { ingredient: ing, quantity, quantity_type: unit, last_updated: today },
                );
                assert(exists|k: int| first_item_at(before, ingredient_name@, k));
                let ghost k = choose|k: int| first_item_at(before, ingredient_name@, k);
                assert(k == i) by {
                    if k < i {
                        assert(before[k].ingredient@ != ingredient_name@);
                    } else if k > i {
                        assert(before[i as int].ingredient@ != ingredient_name@);
                    }
                }
            },
            None => {
                p.items.push(
                    PantryItem {
                        ingredient: String::from_str(ingredient_name),
                        quantity,
                        quantity_type: unit,
                        last_updated: today,
                    },
                );
                assert(p.items@.drop_last() =~= before);
                assert(!exists|k: int| first_item_at(before, ingredient_name@, k));
            },
        }
        self.pantry = Some(p);
        Ok(true)
    }

    /// [`DataManager::update_pantry_item_on`], dated with today's date.
    pub fn update_pantry_item(
        &mut self,
        ingredient_name: &str,
        quantity: Option<Quantity>,
        quantity_type: Option<String>,
    ) -> (r: Result<bool, CookbookError>)
        requires
            old(self).wf(),
        ensures
            final(self).wf(),
            sets_pantry_item(*old(self), ingredient_name@, quantity, quantity_type, *final(self), r),

    {
        let today = current_date();
        self.update_pantry_item_on(ingredient_name, quantity, quantity_type, today)
    }

    /// Removes every pantry item for this ingredient. Returns `Ok(true)` when
    /// a pantry is loaded (and so was changed as stated), `Ok(false)` when
    /// there is none.
    pub fn remove_from_pantry(&mut self, ingredient_name: &str) -> (r: Result<bool, CookbookError>)
        requires
            old(self).wf(),
        ensures
            final(self).wf(),
            removes_pantry_items(*old(self), ingredient_name@, *final(self), r),

    {
        match self.pantry.take() {
            None => Ok(false),
            Some(p) => {
                let mut p = p;
                remove_items_for(&mut p.items, ingredient_name);
                self.pantry = Some(p);
                Ok(true)
            },
        }
    }
}

/// Removes the recipes with this title, keeping the order of the others.
fn remove_recipes_titled(v: &mut Vec<Recipe>, title: &str)
    ensures
        final(v)@ == recipes_without(old(v)@, title@),
{
    let ghost orig = old(v)@;
    let ghost pred = not_titled(title@);
    let mut i: usize = 0;
    let ghost mut j: int = 0;
    while i < v.len()
        invariant
            pred == not_titled(title@),
            0 <= j <= orig.len(),
            i <= v@.len(),
            v@.take(i as int) == orig.take(j).filter(pred),
            v@.skip(i as int) == orig.skip(j),
        decreases v@.len() - i,
    {
        proof {
            reveal(Seq::filter);
        }
        assert(v@.skip(i as int).len() > 0);
        assert(j < orig.len());
        assert(orig.take(j + 1).drop_last() =~= orig.take(j));
        assert(v@.skip(i as int)[0] == orig.skip(j)[0]);
        assert(orig.take(j + 1).last() == orig[j]);
        if same_text(v[i].title.as_str(), title) {
            let ghost before = v@;
            v.remove(i);
            assert(v@.take(i as int) =~= before.take(i as int));
            assert(v@.skip(i as int) =~= orig.skip(j + 1)) by {
                assert(before.skip(i as int).skip(1) =~= before.skip(i + 1));
                assert(orig.skip(j).skip(1) =~= orig.skip(j + 1));
                assert(v@.skip(i as int) =~= before.skip(i + 1));
            }
            proof {
                j = j + 1;
            }
        } else {
            let ghost before = v@;
            assert(v@.take(i + 1) =~= before.take(i as int).push(before[i as int]));
            assert(v@.skip(i + 1) =~= orig.skip(j + 1)) by {
                assert(before.skip(i as int).skip(1) =~= before.skip(i + 1));
                assert(orig.skip(j).skip(1) =~= orig.skip(j + 1));
            }
            i = i + 1;
            proof {
                j = j + 1;
            }
        }
    }
    assert(v@.take(i as int) =~= v@);
    assert(orig.skip(j).len() == 0);
    assert(orig.take(j) =~= orig);
}

/// Renames every reference to ingredient `from` to `to`.
fn rename_items(items: &mut Vec<PantryItem>, from: &str, to: &String)
    ensures
        final(items)@ == renamed_items(old(items)@, from@, *to),
{
    let ghost orig = old(items)@;
    let mut i: usize = 0;
    while i < items.len()
        invariant
            items@.len() == orig.len(),
            i <= items@.len(),
            forall|j: int| 0 <= j < i ==> items@[j] == renamed_item(orig[j], from@, *to),
            forall|j: int| i <= j < items@.len() ==> items@[j] == orig[j],
        decreases items@.len() - i,
    {
        if same_text(items[i].ingredient.as_str(), from) {
            let x = PantryItem {
                ingredient: to.clone(),
                quantity: items[i].quantity,
                quantity_type: items[i].quantity_type.clone(),
                last_updated: items[i].last_updated.clone(),
            };
            items.set(i, x);
        }
        i = i + 1;
    }
    assert(items@ =~= renamed_items(orig, from@, *to));
}

impl DataManager {
    /// Adds a new ingredient after the others. Fails, changing nothing, when
    /// an ingredient already has its name.
    pub fn create_ingredient(&mut self, ingredient: Ingredient) -> (r: Result<bool, CookbookError>)
        requires
            old(self).wf(),
        ensures
            final(self).wf(),
            creates_ingredient(*old(self), ingredient, *final(self), r),

    {
        if self.ingredient_index(ingredient.name.as_str()).is_some() {
            return Err(
                CookbookError::UpdateError(
                    quoted("Ingredient '", ingredient.name.as_str(), "' already exists"),
                ),
            );
        }
        self.ingredients.push(ingredient);
        Ok(true)
    }

    /// Deletes the ingredient with this name and every pantry item for it.
    /// Fails, changing nothing, when no ingredient has the name.
    pub fn delete_ingredient(&mut self, ingredient_name: &str) -> (r: Result<bool, CookbookError>)
        requires
            old(self).wf(),
        ensures
            final(self).wf(),
            deletes_ingredient(*old(self), ingredient_name@, *final(self), r),

    {
        match self.ingredient_index(ingredient_name) {
            None => Err(
                CookbookError::UpdateError(
                    quoted("Ingredient '", ingredient_name, "' does not exist"),
                ),
            ),
            Some(i) => {
                let ghost before = self.ingredients@;
                let ghost k = choose|k: int|
                    0 <= k < before.len() && (#[trigger] before[k]).name@ == ingredient_name@;
                assert(k == i);
                self.ingredients.remove(i);
                assert forall|a: int, b: int|
                    0 <= a < b < self.ingredients@.len() implies (#[trigger] self.ingredients@[a]).name@
                    != (#[trigger] self.ingredients@[b]).name@ by {
                    let a0 = if a < i { a } else { a + 1 };
                    let b0 = if b < i { b } else { b + 1 };
                    assert(self.ingredients@[a] == before[a0]);
                    assert(self.ingredients@[b] == before[b0]);
                    assert(before[a0].name@ != before[b0].name@);
                }
                match self.pantry.take() {
                    None => {},
                    Some(p) => {
                        let mut p = p;
                        remove_items_for(&mut p.items, ingredient_name);
                        self.pantry = Some(p);
                    },
                }
                Ok(true)
            },
        }
    }

    /// Replaces the ingredient named `original_name` by `new_ingredient`.
    /// When the name changes, every pantry item for the old name is renamed
    /// and the old ingredient leaves. Fails, changing nothing, when no
    /// ingredient has the original name, or when the name changes to one that
    /// another ingredient has.
    pub fn update_ingredient(&mut self, original_name: &str, new_ingredient: Ingredient) -> (r:
        Result<bool, CookbookError>)
        requires
            old(self).wf(),
        ensures
            final(self).wf(),
            updates_ingredient(*old(self), original_name@, new_ingredient, *final(self), r),

    {
        if self.ingredient_index(original_name).is_none() {
            return Err(
                CookbookError::UpdateError(
                    quoted("Ingredient '", original_name, "' does not exist"),
                ),
            );
        }
        let renaming = !same_text(original_name, new_ingredient.name.as_str());
        if renaming && self.ingredient_index(new_ingredient.name.as_str()).is_some() {
            return Err(
                CookbookError::UpdateError(
                    quoted(
                        "Cannot rename: ingredient '",
                        new_ingredient.name.as_str(),
                        "' already exists",
                    ),
                ),
            );
        }
        if renaming {
            match self.pantry.take() {
                None => {},
                Some(p) => {
                    let mut p = p;
                    rename_items(&mut p.items, original_name, &new_ingredient.name);
                    self.pantry = Some(p);
                },
            }
            self.delete_ingredient_only(original_name);
            assert(!has_ingredient(self.ingredient_seq(), new_ingredient.name@)) by {
                if has_ingredient(self.ingredient_seq(), new_ingredient.name@) {
                    let k = choose|k: int|
                        0 <= k < self.ingredient_seq().len() && (#[trigger] self.ingredient_seq()[k]).name@
                            == new_ingredient.name@;
                    assert(old(self).ingredient_seq().contains(self.ingredient_seq()[k]));
                    let k2 = choose|k2: int|
                        0 <= k2 < old(self).ingredient_seq().len() && old(self).ingredient_seq()[k2]
                            == self.ingredient_seq()[k];
                    assert(old(self).ingredient_seq()[k2].name@ == new_ingredient.name@);
                }
            }
        }
        self.insert_ingredient(new_ingredient);
        Ok(true)
    }

    /// Removes the ingredient with this name (which exists), leaving the
    /// pantry alone.
    fn delete_ingredient_only(&mut self, ingredient_name: &str)
        requires
            old(self).wf(),
            has_ingredient(old(self).ingredient_seq(), ingredient_name@),
        ensures
            final(self).wf(),
            final(self).ingredient_seq() == without_ingredient(
                old(self).ingredient_seq(),
                ingredient_name@,
            ),
            forall|x: Ingredient|
                final(self).ingredient_seq().contains(x) ==> old(self).ingredient_seq().contains(x),
            final(self).recipe_seq() == old(self).recipe_seq(),
            final(self).pantry_state() == old(self).pantry_state(),
            final(self).kb_seq() == old(self).kb_seq(),
            final(self).dir() == old(self).dir(),
    {
        match self.ingredient_index(ingredient_name) {
            None => {},
            Some(i) => {
                let ghost before = self.ingredients@;
                let ghost k = choose|k: int|
                    0 <= k < before.len() && (#[trigger] before[k]).name@ == ingredient_name@;
                assert(k == i);
                self.ingredients.remove(i);
                assert forall|a: int, b: int|
                    0 <= a < b < self.ingredients@.len() implies (#[trigger] self.ingredients@[a]).name@
                    != (#[trigger] self.ingredients@[b]).name@ by {
                    let a0 = if a < i { a } else { a + 1 };
                    let b0 = if b < i { b } else { b + 1 };
                    assert(self.ingredients@[a] == before[a0]);
                    assert(self.ingredients@[b] == before[b0]);
                    assert(before[a0].name@ != before[b0].name@);
                }
                assert forall|x: Ingredient|
                    self.ingredients@.contains(x) implies before.contains(x) by {
                    let a = choose|a: int| 0 <= a < self.ingredients@.len() && self.ingredients@[a] == x;
                    let a0 = if a < i { a } else { a + 1 };
                    assert(before[a0] == x);
                }
            },
        }
    }

    /// Replaces the recipe titled `original_title` by `new_recipe`, which goes
    /// last. Fails, changing nothing, when no recipe has the original title,
    /// or when the title changes to one that another recipe has.
    pub fn update_recipe(&mut self, original_title: &str, new_recipe: Recipe) -> (r: Result<
        bool,
        CookbookError,
    >)
        requires
            old(self).wf(),
        ensures
            final(self).wf(),
            final(self).ingredient_seq() == old(self).ingredient_seq(),
            final(self).pantry_state() == old(self).pantry_state(),
            final(self).kb_seq() == old(self).kb_seq(),
            final(self).dir() == old(self).dir(),
            !has_recipe(old(self).recipe_seq(), original_title@) ==> update_failed(
                r,
                "Recipe '"@ + original_title@ + "' does not exist"@,
            ) && final(self).recipe_seq() == old(self).recipe_seq(),
            has_recipe(old(self).recipe_seq(), original_title@) && original_title@
                != new_recipe.title@ && has_recipe(old(self).recipe_seq(), new_recipe.title@)
                ==> update_failed(
                r,
                "Cannot rename: recipe '"@ + new_recipe.title@ + "' already exists"@,
            ) && final(self).recipe_seq() == old(self).recipe_seq(),
            has_recipe(old(self).recipe_seq(), original_title@) && (original_title@
                == new_recipe.title@ || !has_recipe(old(self).recipe_seq(), new_recipe.title@))
                ==> r == Ok::<bool, CookbookError>(true) && final(self).recipe_seq()
                == recipes_without(old(self).recipe_seq(), original_title@).push(new_recipe),
    {
        if self.recipe_index(original_title).is_none() {
            return Err(
                CookbookError::UpdateError(quoted("Recipe '", original_title, "' does not exist")),
            );
        }
        if !same_text(original_title, new_recipe.title.as_str()) && self.recipe_index(
            new_recipe.title.as_str(),
        ).is_some() {
            return Err(
                CookbookError::UpdateError(
                    quoted("Cannot rename: recipe '", new_recipe.title.as_str(), "' already exists"),
                ),
            );
        }
        remove_recipes_titled(&mut self.recipes, original_title);
        self.recipes.push(new_recipe);
        Ok(true)
    }
}

impl DataManager {
    /// [`DataManager::update_ingredient`], then, when it succeeded and a
    /// quantity or a unit is given, [`DataManager::update_pantry_item`] for the
    /// new name. Stops at the first failure.
    pub fn update_ingredient_with_pantry(
        &mut self,
        original_name: &str,
        new_ingredient: Ingredient,
        quantity: Option<Quantity>,
        quantity_type: Option<String>,
    ) -> (r: Result<bool, CookbookError>)
        requires
            old(self).wf(),
        ensures
            final(self).wf(),
            exists|mid: DataManager, r1: Result<bool, CookbookError>|
                updates_with_pantry(
                    *old(self),
                    original_name@,
                    new_ingredient,
                    quantity,
                    quantity_type,
                    mid,
                    r1,
                    *final(self),
                    r,
                ),
    {
        self.update_ingredient_with_pantry_writes(
            original_name,
            new_ingredient,
            quantity,
            quantity_type,
        ).0
    }

    /// [`DataManager::update_ingredient_with_pantry`], also giving the files
    /// that the change rewrites.
    pub fn update_ingredient_with_pantry_writes(
        &mut self,
        original_name: &str,
        new_ingredient: Ingredient,
        quantity: Option<Quantity>,
        quantity_type: Option<String>,
    ) -> (r: (Result<bool, CookbookError>, FileWrites))
        requires
            old(self).wf(),
        ensures
            final(self).wf(),
            writes_cover(*old(self), original_name@, *final(self), r.1),
            exists|mid: DataManager, r1: Result<bool, CookbookError>|
                {
                    &&& updates_with_pantry(
                        *old(self),
                        original_name@,
                        new_ingredient,
                        quantity,
                        quantity_type,
                        mid,
                        r1,
                        *final(self),
                        r.0,
                    )
                    &&& r.1 == change_writes(
                        r1 is Ok,
                        original_name@ != new_ingredient.name@,
                        old(self).pantry_state() is Some,
                        r1 is Ok && (quantity is Some || quantity_type is Some) && r.0 is Ok,
                    )
                },
    {
        let new_name = new_ingredient.name.clone();
        let ghost new_ing = new_ingredient;
        let renamed = !same_text(original_name, new_name.as_str());
        let loaded = self.pantry.is_some();
        let r1 = self.update_ingredient(original_name, new_ingredient);
        let ghost mid = *self;
        assert(updates_ingredient(*old(self), original_name@, new_ing, mid, r1));
        let ok1 = r1.is_ok();
        let step = ok1 && (quantity.is_some() || quantity_type.is_some());
        let r = match r1 {
            Err(e) => Err(e),
            Ok(_) => if step {
                self.update_pantry_item(new_name.as_str(), quantity, quantity_type)
            } else {
                Ok(true)
            },
        };
        let writes = FileWrites {
            pantry: (ok1 && renamed && loaded) || (step && r.is_ok()),
            ingredient: ok1,
            remove_original: ok1 && renamed,
        };
        assert(updates_with_pantry(
            *old(self),
            original_name@,
            new_ing,
            quantity,
            quantity_type,
            mid,
            r1,
            *self,
            r,
        ));
        assert(writes == change_writes(
            r1 is Ok,
            original_name@ != new_ing.name@,
            old(self).pantry_state() is Some,
            r1 is Ok && (quantity is Some || quantity_type is Some) && r is Ok,
        ));
        let out = (r, writes);
        assert(exists|m: DataManager, q1: Result<bool, CookbookError>|
            {
                &&& updates_with_pantry(
                    *old(self),
                    original_name@,
                    new_ing,
                    quantity,
                    quantity_type,
                    m,
                    q1,
                    *self,
                    out.0,
                )
                &&& out.1 == change_writes(
                    q1 is Ok,
                    original_name@ != new_ing.name@,
                    old(self).pantry_state() is Some,
                    q1 is Ok && (quantity is Some || quantity_type is Some) && out.0 is Ok,
                )
            }) by {
            assert(out.0 == r && out.1 == writes);
        }
        out
    }

    /// [`DataManager::update_ingredient`], also giving the files that the
    /// change rewrites.
    pub fn update_ingredient_writes(&mut self, original_name: &str, new_ingredient: Ingredient) -> (r:
        (Result<bool, CookbookError>, FileWrites))
        requires
            old(self).wf(),
        ensures
            final(self).wf(),
            updates_ingredient(*old(self), original_name@, new_ingredient, *final(self), r.0),
            r.1 == change_writes(
                r.0 is Ok,
                original_name@ != new_ingredient.name@,
                old(self).pantry_state() is Some,
                false,
            ),
            writes_cover(*old(self), original_name@, *final(self), r.1),
    {
        let renamed = !same_text(original_name, new_ingredient.name.as_str());
        let loaded = self.pantry.is_some();
        let r = self.update_ingredient(original_name, new_ingredient);
        let ok = r.is_ok();
        (r, FileWrites { pantry: ok && renamed && loaded, ingredient: ok, remove_original: ok && renamed })
    }
}

/// What [`DataManager::update_ingredient_with_pantry`] does, from `a`
/// through `mid` (after the ingredient step, which returned `r1`) to `b`.
pub open spec fn updates_with_pantry(
    a: DataManager,
    original_name: Seq<char>,
    new_ingredient: Ingredient,
    quantity: Option<Quantity>,
    quantity_type: Option<String>,
    mid: DataManager,
    r1: Result<bool, CookbookError>,
    b: DataManager,
    r: Result<bool, CookbookError>,
) -> bool {
    &&& updates_ingredient(a, original_name, new_ingredient, mid, r1)
    &&& match r1 {
        Err(e) => b == mid && r == Err::<bool, CookbookError>(e),
        Ok(_) => if quantity is Some || quantity_type is Some {
            sets_pantry_item(mid, new_ingredient.name@, quantity, quantity_type, b, r)
        } else {
            b == mid && r == Ok::<bool, CookbookError>(true)
        },
    }
}

/// Which files of the data directory an ingredient change rewrites.
#[derive(Debug, Clone, Copy, PartialEq, Eq, Structural)]
pub struct FileWrites {
    /// `pantry.yaml`.
    pub pantry: bool,
    /// The file of the ingredient under its new name.
    pub ingredient: bool,
    /// Removing the file of the ingredient under its original name.
    pub remove_original: bool,
}

/// What an ingredient change rewrites: after a successful create or update
/// the ingredient's file; after a successful renaming update also the
/// removal of the original file and, when a pantry is loaded (its items were
/// renamed), the pantry; and the pantry when a pantry step changed it.
pub open spec fn change_writes(
    ingredient_ok: bool,
    renamed: bool,
    pantry_loaded: bool,
    pantry_step_wrote: bool,
) -> FileWrites {
    FileWrites {
        pantry: (ingredient_ok && renamed && pantry_loaded) || pantry_step_wrote,
        ingredient: ingredient_ok,
        remove_original: ingredient_ok && renamed,
    }
}

/// The writes leave nothing out: a file not rewritten holds the same data as
/// before, and an original file that goes names no ingredient any more.
pub open spec fn writes_cover(a: DataManager, original_name: Seq<char>, b: DataManager, w: FileWrites) -> bool {
    &&& !w.pantry ==> b.pantry_state() == a.pantry_state()
    &&& !w.ingredient ==> b.ingredient_seq() == a.ingredient_seq()
    &&& w.remove_original ==> !has_ingredient(b.ingredient_seq(), original_name)
}

/// The first failure of two steps, or success when both succeeded.
pub open spec fn first_failure(
    r1: Result<bool, CookbookError>,
    r2: Result<bool, CookbookError>,
) -> Result<(), CookbookError> {
    match r1 {
        Err(e) => Err(e),
        Ok(_) => match r2 {
            Err(e) => Err(e),
            Ok(_) => Ok(()),
        },
    }
}

/// What saving the ingredient dialog does, from `a` through `mid` to `b`:
/// a dialog opened blank (its original name is only white space) creates
/// the ingredient, another one updates the ingredient it was opened on; then,
/// whatever the first step gave, an ingredient marked in stock gets its
/// pantry quantity and unit set, and one not in stock leaves the pantry (a new
/// one has nothing to leave). The result is the first failure.
pub open spec fn saves_ingredient_dialog(
    a: DataManager,
    original_name: Seq<char>,
    ingredient: Ingredient,
    in_stock: bool,
    quantity: Option<Quantity>,
    quantity_type: Option<String>,
    mid: DataManager,
    r1: Result<bool, CookbookError>,
    b: DataManager,
    r2: Result<bool, CookbookError>,
) -> bool {
    let adding = trim(original_name).len() == 0;
    &&& adding ==> creates_ingredient(a, ingredient, mid, r1)
    &&& !adding ==> updates_ingredient(a, original_name, ingredient, mid, r1)
    &&& in_stock ==> sets_pantry_item(mid, ingredient.name@, quantity, quantity_type, b, r2)
    &&& !in_stock && !adding ==> removes_pantry_items(mid, ingredient.name@, b, r2)
    &&& !in_stock && adding ==> b == mid && r2 == Ok::<bool, CookbookError>(true)
}

impl DataManager {
    /// Saves the ingredient dialog (see [`saves_ingredient_dialog`]).
    pub fn save_ingredient_dialog(
        &mut self,
        original_name: &str,
        ingredient: Ingredient,
        in_stock: bool,
        quantity: Option<Quantity>,
        quantity_type: Option<String>,
    ) -> (r: (Result<(), CookbookError>, FileWrites))
        requires
            old(self).wf(),
        ensures
            final(self).wf(),
            writes_cover(*old(self), original_name@, *final(self), r.1),
            exists|mid: DataManager, r1: Result<bool, CookbookError>, r2: Result<bool, CookbookError>|
                {
                    &&& r.1 == change_writes(
                        r1 is Ok,
                        trim(original_name@).len() != 0 && original_name@ != ingredient.name@,
                        old(self).pantry_state() is Some,
                        if in_stock {
                            r2 is Ok
                        } else {
                            trim(original_name@).len() != 0 && r2 == Ok::<bool, CookbookError>(true)
                        },
                    )
                    &&& saves_ingredient_dialog(
                        *old(self),
                        original_name@,
                        ingredient,
                        in_stock,
                        quantity,
                        quantity_type,
                        mid,
                        r1,
                        *final(self),
                        r2,
                    )
                    &&& r.0 == first_failure(r1, r2)
                },
    {
        let ghost ing = ingredient;
        let name = ingredient.name.clone();
        let trimmed = trim_str(original_name);
        let adding = chars_of(trimmed.as_str()).len() == 0;
        let renamed = !adding && !same_text(original_name, name.as_str());
        let loaded = self.pantry.is_some();
        let r1 = if adding {
            self.create_ingredient(ingredient)
        } else {
            self.update_ingredient(original_name, ingredient)
        };
        let ghost mid = *self;
        let r2 = if in_stock {
            self.update_pantry_item(name.as_str(), quantity, quantity_type)
        } else if !adding {
            self.remove_from_pantry(name.as_str())
        } else {
            Ok(true)
        };
        let pantry_step_wrote = if in_stock {
            r2.is_ok()
        } else {
            !adding && match r2 {
                Ok(b) => b,
                Err(_) => false,
            }
        };
        let writes = FileWrites {
            pantry: (r1.is_ok() && renamed && loaded) || pantry_step_wrote,
            ingredient: r1.is_ok(),
            remove_original: r1.is_ok() && renamed,
        };
        assert(saves_ingredient_dialog(
            *old(self),
            original_name@,
            ing,
            in_stock,
            quantity,
            quantity_type,
            mid,
            r1,
            *self,
            r2,
        ));
        let r = match r1 {
            Err(e) => Err(e),
            Ok(_) => match r2 {
                Err(e) => Err(e),
                Ok(_) => Ok(()),
            },
        };
        (r, writes)
    }
}

} // verus!
