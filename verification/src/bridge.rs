//! What the Android app asks of the cookbook: ingredient summaries, new or
//! changed ingredients built from form fields, and pantry changes.

use vstd::prelude::*;
use crate::document::{underscore_spaces, underscored};
use crate::manager::{derefs, group_keys, is_category_of, is_pantry_item_for, pantry_lists, DataManager};
use crate::sorting::{names, strictly_sorted};
use crate::model::{Ingredient, PantryItem, Quantity};
use crate::text::{lowercase, same_text, to_lower};

verus! {

/// Called by the bridge before it loads the cookbook. It sets nothing up:
/// the library does no logging of its own, and this build installs no
/// platform logger.
pub fn init_logging() {
}

/// What the Android app shows of one ingredient.
#[derive(Debug, Clone)]
pub struct IngredientSummary {
    pub name: String,
    pub slug: String,
    pub category: String,
    pub kb: Option<String>,
    pub tags: Option<Vec<String>>,
    pub is_in_stock: bool,
    pub quantity: Option<Quantity>,
    pub quantity_type: Option<String>,
}

/// `s` summarises `ing`: its fields, whether the pantry lists it, and the
/// quantity and unit of its pantry item (none when not listed).
pub open spec fn summarises(dm: DataManager, ing: Ingredient, s: IngredientSummary) -> bool {
    &&& s.name@ == ing.name@
    &&& s.slug@ == ing.slug@
    &&& s.category@ == ing.category@
    &&& s.kb == ing.kb
    &&& (s.tags is Some <==> ing.tags is Some)
    &&& (s.tags is Some ==> s.tags.unwrap()@ == ing.tags.unwrap()@)
    &&& s.is_in_stock == pantry_lists(dm.pantry_state(), ing.name@)
    &&& exists|item: Option<&PantryItem>|
        #![trigger is_pantry_item_for(dm.pantry_state(), ing.name@, item)]
        is_pantry_item_for(dm.pantry_state(), ing.name@, item) && match item {
            Some(x) => s.quantity == x.quantity && (s.quantity_type matches Some(t) && t@
                == x.quantity_type@),
            None => s.quantity is None && s.quantity_type is None,
        }
}

/// A copy of a list of texts.
fn clone_texts(v: &Vec<String>) -> (r: Vec<String>)
    ensures
        r@ == v@,
{
    let mut r: Vec<String> = Vec::new();
    let mut i: usize = 0;
    while i < v.len()
        invariant
            i <= v@.len(),
            r@ == v@.take(i as int),
        decreases v@.len() - i,
    {
        r.push(v[i].clone());
        i = i + 1;
        assert(r@ =~= v@.take(i as int));
    }
    assert(v@.take(i as int) =~= v@);
    r
}

/// A copy of an optional list of texts.
fn clone_tags(t: &Option<Vec<String>>) -> (r: Option<Vec<String>>)
    ensures
        r is Some <==> t is Some,
        r is Some ==> r.unwrap()@ == t.unwrap()@,
{
    match t {
        Some(v) => Some(clone_texts(v)),
        None => None,
    }
}

/// A copy of an optional text.
fn clone_text_opt(t: &Option<String>) -> (r: Option<String>)
    ensures
        r == *t,
{
    match t {
        Some(v) => Some(v.clone()),
        None => None,
    }
}

/// `g` lists the ingredients of this category, strictly sorted by name, and
/// `sums` summarises them in that order.
pub open spec fn group_of(
    dm: DataManager,
    category: Seq<char>,
    sums: Seq<IngredientSummary>,
    g: Seq<&Ingredient>,
) -> bool {
    &&& strictly_sorted(names(g))
    &&& forall|y: &Ingredient|
        #![trigger g.contains(y)]
        g.contains(y) <==> (dm.ingredient_seq().contains(*y) && y.category@ == category)
    &&& g.len() == sums.len()
    &&& forall|j: int| 0 <= j < g.len() ==> summarises(dm, *g[j], #[trigger] sums[j])
}

/// `sums` summarises the ingredients of this category, strictly sorted by
/// name.
pub open spec fn summarises_group(dm: DataManager, category: Seq<char>, sums: Seq<IngredientSummary>) -> bool {
    exists|g: Seq<&Ingredient>| group_of(dm, category, sums, g)
}

/// The summary of one ingredient.
pub fn summarize(dm: &DataManager, ing: &Ingredient) -> (s: IngredientSummary)
    ensures
        summarises(*dm, *ing, s),
{
    let item = dm.get_pantry_item(ing.name.as_str());
    let is_in_stock = dm.is_in_pantry(ing.name.as_str());
    let (quantity, quantity_type) = match item {
        Some(x) => (x.quantity, Some(x.quantity_type.clone())),
        None => (None, None),
    };
    let s = IngredientSummary {
        name: ing.name.clone(),
        slug: ing.slug.clone(),
        category: ing.category.clone(),
        kb: clone_text_opt(&ing.kb),
        tags: clone_tags(&ing.tags),
        is_in_stock,
        quantity,
        quantity_type,
    };
    assert(is_pantry_item_for(dm.pantry_state(), ing.name@, item));
    s
}

/// The summaries of every ingredient, in the order in which they are held.
pub fn all_ingredient_summaries(dm: &DataManager) -> (r: Vec<IngredientSummary>)
    ensures
        r@.len() == dm.ingredient_seq().len(),
        forall|i: int|
            0 <= i < r@.len() ==> summarises(*dm, dm.ingredient_seq()[i], #[trigger] r@[i]),
{
    let all = dm.get_all_ingredients();
    let mut r: Vec<IngredientSummary> = Vec::new();
    let mut i: usize = 0;
    while i < all.len()
        invariant
            all@.len() == dm.ingredient_seq().len(),
            forall|k: int| 0 <= k < all@.len() ==> *all@[k] == dm.ingredient_seq()[k],
            i <= all@.len(),
            r@.len() == i,
            forall|k: int| 0 <= k < i ==> summarises(*dm, dm.ingredient_seq()[k], #[trigger] r@[k]),
        decreases all@.len() - i,
    {
        r.push(summarize(dm, all[i]));
        i = i + 1;
    }
    r
}

/// The summaries grouped by category as in
/// [`DataManager::get_ingredients_by_category`].
pub fn summaries_by_category(dm: &DataManager) -> (r: Vec<(String, Vec<IngredientSummary>)>)
    requires
        dm.wf(),
    ensures
        strictly_sorted(group_keys(r@)),
        forall|t: Seq<char>|
            #![trigger group_keys(r@).contains(t)]
            group_keys(r@).contains(t) <==> is_category_of(dm.ingredient_seq(), t),
        forall|k: int|
            #![trigger r@[k]]
            0 <= k < r@.len() ==> summarises_group(*dm, r@[k].0@, r@[k].1@),
{
    let groups = dm.get_ingredients_by_category();
    let mut r: Vec<(String, Vec<IngredientSummary>)> = Vec::new();
    let mut k: usize = 0;
    while k < groups.len()
        invariant
            dm.wf(),
            k <= groups@.len(),
            strictly_sorted(group_keys(groups@)),
            forall|t: Seq<char>|
                #![trigger group_keys(groups@).contains(t)]
                group_keys(groups@).contains(t) <==> is_category_of(dm.ingredient_seq(), t),
            forall|m: int|
                #![trigger groups@[m]]
                0 <= m < groups@.len() ==> strictly_sorted(names(groups@[m].1@)) && forall|
                    y: &Ingredient,
                |
                    #![trigger groups@[m].1@.contains(y)]
                    groups@[m].1@.contains(y) <==> (dm.ingredient_seq().contains(*y)
                        && y.category@ == groups@[m].0@),
            r@.len() == k,
            forall|m: int|
                #![trigger r@[m]]
                0 <= m < k ==> r@[m].0@ == groups@[m].0@ && r@[m].1@.len() == groups@[m].1@.len()
                    && forall|j: int|
                    0 <= j < r@[m].1@.len() ==> summarises(
                        *dm,
                        *groups@[m].1@[j],
                        #[trigger] r@[m].1@[j],
                    ),
        decreases groups@.len() - k,
    {
        let g = &groups[k].1;
        let mut items: Vec<IngredientSummary> = Vec::new();
        let mut j: usize = 0;
        while j < g.len()
            invariant
                k < groups@.len(),
                *g == groups@[k as int].1,
                j <= g@.len(),
                items@.len() == j,
                forall|a: int| 0 <= a < j ==> summarises(*dm, *g@[a], #[trigger] items@[a]),
            decreases g@.len() - j,
        {
            items.push(summarize(dm, g[j]));
            j = j + 1;
        }
        let key = groups[k].0.clone();
        r.push((key, items));
        k = k + 1;
    }
    assert(group_keys(r@) =~= group_keys(groups@));
    assert forall|k: int|
        #![trigger r@[k]]
        0 <= k < r@.len() implies summarises_group(*dm, r@[k].0@, r@[k].1@) by {
        let g = groups@[k].1@;
        assert(strictly_sorted(names(g)));
        assert(forall|y: &Ingredient|
            #![trigger g.contains(y)]
            g.contains(y) <==> (dm.ingredient_seq().contains(*y) && y.category@ == r@[k].0@));
        assert(g.len() == r@[k].1@.len());
        assert(forall|j: int| 0 <= j < g.len() ==> summarises(*dm, *g[j], #[trigger] r@[k].1@[j]));
        assert(group_of(*dm, r@[k].0@, r@[k].1@, g));
    }
    r
}

/// The slug made from a name: spaces become underscores, then the text is
/// lower-cased.
pub fn slug_from_name(name: &str) -> (s: String)
    ensures
        s@ == lowercase(underscored(name@)),
{
    let u = underscore_spaces(name);
    to_lower(u.as_str())
}

/// Empty text becomes `None`, other text `Some`.
pub fn non_empty(t: String) -> (r: Option<String>)
    ensures
        match r {
            Some(s) => t@.len() != 0 && s == t,
            None => t@.len() == 0,
        },
{
    if crate::text::chars_of(t.as_str()).len() == 0 {
        None
    } else {
        Some(t)
    }
}

/// The ingredient that the Android form describes: the slug is made from the
/// name, an empty knowledge-base slug means none, and there are no
/// translations.
pub fn ingredient_from_form(name: String, category: String, kb_slug: String, tags: Option<
    Vec<String>,
>) -> (ing: Ingredient)
    ensures
        ing.name == name,
        ing.slug@ == lowercase(underscored(name@)),
        ing.category == category,
        match ing.kb {
            Some(k) => kb_slug@.len() != 0 && k == kb_slug,
            None => kb_slug@.len() == 0,
        },
        ing.tags == tags,
        ing.translations is None,
{
    let slug = slug_from_name(name.as_str());
    Ingredient {
        name,
        slug,
        category,
        kb: non_empty(kb_slug),
        tags,
        translations: None,
    }
}

/// What the Android app asks of the pantry for one ingredient.
#[derive(Debug, Clone, PartialEq, Eq)]
pub enum PantryRequest {
    /// Put it in the pantry with this whole quantity (none when the app sent
    /// zero or less) and unit (none when the app sent an empty one).
    Stock(Option<i64>, Option<String>),
    /// Take it out of the pantry.
    Remove,
}

/// The pantry request behind the app's "in stock" switch, quantity and
/// unit.
pub fn pantry_request(add: bool, quantity: i64, unit: String) -> (r: PantryRequest)
    ensures
        !add ==> r == PantryRequest::Remove,
        add ==> r == PantryRequest::Stock(
            if quantity > 0 {
                Some(quantity)
            } else {
                None
            },
            if unit@.len() == 0 {
                None
            } else {
                Some(unit)
            },
        ),
{
    if add {
        let q = if quantity > 0 {
            Some(quantity)
        } else {
            None
        };
        let u = non_empty(unit);
        PantryRequest::Stock(q, u)
    } else {
        PantryRequest::Remove
    }
}

} // verus!
