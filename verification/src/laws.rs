//! Properties that relate several operations of the cookbook.

use vstd::prelude::*;
use crate::app_state::{after_message, holds_text, AppModel, AppMsg};
use crate::forms::{kept_tags, tag_list};
use crate::markup::{
    block_markup, escape_char, escaped, hex_digit, inline_markup, is_escaped_control, is_table_line,
    lemma_escaped_no_angle, lemma_inline_markup_frame, lemma_no_angle_only_inline_tags, lines,
    names_inline_tag, no_angle, no_inline_syntax, only_inline_tags, pango_markup, render, starts_with,
};
use crate::manager::{
    creates_ingredient, derefs, first_item_at, group_keys, has_ingredient, has_recipe, is_category_of, item_holds,
    items_updated, items_without, line_names, not_titled, occurrences, pantry_lists, passes_filter, recipe_matches,
    recipes_without, renamed_items, usage,
    without_ingredient, DataManager,
};
use crate::model::{
    translation_of, CookbookError, Ingredient, Pantry, PantryItem, Quantity, Recipe, RecipeIngredient,
    INFINITY_BITS, ONE_BITS,
};
use crate::text::{
    contains_text, is_space, lemma_text_lt_asymmetric, lemma_trim_idempotent, lowercase, occurs_at, split_on,
    text_lt, trim, trim_end, trim_start,
};
use crate::views::{
    category_rows, category_source, count_occurrences, joint_is_clear, lemma_count_concat,
    first_pantry_item, lemma_count_none, lemma_sort_rows, row_label, row_of, shown_ingredients,
    sorted_by_name, PantryRow,
};
use crate::sorting::{lemma_sorted_unique, names, strictly_sorted, views};

verus! {

/// After a pantry update, the item found for the ingredient (its first item)
/// holds the quantity, unit and date that were written.
pub proof fn lemma_pantry_update_read_back(
    before: Seq<PantryItem>,
    after: Seq<PantryItem>,
    name: Seq<char>,
    quantity: Option<Quantity>,
    unit: Seq<char>,
    today: Seq<char>,
)
    requires
        items_updated(before, after, name, quantity, unit, today),
    ensures
        exists|i: int| first_item_at(after, name, i) && item_holds(after[i], name, quantity, unit, today),
{
    if exists|i: int| first_item_at(before, name, i) {
        let i = choose|i: int| first_item_at(before, name, i);
        assert(first_item_at(after, name, i));
    } else {
        let n = before.len() as int;
        assert forall|j: int| 0 <= j < n implies (#[trigger] after[j]).ingredient@ != name by {
            assert(after[j] == after.drop_last()[j]);
            if before[j].ingredient@ == name {
                lemma_first_item_exists(before, name, j);
            }
        }
        assert(first_item_at(after, name, n));
    }
}

/// Where some item names an ingredient, a first one does.
proof fn lemma_first_item_exists(items: Seq<PantryItem>, name: Seq<char>, j: int)
    requires
        0 <= j < items.len(),
        items[j].ingredient@ == name,
    ensures
        exists|k: int| first_item_at(items, name, k),
    decreases j,
{
    if exists|m: int| 0 <= m < j && (#[trigger] items[m]).ingredient@ == name {
        let m = choose|m: int| 0 <= m < j && (#[trigger] items[m]).ingredient@ == name;
        lemma_first_item_exists(items, name, m);
    } else {
        assert(first_item_at(items, name, j));
    }
}

/// After removing an ingredient from the pantry, the pantry no longer lists it.
pub proof fn lemma_removed_not_listed(p: Pantry, items: Seq<PantryItem>, name: Seq<char>)
    requires
        p.items@ == items_without(items, name),
    ensures
        !pantry_lists(Some(p), name),
{
    broadcast use vstd::seq_lib::group_filter_ensures;
    let pred = |x: PantryItem| x.ingredient@ != name;
    if pantry_lists(Some(p), name) {
        let i = choose|i: int| 0 <= i < p.items@.len() && (#[trigger] p.items@[i]).ingredient@ == name;
        assert(pred(items.filter(pred)[i]));
    }
}

/// Removing an ingredient leaves none with its name, given that names are
/// unique.
pub proof fn lemma_deleted_ingredient_gone(s: Seq<Ingredient>, name: Seq<char>)
    requires
        forall|i: int, j: int| 0 <= i < j < s.len() ==> (#[trigger] s[i]).name@ != (#[trigger] s[j]).name@,
    ensures
        !has_ingredient(without_ingredient(s, name), name),
{
    if has_ingredient(s, name) {
        let i = choose|i: int| 0 <= i < s.len() && (#[trigger] s[i]).name@ == name;
        let r = s.remove(i);
        if has_ingredient(r, name) {
            let k = choose|k: int| 0 <= k < r.len() && (#[trigger] r[k]).name@ == name;
            if k < i {
                assert(r[k] == s[k]);
            } else {
                assert(r[k] == s[k + 1]);
            }
        }
    }
}

/// After a rename, the pantry lists the new name exactly where it listed the
/// old name or the new one, and no longer lists the old name.
pub proof fn lemma_rename_moves_pantry_items(
    items: Seq<PantryItem>,
    from: Seq<char>,
    to: String,
    p: Pantry,
)
    requires
        from != to@,
        p.items@ == renamed_items(items, from, to),
    ensures
        !pantry_lists(Some(p), from),
        pantry_lists(Some(p), to@) <==> (exists|i: int|
            0 <= i < items.len() && ((#[trigger] items[i]).ingredient@ == from
                || items[i].ingredient@ == to@)),
{
    if pantry_lists(Some(p), from) {
        let i = choose|i: int| 0 <= i < p.items@.len() && (#[trigger] p.items@[i]).ingredient@ == from;
        assert(p.items@[i] == crate::manager::renamed_item(items[i], from, to));
    }
    if pantry_lists(Some(p), to@) {
        let i = choose|i: int| 0 <= i < p.items@.len() && (#[trigger] p.items@[i]).ingredient@ == to@;
        assert(p.items@[i] == crate::manager::renamed_item(items[i], from, to));
    }
    if exists|i: int|
        0 <= i < items.len() && ((#[trigger] items[i]).ingredient@ == from || items[i].ingredient@
            == to@) {
        let i = choose|i: int|
            0 <= i < items.len() && ((#[trigger] items[i]).ingredient@ == from
                || items[i].ingredient@ == to@);
        assert(p.items@[i] == crate::manager::renamed_item(items[i], from, to));
    }
}

/// The category list is determined by the ingredients: any two lists that
/// meet the contract of `get_all_ingredient_categories` (such as its result
/// and that of `get_unique_categories`) are the same list.
pub proof fn lemma_category_lists_agree(
    dm: DataManager,
    a: Seq<String>,
    b: Seq<String>,
)
    requires
        strictly_sorted(views(a)),
        strictly_sorted(views(b)),
        forall|t: Seq<char>| views(a).contains(t) <==> is_category_of(dm.ingredient_seq(), t),
        forall|t: Seq<char>| views(b).contains(t) <==> is_category_of(dm.ingredient_seq(), t),
    ensures
        views(a) == views(b),
{
    lemma_sorted_unique(views(a), views(b));
}

/// What a create gives back: after a successful
/// [`DataManager::create_ingredient`], the one ingredient with its name is the
/// ingredient that was created.
pub proof fn lemma_created_ingredient_found(
    a: DataManager,
    ingredient: Ingredient,
    b: DataManager,
    r: Result<bool, CookbookError>,
)
    requires
        b.wf(),
        creates_ingredient(a, ingredient, b, r),
        r is Ok,
    ensures
        has_ingredient(b.ingredient_seq(), ingredient.name@),
        forall|i: int|
            0 <= i < b.ingredient_seq().len() && (#[trigger] b.ingredient_seq()[i]).name@
                == ingredient.name@ ==> b.ingredient_seq()[i] == ingredient,
{
    let n = b.ingredient_seq().len() - 1;
    assert(b.ingredient_seq()[n] == ingredient);
    assert forall|i: int|
        0 <= i < b.ingredient_seq().len() && (#[trigger] b.ingredient_seq()[i]).name@
            == ingredient.name@ implies b.ingredient_seq()[i] == ingredient by {
        if i != n {
            assert(b.ingredient_seq()[i].name@ != b.ingredient_seq()[n].name@);
        }
    }
}

/// What an update gives back: after a successful
/// [`DataManager::update_recipe`], the recipes with the new title are exactly
/// the new recipe, once.
pub proof fn lemma_updated_recipe_found(
    before: Seq<Recipe>,
    original_title: Seq<char>,
    new_recipe: Recipe,
    after: Seq<Recipe>,
)
    requires
        has_recipe(before, original_title),
        original_title == new_recipe.title@ || !has_recipe(before, new_recipe.title@),
        after == recipes_without(before, original_title).push(new_recipe),
    ensures
        after.last() == new_recipe,
        forall|i: int|
            0 <= i < after.len() - 1 ==> (#[trigger] after[i]).title@ != new_recipe.title@,
{
    broadcast use vstd::seq_lib::group_filter_ensures;
    let pred = not_titled(original_title);
    let kept = recipes_without(before, original_title);
    assert forall|i: int| 0 <= i < after.len() - 1 implies (#[trigger] after[i]).title@
        != new_recipe.title@ by {
        assert(after[i] == kept[i]);
        assert(pred(before.filter(pred)[i]));
        assert(kept.contains(kept[i]));
        before.lemma_filter_contains_rev(pred, kept[i]);
    }
}

/// With the in-stock switch on, every ingredient the pantry filter keeps is
/// listed in the pantry.
pub proof fn lemma_in_stock_filter_keeps_stock(
    dm: DataManager,
    search: Seq<char>,
    categories: Seq<String>,
    lang: Seq<char>,
)
    ensures
        forall|k: int|
            0 <= k < shown_ingredients(dm, search, categories, true, lang).len() ==> pantry_lists(
                dm.pantry_state(),
                (#[trigger] shown_ingredients(dm, search, categories, true, lang)[k]).name@,
            ),
{
    broadcast use vstd::seq_lib::group_filter_ensures;
}

/// A recipe whose title contains the search text (both lower-cased) is
/// among the recipes that the search finds.
pub proof fn lemma_search_finds_title(dm: DataManager, query: Seq<char>, i: int)
    requires
        0 <= i < dm.recipe_seq().len(),
        contains_text(lowercase(dm.recipe_seq()[i].title@), lowercase(query)),
    ensures
        dm.recipe_seq().filter(|x: Recipe| recipe_matches(x, lowercase(query))).contains(
            dm.recipe_seq()[i],
        ),
{
    broadcast use vstd::seq_lib::group_filter_ensures;
    assert(recipe_matches(dm.recipe_seq()[i], lowercase(query)));
}

/// Every group of the pantry list is sorted by name and holds exactly the
/// rows of the shown ingredients of its category.
pub proof fn lemma_category_rows_sorted(
    dm: DataManager,
    shown: Seq<Ingredient>,
    category: Seq<char>,
    lang: Seq<char>,
)
    ensures
        sorted_by_name(category_rows(dm, shown, category, lang)),
        category_rows(dm, shown, category, lang).to_multiset() == category_source(
            dm,
            shown,
            category,
            lang,
        ).to_multiset(),
{
    lemma_sort_rows(category_source(dm, shown, category, lang));
}

/// Selecting a pantry category shows it among the selected ones, and
/// deselecting it afterwards leaves it out.
pub proof fn lemma_toggle_category(a: AppModel, b: AppModel, c: AppModel, category: String)
    requires
        after_message(a, AppMsg::TogglePantryCategory(category, true), b),
        after_message(b, AppMsg::TogglePantryCategory(category, false), c),
    ensures
        holds_text(b.selected_pantry_categories@, category@),
        !holds_text(c.selected_pantry_categories@, category@),
{
    broadcast use vstd::seq_lib::group_filter_ensures;
    if !holds_text(a.selected_pantry_categories@, category@) {
        let n = a.selected_pantry_categories@.len() as int;
        assert(b.selected_pantry_categories@[n] == category);
    }
    let pred = |x: String| x@ != category@;
    if holds_text(c.selected_pantry_categories@, category@) {
        let i = choose|i: int|
            0 <= i < c.selected_pantry_categories@.len() && (#[trigger] c.selected_pantry_categories@[i])@
                == category@;
        assert(pred(b.selected_pantry_categories@.filter(pred)[i]));
    }
}

/// No tag read from a comma-separated text is empty.
pub proof fn lemma_tags_not_empty(s: Seq<char>)
    ensures
        forall|k: int| 0 <= k < tag_list(s).len() ==> (#[trigger] tag_list(s)[k]).len() > 0,
{
    lemma_kept_tags_not_empty(split_on(s, ','));
}

proof fn lemma_kept_tags_not_empty(ps: Seq<Seq<char>>)
    ensures
        forall|k: int| 0 <= k < kept_tags(ps).len() ==> (#[trigger] kept_tags(ps)[k]).len() > 0,
    decreases ps.len(),
{
    if ps.len() > 0 {
        lemma_kept_tags_not_empty(ps.drop_last());
        let r = kept_tags(ps.drop_last());
        let t = trim(ps.last());
        if t.len() != 0 {
            assert forall|k: int| 0 <= k < kept_tags(ps).len() implies (#[trigger] kept_tags(
                ps,
            )[k]).len() > 0 by {
                if k < r.len() {
                    assert(kept_tags(ps)[k] == r[k]);
                }
            }
        }
    }
}

/// Escaped text holds none of the characters that markup gives a meaning:
/// no `<`, `>`, `"` or `'` (an `&` only opens an entity).
pub proof fn lemma_escaped_has_no_markup(s: Seq<char>)
    ensures
        forall|i: int|
            0 <= i < escaped(s).len() ==> {
                let c = #[trigger] escaped(s)[i];
                c != '<' && c != '>' && c != '"' && c != '\''
            },
    decreases s.len(),
{
    if s.len() > 0 {
        lemma_escaped_has_no_markup(s.drop_last());
        let a = escaped(s.drop_last());
        let b = escape_char(s.last());
        assert forall|i: int| 0 <= i < b.len() implies {
            let c = #[trigger] b[i];
            c != '<' && c != '>' && c != '"' && c != '\''
        } by {
            let n = s.last() as u32;
            if is_escaped_control(n) && n >= 16 {
                assert(hex_digit(n / 16) != '<' && hex_digit(n % 16) != '<');
            }
        }
        assert forall|i: int| 0 <= i < escaped(s).len() implies {
            let c = #[trigger] escaped(s)[i];
            c != '<' && c != '>' && c != '"' && c != '\''
        } by {
            if i < a.len() {
                assert(escaped(s)[i] == a[i]);
            } else {
                assert(escaped(s)[i] == b[i - a.len()]);
            }
        }
    }
}

/// Whether an ingredient is in category `c`.
pub open spec fn in_category(c: Seq<char>) -> spec_fn(Ingredient) -> bool {
    |x: Ingredient| x.category@ == c
}

/// The number of members of all groups together.
pub open spec fn total_size(g: Seq<(String, Vec<&Ingredient>)>) -> int
    decreases g.len(),
{
    if g.len() == 0 {
        0
    } else {
        total_size(g.drop_last()) + g.last().1@.len()
    }
}

/// The number of ingredients of `s` in each of the categories `keys`,
/// added up.
pub open spec fn category_total(keys: Seq<Seq<char>>, s: Seq<Ingredient>) -> int
    decreases keys.len(),
{
    if keys.len() == 0 {
        0
    } else {
        category_total(keys.drop_last(), s) + s.filter(in_category(keys.last())).len()
    }
}

/// How many of `keys` are `c`.
pub open spec fn hits(keys: Seq<Seq<char>>, c: Seq<char>) -> int
    decreases keys.len(),
{
    if keys.len() == 0 {
        0
    } else {
        hits(keys.drop_last(), c) + if keys.last() == c {
            1int
        } else {
            0int
        }
    }
}

/// No two ingredients of `s` have the same name.
pub open spec fn unique_names(s: Seq<Ingredient>) -> bool {
    forall|i: int, j: int| 0 <= i < j < s.len() ==> (#[trigger] s[i]).name@ != (#[trigger] s[j]).name@
}

/// Keeping some ingredients keeps the names unique.
proof fn lemma_filter_unique_names(s: Seq<Ingredient>, p: spec_fn(Ingredient) -> bool)
    requires
        unique_names(s),
    ensures
        unique_names(s.filter(p)),
    decreases s.len(),
{
    broadcast use vstd::seq_lib::group_filter_ensures;
    if s.len() > 0 {
        let init = s.drop_last();
        let x = s.last();
        assert(unique_names(init)) by {
            assert forall|i: int, j: int| 0 <= i < j < init.len() implies (#[trigger] init[i]).name@
                != (#[trigger] init[j]).name@ by {
                assert(init[i] == s[i] && init[j] == s[j]);
            }
        }
        lemma_filter_unique_names(init, p);
        assert(init.push(x) =~= s);
        init.lemma_filter_push(x, p);
        if p(x) {
            let f = init.filter(p);
            assert forall|i: int, j: int|
                0 <= i < j < f.push(x).len() implies (#[trigger] f.push(x)[i]).name@ != (
            #[trigger] f.push(x)[j]).name@ by {
                if j == f.len() {
                    assert(f.contains(f[i]));
                    init.lemma_filter_contains_rev(p, f[i]);
                    let m = choose|m: int| 0 <= m < init.len() && init[m] == f[i];
                    assert(s[m] == f[i] && s[s.len() - 1] == x);
                } else {
                    assert(f.push(x)[i] == f[i] && f.push(x)[j] == f[j]);
                }
            }
        }
    }
}

/// Unique names mean no ingredient occurs twice.
proof fn lemma_unique_names_no_duplicates(s: Seq<Ingredient>)
    requires
        unique_names(s),
    ensures
        s.no_duplicates(),
{
    assert forall|i: int, j: int| 0 <= i < s.len() && 0 <= j < s.len() && i != j implies s[i]
        != s[j] by {
        if i < j {
            assert(s[i].name@ != s[j].name@);
        } else {
            assert(s[j].name@ != s[i].name@);
        }
    }
}

/// Two sequences without duplicates that hold the same elements hold them
/// equally often.
proof fn lemma_same_elements_same_multiset(a: Seq<Ingredient>, b: Seq<Ingredient>)
    requires
        a.no_duplicates(),
        b.no_duplicates(),
        forall|x: Ingredient| a.contains(x) <==> b.contains(x),
    ensures
        a.to_multiset() == b.to_multiset(),
{
    broadcast use vstd::seq_lib::group_to_multiset_ensures;
    broadcast use vstd::multiset::group_multiset_axioms;
    a.lemma_multiset_has_no_duplicates();
    b.lemma_multiset_has_no_duplicates();
    assert forall|x: Ingredient| a.to_multiset().count(x) == b.to_multiset().count(x) by {
        if a.contains(x) {
            assert(a.to_multiset().contains(x) && b.to_multiset().contains(x));
        } else {
            assert(!b.contains(x));
        }
    }
    assert(a.to_multiset() =~= b.to_multiset());
}

/// Adding an ingredient adds it to the count of every key that is its
/// category.
proof fn lemma_category_total_push(keys: Seq<Seq<char>>, s: Seq<Ingredient>, x: Ingredient)
    ensures
        category_total(keys, s.push(x)) == category_total(keys, s) + hits(keys, x.category@),
    decreases keys.len(),
{
    if keys.len() > 0 {
        lemma_category_total_push(keys.drop_last(), s, x);
        s.lemma_filter_push(x, in_category(keys.last()));
    }
}

/// A key that occurs once among distinct keys is hit once; one that does
/// not occur is not hit.
proof fn lemma_hits(keys: Seq<Seq<char>>, c: Seq<char>)
    requires
        forall|i: int, j: int| 0 <= i < j < keys.len() ==> keys[i] != keys[j],
    ensures
        hits(keys, c) == if keys.contains(c) {
            1int
        } else {
            0int
        },
    decreases keys.len(),
{
    if keys.len() > 0 {
        let init = keys.drop_last();
        assert forall|i: int, j: int| 0 <= i < j < init.len() implies init[i] != init[j] by {
            assert(init[i] == keys[i] && init[j] == keys[j]);
        }
        lemma_hits(init, c);
        if keys.last() == c {
            if init.contains(c) {
                let m = choose|m: int| 0 <= m < init.len() && init[m] == c;
                assert(keys[m] == keys[keys.len() - 1]);
            }
        } else {
            if keys.contains(c) {
                let m = choose|m: int| 0 <= m < keys.len() && keys[m] == c;
                assert(init[m] == c);
            }
            if init.contains(c) {
                let m = choose|m: int| 0 <= m < init.len() && init[m] == c;
                assert(keys[m] == c);
            }
        }
    }
}

/// Counting the ingredients of every category that occurs counts each
/// ingredient once.
proof fn lemma_category_total(keys: Seq<Seq<char>>, s: Seq<Ingredient>)
    requires
        forall|i: int, j: int| 0 <= i < j < keys.len() ==> keys[i] != keys[j],
        forall|i: int| 0 <= i < s.len() ==> keys.contains(#[trigger] s[i].category@),
    ensures
        category_total(keys, s) == s.len(),
    decreases s.len(),
{
    if s.len() == 0 {
        lemma_category_total_empty(keys, s);
    } else {
        let init = s.drop_last();
        assert forall|i: int| 0 <= i < init.len() implies keys.contains(
            #[trigger] init[i].category@,
        ) by {
            assert(init[i] == s[i]);
        }
        lemma_category_total(keys, init);
        lemma_category_total_push(keys, init, s.last());
        assert(init.push(s.last()) =~= s);
        assert(keys.contains(s[s.len() - 1].category@));
        lemma_hits(keys, s.last().category@);
    }
}

proof fn lemma_category_total_empty(keys: Seq<Seq<char>>, s: Seq<Ingredient>)
    requires
        s.len() == 0,
    ensures
        category_total(keys, s) == 0,
    decreases keys.len(),
{
    broadcast use vstd::seq_lib::group_filter_ensures;
    if keys.len() > 0 {
        lemma_category_total_empty(keys.drop_last(), s);
    }
}

/// The sizes of groups that each hold as many as their category has add
/// up to the count over their categories.
proof fn lemma_total_size(g: Seq<(String, Vec<&Ingredient>)>, s: Seq<Ingredient>)
    requires
        forall|k: int|
            0 <= k < g.len() ==> (#[trigger] g[k]).1@.len() == s.filter(in_category(g[k].0@)).len(),
    ensures
        total_size(g) == category_total(group_keys(g), s),
    decreases g.len(),
{
    if g.len() > 0 {
        let init = g.drop_last();
        assert forall|k: int|
            0 <= k < init.len() implies (#[trigger] init[k]).1@.len() == s.filter(
            in_category(init[k].0@),
        ).len() by {
            assert(init[k] == g[k]);
        }
        lemma_total_size(init, s);
        assert(group_keys(g).drop_last() =~= group_keys(init));
        assert(group_keys(g).last() == g.last().0@);
    }
}

/// `get_ingredients_by_category` splits the ingredients: each group holds
/// exactly the ingredients of its category, each once (a permutation of
/// them), and the group sizes add up to the number of ingredients.
pub proof fn lemma_groups_partition(dm: DataManager, g: Seq<(String, Vec<&Ingredient>)>)
    requires
        dm.wf(),
        strictly_sorted(group_keys(g)),
        forall|t: Seq<char>|
            #![trigger group_keys(g).contains(t)]
            group_keys(g).contains(t) <==> is_category_of(dm.ingredient_seq(), t),
        forall|k: int|
            #![trigger g[k]]
            0 <= k < g.len() ==> strictly_sorted(names(g[k].1@)) && forall|y: &Ingredient|
                #![trigger g[k].1@.contains(y)]
                g[k].1@.contains(y) <==> (dm.ingredient_seq().contains(*y) && y.category@
                    == g[k].0@),
    ensures
        forall|k: int|
            0 <= k < g.len() ==> derefs((#[trigger] g[k]).1@).to_multiset() == dm.ingredient_seq().filter(
                in_category(g[k].0@),
            ).to_multiset(),
        total_size(g) == dm.ingredient_seq().len(),
{
    broadcast use vstd::seq_lib::group_filter_ensures;
    broadcast use vstd::seq_lib::group_to_multiset_ensures;
    let s = dm.ingredient_seq();
    assert(unique_names(s));
    assert forall|k: int|
        0 <= k < g.len() implies derefs((#[trigger] g[k]).1@).to_multiset() == s.filter(
        in_category(g[k].0@),
    ).to_multiset() && g[k].1@.len() == s.filter(in_category(g[k].0@)).len() by {
        let c = g[k].0@;
        let p = in_category(c);
        let grp = g[k].1@;
        let a = derefs(grp);
        let b = s.filter(p);
        assert(strictly_sorted(names(grp)));
        assert(unique_names(a)) by {
            assert forall|i: int, j: int| 0 <= i < j < a.len() implies (#[trigger] a[i]).name@
                != (#[trigger] a[j]).name@ by {
                assert(text_lt(names(grp)[i], names(grp)[j]));
                lemma_text_lt_asymmetric(names(grp)[i], names(grp)[j]);
            }
        }
        lemma_unique_names_no_duplicates(a);
        lemma_filter_unique_names(s, p);
        lemma_unique_names_no_duplicates(b);
        assert forall|x: Ingredient| a.contains(x) <==> b.contains(x) by {
            if a.contains(x) {
                let i = choose|i: int| 0 <= i < a.len() && a[i] == x;
                assert(grp.contains(grp[i]));
                assert(s.contains(*grp[i]) && grp[i].category@ == c);
                let m = choose|m: int| 0 <= m < s.len() && s[m] == x;
                assert(p(s[m]));
            }
            if b.contains(x) {
                s.lemma_filter_contains_rev(p, x);
                let i = choose|i: int| 0 <= i < b.len() && b[i] == x;
                assert(p(b[i]));
                let y: &Ingredient = &x;
                assert(grp.contains(y));
                let j = choose|j: int| 0 <= j < grp.len() && grp[j] == y;
                assert(a[j] == x);
            }
        }
        lemma_same_elements_same_multiset(a, b);
        assert(a.to_multiset() == b.to_multiset());
        assert(a.len() == grp.len());
        assert(a.to_multiset().len() == a.len());
        assert(b.to_multiset().len() == b.len());
        assert(grp.len() == b.len());
    }
    let keys = group_keys(g);
    assert forall|i: int, j: int| 0 <= i < j < keys.len() implies keys[i] != keys[j] by {
        lemma_text_lt_asymmetric(keys[i], keys[j]);
    }
    assert forall|i: int| 0 <= i < s.len() implies keys.contains(#[trigger] s[i].category@) by {
        assert(is_category_of(s, s[i].category@));
    }
    lemma_category_total(keys, s);
    lemma_total_size(g, s);
}

/// The converted markup of an article is trimmed: trimming it again changes
/// nothing.
pub proof fn lemma_pango_markup_trimmed(md: Seq<char>)
    ensures
        trim(pango_markup(md)) == pango_markup(md),
{
    let (out, in_table) = render(lines(md));
    lemma_trim_idempotent(
        out + (if in_table {
            "</span>\n"@
        } else {
            Seq::empty()
        }),
    );
}


/// `<span`, the start of an opening span tag.
spec fn span_open() -> Seq<char> {
    seq!['<', 's', 'p', 'a', 'n']
}

/// `</span>`, a closing span tag.
spec fn span_close() -> Seq<char> {
    seq!['<', '/', 's', 'p', 'a', 'n', '>']
}

/// How many span tags `s` opens.
spec fn opens(s: Seq<char>) -> nat {
    count_occurrences(s, span_open(), 0)
}

/// How many span tags `s` closes.
spec fn closes(s: Seq<char>) -> nat {
    count_occurrences(s, span_close(), 0)
}

/// Neither tag can start in `u` and end in `v`.
spec fn clear_joint(u: Seq<char>, v: Seq<char>) -> bool {
    ||| u.len() == 0
    ||| v.len() == 0
    ||| {
        let c = u.last();
        c != '<' && c != '/' && c != 's' && c != 'p' && c != 'a' && c != 'n'
    }
    ||| {
        let c = v[0];
        c != '/' && c != 's' && c != 'p' && c != 'a' && c != 'n' && c != '>'
    }
}

/// The span tags of `u + v` are those of `u` and those of `v`.
proof fn lemma_tags_concat(u: Seq<char>, v: Seq<char>)
    requires
        clear_joint(u, v),
    ensures
        opens(u + v) == opens(u) + opens(v),
        closes(u + v) == closes(u) + closes(v),
{
    let o = span_open();
    let c = span_close();
    assert(o.drop_last() =~= seq!['<', 's', 'p', 'a']);
    assert(o.drop_first() =~= seq!['s', 'p', 'a', 'n']);
    assert(c.drop_last() =~= seq!['<', '/', 's', 'p', 'a', 'n']);
    assert(c.drop_first() =~= seq!['/', 's', 'p', 'a', 'n', '>']);
    assert(joint_is_clear(u, v, o));
    assert(joint_is_clear(u, v, c));
    lemma_count_concat(u, v, o);
    lemma_count_concat(u, v, c);
}

/// Text with only inline tags opens and closes no span.
proof fn lemma_inline_tags_no_spans(s: Seq<char>)
    requires
        only_inline_tags(s),
    ensures
        opens(s) == 0,
        closes(s) == 0,
{
    assert forall|i: int| 0 <= i implies !occurs_at(s, span_open(), i) by {
        if occurs_at(s, span_open(), i) {
            let sub = s.subrange(i, i + 5);
            assert(sub[0] == s[i] && sub[1] == s[i + 1]);
            assert(names_inline_tag(s, i));
        }
    }
    assert forall|i: int| 0 <= i implies !occurs_at(s, span_close(), i) by {
        if occurs_at(s, span_close(), i) {
            let sub = s.subrange(i, i + 7);
            assert(sub[0] == s[i] && sub[1] == s[i + 1] && sub[2] == s[i + 2]);
            assert(names_inline_tag(s, i));
        }
    }
    lemma_count_none(s, span_open(), 0);
    lemma_count_none(s, span_close(), 0);
}

/// Text without `<` opens and closes no span.
proof fn lemma_no_angle_no_spans(s: Seq<char>)
    requires
        no_angle(s),
    ensures
        opens(s) == 0,
        closes(s) == 0,
{
    lemma_no_angle_only_inline_tags(s);
    lemma_inline_tags_no_spans(s);
}

/// An opening span tag: `<span`, then attributes without `<`, then `>`.
proof fn lemma_open_tag(rest: Seq<char>)
    requires
        no_angle(rest),
        rest.len() > 0,
        rest[0] == ' ',
    ensures
        opens(span_open() + rest) == 1,
        closes(span_open() + rest) == 0,
{
    let o = span_open();
    assert forall|i: int| 1 <= i implies !occurs_at(o, o, i) by {}
    lemma_count_none(o, o, 1);
    assert(o.subrange(0, 5) =~= o);
    assert(occurs_at(o, o, 0));
    assert forall|i: int| 0 <= i implies !occurs_at(o, span_close(), i) by {}
    lemma_count_none(o, span_close(), 0);
    lemma_no_angle_no_spans(rest);
    lemma_tags_concat(o, rest);
}

/// `</span>` closes one span and opens none.
proof fn lemma_close_tag()
    ensures
        opens(span_close()) == 0,
        closes(span_close()) == 1,
{
    let c = span_close();
    assert forall|i: int| 1 <= i implies !occurs_at(c, c, i) by {}
    lemma_count_none(c, c, 1);
    assert(c.subrange(0, 7) =~= c);
    assert(occurs_at(c, c, 0));
    assert forall|i: int| 0 <= i implies !occurs_at(c, span_open(), i) by {
        if occurs_at(c, span_open(), i) {
            let sub = c.subrange(i, i + 5);
            assert(sub[0] == c[i] && sub[1] == c[i + 1]);
        }
    }
    lemma_count_none(c, span_open(), 0);
}

/// A heading line: its span tags stay whole through the inline markup.
proof fn lemma_heading_line(rest: Seq<char>, e: Seq<char>)
    requires
        no_angle(rest),
        no_inline_syntax(span_open() + rest),
        rest.len() > 0,
        rest[0] == ' ',
        rest.last() == '>',
        no_angle(e),
    ensures
        opens(inline_markup(span_open() + rest + e + span_close())) == 1,
        closes(inline_markup(span_open() + rest + e + span_close())) == 1,
{
    let h = span_open() + rest;
    let c = span_close();
    assert(no_inline_syntax(c));
    lemma_no_angle_only_inline_tags(e);
    let m = lemma_inline_markup_frame(h, e, c);
    lemma_open_tag(rest);
    lemma_close_tag();
    lemma_inline_tags_no_spans(m);
    assert(h.last() == '>');
    lemma_tags_concat(h, m);
    lemma_tags_concat(h + m, c);
}

/// A line without span tags gains none through the inline markup.
proof fn lemma_plain_line(y: Seq<char>)
    requires
        no_angle(y),
    ensures
        opens(inline_markup(y)) == 0,
        closes(inline_markup(y)) == 0,
{
    let empty = Seq::<char>::empty();
    lemma_no_angle_only_inline_tags(y);
    let m = lemma_inline_markup_frame(empty, y, empty);
    assert(empty + y + empty =~= y);
    assert(empty + m + empty =~= m);
    lemma_inline_tags_no_spans(m);
}

/// The markup of a non-table line opens as many spans as it closes.
proof fn lemma_block_line_balanced(t: Seq<char>)
    ensures
        opens(inline_markup(block_markup(t))) == closes(inline_markup(block_markup(t))),
{
    reveal_strlit("<span size='large' weight='bold'>");
    reveal_strlit("<span size='x-large' weight='bold'>");
    reveal_strlit("<span size='xx-large' weight='bold'>");
    reveal_strlit(" size='large' weight='bold'>");
    reveal_strlit(" size='x-large' weight='bold'>");
    reveal_strlit(" size='xx-large' weight='bold'>");
    reveal_strlit("</span>");
    reveal_strlit("\u{2022} ");
    assert("</span>"@ =~= span_close());
    if starts_with(t, "### "@) {
        let rest = " size='large' weight='bold'>"@;
        let e = escaped(t.subrange(4, t.len() as int));
        assert("<span size='large' weight='bold'>"@ =~= span_open() + rest);
        lemma_escaped_no_angle(t.subrange(4, t.len() as int));
        lemma_heading_line(rest, e);
    } else if starts_with(t, "## "@) {
        let rest = " size='x-large' weight='bold'>"@;
        let e = escaped(t.subrange(3, t.len() as int));
        assert("<span size='x-large' weight='bold'>"@ =~= span_open() + rest);
        lemma_escaped_no_angle(t.subrange(3, t.len() as int));
        lemma_heading_line(rest, e);
    } else if starts_with(t, "# "@) {
        let rest = " size='xx-large' weight='bold'>"@;
        let e = escaped(t.subrange(2, t.len() as int));
        assert("<span size='xx-large' weight='bold'>"@ =~= span_open() + rest);
        lemma_escaped_no_angle(t.subrange(2, t.len() as int));
        lemma_heading_line(rest, e);
    } else if starts_with(t, "* "@) || starts_with(t, "- "@) {
        let e = escaped(t.subrange(2, t.len() as int));
        lemma_escaped_no_angle(t.subrange(2, t.len() as int));
        let y = "\u{2022} "@ + e;
        assert(no_angle(y)) by {
            assert forall|i: int| 0 <= i < y.len() implies #[trigger] y[i] != '<' by {
                if i >= 2 {
                    assert(y[i] == e[i - 2]);
                }
            }
        }
        lemma_plain_line(y);
    } else {
        lemma_escaped_no_angle(t);
        lemma_plain_line(escaped(t));
    }
}

/// A white-space character is no `<` and can neither end nor start a span
/// tag in text next to it.
proof fn lemma_space_char(c: char)
    requires
        is_space(c),
    ensures
        no_angle(seq![c]),
        c != '<' && c != '/' && c != 's' && c != 'p' && c != 'a' && c != 'n' && c != '>',
{
}

/// Trimming leading white space keeps the span tags.
proof fn lemma_trim_start_tags(s: Seq<char>)
    ensures
        opens(trim_start(s)) == opens(s),
        closes(trim_start(s)) == closes(s),
    decreases s.len(),
{
    if s.len() > 0 && is_space(s[0]) {
        lemma_trim_start_tags(s.drop_first());
        lemma_space_char(s[0]);
        lemma_no_angle_no_spans(seq![s[0]]);
        assert(s =~= seq![s[0]] + s.drop_first());
        lemma_tags_concat(seq![s[0]], s.drop_first());
    }
}

/// Trimming trailing white space keeps the span tags.
proof fn lemma_trim_end_tags(s: Seq<char>)
    ensures
        opens(trim_end(s)) == opens(s),
        closes(trim_end(s)) == closes(s),
    decreases s.len(),
{
    if s.len() > 0 && is_space(s.last()) {
        lemma_trim_end_tags(s.drop_last());
        lemma_space_char(s.last());
        lemma_no_angle_no_spans(seq![s.last()]);
        assert(s =~= s.drop_last() + seq![s.last()]);
        lemma_tags_concat(s.drop_last(), seq![s.last()]);
    }
}

/// `</span>` and a line feed.
proof fn lemma_close_line()
    ensures
        opens(span_close() + seq!['\n']) == 0,
        closes(span_close() + seq!['\n']) == 1,
{
    lemma_close_tag();
    lemma_no_angle_no_spans(seq!['\n']);
    lemma_tags_concat(span_close(), seq!['\n']);
}

/// `t` followed by a line feed, after `acc`, which is empty or ends a line.
proof fn lemma_add_line(acc: Seq<char>, pre: Seq<char>, t: Seq<char>)
    requires
        acc.len() == 0 || acc.last() == '\n',
        pre.len() == 0 || pre.last() == '\n' || pre.last() == '>',
    ensures
        opens(acc + pre + t + seq!['\n']) == opens(acc) + opens(pre) + opens(t),
        closes(acc + pre + t + seq!['\n']) == closes(acc) + closes(pre) + closes(t),
        (acc + pre + t + seq!['\n']).last() == '\n',
{
    lemma_tags_concat(acc, pre);
    assert((acc + pre).len() == 0 || (acc + pre).last() == '\n' || (acc + pre).last() == '>');
    lemma_tags_concat(acc + pre, t);
    lemma_no_angle_no_spans(seq!['\n']);
    lemma_tags_concat(acc + pre + t, seq!['\n']);
}

/// After any lines, the text opens one more span than it closes exactly
/// when a table is open, and it is empty or ends a line.
proof fn lemma_render_balanced(ls: Seq<Seq<char>>)
    ensures
        ({
            let (out, in_table) = render(ls);
            &&& out.len() == 0 || out.last() == '\n'
            &&& opens(out) == closes(out) + (if in_table {
                1nat
            } else {
                0nat
            })
        }),
    decreases ls.len(),
{
    if ls.len() > 0 {
        lemma_render_balanced(ls.drop_last());
        let acc = render(ls.drop_last());
        let t = trim(ls.last());
        reveal_strlit("<span font_family='monospace'>");
        reveal_strlit(" font_family='monospace'>");
        reveal_strlit("</span>\n");
        assert("</span>\n"@ =~= span_close() + seq!['\n']);
        lemma_close_line();
        if is_table_line(t) {
            let rest = " font_family='monospace'>"@;
            assert("<span font_family='monospace'>"@ =~= span_open() + rest);
            lemma_open_tag(rest);
            let pre = if acc.1 {
                Seq::<char>::empty()
            } else {
                "<span font_family='monospace'>"@
            };
            lemma_escaped_no_angle(t);
            lemma_no_angle_no_spans(escaped(t));
            lemma_no_angle_no_spans(Seq::<char>::empty());
            lemma_add_line(acc.0, pre, escaped(t));
            assert(render(ls) == (acc.0 + pre + escaped(t) + seq!['\n'], true));
        } else {
            let pre = if acc.1 {
                "</span>\n"@
            } else {
                Seq::<char>::empty()
            };
            lemma_block_line_balanced(t);
            lemma_no_angle_no_spans(Seq::<char>::empty());
            lemma_add_line(acc.0, pre, inline_markup(block_markup(t)));
            assert(render(ls) == (acc.0 + pre + inline_markup(block_markup(t)) + seq!['\n'], false));
        }
    }
}

/// The converted markup of an article opens as many spans as it closes:
/// every heading span and every table's monospace span is closed, also when
/// the text ends inside a table.
pub proof fn lemma_pango_markup_balanced(md: Seq<char>)
    ensures
        count_occurrences(pango_markup(md), "<span"@, 0) == count_occurrences(
            pango_markup(md),
            "</span>"@,
            0,
        ),
{
    reveal_strlit("<span");
    reveal_strlit("</span>");
    reveal_strlit("</span>\n");
    assert("<span"@ =~= span_open());
    assert("</span>"@ =~= span_close());
    assert("</span>\n"@ =~= span_close() + seq!['\n']);
    let (out, in_table) = render(lines(md));
    lemma_render_balanced(lines(md));
    let tail = if in_table {
        "</span>\n"@
    } else {
        Seq::<char>::empty()
    };
    lemma_close_line();
    lemma_no_angle_no_spans(Seq::<char>::empty());
    lemma_tags_concat(out, tail);
    let whole = out + tail;
    lemma_trim_start_tags(whole);
    lemma_trim_end_tags(trim_start(whole));
}


/// A recipe is found by a search exactly when the query, compared without
/// case, occurs in its title, in the ingredient of any of its lines, in its
/// instructions or in any of its tags.
pub proof fn lemma_search_membership(dm: DataManager, query: Seq<char>, k: int)
    requires
        0 <= k < dm.recipe_seq().len(),
    ensures
        ({
            let r = dm.recipe_seq()[k];
            let q = lowercase(query);
            dm.recipe_seq().filter(|x: Recipe| recipe_matches(x, lowercase(query))).contains(r) <==> {
                ||| contains_text(lowercase(r.title@), q)
                ||| exists|j: int|
                    0 <= j < r.ingredients@.len() && contains_text(
                        lowercase((#[trigger] r.ingredients@[j]).ingredient@),
                        q,
                    )
                ||| contains_text(lowercase(r.instructions@), q)
                ||| (r.tags is Some && exists|j: int|
                    0 <= j < r.tags.unwrap()@.len() && contains_text(
                        lowercase((#[trigger] r.tags.unwrap()@[j])@),
                        q,
                    ))
            }
        }),
{
    let s = dm.recipe_seq();
    let pred = |x: Recipe| recipe_matches(x, lowercase(query));
    let r = s[k];
    if s.filter(pred).contains(r) {
        let i = choose|i: int| 0 <= i < s.filter(pred).len() && s.filter(pred)[i] == r;
        s.lemma_filter_pred(pred, i);
    }
    if pred(r) {
        s.lemma_filter_contains(pred, k);
    }
}

/// Every recipe with an ingredient line whose ingredient, compared without
/// case, contains the query is found by the search, whichever line it is.
pub proof fn lemma_search_finds_ingredient(dm: DataManager, query: Seq<char>, k: int, j: int)
    requires
        0 <= k < dm.recipe_seq().len(),
        0 <= j < dm.recipe_seq()[k].ingredients@.len(),
        contains_text(lowercase(dm.recipe_seq()[k].ingredients@[j].ingredient@), lowercase(query)),
    ensures
        dm.recipe_seq().filter(|x: Recipe| recipe_matches(x, lowercase(query))).contains(
            dm.recipe_seq()[k],
        ),
{
    lemma_search_membership(dm, query, k);
    let r = dm.recipe_seq()[k];
    assert(contains_text(lowercase(r.ingredients@[j].ingredient@), lowercase(query)));
}

/// An ingredient of the cookbook passes the pantry filters exactly when its
/// name, compared without case, contains the search text (or that is
/// empty), its category is any one of the selected categories (or none is
/// selected), and, with the in-stock switch on, some pantry item is for it.
pub proof fn lemma_filter_membership(
    dm: DataManager,
    search: Seq<char>,
    categories: Seq<String>,
    in_stock_only: bool,
    lang: Seq<char>,
    i: int,
)
    requires
        0 <= i < dm.ingredient_seq().len(),
    ensures
        ({
            let x = dm.ingredient_seq()[i];
            dm.ingredient_seq().filter(
                |y: Ingredient|
                    passes_filter(y, search, categories, in_stock_only, lang, dm.pantry_state()),
            ).contains(x) <==> {
                &&& search.len() == 0 || contains_text(lowercase(x.name@), lowercase(search))
                &&& categories.len() == 0 || exists|k: int|
                    0 <= k < categories.len() && (#[trigger] categories[k])@ == x.category@
                &&& !in_stock_only || (dm.pantry_state() is Some && exists|j: int|
                    0 <= j < dm.pantry_state().unwrap().items@.len()
                        && (#[trigger] dm.pantry_state().unwrap().items@[j]).ingredient@ == x.name@)
            }
        }),
{
    let s = dm.ingredient_seq();
    let pred = |y: Ingredient|
        passes_filter(y, search, categories, in_stock_only, lang, dm.pantry_state());
    let x = s[i];
    if s.filter(pred).contains(x) {
        let m = choose|m: int| 0 <= m < s.filter(pred).len() && s.filter(pred)[m] == x;
        s.lemma_filter_pred(pred, m);
    }
    if pred(x) {
        s.lemma_filter_contains(pred, i);
    }
}

/// With no search text and the in-stock switch off, every ingredient whose
/// category is any one of the selected categories is shown.
pub proof fn lemma_filter_any_selected_category(
    dm: DataManager,
    categories: Seq<String>,
    lang: Seq<char>,
    i: int,
    k: int,
)
    requires
        0 <= i < dm.ingredient_seq().len(),
        0 <= k < categories.len(),
        categories[k]@ == dm.ingredient_seq()[i].category@,
    ensures
        dm.ingredient_seq().filter(
            |y: Ingredient| passes_filter(y, Seq::empty(), categories, false, lang, dm.pantry_state()),
        ).contains(dm.ingredient_seq()[i]),
{
    lemma_filter_membership(dm, Seq::empty(), categories, false, lang, i);
}

/// The name on a pantry row: without a form for the language, the
/// ingredient's name; with one, the plural form exactly when the ingredient
/// is in stock with a quantity that is above zero and has a unit, or is
/// above one and has none (so exactly one of something without a unit is
/// singular). The row's quantity and unit are those of the ingredient's
/// first pantry item, an empty unit shown as none.
pub proof fn lemma_pantry_row_name(dm: DataManager, ing: Ingredient, lang: Seq<char>)
    ensures
        ({
            let row = row_of(dm, ing, lang);
            let plural = row.in_stock && match row.quantity {
                Some(q) => match row.unit {
                    Some(_) => 0 < q.bits && q.bits <= INFINITY_BITS,
                    None => ONE_BITS < q.bits && q.bits <= INFINITY_BITS,
                },
                None => false,
            };
            &&& row.in_stock == pantry_lists(dm.pantry_state(), ing.name@)
            &&& match first_pantry_item(dm.pantry_state(), ing.name@) {
                Some(it) => row.quantity == it.quantity && (row.unit is None <==> it.quantity_type@.len()
                    == 0) && (row.unit is Some ==> row.unit.unwrap() == it.quantity_type),
                None => row.quantity is None && row.unit is None,
            }
            &&& match translation_of(ing, lang) {
                Some(f) => row.name == (if plural {
                    f.other
                } else {
                    f.one
                }),
                None => row.name == ing.name,
            }
        }),
{
}

/// A pantry row with exactly one of something and no unit shows the
/// singular form.
pub proof fn lemma_pantry_row_one_is_singular(dm: DataManager, ing: Ingredient, lang: Seq<char>)
    requires
        row_of(dm, ing, lang).quantity == Some(Quantity { bits: ONE_BITS }),
        row_of(dm, ing, lang).unit is None,
        translation_of(ing, lang) is Some,
    ensures
        row_of(dm, ing, lang).name == translation_of(ing, lang).unwrap().one,
{
    lemma_pantry_row_name(dm, ing, lang);
}

/// The label of a pantry row in stock with a quantity starts with the name,
/// then the quantity text in brackets (followed by the unit when there is
/// one), and ends with a check mark; one in stock without a quantity has a
/// question mark, and one not in stock its name alone.
pub proof fn lemma_pantry_label_shows_quantity(row: PantryRow, qt: Seq<char>)
    ensures
        row.in_stock && row.quantity is Some ==> {
            let l = row_label(row, qt);
            &&& occurs_at(l, row.name@ + " ("@ + qt, 0)
            &&& match row.unit {
                Some(u) => l == row.name@ + " ("@ + qt + " "@ + u@ + ")"@ + " ✅"@,
                None => l == row.name@ + " ("@ + qt + ")"@ + " ✅"@,
            }
        },
        row.in_stock && row.quantity is None ==> row_label(row, qt) == row.name@ + " ❓"@,
        !row.in_stock ==> row_label(row, qt) == row.name@,
{
    if row.in_stock && row.quantity is Some {
        let l = row_label(row, qt);
        let head = row.name@ + " ("@ + qt;
        match row.unit {
            Some(u) => {
                assert(l =~= row.name@ + " ("@ + qt + " "@ + u@ + ")"@ + " ✅"@);
                assert(l =~= head + (" "@ + u@ + ")"@ + " ✅"@));
            },
            None => {
                assert(l =~= row.name@ + " ("@ + qt + ")"@ + " ✅"@);
                assert(l =~= head + (")"@ + " ✅"@));
            },
        }
        assert(l.subrange(0, head.len() as int) =~= head);
    }
}

/// How many of `lines` name exactly this ingredient.
pub open spec fn lines_named(lines: Seq<RecipeIngredient>, name: Seq<char>) -> nat
    decreases lines.len(),
{
    if lines.len() == 0 {
        0
    } else {
        lines_named(lines.drop_last(), name) + (if lines.last().ingredient@ == name {
            1nat
        } else {
            0nat
        })
    }
}

proof fn lemma_occurrences_count_lines(lines: Seq<RecipeIngredient>, name: Seq<char>)
    ensures
        lines.filter(line_names(name)).len() == lines_named(lines, name),
        lines_named(lines, name) > 0 <==> exists|j: int|
            0 <= j < lines.len() && (#[trigger] lines[j]).ingredient@ == name,
    decreases lines.len(),
{
    reveal(Seq::filter);
    if lines.len() > 0 {
        lemma_occurrences_count_lines(lines.drop_last(), name);
        if exists|j: int| 0 <= j < lines.len() && (#[trigger] lines[j]).ingredient@ == name {
            let j = choose|j: int| 0 <= j < lines.len() && (#[trigger] lines[j]).ingredient@ == name;
            if j < lines.len() - 1 {
                assert(lines.drop_last()[j] == lines[j]);
            }
        }
        if exists|j: int|
            0 <= j < lines.drop_last().len() && (#[trigger] lines.drop_last()[j]).ingredient@ == name {
            let j = choose|j: int|
                0 <= j < lines.drop_last().len() && (#[trigger] lines.drop_last()[j]).ingredient@ == name;
            assert(lines[j] == lines.drop_last()[j]);
        }
    }
}

/// How many lines of a recipe name an ingredient is how many lines have
/// exactly that name as their ingredient.
proof fn lemma_occurrences_exact(r: Recipe, name: Seq<char>)
    ensures
        occurrences(r, name) == lines_named(r.ingredients@, name),
        occurrences(r, name) > 0 <==> exists|j: int|
            0 <= j < r.ingredients@.len() && (#[trigger] r.ingredients@[j]).ingredient@ == name,
{
    lemma_occurrences_count_lines(r.ingredients@, name);
}

/// The usage of an ingredient after one more recipe is the usage before,
/// then that recipe once for each of its lines whose ingredient is exactly
/// the name.
pub proof fn lemma_usage_counts_exact_lines(rs: Seq<Recipe>, r: Recipe, name: Seq<char>)
    ensures
        usage(rs.push(r), name) == usage(rs, name) + Seq::new(
            lines_named(r.ingredients@, name),
            |_i: int| r,
        ),
{
    assert(rs.push(r).drop_last() =~= rs);
    assert(rs.push(r).last() == r);
    lemma_occurrences_exact(r, name);
    assert(Seq::new(occurrences(r, name), |_i: int| r) =~= Seq::new(
        lines_named(r.ingredients@, name),
        |_i: int| r,
    ));
}

/// A recipe is in the usage of an ingredient exactly when it is one of the
/// recipes and has a line whose ingredient is exactly that name.
pub proof fn lemma_usage_membership(rs: Seq<Recipe>, name: Seq<char>, r: Recipe)
    ensures
        usage(rs, name).contains(r) <==> rs.contains(r) && exists|j: int|
            0 <= j < r.ingredients@.len() && (#[trigger] r.ingredients@[j]).ingredient@ == name,
    decreases rs.len(),
{
    if rs.len() > 0 {
        let init = rs.drop_last();
        let last = rs.last();
        lemma_usage_membership(init, name, r);
        lemma_occurrences_exact(last, name);
        let n = occurrences(last, name);
        let tail = Seq::new(n, |_i: int| last);
        assert(usage(rs, name) == usage(init, name) + tail);
        assert(rs =~= init.push(last));
        if usage(rs, name).contains(r) {
            let i = choose|i: int| 0 <= i < usage(rs, name).len() && usage(rs, name)[i] == r;
            if i < usage(init, name).len() {
                assert(usage(init, name)[i] == r);
                assert(usage(init, name).contains(r));
                let m = choose|m: int| 0 <= m < init.len() && init[m] == r;
                assert(rs[m] == r);
            } else {
                assert(tail[i - usage(init, name).len()] == last);
                assert(rs[rs.len() - 1] == r);
            }
        }
        if rs.contains(r) && exists|j: int|
            0 <= j < r.ingredients@.len() && (#[trigger] r.ingredients@[j]).ingredient@ == name {
            let m = choose|m: int| 0 <= m < rs.len() && rs[m] == r;
            if m < rs.len() - 1 {
                assert(init[m] == r);
                assert(usage(init, name).contains(r));
                let i = choose|i: int| 0 <= i < usage(init, name).len() && usage(init, name)[i] == r;
                assert(usage(rs, name)[i] == r);
            } else {
                assert(n > 0);
                assert(usage(rs, name)[usage(init, name).len() as int] == r);
            }
        }
    }
}

} // verus!
