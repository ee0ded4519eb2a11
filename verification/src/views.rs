//! What the panes of the window show, computed from the data: the pantry
//! list grouped by category and its filter, the ingredient pane, the recipe
//! list and pane, and the knowledge-base list and article pane.

use vstd::prelude::*;
use crate::manager::{
    all_in_pantry, deref_opt, derefs, finds_ingredient, first_item_at, group_keys, is_category_of,
    kb_entry_for, lists_text, pantry_lists, passes_filter, recipe_matches, usage, DataManager,
};
use crate::sorting::{insert_sorted_unique, strictly_sorted, views};
use crate::model::{
    exceeds_one, translation_of, Ingredient, KnowledgeBaseEntry, Pantry, PantryItem, Quantity,
    Recipe, RecipeIngredient, INFINITY_BITS,
};
use crate::text::{
    chars_of, compare_chars, contains_chars, contains_text, lowercase, occurs_at, occurs_at_exec,
    push_char, same_text, text_lt, trim, trim_chars, TextOrder,
};
use crate::markup::{markdown_to_pango, pango_markup};
use vstd::multiset::Multiset;

verus! {

/// The first pantry item for this ingredient, if the pantry lists it.
pub open spec fn first_pantry_item(p: Option<Pantry>, name: Seq<char>) -> Option<PantryItem> {
    match p {
        Some(p) => if exists|i: int| first_item_at(p.items@, name, i) {
            Some(p.items@[choose|i: int| first_item_at(p.items@, name, i)])
        } else {
            None
        },
        None => None,
    }
}

/// Only one position is the first one that holds an ingredient.
pub proof fn lemma_first_item_unique(items: Seq<PantryItem>, name: Seq<char>, i: int, j: int)
    requires
        first_item_at(items, name, i),
        first_item_at(items, name, j),
    ensures
        i == j,
{
    if i < j {
        assert(items[i].ingredient@ != name);
    } else if j < i {
        assert(items[j].ingredient@ != name);
    }
}

/// Whether the double with these bits is greater than zero.
pub open spec fn is_positive(bits: u64) -> bool {
    0 < bits <= INFINITY_BITS
}

/// Whether a pantry row shows the plural form: only an ingredient in stock
/// with a quantity does, when the quantity is positive and has a unit, or
/// is more than one without a unit.
pub open spec fn uses_plural(in_stock: bool, quantity: Option<Quantity>, unit: Option<String>) -> bool {
    in_stock && match quantity {
        Some(q) => if unit matches Some(u) && u@.len() != 0 {
            is_positive(q.bits)
        } else {
            exceeds_one(q.bits)
        },
        None => false,
    }
}

/// One row of the pantry list.
#[derive(Clone, Debug)]
pub struct PantryRow {
    /// The name shown: the form for the language when the ingredient has one.
    pub name: String,
    pub slug: String,
    /// The quantity of the pantry item, if it has one.
    pub quantity: Option<Quantity>,
    /// The unit of the pantry item, if it is not empty.
    pub unit: Option<String>,
    /// Whether the pantry lists the ingredient.
    pub in_stock: bool,
}

/// The row that the pantry list shows for an ingredient.
pub open spec fn row_of(dm: DataManager, ing: Ingredient, lang: Seq<char>) -> PantryRow {
    let in_stock = pantry_lists(dm.pantry_state(), ing.name@);
    let item = first_pantry_item(dm.pantry_state(), ing.name@);
    let quantity = match item {
        Some(it) => it.quantity,
        None => None,
    };
    let unit = match item {
        Some(it) => if it.quantity_type@.len() == 0 {
            None
        } else {
            Some(it.quantity_type)
        },
        None => None,
    };
    let plural = uses_plural(in_stock, quantity, unit);
    PantryRow {
        name: match translation_of(ing, lang) {
            Some(f) => if plural {
                f.other
            } else {
                f.one
            },
            None => ing.name,
        },
        slug: ing.slug,
        quantity,
        unit,
        in_stock,
    }
}

/// The row that the pantry list shows for an ingredient.
pub fn pantry_row(dm: &DataManager, ing: &Ingredient, lang: &str) -> (r: PantryRow)
    ensures
        r == row_of(*dm, *ing, lang@),
{
    let in_stock = dm.is_in_pantry(ing.name.as_str());
    let item = dm.get_pantry_item(ing.name.as_str());
    proof {
        if let Some(x) = item {
            let p = dm.pantry_state().unwrap();
            let i = choose|i: int| first_item_at(p.items@, ing.name@, i) && *x == p.items@[i];
            let j = choose|j: int| first_item_at(p.items@, ing.name@, j);
            lemma_first_item_unique(p.items@, ing.name@, i, j);
        } else {
            if let Some(p) = dm.pantry_state() {
                assert forall|i: int| !first_item_at(p.items@, ing.name@, i) by {
                    if first_item_at(p.items@, ing.name@, i) {
                        assert(pantry_lists(dm.pantry_state(), ing.name@));
                    }
                }
            }
        }
    }
    let quantity = match item {
        Some(it) => it.quantity,
        None => None,
    };
    let unit = match item {
        Some(it) => if chars_of(it.quantity_type.as_str()).len() == 0 {
            None
        } else {
            Some(it.quantity_type.clone())
        },
        None => None,
    };
    let plural = in_stock && match quantity {
        Some(q) => {
            let with_unit = match &unit {
                Some(u) => chars_of(u.as_str()).len() != 0,
                None => false,
            };
            if with_unit {
                0 < q.bits && q.bits <= INFINITY_BITS
            } else {
                q.is_more_than_one()
            }
        },
        None => false,
    };
    let name = match ing.translation(lang) {
        Some(f) => if plural {
            f.other.clone()
        } else {
            f.one.clone()
        },
        None => ing.name.clone(),
    };
    PantryRow { name, slug: ing.slug.clone(), quantity, unit, in_stock }
}

/// `r` inserted into `s` before the first row whose name comes strictly
/// after its own, so that it follows the rows with an equal name.
pub open spec fn insert_row(s: Seq<PantryRow>, r: PantryRow) -> Seq<PantryRow>
    decreases s.len(),
{
    if s.len() == 0 {
        seq![r]
    } else if text_lt(r.name@, s[0].name@) {
        seq![r] + s
    } else {
        seq![s[0]] + insert_row(s.drop_first(), r)
    }
}

/// The rows sorted by name, keeping the order of rows with equal names (a
/// stable sort): each row in turn is inserted after those with an equal name.
pub open spec fn sort_rows(s: Seq<PantryRow>) -> Seq<PantryRow>
    decreases s.len(),
{
    if s.len() == 0 {
        s
    } else {
        insert_row(sort_rows(s.drop_last()), s.last())
    }
}

/// No name comes strictly before the name of the row before it.
pub open spec fn sorted_by_name(s: Seq<PantryRow>) -> bool {
    forall|i: int, j: int| 0 <= i < j < s.len() ==> !text_lt(#[trigger] s[j].name@, #[trigger] s[i].name@)
}

/// Inserting a row keeps the rows sorted by name and adds exactly that row.
pub proof fn lemma_insert_row(s: Seq<PantryRow>, r: PantryRow)
    requires
        sorted_by_name(s),
    ensures
        sorted_by_name(insert_row(s, r)),
        insert_row(s, r).to_multiset() == s.to_multiset().insert(r),
    decreases s.len(),
{
    broadcast use vstd::multiset::group_multiset_axioms;
    broadcast use vstd::seq_lib::group_to_multiset_ensures;
    if s.len() == 0 {
        assert(seq![r] =~= Seq::<PantryRow>::empty().push(r));
    } else if text_lt(r.name@, s[0].name@) {
        let t = seq![r] + s;
        assert forall|i: int, j: int| 0 <= i < j < t.len() implies !text_lt(
            #[trigger] t[j].name@,
            #[trigger] t[i].name@,
        ) by {
            if i == 0 {
                assert(t[j] == s[j - 1]);
                if j - 1 > 0 {
                    assert(!text_lt(s[j - 1].name@, s[0].name@));
                    if text_lt(s[j - 1].name@, r.name@) {
                        crate::text::lemma_text_lt_transitive(s[j - 1].name@, r.name@, s[0].name@);
                    }
                } else {
                    crate::text::lemma_text_lt_asymmetric(r.name@, s[0].name@);
                }
            } else {
                assert(t[i] == s[i - 1] && t[j] == s[j - 1]);
            }
        }
        assert(t =~= s.insert(0, r));
        vstd::seq_lib::lemma_multiset_commutative(seq![r], s);
        assert(seq![r].to_multiset() =~= Multiset::<PantryRow>::empty().insert(r)) by {
            assert(seq![r] =~= Seq::<PantryRow>::empty().push(r));
        }
    } else {
        let rest = s.drop_first();
        assert(sorted_by_name(rest)) by {
            assert forall|i: int, j: int| 0 <= i < j < rest.len() implies !text_lt(
                #[trigger] rest[j].name@,
                #[trigger] rest[i].name@,
            ) by {
                assert(rest[i] == s[i + 1] && rest[j] == s[j + 1]);
            }
        }
        lemma_insert_row(rest, r);
        let u = insert_row(rest, r);
        let t = seq![s[0]] + u;
        assert forall|i: int, j: int| 0 <= i < j < t.len() implies !text_lt(
            #[trigger] t[j].name@,
            #[trigger] t[i].name@,
        ) by {
            if i == 0 {
                assert(t[j] == u[j - 1]);
                assert(u.to_multiset().count(u[j - 1]) > 0);
                assert(u[j - 1] == r || rest.to_multiset().count(u[j - 1]) > 0);
                if u[j - 1] != r {
                    assert(rest.contains(u[j - 1]));
                    let k = choose|k: int| 0 <= k < rest.len() && rest[k] == u[j - 1];
                    assert(s[k + 1] == u[j - 1]);
                }
            } else {
                assert(t[i] == u[i - 1] && t[j] == u[j - 1]);
            }
        }
        vstd::seq_lib::lemma_multiset_commutative(seq![s[0]], u);
        vstd::seq_lib::lemma_multiset_commutative(seq![s[0]], rest);
        assert(seq![s[0]] + rest =~= s);
    }
}

/// The sorted rows are sorted by name and are the same rows.
pub proof fn lemma_sort_rows(s: Seq<PantryRow>)
    ensures
        sorted_by_name(sort_rows(s)),
        sort_rows(s).to_multiset() == s.to_multiset(),
    decreases s.len(),
{
    broadcast use vstd::seq_lib::group_to_multiset_ensures;
    if s.len() > 0 {
        lemma_sort_rows(s.drop_last());
        lemma_insert_row(sort_rows(s.drop_last()), s.last());
        assert(s.drop_last().push(s.last()) =~= s);
    }
}

/// Inserts a row into rows sorted by name (see [`insert_row`]).
fn insert_row_exec(v: &mut Vec<PantryRow>, r: PantryRow)
    ensures
        final(v)@ == insert_row(old(v)@, r),
{
    let rc = chars_of(r.name.as_str());
    let ghost s = old(v)@;
    let mut k: usize = 0;
    assert(s.skip(0) =~= s && s.take(0) + s =~= s);
    while k < v.len()
        invariant
            v@ == s,
            rc@ == r.name@,
            k <= s.len(),
            insert_row(s, r) == s.take(k as int) + insert_row(s.skip(k as int), r),
        ensures
            k <= s.len(),
            insert_row(s, r) == s.take(k as int) + insert_row(s.skip(k as int), r),
            k < s.len() ==> text_lt(r.name@, s[k as int].name@),
        decreases s.len() - k,
    {
        let vc = chars_of(v[k].name.as_str());
        let before = match compare_chars(rc.as_slice(), vc.as_slice()) {
            TextOrder::Before => true,
            _ => false,
        };
        if before {
            break;
        }
        let ghost rest = s.skip(k as int);
        assert(rest[0] == s[k as int]);
        assert(rest.drop_first() =~= s.skip(k + 1));
        assert(s.take(k + 1) =~= s.take(k as int) + seq![s[k as int]]);
        assert(s.take(k as int) + (seq![rest[0]] + insert_row(rest.drop_first(), r)) =~= s.take(
            k + 1,
        ) + insert_row(s.skip(k + 1), r));
        k = k + 1;
    }
    proof {
        let rest = s.skip(k as int);
        if k < s.len() {
            assert(rest[0] == s[k as int]);
        }
        assert(insert_row(rest, r) == seq![r] + rest);
        assert(s.take(k as int) + (seq![r] + rest) =~= s.insert(k as int, r));
    }
    v.insert(k, r);
}

/// The rows of the ingredients of `s` in category `c`, in the order of `s`.
pub open spec fn category_source(dm: DataManager, s: Seq<Ingredient>, c: Seq<char>, lang: Seq<char>) -> Seq<
    PantryRow,
> {
    s.filter(|x: Ingredient| x.category@ == c).map_values(|x: Ingredient| row_of(dm, x, lang))
}

/// The rows of the ingredients of `s` in category `c`, in the order of `s`,
/// then sorted by name.
pub open spec fn category_rows(dm: DataManager, s: Seq<Ingredient>, c: Seq<char>, lang: Seq<char>) -> Seq<
    PantryRow,
> {
    sort_rows(category_source(dm, s, c, lang))
}

/// The ingredients that pass the pantry filters, in the order in which they
/// are held.
pub open spec fn shown_ingredients(
    dm: DataManager,
    search: Seq<char>,
    categories: Seq<String>,
    in_stock_only: bool,
    lang: Seq<char>,
) -> Seq<Ingredient> {
    dm.ingredient_seq().filter(
        |x: Ingredient| passes_filter(x, search, categories, in_stock_only, lang, dm.pantry_state()),
    )
}

/// The sorted rows of the ingredients of `s` in category `c`.
fn rows_in_category(dm: &DataManager, s: &Vec<&Ingredient>, c: &str, lang: &str) -> (r: Vec<
    PantryRow,
>)
    ensures
        r@ == category_rows(*dm, derefs(s@), c@, lang@),
{
    let ghost all = derefs(s@);
    let ghost keep = |x: Ingredient| x.category@ == c@;
    let ghost f = |x: Ingredient| row_of(*dm, x, lang@);
    let mut r: Vec<PantryRow> = Vec::new();
    let mut i: usize = 0;
    while i < s.len()
        invariant
            all == derefs(s@),
            keep == (|x: Ingredient| x.category@ == c@),
            f == (|x: Ingredient| row_of(*dm, x, lang@)),
            i <= s@.len(),
            r@ == sort_rows(all.take(i as int).filter(keep).map_values(f)),
        decreases s@.len() - i,
    {
        proof {
            reveal(Seq::filter);
        }
        let ghost before = all.take(i as int).filter(keep).map_values(f);
        assert(all.take(i + 1).drop_last() =~= all.take(i as int));
        assert(all.take(i + 1).last() == *s@[i as int]);
        if same_text(s[i].category.as_str(), c) {
            let row = pantry_row(dm, s[i], lang);
            assert(all.take(i + 1).filter(keep).map_values(f) =~= before.push(row));
            assert(before.push(row).drop_last() =~= before);
            insert_row_exec(&mut r, row);
        } else {
            assert(all.take(i + 1).filter(keep).map_values(f) =~= before);
        }
        i = i + 1;
    }
    assert(all.take(i as int) =~= all);
    r
}

/// The pantry list: the ingredients that pass the filters (search text,
/// categories, in-stock switch; see [`passes_filter`]), grouped by category.
/// The categories come in strictly ascending order, each one that a shown
/// ingredient has and no other; each group holds the rows of its
/// ingredients sorted by name (see [`category_rows`]).
pub fn pantry_list(
    dm: &DataManager,
    search_text: &str,
    categories: &[String],
    in_stock_only: bool,
    lang: &str,
) -> (groups: Vec<(String, Vec<PantryRow>)>)
    ensures
        strictly_sorted(group_keys(groups@)),
        forall|t: Seq<char>|
            #![trigger group_keys(groups@).contains(t)]
            group_keys(groups@).contains(t) <==> is_category_of(
                shown_ingredients(*dm, search_text@, categories@, in_stock_only, lang@),
                t,
            ),
        forall|k: int|
            0 <= k < groups@.len() ==> (#[trigger] groups@[k]).1@ == category_rows(
                *dm,
                shown_ingredients(*dm, search_text@, categories@, in_stock_only, lang@),
                groups@[k].0@,
                lang@,
            ),
{
    let shown = dm.filter_ingredients(search_text, categories, in_stock_only, lang);
    let ghost all = derefs(shown@);
    let mut cats: Vec<String> = Vec::new();
    let mut i: usize = 0;
    while i < shown.len()
        invariant
            all == derefs(shown@),
            i <= shown@.len(),
            strictly_sorted(views(cats@)),
            forall|t: Seq<char>|
                #![trigger views(cats@).contains(t)]
                views(cats@).contains(t) <==> is_category_of(all.take(i as int), t),
        decreases shown@.len() - i,
    {
        let ghost old_cats = cats@;
        insert_sorted_unique(&mut cats, shown[i].category.clone());
        assert forall|t: Seq<char>|
            #![trigger views(cats@).contains(t)]
            views(cats@).contains(t) <==> is_category_of(all.take(i + 1), t) by {
            let s1 = all.take(i + 1);
            let s0 = all.take(i as int);
            if is_category_of(s1, t) {
                let k = choose|k: int| 0 <= k < s1.len() && (#[trigger] s1[k]).category@ == t;
                if k < i {
                    assert(s0[k] == s1[k]);
                    assert(is_category_of(s0, t));
                    assert(views(old_cats).contains(t));
                }
            }
            if views(old_cats).contains(t) {
                let k = choose|k: int| 0 <= k < s0.len() && (#[trigger] s0[k]).category@ == t;
                assert(s1[k] == s0[k]);
            }
            if t == shown@[i as int].category@ {
                assert(s1[i as int].category@ == t);
            }
        }
        i = i + 1;
    }
    assert(all.take(i as int) =~= all);
    let mut groups: Vec<(String, Vec<PantryRow>)> = Vec::new();
    let mut j: usize = 0;
    while j < cats.len()
        invariant
            all == derefs(shown@),
            j <= cats@.len(),
            groups@.len() == j,
            forall|k: int| 0 <= k < j ==> (#[trigger] groups@[k]).0 == cats@[k],
            forall|k: int|
                0 <= k < j ==> (#[trigger] groups@[k]).1@ == category_rows(
                    *dm,
                    all,
                    groups@[k].0@,
                    lang@,
                ),
        decreases cats@.len() - j,
    {
        let rows = rows_in_category(dm, &shown, cats[j].as_str(), lang);
        groups.push((cats[j].clone(), rows));
        j = j + 1;
    }
    assert(group_keys(groups@) =~= views(cats@));
    groups
}

/// The label of a pantry row, given the text of its quantity: an
/// ingredient in stock shows its quantity (and unit) in brackets and a check
/// mark, or a question mark when the quantity is unknown; another shows its
/// name alone.
pub open spec fn row_label(row: PantryRow, quantity_text: Seq<char>) -> Seq<char> {
    if row.in_stock {
        match row.quantity {
            Some(_) => row.name@ + " ("@ + quantity_text + match row.unit {
                Some(u) => " "@ + u@,
                None => Seq::empty(),
            } + ")"@ + " ✅"@,
            None => row.name@ + " ❓"@,
        }
    } else {
        row.name@
    }
}

/// The label of a pantry row (see [`row_label`]).
pub fn pantry_row_label(row: &PantryRow, quantity_text: &str) -> (s: String)
    ensures
        s@ == row_label(*row, quantity_text@),
{
    let mut s = row.name.clone();
    if row.in_stock {
        match row.quantity {
            Some(_) => {
                s.append(" (");
                s.append(quantity_text);
                match &row.unit {
                    Some(u) => {
                        s.append(" ");
                        s.append(u.as_str());
                    },
                    None => {},
                }
                s.append(")");
                s.append(" ✅");
            },
            None => {
                s.append(" ❓");
            },
        }
    }
    s
}

/// One ingredient line of the recipe pane.
#[derive(Clone, Debug)]
pub struct RecipeLine {
    /// Whether the pantry lists the ingredient.
    pub in_stock: bool,
    pub quantity: Option<Quantity>,
    /// The unit, when the line has a quantity and a unit that is not empty.
    pub unit: Option<String>,
    pub ingredient: String,
}

/// The line that the recipe pane shows for a recipe's ingredient.
pub open spec fn line_of(dm: DataManager, ri: RecipeIngredient) -> RecipeLine {
    RecipeLine {
        in_stock: pantry_lists(dm.pantry_state(), ri.ingredient@),
        quantity: ri.quantity,
        unit: match ri.quantity_type {
            Some(u) => if u@.len() == 0 {
                None
            } else {
                Some(u)
            },
            None => None,
        },
        ingredient: ri.ingredient,
    }
}

/// The ingredient lines that the recipe pane shows, in the recipe's order.
pub fn recipe_lines(dm: &DataManager, recipe: &Recipe) -> (r: Vec<RecipeLine>)
    ensures
        r@ == recipe.ingredients@.map_values(|ri: RecipeIngredient| line_of(*dm, ri)),
{
    let mut r: Vec<RecipeLine> = Vec::new();
    let mut i: usize = 0;
    while i < recipe.ingredients.len()
        invariant
            i <= recipe.ingredients@.len(),
            r@ == recipe.ingredients@.take(i as int).map_values(
                |ri: RecipeIngredient| line_of(*dm, ri),
            ),
        decreases recipe.ingredients@.len() - i,
    {
        let ri = &recipe.ingredients[i];
        let unit = match &ri.quantity_type {
            Some(u) => if chars_of(u.as_str()).len() == 0 {
                None
            } else {
                Some(u.clone())
            },
            None => None,
        };
        let line = RecipeLine {
            in_stock: dm.is_in_pantry(ri.ingredient.as_str()),
            quantity: ri.quantity,
            unit,
            ingredient: ri.ingredient.clone(),
        };
        r.push(line);
        i = i + 1;
        assert(r@ =~= recipe.ingredients@.take(i as int).map_values(
            |ri: RecipeIngredient| line_of(*dm, ri),
        ));
    }
    assert(recipe.ingredients@.take(i as int) =~= recipe.ingredients@);
    r
}

/// The text of an ingredient line, given the text of its quantity: quantity,
/// unit and name separated by spaces, or the name alone without a quantity.
pub open spec fn line_text(line: RecipeLine, quantity_text: Seq<char>) -> Seq<char> {
    match line.quantity {
        Some(_) => quantity_text + " "@ + match line.unit {
            Some(u) => u@ + " "@,
            None => Seq::empty(),
        } + line.ingredient@,
        None => line.ingredient@,
    }
}

/// The text of an ingredient line (see [`line_text`]).
pub fn recipe_line_text(line: &RecipeLine, quantity_text: &str) -> (s: String)
    ensures
        s@ == line_text(*line, quantity_text@),
{
    match line.quantity {
        Some(_) => {
            let mut s = String::from_str(quantity_text);
            s.append(" ");
            match &line.unit {
                Some(u) => {
                    s.append(u.as_str());
                    s.append(" ");
                },
                None => {},
            }
            s.append(line.ingredient.as_str());
            s
        },
        None => line.ingredient.clone(),
    }
}

/// What the ingredient pane shows of the pantry.
#[derive(Debug)]
pub enum Stock<'a> {
    /// No pantry is loaded: the pane says nothing of stock.
    NoPantry,
    /// The pantry does not list the ingredient.
    NotInPantry,
    /// The first pantry item for the ingredient.
    Listed(&'a PantryItem),
}

/// A recipe that uses the ingredient, and whether the pantry lists every
/// ingredient of it.
#[derive(Debug)]
pub struct RecipeLink<'a> {
    pub recipe: &'a Recipe,
    pub all_in_stock: bool,
}

/// What the ingredient pane shows.
#[derive(Debug)]
pub struct IngredientDetail<'a> {
    pub ingredient: &'a Ingredient,
    /// Whether the pane offers to delete the ingredient: its name is not blank.
    pub can_delete: bool,
    pub kb_entry: Option<&'a KnowledgeBaseEntry>,
    pub stock: Stock<'a>,
    /// The recipes that use the ingredient, once per line that names it.
    pub recipes: Vec<RecipeLink<'a>>,
}

/// The ingredient pane for `id`, looked up by name, slug or English form
/// (see [`finds_ingredient`]); none when nothing matches.
pub fn ingredient_detail<'a>(dm: &'a DataManager, id: &str) -> (r: Option<IngredientDetail<'a>>)
    requires
        dm.wf(),
    ensures
        finds_ingredient(
            dm.ingredient_seq(),
            id@,
            "en"@,
            match r {
                Some(d) => Some(*d.ingredient),
                None => None,
            },
        ),
        r matches Some(d) ==> {
            let name = d.ingredient.name@;
            &&& d.can_delete == (trim(name).len() != 0)
            &&& kb_entry_for(*dm, name, deref_opt(d.kb_entry))
            &&& match dm.pantry_state() {
                None => d.stock is NoPantry,
                Some(p) => match first_pantry_item(Some(p), name) {
                    Some(item) => d.stock matches Stock::Listed(x) && *x == item,
                    None => d.stock is NotInPantry,
                },
            }
            &&& d.recipes@.len() == usage(dm.recipe_seq(), name).len()
            &&& forall|k: int|
                0 <= k < d.recipes@.len() ==> *(#[trigger] d.recipes@[k]).recipe == usage(
                    dm.recipe_seq(),
                    name,
                )[k] && d.recipes@[k].all_in_stock == all_in_pantry(
                    *dm,
                    usage(dm.recipe_seq(), name)[k].title@,
                )
        },
{
    let found = dm.find_ingredient_by_name_or_translation(id, "en");
    proof {
        reveal_strlit("en");
    }
    let ing = match found {
        None => {
            return None;
        },
        Some(ing) => ing,
    };
    let can_delete = trim_chars(chars_of(ing.name.as_str()).as_slice()).len() != 0;
    let kb_entry = dm.get_kb_entry_for_ingredient(ing.name.as_str());
    let stock = match dm.get_pantry() {
        None => Stock::NoPantry,
        Some(_) => match dm.get_pantry_item(ing.name.as_str()) {
            Some(x) => Stock::Listed(x),
            None => Stock::NotInPantry,
        },
    };
    proof {
        if let Some(p) = dm.pantry_state() {
            if pantry_lists(Some(p), ing.name@) {
                if let Stock::Listed(x) = stock {
                    let i = choose|i: int| first_item_at(p.items@, ing.name@, i) && *x == p.items@[i];
                    let j = choose|j: int| first_item_at(p.items@, ing.name@, j);
                    lemma_first_item_unique(p.items@, ing.name@, i, j);
                }
            } else {
                assert forall|i: int| !first_item_at(p.items@, ing.name@, i) by {
                    if first_item_at(p.items@, ing.name@, i) {
                        assert(pantry_lists(Some(p), ing.name@));
                    }
                }
            }
        }
    }
    let usage_list = dm.usage_for(ing.name.as_str());
    let mut recipes: Vec<RecipeLink<'a>> = Vec::new();
    let mut i: usize = 0;
    while i < usage_list.len()
        invariant
            i <= usage_list@.len(),
            derefs(usage_list@) == usage(dm.recipe_seq(), ing.name@),
            recipes@.len() == i,
            forall|k: int|
                0 <= k < i ==> *(#[trigger] recipes@[k]).recipe == *usage_list@[k]
                    && recipes@[k].all_in_stock == all_in_pantry(*dm, usage_list@[k].title@),
        decreases usage_list@.len() - i,
    {
        let rec = usage_list[i];
        recipes.push(
            RecipeLink { recipe: rec, all_in_stock: dm.are_all_ingredients_in_pantry(rec.title.as_str()) },
        );
        i = i + 1;
    }
    assert forall|k: int| 0 <= k < usage_list@.len() implies *usage_list@[k] == usage(
        dm.recipe_seq(),
        ing.name@,
    )[k] by {
        assert(derefs(usage_list@)[k] == *usage_list@[k]);
    }
    Some(IngredientDetail { ingredient: ing, can_delete, kb_entry, stock, recipes })
}

/// A row of the recipe list: a recipe that matches the search, and whether
/// the pantry lists every ingredient of it.
#[derive(Debug)]
pub struct RecipeListRow<'a> {
    pub recipe: &'a Recipe,
    pub all_in_stock: bool,
}

/// The recipe list: the recipes that match the search (see
/// [`DataManager::search_recipes`]), in order, each with whether all its
/// ingredients are in stock.
pub fn recipe_list<'a>(dm: &'a DataManager, search_text: &str) -> (r: Vec<RecipeListRow<'a>>)
    ensures
        r@.len() == dm.recipe_seq().filter(
            |x: Recipe| recipe_matches(x, lowercase(search_text@)),
        ).len(),
        forall|k: int|
            0 <= k < r@.len() ==> *(#[trigger] r@[k]).recipe == dm.recipe_seq().filter(
                |x: Recipe| recipe_matches(x, lowercase(search_text@)),
            )[k] && r@[k].all_in_stock == all_in_pantry(*dm, r@[k].recipe.title@),
{
    let found = dm.search_recipes(search_text);
    let mut r: Vec<RecipeListRow<'a>> = Vec::new();
    let mut i: usize = 0;
    while i < found.len()
        invariant
            i <= found@.len(),
            r@.len() == i,
            forall|k: int|
                0 <= k < i ==> (#[trigger] r@[k]).recipe == found@[k] && r@[k].all_in_stock
                    == all_in_pantry(*dm, found@[k].title@),
        decreases found@.len() - i,
    {
        let rec = found[i];
        r.push(RecipeListRow { recipe: rec, all_in_stock: dm.are_all_ingredients_in_pantry(rec.title.as_str()) });
        i = i + 1;
    }
    assert forall|k: int| 0 <= k < found@.len() implies *found@[k] == derefs(found@)[k] by {}
    r
}

/// What the recipe list shows when no recipe matches: that there are none,
/// or, while searching, that none matches the search.
pub fn no_recipes_message(search_text: &str) -> (s: String)
    ensures
        s@ == if search_text@.len() == 0 {
            "No recipes available"@
        } else {
            "No recipes match '"@ + search_text@ + "'"@
        },
{
    if chars_of(search_text).len() == 0 {
        String::from_str("No recipes available")
    } else {
        let mut s = String::from_str("No recipes match '");
        s.append(search_text);
        s.append("'");
        s
    }
}

/// The categories that the pantry filter offers, in strictly ascending
/// order, each one that an ingredient has and no other, each with whether it
/// is among the selected ones.
pub fn category_choices(dm: &DataManager, selected: &[String]) -> (r: Vec<(String, bool)>)
    ensures
        strictly_sorted(group_keys(r@)),
        forall|t: Seq<char>|
            #![trigger group_keys(r@).contains(t)]
            group_keys(r@).contains(t) <==> is_category_of(dm.ingredient_seq(), t),
        forall|k: int|
            0 <= k < r@.len() ==> (#[trigger] r@[k]).1 == lists_text(selected@, r@[k].0@),
{
    let cats = dm.get_unique_categories();
    let mut r: Vec<(String, bool)> = Vec::new();
    let mut i: usize = 0;
    while i < cats.len()
        invariant
            i <= cats@.len(),
            r@.len() == i,
            forall|k: int| 0 <= k < i ==> (#[trigger] r@[k]).0 == cats@[k],
            forall|k: int| 0 <= k < i ==> (#[trigger] r@[k]).1 == lists_text(selected@, cats@[k]@),
        decreases cats@.len() - i,
    {
        let mut chosen = false;
        let mut j: usize = 0;
        while j < selected.len()
            invariant
                i < cats@.len(),
                j <= selected@.len(),
                chosen == exists|m: int| 0 <= m < j && (#[trigger] selected@[m])@ == cats@[i as int]@,
            decreases selected@.len() - j,
        {
            if same_text(selected[j].as_str(), cats[i].as_str()) {
                chosen = true;
            }
            j = j + 1;
        }
        r.push((cats[i].clone(), chosen));
        i = i + 1;
    }
    assert(group_keys(r@) =~= views(cats@));
    r
}

/// The decimal digits of `n`.
pub open spec fn decimal(n: nat) -> Seq<char>
    decreases n,
{
    if n < 10 {
        seq![digit_char(n)]
    } else {
        decimal(n / 10).push(digit_char(n % 10))
    }
}

/// The character of a decimal digit.
pub open spec fn digit_char(d: nat) -> char {
    if d == 0 { '0' } else if d == 1 { '1' } else if d == 2 { '2' } else if d == 3 { '3' } else if d
        == 4 { '4' } else if d == 5 { '5' } else if d == 6 { '6' } else if d == 7 { '7' } else if d
        == 8 { '8' } else { '9' }
}

fn digit_exec(d: usize) -> (c: char)
    requires
        d < 10,
    ensures
        c == digit_char(d as nat),
{
    if d == 0 { '0' } else if d == 1 { '1' } else if d == 2 { '2' } else if d == 3 { '3' } else if d
        == 4 { '4' } else if d == 5 { '5' } else if d == 6 { '6' } else if d == 7 { '7' } else if d
        == 8 { '8' } else { '9' }
}

/// The decimal text of a count.
pub fn count_text(n: usize) -> (s: String)
    ensures
        s@ == decimal(n as nat),
    decreases n,
{
    if n < 10 {
        let mut s = String::new();
        push_char(&mut s, digit_exec(n));
        assert(s@ =~= seq![digit_char(n as nat)]);
        s
    } else {
        let mut s = count_text(n / 10);
        push_char(&mut s, digit_exec(n % 10));
        s
    }
}

/// The label of the category filter button: the base label, followed by the
/// number of selected categories in brackets when there are any.
pub fn filter_button_label(base: &str, selected_count: usize) -> (s: String)
    ensures
        s@ == if selected_count == 0 {
            base@
        } else {
            base@ + " ("@ + decimal(selected_count as nat) + ")"@
        },
{
    let mut s = String::from_str(base);
    if selected_count > 0 {
        s.append(" (");
        let n = count_text(selected_count);
        s.append(n.as_str());
        s.append(")");
    }
    s
}

/// `e` inserted into `s` before the first entry whose title comes strictly
/// after its own.
pub open spec fn insert_entry(s: Seq<KnowledgeBaseEntry>, e: KnowledgeBaseEntry) -> Seq<KnowledgeBaseEntry>
    decreases s.len(),
{
    if s.len() == 0 {
        seq![e]
    } else if text_lt(e.title@, s[0].title@) {
        seq![e] + s
    } else {
        seq![s[0]] + insert_entry(s.drop_first(), e)
    }
}

/// The entries sorted by title, keeping the order of entries with equal
/// titles (a stable sort).
pub open spec fn sort_entries(s: Seq<KnowledgeBaseEntry>) -> Seq<KnowledgeBaseEntry>
    decreases s.len(),
{
    if s.len() == 0 {
        s
    } else {
        insert_entry(sort_entries(s.drop_last()), s.last())
    }
}

/// No title comes strictly before the title of the entry before it.
pub open spec fn sorted_by_title(s: Seq<KnowledgeBaseEntry>) -> bool {
    forall|i: int, j: int| 0 <= i < j < s.len() ==> !text_lt(#[trigger] s[j].title@, #[trigger] s[i].title@)
}

/// Inserting an entry keeps the entries sorted by title and adds exactly
/// that entry.
pub proof fn lemma_insert_entry(s: Seq<KnowledgeBaseEntry>, e: KnowledgeBaseEntry)
    requires
        sorted_by_title(s),
    ensures
        sorted_by_title(insert_entry(s, e)),
        insert_entry(s, e).to_multiset() == s.to_multiset().insert(e),
    decreases s.len(),
{
    broadcast use vstd::multiset::group_multiset_axioms;
    broadcast use vstd::seq_lib::group_to_multiset_ensures;
    if s.len() == 0 {
        assert(seq![e] =~= Seq::<KnowledgeBaseEntry>::empty().push(e));
    } else if text_lt(e.title@, s[0].title@) {
        let t = seq![e] + s;
        assert forall|i: int, j: int| 0 <= i < j < t.len() implies !text_lt(
            #[trigger] t[j].title@,
            #[trigger] t[i].title@,
        ) by {
            if i == 0 {
                assert(t[j] == s[j - 1]);
                if j - 1 > 0 {
                    assert(!text_lt(s[j - 1].title@, s[0].title@));
                    if text_lt(s[j - 1].title@, e.title@) {
                        crate::text::lemma_text_lt_transitive(s[j - 1].title@, e.title@, s[0].title@);
                    }
                } else {
                    crate::text::lemma_text_lt_asymmetric(e.title@, s[0].title@);
                }
            } else {
                assert(t[i] == s[i - 1] && t[j] == s[j - 1]);
            }
        }
        assert(t =~= s.insert(0, e));
    } else {
        let rest = s.drop_first();
        assert(sorted_by_title(rest)) by {
            assert forall|i: int, j: int| 0 <= i < j < rest.len() implies !text_lt(
                #[trigger] rest[j].title@,
                #[trigger] rest[i].title@,
            ) by {
                assert(rest[i] == s[i + 1] && rest[j] == s[j + 1]);
            }
        }
        lemma_insert_entry(rest, e);
        let u = insert_entry(rest, e);
        let t = seq![s[0]] + u;
        assert forall|i: int, j: int| 0 <= i < j < t.len() implies !text_lt(
            #[trigger] t[j].title@,
            #[trigger] t[i].title@,
        ) by {
            if i == 0 {
                assert(t[j] == u[j - 1]);
                assert(u.to_multiset().count(u[j - 1]) > 0);
                assert(u[j - 1] == e || rest.to_multiset().count(u[j - 1]) > 0);
                if u[j - 1] != e {
                    assert(rest.contains(u[j - 1]));
                    let k = choose|k: int| 0 <= k < rest.len() && rest[k] == u[j - 1];
                    assert(s[k + 1] == u[j - 1]);
                }
            } else {
                assert(t[i] == u[i - 1] && t[j] == u[j - 1]);
            }
        }
        vstd::seq_lib::lemma_multiset_commutative(seq![s[0]], u);
        vstd::seq_lib::lemma_multiset_commutative(seq![s[0]], rest);
        assert(seq![s[0]] + rest =~= s);
    }
}

/// The sorted entries are sorted by title and are the same entries.
pub proof fn lemma_sort_entries(s: Seq<KnowledgeBaseEntry>)
    ensures
        sorted_by_title(sort_entries(s)),
        sort_entries(s).to_multiset() == s.to_multiset(),
    decreases s.len(),
{
    broadcast use vstd::seq_lib::group_to_multiset_ensures;
    if s.len() > 0 {
        lemma_sort_entries(s.drop_last());
        lemma_insert_entry(sort_entries(s.drop_last()), s.last());
        assert(s.drop_last().push(s.last()) =~= s);
    }
}

/// Inserts an entry into entries sorted by title (see [`insert_entry`]).
fn insert_entry_exec<'a>(v: &mut Vec<&'a KnowledgeBaseEntry>, e: &'a KnowledgeBaseEntry)
    ensures
        derefs(final(v)@) == insert_entry(derefs(old(v)@), *e),
{
    let ec = chars_of(e.title.as_str());
    let ghost s = derefs(old(v)@);
    let mut k: usize = 0;
    assert(s.skip(0) =~= s && s.take(0) + s =~= s);
    while k < v.len()
        invariant
            derefs(v@) == s,
            v@.len() == s.len(),
            ec@ == e.title@,
            k <= s.len(),
            insert_entry(s, *e) == s.take(k as int) + insert_entry(s.skip(k as int), *e),
        ensures
            derefs(v@) == s,
            v@.len() == s.len(),
            k <= s.len(),
            insert_entry(s, *e) == s.take(k as int) + insert_entry(s.skip(k as int), *e),
            k < s.len() ==> text_lt(e.title@, s[k as int].title@),
        decreases s.len() - k,
    {
        assert(s[k as int] == *v@[k as int]);
        let vc = chars_of(v[k].title.as_str());
        let before = match compare_chars(ec.as_slice(), vc.as_slice()) {
            TextOrder::Before => true,
            _ => false,
        };
        if before {
            break;
        }
        let ghost rest = s.skip(k as int);
        assert(rest[0] == s[k as int]);
        assert(rest.drop_first() =~= s.skip(k + 1));
        assert(s.take(k + 1) =~= s.take(k as int) + seq![s[k as int]]);
        assert(s.take(k as int) + (seq![rest[0]] + insert_entry(rest.drop_first(), *e)) =~= s.take(
            k + 1,
        ) + insert_entry(s.skip(k + 1), *e));
        k = k + 1;
    }
    let ghost before_v = v@;
    v.insert(k, e);
    proof {
        let rest = s.skip(k as int);
        if k < s.len() {
            assert(rest[0] == s[k as int]);
        }
        assert(insert_entry(rest, *e) == seq![*e] + rest);
        assert(s.take(k as int) + (seq![*e] + rest) =~= s.insert(k as int, *e));
        assert(derefs(v@) =~= s.insert(k as int, *e)) by {
            assert(v@ =~= before_v.insert(k as int, e));
        }
    }
}

/// The knowledge-base list: every entry, sorted by title (entries with equal
/// titles keep their order).
pub fn kb_list(dm: &DataManager) -> (r: Vec<&KnowledgeBaseEntry>)
    ensures
        derefs(r@) == sort_entries(dm.kb_seq()),
        sorted_by_title(derefs(r@)),
        derefs(r@).to_multiset() == dm.kb_seq().to_multiset(),
{
    let all = dm.get_all_kb_entries();
    let ghost s = derefs(all@);
    let mut r: Vec<&KnowledgeBaseEntry> = Vec::new();
    let mut i: usize = 0;
    assert(derefs(r@) =~= sort_entries(s.take(0)));
    while i < all.len()
        invariant
            s == derefs(all@),
            s == dm.kb_seq(),
            i <= all@.len(),
            derefs(r@) == sort_entries(s.take(i as int)),
        decreases all@.len() - i,
    {
        assert(s.take(i + 1).drop_last() =~= s.take(i as int));
        assert(s.take(i + 1).last() == *all@[i as int]);
        insert_entry_exec(&mut r, all[i]);
        i = i + 1;
    }
    assert(s.take(i as int) =~= s);
    proof {
        lemma_sort_entries(s);
    }
    r
}

/// How many times `needle` occurs in `hay` (at any position; for the needles
/// used here occurrences cannot overlap).
pub open spec fn count_occurrences(hay: Seq<char>, needle: Seq<char>, from: int) -> nat
    decreases hay.len() - from,
{
    if from < 0 || from >= hay.len() {
        0
    } else {
        (if occurs_at(hay, needle, from) {
            1nat
        } else {
            0nat
        }) + count_occurrences(hay, needle, from + 1)
    }
}

/// Where `needle` occurs nowhere from `from` on, it is counted no time.
pub proof fn lemma_count_none(hay: Seq<char>, needle: Seq<char>, from: int)
    requires
        forall|i: int| from <= i ==> !occurs_at(hay, needle, i),
    ensures
        count_occurrences(hay, needle, from) == 0,
    decreases hay.len() - from,
{
    if 0 <= from < hay.len() {
        lemma_count_none(hay, needle, from + 1);
    }
}

/// Counting in `u + v` from a position of `v` on is counting in `v`.
proof fn lemma_count_shift(u: Seq<char>, v: Seq<char>, needle: Seq<char>, j: int)
    requires
        0 <= j,
    ensures
        count_occurrences(u + v, needle, u.len() + j) == count_occurrences(v, needle, j),
    decreases v.len() - j,
{
    if j < v.len() {
        lemma_count_shift(u, v, needle, j + 1);
        if j + needle.len() <= v.len() {
            assert((u + v).subrange(u.len() + j, u.len() + j + needle.len()) =~= v.subrange(
                j,
                j + needle.len(),
            ));
        }
    }
}

/// No occurrence of `needle` can start in `u` and end in `v`: the last
/// character of `u` is none of its characters but the last, or the first
/// character of `v` none of its characters but the first.
pub open spec fn joint_is_clear(u: Seq<char>, v: Seq<char>, needle: Seq<char>) -> bool {
    ||| u.len() == 0
    ||| v.len() == 0
    ||| !needle.drop_last().contains(u.last())
    ||| !needle.drop_first().contains(v[0])
}

proof fn lemma_count_concat_from(u: Seq<char>, v: Seq<char>, needle: Seq<char>, from: int)
    requires
        0 <= from <= u.len(),
        needle.len() > 0,
        joint_is_clear(u, v, needle),
    ensures
        count_occurrences(u + v, needle, from) == count_occurrences(u, needle, from)
            + count_occurrences(v, needle, 0),
    decreases u.len() - from,
{
    let w = u + v;
    if from == u.len() {
        lemma_count_shift(u, v, needle, 0);
    } else {
        lemma_count_concat_from(u, v, needle, from + 1);
        if from + needle.len() <= u.len() {
            assert(w.subrange(from, from + needle.len()) =~= u.subrange(from, from + needle.len()));
        } else if occurs_at(w, needle, from) {
            let sub = w.subrange(from, from + needle.len());
            let k = u.len() - 1 - from;
            assert(sub[k] == u.last());
            assert(needle.drop_last()[k] == needle[k]);
            assert(needle.drop_last().contains(u.last()));
            let k2 = u.len() - from;
            assert(sub[k2] == v[0]);
            assert(needle.drop_first()[k2 - 1] == needle[k2]);
            assert(needle.drop_first().contains(v[0]));
        }
    }
}

/// Where no occurrence straddles the joint, the occurrences in `u + v` are
/// those in `u` and those in `v`.
pub proof fn lemma_count_concat(u: Seq<char>, v: Seq<char>, needle: Seq<char>)
    requires
        needle.len() > 0,
        joint_is_clear(u, v, needle),
    ensures
        count_occurrences(u + v, needle, 0) == count_occurrences(u, needle, 0) + count_occurrences(
            v,
            needle,
            0,
        ),
{
    lemma_count_concat_from(u, v, needle, 0);
}

fn count_exec(hay: &[char], needle: &[char]) -> (n: usize)
    ensures
        n == count_occurrences(hay@, needle@, 0),
{
    let mut n: usize = 0;
    let mut i: usize = hay.len();
    while i > 0
        invariant
            hay@.len() == hay.len(),
            i <= hay@.len(),
            n <= hay@.len() - i,
            n == count_occurrences(hay@, needle@, i as int),
        decreases i,
    {
        i = i - 1;
        if occurs_at_exec(hay, needle, i) {
            n = n + 1;
        }
    }
    n
}

/// Whether the article pane shows the converted markup, or falls back to
/// the plain text because the markup looks broken: it is shown when it opens
/// as many spans as it closes and holds no "</span>" followed by an empty
/// line and another "</span>".
pub open spec fn markup_looks_sound(m: Seq<char>) -> bool {
    &&& count_occurrences(m, "<span"@, 0) == count_occurrences(m, "</span>"@, 0)
    &&& !contains_text(m, "</span>\n\n</span>"@)
}

/// What the article pane shows for an entry's content: its Pango markup
/// (`true`) when that looks sound, else the content as plain text (`false`).
pub fn kb_content_display(content: &str) -> (r: (String, bool))
    ensures
        r.1 == markup_looks_sound(pango_markup(content@)),
        r.1 ==> r.0@ == pango_markup(content@),
        !r.1 ==> r.0@ == content@,
{
    let m = markdown_to_pango(content);
    let mc = chars_of(m.as_str());
    let opens = count_exec(mc.as_slice(), chars_of("<span").as_slice());
    let closes = count_exec(mc.as_slice(), chars_of("</span>").as_slice());
    let broken = contains_chars(mc.as_slice(), chars_of("</span>\n\n</span>").as_slice());
    if opens == closes && !broken {
        (m, true)
    } else {
        (String::from_str(content), false)
    }
}

} // verus!
