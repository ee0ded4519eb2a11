//! What the edit dialogs make of the text the user typed: the ingredient or
//! recipe that a filled-in form describes, and the messages a saved form
//! sends.

use vstd::prelude::*;
use crate::bridge::non_empty;
use crate::app_state::AppMsg;
use crate::document::{underscore_spaces, underscored};
use crate::model::{
    error_message, prefixed, translation_of, CookbookError, Ingredient, Quantity, Recipe,
    RecipeIngredient, TranslationForms,
};
use crate::text::{
    chars_of, lemma_split_nonempty, lemma_trim_leading_space, split_on, string_of, trim, trim_chars,
};

verus! {

/// The trimmed pieces of `ps` that are not empty, in order.
pub open spec fn kept_tags(ps: Seq<Seq<char>>) -> Seq<Seq<char>>
    decreases ps.len(),
{
    if ps.len() == 0 {
        Seq::empty()
    } else {
        let r = kept_tags(ps.drop_last());
        let t = trim(ps.last());
        if t.len() == 0 {
            r
        } else {
            r.push(t)
        }
    }
}

/// The tags in a comma-separated text: each piece between commas, trimmed,
/// the empty ones left out.
pub open spec fn tag_list(s: Seq<char>) -> Seq<Seq<char>> {
    kept_tags(split_on(s, ','))
}

/// `v` holds, in order, strings whose texts are `t`.
pub open spec fn texts_are(v: Seq<String>, t: Seq<Seq<char>>) -> bool {
    v.len() == t.len() && forall|k: int| 0 <= k < v.len() ==> (#[trigger] v[k])@ == t[k]
}

/// The tags of a comma-separated text.
pub fn split_tags(text: &str) -> (r: Vec<String>)
    ensures
        texts_are(r@, tag_list(text@)),
{
    let v = chars_of(text);
    let mut r: Vec<String> = Vec::new();
    let mut cur: Vec<char> = Vec::new();
    let mut i: usize = 0;
    while i < v.len()
        invariant
            v@ == text@,
            i <= v@.len(),
            split_on(v@.take(i as int), ',').len() >= 1,
            texts_are(r@, kept_tags(split_on(v@.take(i as int), ',').drop_last())),
            cur@ == split_on(v@.take(i as int), ',').last(),
        decreases v@.len() - i,
    {
        let ghost p = split_on(v@.take(i as int), ',');
        assert(v@.take(i + 1).drop_last() =~= v@.take(i as int));
        assert(v@.take(i + 1).last() == v@[i as int]);
        if v[i] == ',' {
            let t = trim_chars(cur.as_slice());
            assert(split_on(v@.take(i + 1), ',') == p.push(Seq::empty()));
            assert(p.push(Seq::empty()).drop_last() =~= p);
            assert(p.drop_last().push(p.last()) =~= p);
            if t.len() > 0 {
                r.push(string_of(t.as_slice()));
            }
            cur = Vec::new();
        } else {
            assert(split_on(v@.take(i + 1), ',') == p.update(p.len() - 1, p.last().push(v@[i as int])));
            assert(p.update(p.len() - 1, p.last().push(v@[i as int])).drop_last() =~= p.drop_last());
            cur.push(v[i]);
        }
        i = i + 1;
        proof {
            lemma_split_nonempty(v@.take(i as int), ',');
        }
    }
    assert(v@.take(i as int) =~= text@);
    let ghost p = split_on(text@, ',');
    assert(p.drop_last().push(p.last()) =~= p);
    let t = trim_chars(cur.as_slice());
    if t.len() > 0 {
        r.push(string_of(t.as_slice()));
    }
    r
}

/// Why a form cannot be saved.
#[derive(Debug, Clone, Copy, PartialEq, Eq, Structural)]
pub enum FormError {
    /// The name field is empty or only white space.
    EmptyName,
}

impl FormError {
    /// The text that the application shows for the error.
    pub fn message(&self) -> (s: &'static str)
        ensures
            s@ == "Ingredient name cannot be empty!"@,
    {
        "Ingredient name cannot be empty!"
    }
}

/// The plural form that the dialog stores: the plural field, or the name
/// when the plural field is blank.
pub open spec fn plural_or_name(name: String, plural: String) -> String {
    if trim(plural@).len() == 0 {
        name
    } else {
        plural
    }
}

/// The ingredient that a filled-in ingredient dialog describes.
pub open spec fn dialog_ingredient(
    name: String,
    plural: String,
    category: String,
    kb: String,
    tags: Seq<char>,
    ing: Ingredient,
) -> bool {
    &&& ing.name == name
    &&& ing.slug == name
    &&& ing.category == category
    &&& match ing.kb {
        Some(k) => kb@.len() != 0 && k == kb,
        None => kb@.len() == 0,
    }
    &&& ing.tags matches Some(t) && texts_are(t@, tag_list(tags))
    &&& ing.translations matches Some(ts) && ts@.len() == 1 && ts@[0].0@ == "en"@
        && ts@[0].1.one == name && ts@[0].1.other == plural_or_name(name, plural)
}

/// The ingredient that the edit dialog describes: the name is also the
/// slug, an empty knowledge-base field means none, the tags come from the
/// comma-separated field, and the English forms are the name and the plural
/// (the name again when the plural is blank). Fails when the name is blank.
pub fn ingredient_from_dialog(
    name: String,
    plural: String,
    category: String,
    kb: String,
    tags: &str,
) -> (r: Result<Ingredient, FormError>)
    ensures
        r is Err <==> trim(name@).len() == 0,
        r matches Ok(ing) ==> dialog_ingredient(name, plural, category, kb, tags@, ing),
{
    let n = chars_of(name.as_str());
    if trim_chars(n.as_slice()).len() == 0 {
        return Err(FormError::EmptyName);
    }
    let p = chars_of(plural.as_str());
    let other = if trim_chars(p.as_slice()).len() == 0 {
        name.clone()
    } else {
        plural
    };
    let forms = TranslationForms { one: name.clone(), other };
    let mut translations: Vec<(String, TranslationForms)> = Vec::new();
    translations.push((String::from_str("en"), forms));
    proof {
        reveal_strlit("en");
    }
    Ok(
        Ingredient {
            name: name.clone(),
            slug: name,
            category,
            kb: non_empty(kb),
            tags: Some(split_tags(tags)),
            translations: Some(translations),
        },
    )
}

/// One ingredient row of the recipe dialog: the name field, the value of
/// the quantity spinner and the unit field.
#[derive(Clone, Debug)]
pub struct IngredientRow {
    pub name: String,
    pub quantity: Quantity,
    pub unit: String,
}

/// Whether the double with these bits is zero (`0.0` or `-0.0`).
pub open spec fn is_zero_bits(bits: u64) -> bool {
    bits == 0 || bits == 0x8000_0000_0000_0000u64
}

/// The recipe line that a row stands for: a zero quantity means none, an
/// empty unit means none.
pub open spec fn row_line(row: IngredientRow, line: RecipeIngredient) -> bool {
    &&& line.ingredient == row.name
    &&& line.quantity == if is_zero_bits(row.quantity.bits) {
        None
    } else {
        Some(row.quantity)
    }
    &&& match line.quantity_type {
        Some(u) => row.unit@.len() != 0 && u == row.unit,
        None => row.unit@.len() == 0,
    }
}

/// The rows whose name field is not empty, in order.
pub open spec fn named_rows(rows: Seq<IngredientRow>) -> Seq<IngredientRow> {
    rows.filter(|row: IngredientRow| row.name@.len() != 0)
}

/// The recipe lines of the rows: one per row with a name, in order.
pub fn lines_from_rows(rows: Vec<IngredientRow>) -> (r: Vec<RecipeIngredient>)
    ensures
        r@.len() == named_rows(rows@).len(),
        forall|k: int| 0 <= k < r@.len() ==> row_line(named_rows(rows@)[k], #[trigger] r@[k]),
{
    let ghost orig = rows@;
    let ghost keep = |row: IngredientRow| row.name@.len() != 0;
    let mut r: Vec<RecipeIngredient> = Vec::new();
    let mut i: usize = 0;
    while i < rows.len()
        invariant
            rows@ == orig,
            keep == (|row: IngredientRow| row.name@.len() != 0),
            i <= rows@.len(),
            r@.len() == orig.take(i as int).filter(keep).len(),
            forall|k: int|
                0 <= k < r@.len() ==> row_line(orig.take(i as int).filter(keep)[k], #[trigger] r@[k]),
        decreases rows@.len() - i,
    {
        proof {
            reveal(Seq::filter);
        }
        assert(orig.take(i + 1).drop_last() =~= orig.take(i as int));
        assert(orig.take(i + 1).last() == orig[i as int]);
        let row = &rows[i];
        if chars_of(row.name.as_str()).len() != 0 {
            let q = row.quantity;
            let quantity = if q.bits == 0 || q.bits == 0x8000_0000_0000_0000u64 {
                None
            } else {
                Some(q)
            };
            r.push(
                RecipeIngredient {
                    ingredient: row.name.clone(),
                    quantity,
                    quantity_type: non_empty(row.unit.clone()),
                },
            );
        }
        i = i + 1;
    }
    assert(orig.take(i as int) =~= orig);
    r
}

/// The recipe that a filled-in recipe dialog describes. The three spinners
/// give the times and servings; the tags come from the comma-separated field
/// (none when it holds no tag); `image` is the image file as the dialog left
/// it (see [`image_after_edit`]).
pub fn recipe_from_dialog(
    title: String,
    prep_time: u32,
    downtime: u32,
    servings: u32,
    tags: &str,
    rows: Vec<IngredientRow>,
    instructions: String,
    image: Option<String>,
) -> (r: Recipe)
    ensures
        r.title == title,
        r.prep_time == Some(prep_time),
        r.downtime == Some(downtime),
        r.servings == Some(servings),
        r.ingredients@.len() == named_rows(rows@).len(),
        forall|k: int|
            0 <= k < r.ingredients@.len() ==> row_line(
                named_rows(rows@)[k],
                #[trigger] r.ingredients@[k],
            ),
        match r.tags {
            Some(t) => tag_list(tags@).len() != 0 && texts_are(t@, tag_list(tags@)),
            None => tag_list(tags@).len() == 0,
        },
        r.image == image,
        r.instructions == instructions,
{
    let t = split_tags(tags);
    let ingredients = lines_from_rows(rows);
    Recipe {
        title,
        ingredients,
        prep_time: Some(prep_time),
        downtime: Some(downtime),
        servings: Some(servings),
        tags: if t.len() == 0 {
            None
        } else {
            Some(t)
        },
        image,
        instructions,
    }
}

/// The image file of a recipe after the dialog: none when the user cleared
/// it; when the user picked a new image with extension `ext`, the title with
/// spaces as underscores, a dot and `ext`; else the image it had.
pub open spec fn edited_image(
    current: Option<String>,
    new_ext: Option<&str>,
    cleared: bool,
    title: Seq<char>,
) -> Option<Seq<char>> {
    if cleared {
        None
    } else {
        match new_ext {
            Some(e) => Some(underscored(title) + "."@ + e@),
            None => match current {
                Some(c) => Some(c@),
                None => None,
            },
        }
    }
}

/// The image file of a recipe after the dialog (see [`edited_image`]).
pub fn image_after_edit(current: Option<String>, new_ext: Option<&str>, cleared: bool, title: &str) -> (r:
    Option<String>)
    ensures
        match r {
            Some(f) => edited_image(current, new_ext, cleared, title@) == Some(f@),
            None => edited_image(current, new_ext, cleared, title@) is None,
        },
{
    if cleared {
        return None;
    }
    match new_ext {
        Some(e) => {
            let mut f = underscore_spaces(title);
            f.append(".");
            f.append(e);
            Some(f)
        },
        None => current,
    }
}

/// What saving the recipe dialog sends: a dialog opened on a recipe (its
/// title not empty) updates that recipe, a dialog opened blank creates one;
/// then the saved recipe is selected.
pub fn recipe_dialog_messages(original_title: String, recipe: Recipe) -> (msgs: Vec<AppMsg>)
    ensures
        msgs@.len() == 2,
        original_title@.len() == 0 ==> msgs@[0] == AppMsg::CreateRecipe(recipe),
        original_title@.len() != 0 ==> msgs@[0] == AppMsg::UpdateRecipe(original_title, recipe),
        msgs@[1] == AppMsg::SelectRecipe(recipe.title),
{
    let title = recipe.title.clone();
    let mut msgs: Vec<AppMsg> = Vec::new();
    if chars_of(original_title.as_str()).len() == 0 {
        msgs.push(AppMsg::CreateRecipe(recipe));
    } else {
        msgs.push(AppMsg::UpdateRecipe(original_title, recipe));
    }
    msgs.push(AppMsg::SelectRecipe(title));
    msgs
}

/// What the ingredient dialog does after saving: on success it selects the
/// ingredient and reloads the pantry; on failure it shows "Failed to add
/// ingredient: " (for a dialog opened blank) or "Failed to update
/// ingredient: " followed by the error's text.
pub fn ingredient_dialog_result(
    original_name: &str,
    name: String,
    r: Result<(), CookbookError>,
) -> (out: Result<Vec<AppMsg>, String>)
    ensures
        match r {
            Ok(_) => out matches Ok(msgs) && msgs@ == seq![
                AppMsg::SelectIngredient(name),
                AppMsg::ReloadPantry,
            ],
            Err(e) => out matches Err(m) && m@ == (if trim(original_name@).len() == 0 {
                "Failed to add ingredient: "@
            } else {
                "Failed to update ingredient: "@
            }) + error_message(e),
        },
{
    match r {
        Ok(_) => {
            let mut msgs: Vec<AppMsg> = Vec::new();
            msgs.push(AppMsg::SelectIngredient(name));
            msgs.push(AppMsg::ReloadPantry);
            assert(msgs@ =~= seq![AppMsg::SelectIngredient(name), AppMsg::ReloadPantry]);
            Ok(msgs)
        },
        Err(e) => {
            let t = trim_chars(chars_of(original_name).as_slice());
            let detail = e.message();
            if t.len() == 0 {
                Err(prefixed("Failed to add ingredient: ", detail.as_str()))
            } else {
                Err(prefixed("Failed to update ingredient: ", detail.as_str()))
            }
        },
    }
}

/// The texts joined with `sep` between each two (`[T]::join`).
pub open spec fn joined(ts: Seq<Seq<char>>, sep: Seq<char>) -> Seq<char>
    decreases ts.len(),
{
    if ts.len() == 0 {
        Seq::empty()
    } else if ts.len() == 1 {
        ts[0]
    } else {
        joined(ts.drop_last(), sep) + sep + ts.last()
    }
}

/// The texts of a list of strings.
pub open spec fn texts_of(v: Seq<String>) -> Seq<Seq<char>> {
    v.map_values(|x: String| x@)
}

/// The text of the tags field of a dialog opened on these tags: the tags
/// joined with ", " (empty when there are none).
pub fn tags_text(tags: &Option<Vec<String>>) -> (s: String)
    ensures
        s@ == match tags {
            Some(v) => joined(texts_of(v@), ", "@),
            None => Seq::empty(),
        },
{
    let mut s = String::new();
    match tags {
        None => s,
        Some(v) => {
            let mut i: usize = 0;
            while i < v.len()
                invariant
                    i <= v@.len(),
                    s@ == joined(texts_of(v@.take(i as int)), ", "@),
                decreases v@.len() - i,
            {
                assert(texts_of(v@.take(i + 1)).drop_last() =~= texts_of(v@.take(i as int)));
                assert(texts_of(v@.take(i + 1)).last() == v@[i as int]@);
                if i > 0 {
                    s.append(", ");
                }
                s.append(v[i].as_str());
                proof {
                    if i == 0 {
                        assert(s@ =~= joined(texts_of(v@.take(1)), ", "@));
                    }
                }
                i = i + 1;
            }
            assert(v@.take(i as int) =~= v@);
            s
        },
    }
}

/// `row` is the row that the recipe dialog shows for a recipe line: its
/// name, its quantity (zero when it has none) and its unit (empty when it has
/// none).
pub open spec fn prefills(row: IngredientRow, line: RecipeIngredient) -> bool {
    &&& row.name == line.ingredient
    &&& row.quantity == match line.quantity {
        Some(q) => q,
        None => Quantity { bits: 0 },
    }
    &&& match line.quantity_type {
        Some(u) => row.unit == u,
        None => row.unit@.len() == 0,
    }
}

/// The rows that the recipe dialog shows for a recipe's lines, in order.
pub fn rows_from_recipe(recipe: &Recipe) -> (rows: Vec<IngredientRow>)
    ensures
        rows@.len() == recipe.ingredients@.len(),
        forall|k: int| 0 <= k < rows@.len() ==> prefills(#[trigger] rows@[k], recipe.ingredients@[k]),
{
    let mut rows: Vec<IngredientRow> = Vec::new();
    let mut i: usize = 0;
    while i < recipe.ingredients.len()
        invariant
            i <= recipe.ingredients@.len(),
            rows@.len() == i,
            forall|k: int| 0 <= k < i ==> prefills(#[trigger] rows@[k], recipe.ingredients@[k]),
        decreases recipe.ingredients@.len() - i,
    {
        let line = &recipe.ingredients[i];
        let quantity = match line.quantity {
            Some(q) => q,
            None => Quantity { bits: 0 },
        };
        let unit = match &line.quantity_type {
            Some(u) => u.clone(),
            None => String::new(),
        };
        rows.push(IngredientRow { name: line.ingredient.clone(), quantity, unit });
        i = i + 1;
    }
    rows
}

/// The title of the recipe dialog.
pub fn recipe_dialog_title(title: &str) -> (s: String)
    ensures
        s@ == "Edit Recipe: "@ + title@,
{
    prefixed("Edit Recipe: ", title)
}

/// `s` holds no `sep`.
pub open spec fn free_of(s: Seq<char>, sep: char) -> bool {
    forall|i: int| 0 <= i < s.len() ==> s[i] != sep
}

/// Splitting text that holds no separator gives the text itself.
proof fn lemma_split_plain(s: Seq<char>, sep: char)
    requires
        free_of(s, sep),
    ensures
        split_on(s, sep) == seq![s],
    decreases s.len(),
{
    if s.len() > 0 {
        assert(s[s.len() - 1] != sep);
        lemma_split_plain(s.drop_last(), sep);
        assert(s.drop_last().push(s.last()) =~= s);
        assert(seq![s.drop_last()].update(0, s.drop_last().push(s.last())) =~= seq![s]);
    } else {
        assert(s =~= Seq::<char>::empty());
    }
}

/// Splitting `a`, a separator and `b` (which holds none) gives the pieces of
/// `a` and then `b`.
proof fn lemma_split_after(a: Seq<char>, sep: char, b: Seq<char>)
    requires
        free_of(b, sep),
    ensures
        split_on(a + seq![sep] + b, sep) == split_on(a, sep).push(b),
    decreases b.len(),
{
    let s = a + seq![sep] + b;
    if b.len() == 0 {
        assert(s.drop_last() =~= a);
        assert(b =~= Seq::<char>::empty());
    } else {
        lemma_split_after(a, sep, b.drop_last());
        assert(s.drop_last() =~= a + seq![sep] + b.drop_last());
        lemma_split_nonempty(a, sep);
        let p = split_on(a, sep).push(b.drop_last());
        assert(p.update(p.len() - 1, p.last().push(s.last())) =~= split_on(a, sep).push(b)) by {
            assert(b.drop_last().push(b.last()) =~= b);
        }
    }
}

/// The pieces of tags joined with ", ": the first tag, then each other tag
/// after a space.
proof fn lemma_split_joined(ts: Seq<Seq<char>>)
    requires
        ts.len() > 0,
        forall|k: int| 0 <= k < ts.len() ==> free_of(#[trigger] ts[k], ','),
    ensures
        split_on(joined(ts, ", "@), ',').len() == ts.len(),
        split_on(joined(ts, ", "@), ',')[0] == ts[0],
        forall|k: int|
            1 <= k < ts.len() ==> #[trigger] split_on(joined(ts, ", "@), ',')[k] == seq![' '] + ts[k],
    decreases ts.len(),
{
    reveal_strlit(", ");
    if ts.len() == 1 {
        lemma_split_plain(ts[0], ',');
    } else {
        let init = ts.drop_last();
        lemma_split_joined(init);
        let t = ts.last();
        assert(free_of(seq![' '] + t, ',')) by {
            assert(free_of(ts[ts.len() - 1], ','));
        }
        assert(joined(ts, ", "@) =~= joined(init, ", "@) + seq![','] + (seq![' '] + t));
        lemma_split_after(joined(init, ", "@), ',', seq![' '] + t);
    }
}

/// What the tags field gives back: tags that are not empty, hold no comma
/// and have no white space at either end come back unchanged from the text
/// that shows them.
pub proof fn lemma_tags_roundtrip(ts: Seq<Seq<char>>)
    requires
        forall|k: int|
            0 <= k < ts.len() ==> (#[trigger] ts[k]).len() > 0 && trim(ts[k]) == ts[k] && free_of(
                ts[k],
                ',',
            ),
    ensures
        tag_list(joined(ts, ", "@)) == ts,
    decreases ts.len(),
{
    if ts.len() == 0 {
        let e = Seq::<char>::empty();
        assert(joined(ts, ", "@) == e);
        assert(split_on(e, ',') == seq![e]);
        assert(seq![e].drop_last() =~= Seq::<Seq<char>>::empty());
        assert(kept_tags(Seq::<Seq<char>>::empty()) == Seq::<Seq<char>>::empty());
        assert(trim(e).len() == 0);
        assert(kept_tags(seq![e]) == kept_tags(seq![e].drop_last()));
        assert(ts =~= Seq::<Seq<char>>::empty());
    } else {
        lemma_split_joined(ts);
        let p = split_on(joined(ts, ", "@), ',');
        assert(kept_tags(p) == ts) by {
            lemma_kept_pieces(ts, p);
        }
    }
}

/// Keeping the trimmed pieces of the pieces of joined tags gives the tags.
proof fn lemma_kept_pieces(ts: Seq<Seq<char>>, p: Seq<Seq<char>>)
    requires
        ts.len() > 0,
        forall|k: int| 0 <= k < ts.len() ==> (#[trigger] ts[k]).len() > 0 && trim(ts[k]) == ts[k],
        p.len() == ts.len(),
        p[0] == ts[0],
        forall|k: int| 1 <= k < ts.len() ==> #[trigger] p[k] == seq![' '] + ts[k],
    ensures
        kept_tags(p) == ts,
    decreases ts.len(),
{
    let n = ts.len() - 1;
    if n == 0 {
        assert(p.drop_last() =~= Seq::<Seq<char>>::empty());
        assert(kept_tags(p.drop_last()) == Seq::<Seq<char>>::empty());
        assert(p.last() == ts[0]);
        assert(Seq::<Seq<char>>::empty().push(ts[0]) =~= ts);
    } else {
        let ts0 = ts.drop_last();
        let p0 = p.drop_last();
        assert(p0[0] == ts0[0]);
        assert forall|k: int| 1 <= k < ts0.len() implies #[trigger] p0[k] == seq![' '] + ts0[k] by {
            assert(p0[k] == p[k] && ts0[k] == ts[k]);
        }
        assert forall|k: int| 0 <= k < ts0.len() implies (#[trigger] ts0[k]).len() > 0 && trim(ts0[k])
            == ts0[k] by {
            assert(ts0[k] == ts[k]);
        }
        lemma_kept_pieces(ts0, p0);
        assert(p.last() == seq![' '] + ts[n]);
        lemma_trim_leading_space(' ', ts[n]);
        assert(trim(p.last()) == ts[n]);
        assert(ts.drop_last().push(ts[n]) =~= ts);
    }
}

/// What the recipe dialog gives back of a line it was opened on: a line
/// with a name, no zero quantity and no empty unit comes back unchanged (and
/// its row is kept, having a name).
pub proof fn lemma_row_roundtrip(row: IngredientRow, line: RecipeIngredient, back: RecipeIngredient)
    requires
        prefills(row, line),
        line.ingredient@.len() != 0,
        line.quantity matches Some(q) ==> !is_zero_bits(q.bits),
        line.quantity_type matches Some(u) ==> u@.len() != 0,
        row_line(row, back),
    ensures
        row.name@.len() != 0,
        back == line,
{
}

/// The text fields of the ingredient dialog.
#[derive(Debug, Clone)]
pub struct IngredientFields {
    pub name: String,
    pub plural: String,
    pub category: String,
    pub kb: String,
    pub tags: String,
}

/// The fields of the ingredient dialog opened on an ingredient: its name,
/// its English plural (empty without one), its category, its
/// knowledge-base slug (empty without one) and its tags joined with ", ".
pub fn ingredient_dialog_fields(ing: &Ingredient) -> (f: IngredientFields)
    ensures
        f.name == ing.name,
        f.plural@ == match translation_of(*ing, "en"@) {
            Some(t) => t.other@,
            None => Seq::empty(),
        },
        f.category == ing.category,
        f.kb@ == match ing.kb {
            Some(k) => k@,
            None => Seq::empty(),
        },
        f.tags@ == match ing.tags {
            Some(v) => joined(texts_of(v@), ", "@),
            None => Seq::empty(),
        },
{
    let plural = match ing.translation("en") {
        Some(t) => t.other.clone(),
        None => String::new(),
    };
    proof {
        reveal_strlit("en");
    }
    let kb = match &ing.kb {
        Some(k) => k.clone(),
        None => String::new(),
    };
    IngredientFields {
        name: ing.name.clone(),
        plural,
        category: ing.category.clone(),
        kb,
        tags: tags_text(&ing.tags),
    }
}

/// What the ingredient dialog gives back of an ingredient it was opened on
/// and saved unchanged: the same name, category, knowledge-base reference
/// and tags, as long as the name is not blank, the reference is not empty and
/// the tags are not empty, hold no comma and have no white space at either
/// end.
pub proof fn lemma_ingredient_dialog_roundtrip(ing: Ingredient, f: IngredientFields, back: Ingredient)
    requires
        f.name == ing.name,
        f.category == ing.category,
        f.kb@ == match ing.kb {
            Some(k) => k@,
            None => Seq::empty(),
        },
        ing.kb matches Some(k) ==> k@.len() != 0,
        ing.tags matches Some(v) && f.tags@ == joined(texts_of(v@), ", "@) && forall|k: int|
            0 <= k < v@.len() ==> (#[trigger] v@[k])@.len() > 0 && trim(v@[k]@) == v@[k]@ && free_of(
                v@[k]@,
                ',',
            ),
        trim(ing.name@).len() != 0,
        dialog_ingredient(f.name, f.plural, f.category, f.kb, f.tags@, back),
    ensures
        back.name == ing.name,
        back.category == ing.category,
        match back.kb {
            Some(k) => ing.kb matches Some(k0) && k@ == k0@,
            None => ing.kb is None,
        },
        back.tags matches Some(t) && texts_of(t@) == texts_of(ing.tags.unwrap()@),
{
    let v = ing.tags.unwrap();
    let ts = texts_of(v@);
    assert forall|k: int|
        0 <= k < ts.len() implies (#[trigger] ts[k]).len() > 0 && trim(ts[k]) == ts[k] && free_of(
            ts[k],
            ',',
        ) by {
        assert(ts[k] == v@[k]@);
    }
    lemma_tags_roundtrip(ts);
    let t = back.tags.unwrap();
    assert(texts_of(t@) =~= ts);
}

} // verus!
