use cookbook::app_state::AppMsg;
use cookbook::document::{compose_document, ingredient_file_name, recipe_file_name, split_front_matter};
use cookbook::forms::{
    image_after_edit, ingredient_dialog_fields, ingredient_dialog_result, ingredient_from_dialog,
    lines_from_rows,
    recipe_dialog_messages, recipe_dialog_title, recipe_from_dialog, rows_from_recipe, split_tags,
    tags_text, FormError, IngredientRow,
};
use cookbook::views::{
    category_choices, count_text, filter_button_label, ingredient_detail, kb_content_display, kb_list,
    no_recipes_message, pantry_list, pantry_row_label, recipe_line_text, recipe_list, recipe_lines,
    PantryRow, Stock,
};
use cookbook::{
    CookbookError, DataManager, FileWrites, Ingredient, KnowledgeBaseEntry, Pantry, PantryItem, Quantity, Recipe,
    RecipeIngredient, TranslationForms,
};

fn q(x: f64) -> Quantity {
    Quantity::from_bits(x.to_bits())
}

fn forms(one: &str, other: &str) -> TranslationForms {
    TranslationForms { one: one.to_string(), other: other.to_string() }
}

fn ingredient(name: &str, category: &str, kb: Option<&str>, plural: Option<&str>) -> Ingredient {
    Ingredient {
        name: name.to_string(),
        slug: name.to_string(),
        category: category.to_string(),
        kb: kb.map(|k| k.to_string()),
        tags: Some(vec![category.to_string()]),
        translations: plural.map(|p| vec![("en".to_string(), forms(name, p))]),
    }
}

fn line(name: &str, quantity: Option<f64>, unit: Option<&str>) -> RecipeIngredient {
    RecipeIngredient {
        ingredient: name.to_string(),
        quantity: quantity.map(q),
        quantity_type: unit.map(|u| u.to_string()),
    }
}

fn item(name: &str, quantity: Option<f64>, unit: &str) -> PantryItem {
    PantryItem {
        ingredient: name.to_string(),
        quantity: quantity.map(q),
        quantity_type: unit.to_string(),
        last_updated: "2025-01-01".to_string(),
    }
}

/// The example cookbook: nine ingredients, two recipes, a pantry with six of
/// the ingredients and one knowledge-base entry.
fn fixture() -> DataManager {
    let mut dm = DataManager::empty("example/data".to_string());
    for ing in [
        ingredient("tomato", "vegetable", None, Some("tomatoes")),
        ingredient("egg", "dairy", None, Some("eggs")),
        ingredient("butter", "dairy", None, None),
        ingredient("potato", "vegetable", Some("potato"), Some("potatoes")),
        ingredient("salt", "spice", None, None),
        ingredient("pepper", "spice", None, None),
        ingredient("flour", "baking", None, None),
        ingredient("spaghetti", "pasta", None, None),
        ingredient("olive oil", "oil", None, None),
    ] {
        dm.insert_ingredient(ing);
    }
    dm.push_recipe(Recipe {
        title: "Lasagna".to_string(),
        ingredients: vec![line("potato", Some(500.0), Some("g")), line("tomato", Some(3.0), None)],
        prep_time: Some(30),
        downtime: Some(60),
        servings: Some(2),
        tags: Some(vec!["dinner".to_string()]),
        image: None,
        instructions: "Layer and bake.".to_string(),
    });
    dm.push_recipe(Recipe {
        title: "Spaghetti Aglio e Olio".to_string(),
        ingredients: vec![
            line("spaghetti", Some(200.0), Some("g")),
            line("garlic", Some(3.0), None),
            line("olive oil", Some(4.0), Some("tbsp")),
            line("salt", None, None),
            line("pepper", None, None),
        ],
        prep_time: Some(10),
        downtime: Some(10),
        servings: Some(2),
        tags: Some(vec!["pasta".to_string(), "quick".to_string()]),
        image: None,
        instructions: "Cook the spaghetti; fry garlic in oil.".to_string(),
    });
    dm.set_pantry(Pantry {
        version: 1,
        items: vec![
            item("tomato", Some(4.0), ""),
            item("egg", Some(6.0), ""),
            item("butter", Some(250.0), "g"),
            item("potato", Some(2.0), "kg"),
            item("salt", None, ""),
            item("pepper", None, ""),
        ],
    });
    dm.insert_kb_entry(KnowledgeBaseEntry {
        slug: "potato".to_string(),
        title: "All about potatoes".to_string(),
        image: None,
        content: "Potatoes are tubers.".to_string(),
    });
    dm
}

fn update_message(e: &CookbookError) -> String {
    match e {
        CookbookError::UpdateError(m) => m.clone(),
        _ => panic!("expected an update error"),
    }
}

#[test]
fn test_new_loads_all_collections() {
    let dm = fixture();
    assert_eq!(dm.get_all_ingredients().len(), 9, "Expected 9 ingredients");
    assert_eq!(dm.get_all_recipes().len(), 2, "Expected 2 recipes");
    assert!(dm.get_pantry().is_some(), "Expected pantry to be Some");
}

#[test]
fn test_get_all_ingredients_count() {
    let dm = fixture();
    assert_eq!(dm.get_all_ingredients().len(), 9);
}

#[test]
fn test_get_ingredient_potato() {
    let dm = fixture();
    let ingredient = dm.get_ingredient("potato").expect("Expected to find potato");
    assert_eq!(ingredient.name, "potato");
    assert_eq!(ingredient.slug, "potato");
    assert_eq!(ingredient.category, "vegetable");
}

#[test]
fn test_get_ingredient_missing() {
    let dm = fixture();
    assert!(dm.get_ingredient("nonexistent").is_none());
}

#[test]
fn test_find_by_slug() {
    let dm = fixture();
    let result = dm.find_ingredient_by_name_or_translation("potato", "en");
    assert!(result.is_some(), "Expected to find ingredient by slug 'potato'");
}

#[test]
fn test_find_by_translation_singular() {
    let dm = fixture();
    let result = dm.find_ingredient_by_name_or_translation("potato", "en");
    assert!(result.is_some(), "Expected to find ingredient by singular translation 'potato'");
    assert_eq!(result.unwrap().name, "potato");
}

#[test]
fn test_find_by_translation_plural() {
    let dm = fixture();
    let result = dm.find_ingredient_by_name_or_translation("potatoes", "en");
    assert!(result.is_some(), "Expected to find ingredient by plural translation 'potatoes'");
    assert_eq!(result.unwrap().name, "potato");
}

#[test]
fn test_find_missing_everywhere() {
    let dm = fixture();
    assert!(dm.find_ingredient_by_name_or_translation("potatoes", "de").is_none());
    assert!(dm.find_ingredient_by_name_or_translation("garlic", "en").is_none());
}

#[test]
fn test_get_pantry_some() {
    let dm = fixture();
    assert!(dm.get_pantry().is_some());
}

#[test]
fn test_get_pantry_item_potato() {
    let dm = fixture();
    let item = dm.get_pantry_item("potato").expect("Expected to find potato in pantry");
    assert_eq!(item.ingredient, "potato");
    assert_eq!(item.quantity, Some(q(2.0)));
    assert_eq!(item.quantity_type, "kg");
}

#[test]
fn test_is_in_pantry_true() {
    let dm = fixture();
    assert!(dm.is_in_pantry("potato"));
}

#[test]
fn test_is_in_pantry_false() {
    let dm = fixture();
    assert!(!dm.is_in_pantry("flour"));
}

#[test]
fn test_no_pantry_means_nothing_in_stock() {
    let mut dm = DataManager::empty("d".to_string());
    dm.insert_ingredient(ingredient("salt", "spice", None, None));
    assert!(!dm.is_in_pantry("salt"));
    assert!(dm.get_pantry_item("salt").is_none());
    assert!(dm.get_pantry().is_none());
}

#[test]
fn test_get_all_recipes_count() {
    let dm = fixture();
    assert_eq!(dm.get_all_recipes().len(), 2);
}

#[test]
fn test_data_manager_loads_recipes() {
    let dm = fixture();
    assert_eq!(dm.get_all_recipes().len(), 2);
}

#[test]
fn test_get_recipe_lasagna() {
    let dm = fixture();
    let recipe = dm.get_recipe("Lasagna").expect("Expected to find Lasagna");
    assert_eq!(recipe.title, "Lasagna");
    assert_eq!(recipe.prep_time, Some(30));
    assert_eq!(recipe.downtime, Some(60));
    assert_eq!(recipe.servings, Some(2));
}

#[test]
fn test_get_recipe_missing() {
    let dm = fixture();
    assert!(dm.get_recipe("Nonexistent").is_none());
}

#[test]
fn test_recipe_total_time() {
    let dm = fixture();
    let recipe = dm.get_recipe("Lasagna").expect("Expected to find Lasagna");
    assert_eq!(recipe.total_time(), 90);
}

#[test]
fn test_total_time_counts_absent_as_zero() {
    let mut r = fixture().get_recipe("Lasagna").unwrap().clone();
    r.downtime = None;
    assert_eq!(r.total_time(), 30);
    r.prep_time = None;
    assert_eq!(r.total_time(), 0);
}

#[test]
fn test_search_recipes_by_title_case_insensitive() {
    let dm = fixture();
    let results = dm.search_recipes("lasagna");
    assert!(
        results.iter().any(|r| r.title == "Lasagna"),
        "Expected 'Lasagna' in search results for 'lasagna'"
    );
}

#[test]
fn test_search_recipes_by_ingredient() {
    let dm = fixture();
    let results = dm.search_recipes("potato");
    assert!(!results.is_empty(), "Expected at least one recipe with potato ingredient");
}

#[test]
fn test_search_recipes_returns_results() {
    let dm = fixture();
    let results = dm.search_recipes("Lasagna");
    assert!(!results.is_empty());
    assert_eq!(results[0].title, "Lasagna");
}

#[test]
fn test_search_recipes_by_tag_and_instructions() {
    let dm = fixture();
    let by_tag = dm.search_recipes("QUICK");
    assert_eq!(by_tag.len(), 1);
    assert_eq!(by_tag[0].title, "Spaghetti Aglio e Olio");
    let by_text = dm.search_recipes("bake");
    assert_eq!(by_text.len(), 1);
    assert_eq!(by_text[0].title, "Lasagna");
    assert_eq!(dm.search_recipes("").len(), 2);
    assert!(dm.search_recipes("chocolate").is_empty());
}

#[test]
fn test_filter_by_search_text() {
    let dm = fixture();
    let results = dm.filter_ingredients("pot", &[], false, "en");
    assert!(
        results.iter().any(|i| i.name == "potato"),
        "Expected 'potato' in filter results for 'pot'"
    );
}

#[test]
fn test_filter_by_category() {
    let dm = fixture();
    let results = dm.filter_ingredients("", &["vegetable".to_string()], false, "en");
    assert!(!results.is_empty(), "Expected at least one vegetable ingredient");
    for ingredient in &results {
        assert_eq!(
            ingredient.category, "vegetable",
            "Expected all results to have category 'vegetable', but got '{}' for '{}'",
            ingredient.category, ingredient.name
        );
    }
}

#[test]
fn test_filter_in_stock_only() {
    let dm = fixture();
    let results = dm.filter_ingredients("", &[], true, "en");
    assert_eq!(
        results.len(),
        6,
        "Expected exactly 6 in-stock ingredients, got: {:?}",
        results.iter().map(|i| &i.name).collect::<Vec<_>>()
    );
    for ingredient in &results {
        assert!(dm.is_in_pantry(&ingredient.name), "Expected '{}' to be in pantry", ingredient.name);
    }
}

#[test]
fn test_filter_matches_name_only() {
    let dm = fixture();
    // "toes" occurs only in the plural forms "tomatoes" and "potatoes", not in a name.
    assert!(dm.filter_ingredients("TOES", &[], false, "en").is_empty());
    let results = dm.filter_ingredients("TO", &[], false, "en");
    let names: Vec<&str> = results.iter().map(|i| i.name.as_str()).collect();
    assert_eq!(names, vec!["tomato", "potato"]);
    let groups = pantry_list(&dm, "toes", &[], false, "en");
    assert!(groups.is_empty());
}

#[test]
fn test_get_all_ingredient_categories_sorted() {
    let dm = fixture();
    let categories = dm.get_all_ingredient_categories();
    assert!(!categories.is_empty(), "Expected at least one category");
    assert!(
        categories.contains(&"vegetable".to_string()),
        "Expected categories to contain 'vegetable'"
    );
    let mut sorted = categories.clone();
    sorted.sort();
    assert_eq!(categories, sorted, "Expected categories to be sorted");
}

#[test]
fn test_categories_exact() {
    let dm = fixture();
    let expected = vec!["baking", "dairy", "oil", "pasta", "spice", "vegetable"];
    assert_eq!(dm.get_all_ingredient_categories(), expected);
    assert_eq!(dm.get_unique_categories(), expected);
}

#[test]
fn test_ingredients_by_category() {
    let dm = fixture();
    let groups = dm.get_ingredients_by_category();
    let keys: Vec<&str> = groups.iter().map(|g| g.0.as_str()).collect();
    assert_eq!(keys, vec!["baking", "dairy", "oil", "pasta", "spice", "vegetable"]);
    let dairy: Vec<&str> = groups[1].1.iter().map(|i| i.name.as_str()).collect();
    assert_eq!(dairy, vec!["butter", "egg"]);
    let veg: Vec<&str> = groups[5].1.iter().map(|i| i.name.as_str()).collect();
    assert_eq!(veg, vec!["potato", "tomato"]);
}

#[test]
fn test_pantry_items_by_category() {
    let dm = fixture();
    let groups = dm.get_pantry_items_by_category();
    let baking = &groups[0].1;
    assert_eq!(baking.len(), 1);
    assert_eq!(baking[0].0.name, "flour");
    assert!(baking[0].1.is_none());
    let veg = &groups[5].1;
    assert_eq!(veg[0].0.name, "potato");
    assert_eq!(veg[0].1.unwrap().quantity_type, "kg");
}

#[test]
fn test_recipes_with_ingredient_and_usage() {
    let dm = fixture();
    let with_salt = dm.get_recipes_with_ingredient("salt");
    assert_eq!(with_salt.len(), 1);
    assert_eq!(with_salt[0].title, "Spaghetti Aglio e Olio");
    let usage = dm.get_ingredient_usage();
    assert_eq!(usage.len(), 9);
    let potato = usage.iter().find(|u| u.0 == "potato").unwrap();
    assert_eq!(potato.1.len(), 1);
    assert_eq!(potato.1[0].title, "Lasagna");
    let flour = usage.iter().find(|u| u.0 == "flour").unwrap();
    assert!(flour.1.is_empty());
}

#[test]
fn test_kb_links() {
    let dm = fixture();
    let entry = dm.get_kb_entry_for_ingredient("potato").expect("potato has a KB entry");
    assert_eq!(entry.title, "All about potatoes");
    assert!(dm.get_kb_entry_for_ingredient("salt").is_none());
    assert!(dm.get_kb_entry("nothing").is_none());
    assert_eq!(dm.get_all_kb_entries().len(), 1);
    let related = dm.get_ingredients_with_kb_reference("potato");
    assert_eq!(related.len(), 1);
    assert_eq!(related[0].name, "potato");
}

// The library changes the data in memory and the change is read back from
// it; writing the files is the application's part.
#[test]
fn test_update_pantry_item_persists() {
    let mut dm = fixture();
    dm.update_pantry_item("potato", Some(q(5.0)), Some("lbs".to_string())).unwrap();
    let item = dm.get_pantry_item("potato").expect("Expected potato in pantry after update");
    assert_eq!(item.quantity, Some(q(5.0)), "Expected quantity to be 5.0 after update");
    assert_eq!(item.quantity_type, "lbs", "Expected quantity_type to be 'lbs' after update");
}

#[test]
fn pantry_update_is_dated_today() {
    let mut dm = fixture();
    dm.update_pantry_item("flour", Some(q(1.0)), None).unwrap();
    let d: Vec<char> = dm.get_pantry_item("flour").unwrap().last_updated.chars().collect();
    let n = d.len();
    assert!(n >= 10);
    assert_eq!(d[n - 3], '-');
    assert_eq!(d[n - 6], '-');
    for i in [1, 2, 4, 5, 7, 8, 9, 10] {
        assert!(d[n - i].is_ascii_digit());
    }
}

#[test]
fn test_update_pantry_item_on_adds_dated_item() {
    let mut dm = fixture();
    let r = dm.update_pantry_item_on("flour", None, None, "2026-02-03".to_string());
    assert_eq!(r.unwrap(), true);
    let item = dm.get_pantry_item("flour").unwrap();
    assert_eq!(item.quantity, None);
    assert_eq!(item.quantity_type, "");
    assert_eq!(item.last_updated, "2026-02-03");
    assert_eq!(dm.get_pantry().unwrap().items.len(), 7);
}

#[test]
fn test_update_pantry_item_errors() {
    let mut dm = fixture();
    let e = dm.update_pantry_item_on("garlic", None, None, "x".to_string()).unwrap_err();
    assert_eq!(update_message(&e), "Ingredient 'garlic' does not exist");
    assert_eq!(e.message(), "Failed to update ingredient: Ingredient 'garlic' does not exist");
    let mut empty = DataManager::empty("d".to_string());
    empty.insert_ingredient(ingredient("salt", "spice", None, None));
    let e = empty.update_pantry_item("salt", None, None).unwrap_err();
    assert_eq!(update_message(&e), "No pantry loaded");
}

// The library changes the data in memory and the change is read back from
// it; writing the files is the application's part.
#[test]
fn test_remove_from_pantry_persists() {
    let mut dm = fixture();
    assert!(dm.is_in_pantry("potato"), "Potato should be in pantry before removal");
    assert_eq!(dm.remove_from_pantry("potato").unwrap(), true);
    assert!(!dm.is_in_pantry("potato"), "Expected potato to be removed from pantry");
    assert_eq!(dm.get_pantry().unwrap().items.len(), 5);
    let mut empty = DataManager::empty("d".to_string());
    assert_eq!(empty.remove_from_pantry("potato").unwrap(), false);
}

// The library changes the data in memory and the change is read back from
// it; writing the files is the application's part.
#[test]
fn test_create_ingredient_persists() {
    let mut dm = fixture();
    let new_ingredient = Ingredient {
        name: "garlic".to_string(),
        slug: "garlic".to_string(),
        category: "vegetable".to_string(),
        kb: None,
        tags: Some(vec!["vegetable".to_string()]),
        translations: None,
    };
    dm.create_ingredient(new_ingredient).unwrap();
    let found = dm.get_ingredient("garlic");
    assert!(found.is_some(), "Expected 'garlic' to be found after create");
    assert_eq!(found.unwrap().name, "garlic");
    assert_eq!(found.unwrap().category, "vegetable");
}

#[test]
fn test_create_existing_ingredient_fails() {
    let mut dm = fixture();
    let e = dm.create_ingredient(ingredient("salt", "spice", None, None)).unwrap_err();
    assert_eq!(update_message(&e), "Ingredient 'salt' already exists");
    assert_eq!(dm.get_all_ingredients().len(), 9);
}

#[test]
fn test_update_ingredient_renames_file() {
    let mut dm = fixture();
    let renamed = Ingredient {
        name: "sweet_potato".to_string(),
        slug: "sweet_potato".to_string(),
        category: "vegetable".to_string(),
        kb: None,
        tags: None,
        translations: None,
    };
    assert!(dm.get_ingredient("potato").is_some(), "potato should exist before rename");
    dm.update_ingredient("potato", renamed).unwrap();
    assert!(dm.get_ingredient("potato").is_none(), "Expected 'potato' to be gone after rename");
    assert!(dm.get_ingredient("sweet_potato").is_some(), "Expected 'sweet_potato' to exist after rename");
    assert!(dm.is_in_pantry("sweet_potato"));
    assert!(!dm.is_in_pantry("potato"));
    assert_eq!(ingredient_file_name("sweet potato"), "sweet_potato.yaml");
}

#[test]
fn test_update_ingredient_errors() {
    let mut dm = fixture();
    let e = dm.update_ingredient("garlic", ingredient("garlic", "x", None, None)).unwrap_err();
    assert_eq!(update_message(&e), "Ingredient 'garlic' does not exist");
    let e = dm.update_ingredient("salt", ingredient("pepper", "spice", None, None)).unwrap_err();
    assert_eq!(update_message(&e), "Cannot rename: ingredient 'pepper' already exists");
    dm.update_ingredient("salt", ingredient("salt", "mineral", None, None)).unwrap();
    assert_eq!(dm.get_ingredient("salt").unwrap().category, "mineral");
    assert_eq!(dm.get_all_ingredients().len(), 9);
}

#[test]
fn test_update_ingredient_with_pantry() {
    let mut dm = fixture();
    dm.update_ingredient_with_pantry(
        "flour",
        ingredient("wheat flour", "baking", None, None),
        Some(q(1.0)),
        Some("kg".to_string()),
    )
    .unwrap();
    assert!(dm.get_ingredient("flour").is_none());
    let item = dm.get_pantry_item("wheat flour").unwrap();
    assert_eq!(item.quantity, Some(q(1.0)));
    assert_eq!(item.quantity_type, "kg");
}

#[test]
fn test_delete_ingredient_removes_from_pantry() {
    let mut dm = fixture();
    assert!(dm.is_in_pantry("potato"), "potato should be in pantry before deletion");
    dm.delete_ingredient("potato").unwrap();
    assert!(dm.get_ingredient("potato").is_none(), "Expected 'potato' to be gone from ingredients after deletion");
    assert!(!dm.is_in_pantry("potato"), "Expected 'potato' to be gone from pantry after ingredient deletion");
    let e = dm.delete_ingredient("potato").unwrap_err();
    assert_eq!(update_message(&e), "Ingredient 'potato' does not exist");
}

#[test]
fn test_update_recipe() {
    let mut dm = fixture();
    let mut lasagna = dm.get_recipe("Lasagna").unwrap().clone();
    lasagna.title = "Veggie Lasagna".to_string();
    dm.update_recipe("Lasagna", lasagna.clone()).unwrap();
    assert!(dm.get_recipe("Lasagna").is_none());
    assert_eq!(dm.get_all_recipes()[1].title, "Veggie Lasagna");
    let e = dm.update_recipe("Lasagna", lasagna.clone()).unwrap_err();
    assert_eq!(update_message(&e), "Recipe 'Lasagna' does not exist");
    lasagna.title = "Spaghetti Aglio e Olio".to_string();
    let e = dm.update_recipe("Veggie Lasagna", lasagna).unwrap_err();
    assert_eq!(update_message(&e), "Cannot rename: recipe 'Spaghetti Aglio e Olio' already exists");
    assert_eq!(recipe_file_name("Veggie Lasagna"), "Veggie_Lasagna.md");
}

#[test]
fn test_ingredient_display_name_singular() {
    let ingredient = Ingredient {
        name: "potato".to_string(),
        slug: "potato".to_string(),
        category: "vegetable".to_string(),
        kb: None,
        tags: None,
        translations: Some(vec![("en".to_string(), forms("potato", "potatoes"))]),
    };
    let display = DataManager::ingredient_display_name(&ingredient, "en", Some(q(1.0)));
    assert_eq!(display, "potato");
}

#[test]
fn test_ingredient_display_name_plural() {
    let ingredient = Ingredient {
        name: "potato".to_string(),
        slug: "potato".to_string(),
        category: "vegetable".to_string(),
        kb: None,
        tags: None,
        translations: Some(vec![("en".to_string(), forms("potato", "potatoes"))]),
    };
    let display = DataManager::ingredient_display_name(&ingredient, "en", Some(q(2.0)));
    assert_eq!(display, "potatoes");
}

#[test]
fn test_ingredient_display_name_fallback() {
    let ingredient = Ingredient {
        name: "mystery_herb".to_string(),
        slug: "mystery_herb".to_string(),
        category: "herb".to_string(),
        kb: None,
        tags: None,
        translations: None,
    };
    let display = DataManager::ingredient_display_name(&ingredient, "en", Some(q(1.0)));
    assert_eq!(display, "mystery_herb");
}

#[test]
fn test_ingredient_display_name_edges() {
    let ing = ingredient("potato", "vegetable", None, Some("potatoes"));
    assert_eq!(DataManager::ingredient_display_name(&ing, "en", None), "potato");
    assert_eq!(DataManager::ingredient_display_name(&ing, "en", Some(q(0.5))), "potato");
    assert_eq!(DataManager::ingredient_display_name(&ing, "en", Some(q(-3.0))), "potato");
    assert_eq!(DataManager::ingredient_display_name(&ing, "en", Some(q(f64::INFINITY))), "potatoes");
    assert_eq!(DataManager::ingredient_display_name(&ing, "en", Some(q(f64::NAN))), "potato");
    assert_eq!(DataManager::ingredient_display_name(&ing, "de", Some(q(2.0))), "potato");
}

#[test]
fn test_are_all_ingredients_in_pantry_true() {
    let dm = fixture();
    let result = dm.are_all_ingredients_in_pantry("Lasagna");
    assert!(result, "Expected all Lasagna ingredients to be in pantry");
}

#[test]
fn test_are_all_ingredients_in_pantry_false() {
    let dm = fixture();
    let result = dm.are_all_ingredients_in_pantry("Spaghetti Aglio e Olio");
    assert!(!result, "Expected not all Spaghetti Aglio e Olio ingredients to be in pantry");
    assert!(!dm.are_all_ingredients_in_pantry("Nonexistent"));
}

#[test]
fn test_recipe_roundtrip() {
    let front = "Title: Test Recipe\nPrepTime: 15\nDowntime: 45\n";
    let instructions = "Mix flour and eggs. Bake for 45 minutes.";
    let doc = compose_document(front, instructions);
    assert_eq!(doc, format!("---\n{}---\n{}", front, instructions));
    let (f, body) = split_front_matter(&doc).unwrap();
    assert_eq!(f, front.trim());
    assert_eq!(body, instructions);
}

#[test]
fn test_front_matter_body_keeps_later_dashes() {
    let (f, body) = split_front_matter("intro---\n a: 1 \n---\n text --- more \n").unwrap();
    assert_eq!(f, "a: 1");
    assert_eq!(body, "text --- more");
}

#[test]
fn test_front_matter_missing_delimiters() {
    let e = split_front_matter("just text --- once").unwrap_err();
    match &e {
        CookbookError::MarkdownError(m) => {
            assert_eq!(m, "Invalid markdown format: missing frontmatter delimiters")
        }
        _ => panic!("expected a markdown error"),
    }
    assert_eq!(
        e.message(),
        "Failed to parse Markdown: Invalid markdown format: missing frontmatter delimiters"
    );
}

#[test]
fn test_quantity_bits() {
    let x = q(2.5);
    assert_eq!(f64::from_bits(x.to_bits()), 2.5);
    assert!(q(1.5).is_more_than_one());
    assert!(!q(1.0).is_more_than_one());
}

fn rows_named(groups: &[(String, Vec<PantryRow>)], category: &str) -> Vec<String> {
    groups
        .iter()
        .find(|(c, _)| c == category)
        .map(|(_, rows)| rows.iter().map(|r| r.name.clone()).collect())
        .unwrap_or_default()
}

#[test]
fn pantry_list_groups_sorted_categories_and_names() {
    let dm = fixture();
    let groups = pantry_list(&dm, "", &[], false, "en");
    let cats: Vec<&str> = groups.iter().map(|(c, _)| c.as_str()).collect();
    assert_eq!(cats, vec!["baking", "dairy", "oil", "pasta", "spice", "vegetable"]);
    assert_eq!(rows_named(&groups, "spice"), vec!["pepper", "salt"]);
    assert_eq!(rows_named(&groups, "dairy"), vec!["butter", "eggs"]);
    // potato: 2 kg in stock (positive with a unit) -> plural; tomato: 4 without unit -> plural
    assert_eq!(rows_named(&groups, "vegetable"), vec!["potatoes", "tomatoes"]);
}

#[test]
fn pantry_list_filters_in_stock_and_by_category() {
    let dm = fixture();
    let groups = pantry_list(&dm, "", &["spice".to_string(), "baking".to_string()], true, "en");
    let cats: Vec<&str> = groups.iter().map(|(c, _)| c.as_str()).collect();
    assert_eq!(cats, vec!["spice"]);
    let rows = &groups[0].1;
    assert!(rows.iter().all(|r| r.in_stock && r.quantity.is_none() && r.unit.is_none()));
    assert!(pantry_list(&dm, "zzz", &[], false, "en").is_empty());
}

#[test]
fn pantry_row_labels() {
    let dm = fixture();
    let groups = pantry_list(&dm, "", &[], false, "en");
    let veg = &groups.iter().find(|(c, _)| c == "vegetable").unwrap().1;
    let potato = veg.iter().find(|r| r.slug == "potato").unwrap();
    assert_eq!(potato.unit.as_deref(), Some("kg"));
    assert_eq!(pantry_row_label(potato, "2"), "potatoes (2 kg) ✅");
    let spice = &groups.iter().find(|(c, _)| c == "spice").unwrap().1;
    assert_eq!(pantry_row_label(&spice[0], ""), "pepper ❓");
    let baking = &groups.iter().find(|(c, _)| c == "baking").unwrap().1;
    assert_eq!(pantry_row_label(&baking[0], ""), "flour");
}

#[test]
fn recipe_pane_lines() {
    let dm = fixture();
    let recipe = dm.get_recipe("Spaghetti Aglio e Olio").unwrap();
    let lines = recipe_lines(&dm, recipe);
    assert_eq!(lines.len(), 5);
    assert!(!lines[0].in_stock);
    assert!(lines[3].in_stock);
    assert_eq!(recipe_line_text(&lines[0], "200"), "200 g spaghetti");
    assert_eq!(recipe_line_text(&lines[1], "3"), "3 garlic");
    assert_eq!(recipe_line_text(&lines[3], "ignored"), "salt");
}

#[test]
fn ingredient_pane_details() {
    let dm = fixture();
    let d = ingredient_detail(&dm, "potatoes").expect("found by its English plural");
    assert_eq!(d.ingredient.name, "potato");
    assert!(d.can_delete);
    assert_eq!(d.kb_entry.map(|e| e.title.as_str()), Some("All about potatoes"));
    match d.stock {
        Stock::Listed(item) => assert_eq!(item.quantity_type, "kg"),
        _ => panic!("potato is in the pantry"),
    }
    assert_eq!(d.recipes.len(), 1);
    assert_eq!(d.recipes[0].recipe.title, "Lasagna");
    assert!(d.recipes[0].all_in_stock);
    let flour = ingredient_detail(&dm, "flour").unwrap();
    assert!(matches!(flour.stock, Stock::NotInPantry));
    assert!(flour.recipes.is_empty());
    assert!(ingredient_detail(&dm, "unicorn").is_none());
}

#[test]
fn tags_are_split_trimmed_and_blank_ones_dropped() {
    assert_eq!(split_tags(" quick, dinner ,,  , vegan "), vec!["quick", "dinner", "vegan"]);
    assert!(split_tags("").is_empty());
    assert!(split_tags(" , ").is_empty());
}

#[test]
fn ingredient_dialog_builds_the_ingredient() {
    let ing = ingredient_from_dialog(
        "carrot".to_string(),
        "  ".to_string(),
        "vegetable".to_string(),
        String::new(),
        "root, orange",
    )
    .unwrap();
    assert_eq!(ing.slug, "carrot");
    assert!(ing.kb.is_none());
    assert_eq!(ing.tags, Some(vec!["root".to_string(), "orange".to_string()]));
    let ts = ing.translations.unwrap();
    assert_eq!(ts[0].0, "en");
    assert_eq!(ts[0].1.one, "carrot");
    assert_eq!(ts[0].1.other, "carrot");
    let err = ingredient_from_dialog(" ".into(), "x".into(), "c".into(), "k".into(), "").unwrap_err();
    assert_eq!(err, FormError::EmptyName);
    assert_eq!(err.message(), "Ingredient name cannot be empty!");
}

#[test]
fn recipe_dialog_builds_the_recipe() {
    let rows = vec![
        IngredientRow { name: "flour".into(), quantity: q(0.0), unit: "g".into() },
        IngredientRow { name: String::new(), quantity: q(2.0), unit: String::new() },
        IngredientRow { name: "egg".into(), quantity: q(2.0), unit: String::new() },
    ];
    let r = recipe_from_dialog("Pancakes".into(), 5, 10, 4, "breakfast", rows, "Fry.".into(), None);
    assert_eq!(r.ingredients.len(), 2);
    assert!(r.ingredients[0].quantity.is_none());
    assert_eq!(r.ingredients[0].quantity_type.as_deref(), Some("g"));
    assert_eq!(r.ingredients[1].quantity, Some(q(2.0)));
    assert!(r.ingredients[1].quantity_type.is_none());
    assert_eq!(r.tags, Some(vec!["breakfast".to_string()]));
    assert_eq!(r.prep_time, Some(5));
    let r2 = recipe_from_dialog("Tea".into(), 0, 0, 1, " ", Vec::new(), String::new(), None);
    assert!(r2.tags.is_none());
}

#[test]
fn recipe_image_after_the_dialog() {
    assert_eq!(image_after_edit(Some("a.png".into()), Some("jpg"), false, "Green Salad"), Some("Green_Salad.jpg".to_string()));
    assert_eq!(image_after_edit(Some("a.png".into()), None, false, "T"), Some("a.png".to_string()));
    assert_eq!(image_after_edit(Some("a.png".into()), Some("jpg"), true, "T"), None);
}

#[test]
fn recipe_dialog_messages_create_or_update() {
    let msgs = recipe_dialog_messages(String::new(), recipe_named("Soup"));
    assert!(matches!(&msgs[0], AppMsg::CreateRecipe(r) if r.title == "Soup"));
    assert!(matches!(&msgs[1], AppMsg::SelectRecipe(t) if t == "Soup"));
    let msgs = recipe_dialog_messages("Old".into(), recipe_named("Soup"));
    assert!(matches!(&msgs[0], AppMsg::UpdateRecipe(o, r) if o == "Old" && r.title == "Soup"));
}

fn recipe_named(title: &str) -> Recipe {
    Recipe {
        title: title.to_string(),
        ingredients: Vec::new(),
        prep_time: None,
        downtime: None,
        servings: None,
        tags: None,
        image: None,
        instructions: String::new(),
    }
}

#[test]
fn saving_the_ingredient_dialog_adds_or_updates() {
    let mut dm = fixture();
    let carrot = ingredient("carrot", "vegetable", None, None);
    assert!(dm.save_ingredient_dialog("", carrot, true, Some(q(3.0)), Some(String::new())).0.is_ok());
    assert_eq!(dm.get_pantry_item("carrot").unwrap().quantity, Some(q(3.0)));
    let egg = ingredient("egg", "dairy", None, Some("eggs"));
    assert!(dm.save_ingredient_dialog("egg", egg, false, None, None).0.is_ok());
    assert!(!dm.is_in_pantry("egg"));
    let dup = ingredient("salt", "spice", None, None);
    let err = dm.save_ingredient_dialog("  ", dup, false, None, None).0.unwrap_err();
    assert_eq!(update_message(&err), "Ingredient 'salt' already exists");
    let out = ingredient_dialog_result("  ", "salt".into(), Err(err));
    assert_eq!(
        out.unwrap_err(),
        "Failed to add ingredient: Failed to update ingredient: Ingredient 'salt' already exists"
    );
    let ok = ingredient_dialog_result("egg", "egg".into(), Ok(())).unwrap();
    assert!(matches!(&ok[0], AppMsg::SelectIngredient(n) if n == "egg"));
    assert!(matches!(ok[1], AppMsg::ReloadPantry));
}

#[test]
fn recipe_list_marks_recipes_with_everything_in_stock() {
    let dm = fixture();
    let rows = recipe_list(&dm, "");
    assert_eq!(rows.len(), 2);
    assert_eq!(rows[0].recipe.title, "Lasagna");
    assert!(rows[0].all_in_stock);
    assert!(!rows[1].all_in_stock);
    let rows = recipe_list(&dm, "GARLIC");
    assert_eq!(rows.len(), 1);
    assert!(recipe_list(&dm, "sushi").is_empty());
    assert_eq!(no_recipes_message("sushi"), "No recipes match 'sushi'");
    assert_eq!(no_recipes_message(""), "No recipes available");
}

#[test]
fn category_choices_mark_the_selected_ones() {
    let dm = fixture();
    let choices = category_choices(&dm, &["spice".to_string(), "nuts".to_string()]);
    let names: Vec<&str> = choices.iter().map(|(c, _)| c.as_str()).collect();
    assert_eq!(names, vec!["baking", "dairy", "oil", "pasta", "spice", "vegetable"]);
    let chosen: Vec<&str> = choices.iter().filter(|(_, b)| *b).map(|(c, _)| c.as_str()).collect();
    assert_eq!(chosen, vec!["spice"]);
}

#[test]
fn filter_button_label_counts_selected_categories() {
    assert_eq!(filter_button_label("Filter Categories", 0), "Filter Categories");
    assert_eq!(filter_button_label("Filter Categories", 3), "Filter Categories (3)");
    assert_eq!(count_text(0), "0");
    assert_eq!(count_text(1207), "1207");
}

fn kb(slug: &str, title: &str, content: &str) -> KnowledgeBaseEntry {
    KnowledgeBaseEntry { slug: slug.to_string(), title: title.to_string(), image: None, content: content.to_string() }
}

#[test]
fn kb_list_is_sorted_by_title() {
    let mut dm = DataManager::empty("d".to_string());
    dm.insert_kb_entry(kb("t", "Tomatoes", ""));
    dm.insert_kb_entry(kb("b", "Basil", ""));
    dm.insert_kb_entry(kb("o", "Onions", ""));
    let titles: Vec<&str> = kb_list(&dm).iter().map(|e| e.title.as_str()).collect();
    assert_eq!(titles, vec!["Basil", "Onions", "Tomatoes"]);
}

#[test]
fn kb_content_uses_markup_when_spans_balance() {
    let (text, markup) = kb_content_display("# Potatoes\nSome **facts**.");
    assert!(markup);
    assert_eq!(text, "<span size='xx-large' weight='bold'>Potatoes</span>\nSome <b>facts</b>.");
    let (text, markup) = kb_content_display("| a |\n\n| b |");
    assert!(markup);
    assert_eq!(text, "<span font_family='monospace'>| a |\n\n| b |\n</span>");
}

#[test]
fn recipe_dialog_prefills_and_gives_back_the_recipe() {
    let dm = fixture();
    let recipe = dm.get_recipe("Spaghetti Aglio e Olio").unwrap();
    let text = tags_text(&recipe.tags);
    assert_eq!(text, "pasta, quick");
    assert_eq!(split_tags(&text), vec!["pasta", "quick"]);
    assert_eq!(tags_text(&None), "");
    let rows = rows_from_recipe(recipe);
    assert_eq!(rows.len(), 5);
    assert_eq!(rows[3].quantity.to_bits(), 0);
    assert_eq!(rows[0].unit, "g");
    assert_eq!(rows[1].unit, "");
    let back = lines_from_rows(rows);
    assert_eq!(back.len(), 5);
    for (a, b) in back.iter().zip(recipe.ingredients.iter()) {
        assert_eq!(a.ingredient, b.ingredient);
        assert_eq!(a.quantity, b.quantity);
        assert_eq!(a.quantity_type, b.quantity_type);
    }
    assert_eq!(recipe_dialog_title("Soup"), "Edit Recipe: Soup");
}

#[test]
fn ingredient_dialog_prefills_and_gives_back_the_ingredient() {
    let dm = fixture();
    let potato = dm.get_ingredient("potato").unwrap();
    let f = ingredient_dialog_fields(potato);
    assert_eq!(f.name, "potato");
    assert_eq!(f.plural, "potatoes");
    assert_eq!(f.kb, "potato");
    assert_eq!(f.tags, "vegetable");
    let back = ingredient_from_dialog(f.name, f.plural, f.category, f.kb, &f.tags).unwrap();
    assert_eq!(back.name, potato.name);
    assert_eq!(back.category, potato.category);
    assert_eq!(back.kb, potato.kb);
    assert_eq!(back.tags, potato.tags);
    let salt = ingredient_dialog_fields(dm.get_ingredient("salt").unwrap());
    assert_eq!(salt.plural, "");
    assert_eq!(salt.kb, "");
}

#[test]
fn search_with_an_empty_query_finds_every_recipe() {
    let dm = fixture();
    let titles: Vec<&str> = dm.search_recipes("").iter().map(|r| r.title.as_str()).collect();
    assert_eq!(titles, vec!["Lasagna", "Spaghetti Aglio e Olio"]);
}

#[test]
fn categories_split_the_ingredients() {
    let dm = fixture();
    let groups = dm.get_ingredients_by_category();
    let total: usize = groups.iter().map(|(_, v)| v.len()).sum();
    assert_eq!(total, dm.get_all_ingredients().len());
    for (c, v) in &groups {
        let expected = dm.get_all_ingredients().iter().filter(|i| &i.category == c).count();
        assert_eq!(v.len(), expected);
        assert!(v.iter().all(|i| &i.category == c));
    }
}

fn writes(pantry: bool, ingredient: bool, remove_original: bool) -> FileWrites {
    FileWrites { pantry, ingredient, remove_original }
}

#[test]
fn ingredient_dialog_chooses_the_files_to_write() {
    let mut dm = fixture();
    let carrot = ingredient("carrot", "vegetable", None, None);
    let (r, w) = dm.save_ingredient_dialog("", carrot, true, Some(q(3.0)), None);
    assert!(r.is_ok());
    assert_eq!(w, writes(true, true, false));
    let carrot = ingredient("carrot", "root", None, None);
    let (r, w) = dm.save_ingredient_dialog("carrot", carrot, false, None, None);
    assert!(r.is_ok());
    assert_eq!(w, writes(true, true, false));
    let cress = ingredient("cress", "leaf", None, None);
    let (r, w) = dm.save_ingredient_dialog("", cress, false, None, None);
    assert!(r.is_ok());
    assert_eq!(w, writes(false, true, false));
    let dup = ingredient("salt", "spice", None, None);
    let (r, w) = dm.save_ingredient_dialog("", dup, false, None, None);
    assert!(r.is_err());
    assert_eq!(w, writes(false, false, false));
    let spud = ingredient("spud", "vegetable", None, None);
    let (r, w) = dm.save_ingredient_dialog("potato", spud, true, Some(q(1.0)), None);
    assert!(r.is_ok());
    assert_eq!(w, writes(true, true, true));
    assert!(dm.get_ingredient("potato").is_none());
}

#[test]
fn ingredient_updates_choose_the_files_to_write() {
    let mut dm = fixture();
    let (r, w) = dm.update_ingredient_writes("salt", ingredient("salt", "mineral", None, None));
    assert_eq!(r.unwrap(), true);
    assert_eq!(w, writes(false, true, false));
    let (r, w) = dm.update_ingredient_writes("pepper", ingredient("peppercorn", "spice", None, None));
    assert_eq!(r.unwrap(), true);
    assert_eq!(w, writes(true, true, true));
    let (r, w) = dm.update_ingredient_writes("garlic", ingredient("garlic", "x", None, None));
    assert!(r.is_err());
    assert_eq!(w, writes(false, false, false));
    let (r, w) = dm.update_ingredient_with_pantry_writes("flour", ingredient("flour", "baking", None, None), Some(q(2.0)), Some("kg".to_string()));
    assert_eq!(r.unwrap(), true);
    assert_eq!(w, writes(true, true, false));
    let (r, w) = dm.update_ingredient_with_pantry_writes("flour", ingredient("flour", "grain", None, None), None, None);
    assert_eq!(r.unwrap(), true);
    assert_eq!(w, writes(false, true, false));
    let mut bare = DataManager::empty("d".to_string());
    bare.insert_ingredient(ingredient("kale", "leaf", None, None));
    let (r, w) = bare.update_ingredient_writes("kale", ingredient("cale", "leaf", None, None));
    assert_eq!(r.unwrap(), true);
    assert_eq!(w, writes(false, true, true));
}
