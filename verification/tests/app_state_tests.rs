use cookbook::app_state::{
    after_settings_change, hidden_selection_follow_up, AppModel, AppMsg, Effect, Failure, Outcome,
};
use cookbook::ui::Tab;
use cookbook::Recipe;

fn recipe(title: &str) -> Recipe {
    Recipe {
        title: title.to_string(),
        ingredients: Vec::new(),
        prep_time: Some(5),
        downtime: None,
        servings: Some(2),
        tags: None,
        image: None,
        instructions: "Mix.".to_string(),
    }
}

#[test]
fn app_model_starts_on_recipes_with_nothing_selected() {
    let m = AppModel::new("/tmp/cookbook-data".to_string());
    assert_eq!(m.current_tab, Tab::Recipes);
    assert_eq!(m.data_dir, "/tmp/cookbook-data");
    assert!(m.selected_recipe.is_none());
    assert!(m.selected_ingredient.is_none());
    assert!(m.error_message.is_none());
    assert!(m.selected_pantry_categories.is_empty());
}

#[test]
fn switching_tabs_clears_the_selection_of_the_tab_entered() {
    let mut m = AppModel::new("d".to_string());
    assert!(m.update(AppMsg::SelectRecipe("Lasagna".to_string())).is_none());
    assert!(m.update(AppMsg::SelectIngredient("egg".to_string())).is_none());
    m.update(AppMsg::SwitchTab(Tab::Pantry));
    assert_eq!(m.current_tab, Tab::Pantry);
    assert_eq!(m.selected_recipe.as_deref(), Some("Lasagna"));
    assert!(m.selected_ingredient.is_none());
    m.update(AppMsg::SelectIngredient("egg".to_string()));
    m.update(AppMsg::SwitchTab(Tab::Recipes));
    assert!(m.selected_recipe.is_none());
    assert_eq!(m.selected_ingredient.as_deref(), Some("egg"));
    m.update(AppMsg::SelectRecipe("Soup".to_string()));
    m.update(AppMsg::SwitchTab(Tab::KnowledgeBase));
    assert_eq!(m.selected_recipe.as_deref(), Some("Soup"));
}

#[test]
fn dialogs_open_and_reset() {
    let mut m = AppModel::new("d".to_string());
    m.update(AppMsg::ShowAbout);
    assert!(m.show_about_dialog && !m.show_help_dialog);
    m.update(AppMsg::ShowHelp);
    assert!(m.show_about_dialog && m.show_help_dialog);
    m.update(AppMsg::ResetDialogs);
    assert!(!m.show_about_dialog && !m.show_help_dialog);
}

#[test]
fn toggling_categories_adds_once_and_removes_all() {
    let mut m = AppModel::new("d".to_string());
    m.update(AppMsg::TogglePantryCategory("vegetable".to_string(), true));
    assert!(m.pantry_list_needs_rebuild);
    m.pantry_list_needs_rebuild = false;
    m.update(AppMsg::TogglePantryCategory("vegetable".to_string(), true));
    assert!(!m.pantry_list_needs_rebuild);
    m.update(AppMsg::TogglePantryCategory("dairy".to_string(), true));
    assert_eq!(m.selected_pantry_categories, vec!["vegetable".to_string(), "dairy".to_string()]);
    m.update(AppMsg::TogglePantryCategory("vegetable".to_string(), false));
    assert_eq!(m.selected_pantry_categories, vec!["dairy".to_string()]);
    assert!(m.pantry_list_needs_rebuild);
}

#[test]
fn filters_set_their_value_and_ask_for_a_rebuild() {
    let mut m = AppModel::new("d".to_string());
    m.update(AppMsg::ToggleInStockFilter(true));
    assert!(m.show_in_stock_only && m.pantry_list_needs_rebuild);
    m.pantry_list_needs_rebuild = false;
    m.update(AppMsg::SearchTextChanged("tom".to_string()));
    assert_eq!(m.search_text, "tom");
    assert!(m.pantry_list_needs_rebuild);
    m.update(AppMsg::RefreshCategoryPopover);
    assert!(m.refresh_category_popover);
}

#[test]
fn work_messages_return_effects_and_leave_the_state() {
    let mut m = AppModel::new("d".to_string());
    match m.update(AppMsg::DeleteRecipe("Spaghetti Aglio e Olio".to_string())) {
        Some(Effect::RemoveRecipeFile(f)) => assert_eq!(f, "Spaghetti_Aglio_e_Olio.md"),
        other => panic!("unexpected {:?}", other),
    }
    match m.update(AppMsg::DeleteIngredient("olive oil".to_string())) {
        Some(Effect::RemoveIngredientFile(f)) => assert_eq!(f, "olive oil.yaml"),
        other => panic!("unexpected {:?}", other),
    }
    match m.update(AppMsg::CreateRecipe(recipe("Green Salad"))) {
        Some(Effect::WriteRecipe(f, r)) => {
            assert_eq!(f, "Green_Salad.md");
            assert_eq!(r.title, "Green Salad");
        }
        other => panic!("unexpected {:?}", other),
    }
    assert!(matches!(m.update(AppMsg::ReloadPantry), Some(Effect::ReloadPantry)));
    assert!(matches!(m.update(AppMsg::AddRecipe), Some(Effect::AddRecipe)));
    assert_eq!(m.current_tab, Tab::Recipes);
    assert!(m.selected_recipe.is_none());
}

#[test]
fn outcomes_select_and_ask_for_reloads() {
    let mut m = AppModel::new("d".to_string());
    let next = m.complete(Outcome::RecipeSaved("Soup".to_string()));
    assert_eq!(m.selected_recipe.as_deref(), Some("Soup"));
    assert_eq!(next.len(), 2);
    assert!(matches!(next[0], AppMsg::SwitchTab(Tab::Pantry)));
    assert!(matches!(next[1], AppMsg::SwitchTab(Tab::Recipes)));
    let next = m.complete(Outcome::RecipeFileRemoved);
    assert!(m.selected_recipe.is_none());
    assert!(matches!(next.as_slice(), [AppMsg::ReloadRecipes]));
    let next = m.complete(Outcome::IngredientFileRemoved);
    assert!(matches!(next.as_slice(), [AppMsg::ReloadPantry]));
    let next = m.complete(Outcome::PantryReloaded);
    assert!(next.is_empty() && m.pantry_list_needs_rebuild);
}

#[test]
fn failed_work_sets_the_error_message() {
    let mut m = AppModel::new("d".to_string());
    m.complete(Outcome::Failed(Failure::DeleteRecipe, "No such file".to_string()));
    assert_eq!(m.error_message.as_deref(), Some("Failed to delete recipe: No such file"));
    m.update(AppMsg::ClearError);
    assert!(m.error_message.is_none());
}

#[test]
fn a_hidden_selection_clears_the_search() {
    assert!(matches!(hidden_selection_follow_up(false, "tom"), Some(AppMsg::SearchTextChanged(t)) if t.is_empty()));
    assert!(hidden_selection_follow_up(true, "tom").is_none());
    assert!(hidden_selection_follow_up(false, "").is_none());
}

#[test]
fn settings_changes_reload_and_return_to_settings() {
    let msgs = after_settings_change(true);
    assert_eq!(msgs.len(), 3);
    assert!(matches!(msgs[0], AppMsg::ReloadPantry));
    assert!(matches!(msgs[1], AppMsg::ReloadRecipes));
    assert!(matches!(msgs[2], AppMsg::SwitchTab(Tab::Settings)));
    let msgs = after_settings_change(false);
    assert!(matches!(msgs.as_slice(), [AppMsg::SwitchTab(Tab::Settings)]));
}

#[test]
fn tabs_name_their_pages_and_sidebar_buttons() {
    assert_eq!(Tab::KnowledgeBase.page_name(), "kb");
    assert_eq!(Tab::Recipes.page_name(), "recipes");
    assert_eq!(Tab::of_sidebar_button(1), Some(Tab::Pantry));
    assert_eq!(Tab::of_sidebar_button(3), Some(Tab::Settings));
    assert_eq!(Tab::of_sidebar_button(4), None);
}

#[test]
fn test_appmsg_enum() {
    let msg = AppMsg::SwitchTab(Tab::Recipes);
    match msg {
        AppMsg::SwitchTab(tab) => assert_eq!(tab, Tab::Recipes),
        _ => panic!("Wrong variant"),
    }
}

#[test]
fn view_plan_serves_and_clears_requests() {
    let mut m = AppModel::new("d".to_string());
    m.update(AppMsg::SwitchTab(Tab::Pantry));
    m.update(AppMsg::ToggleInStockFilter(true));
    m.update(AppMsg::RefreshCategoryPopover);
    m.complete(Outcome::Failed(Failure::ReloadPantry, "gone".to_string()));
    let p = m.plan_view();
    assert!(p.refresh_categories && p.rebuild_pantry_list && p.sync_ingredient_selection);
    assert!(!p.sync_recipe_selection && !p.refresh_recipe_pane);
    assert_eq!(p.page, Tab::Pantry);
    assert_eq!(p.error.as_deref(), Some("Failed to reload pantry: gone"));
    assert!(matches!(p.follow_up, Some(AppMsg::ClearError)));
    m.update(AppMsg::ClearError);
    assert!(!m.refresh_category_popover && !m.pantry_list_needs_rebuild);
    let p = m.plan_view();
    assert!(!p.refresh_categories && !p.rebuild_pantry_list);
    assert!(p.error.is_none() && p.follow_up.is_none());
    m.update(AppMsg::ToggleInStockFilter(false));
    m.update(AppMsg::SwitchTab(Tab::Recipes));
    let p = m.plan_view();
    assert!(!p.rebuild_pantry_list && p.refresh_recipe_pane);
    assert!(m.pantry_list_needs_rebuild);
}
