//! The state of the main window and how it answers the user's actions.
//!
//! `AppModel::update` takes a message and changes the state; where the
//! message asks for work outside the state (a dialog, a file, reloading the
//! data), it returns that work as an [`Effect`]. The application performs it
//! and reports the [`Outcome`] to `AppModel::complete`, which changes the
//! state again and returns the messages that follow.

use vstd::prelude::*;
use crate::document::{recipe_file_name, underscored};
use crate::model::{prefixed, Ingredient, Quantity, Recipe};
use crate::text::same_text;
use crate::ui::Tab;

verus! {

/// What the user can ask of the main window.
#[derive(Debug, Clone)]
pub enum AppMsg {
    SwitchTab(Tab),
    ShowAbout,
    ShowHelp,
    ResetDialogs,
    SelectRecipe(String),
    SelectIngredient(String),
    SelectKnowledgeBaseEntry(String),
    ToggleInStockFilter(bool),
    SearchTextChanged(String),
    EditIngredient(String),
    EditRecipe(String),
    TogglePantryCategory(String, bool),
    /// (original name, new ingredient, quantity, unit, remove from pantry)
    UpdateIngredientWithPantry(String, Ingredient, Option<Quantity>, Option<String>, bool),
    /// (original title, new recipe)
    UpdateRecipe(String, Recipe),
    ClearError,
    AddIngredient,
    ReloadPantry,
    AddRecipe,
    DeleteRecipe(String),
    DeleteIngredient(String),
    ReloadRecipes,
    CreateRecipe(Recipe),
    RefreshCategoryPopover,
}

/// Work that a message asks of the application.
#[derive(Debug)]
pub enum Effect {
    /// Open the editor for the ingredient with this name, if it exists.
    EditIngredient(String),
    /// Open the editor for the recipe with this title, if it exists.
    EditRecipe(String),
    /// Open the editor on a blank ingredient.
    AddIngredient,
    /// Open the editor on a new recipe.
    AddRecipe,
    /// Replace a recipe and reload the data.
    SaveRecipe(String, Recipe),
    /// Replace an ingredient and its pantry values and reload the data.
    SaveIngredient(String, Ingredient, Option<Quantity>, Option<String>, bool),
    /// Delete this file under `recipes/`.
    RemoveRecipeFile(String),
    /// Delete this file under `ingredients/`.
    RemoveIngredientFile(String),
    /// Reload the data after a change of recipes.
    ReloadRecipes,
    /// Reload the data after a change of the pantry.
    ReloadPantry,
    /// Write this recipe to this file under `recipes/`.
    WriteRecipe(String, Recipe),
}

/// How the work of an [`Effect`] ended.
#[derive(Debug)]
pub enum Outcome {
    /// The recipe was saved under this title.
    RecipeSaved(String),
    /// The ingredient was saved under this name.
    IngredientSaved(String),
    RecipeFileRemoved,
    IngredientFileRemoved,
    RecipesReloaded,
    PantryReloaded,
    /// A new recipe with this title was written.
    RecipeWritten(String),
    /// The work failed; the texts say what failed and why.
    Failed(Failure, String),
}

/// Which work failed.
#[derive(Debug, Clone, Copy, PartialEq, Eq, Structural)]
pub enum Failure {
    UpdateRecipe,
    UpdateIngredient,
    DeleteRecipe,
    DeleteIngredient,
    ReloadRecipes,
    ReloadPantry,
    CreateRecipe,
}

/// The text that starts the error message of a failed piece of work.
pub open spec fn failure_prefix(f: Failure) -> Seq<char> {
    match f {
        Failure::UpdateRecipe => "Failed to update recipe: "@,
        Failure::UpdateIngredient => "Failed to update ingredient: "@,
        Failure::DeleteRecipe => "Failed to delete recipe: "@,
        Failure::DeleteIngredient => "Failed to delete ingredient: "@,
        Failure::ReloadRecipes => "Failed to reload recipes: "@,
        Failure::ReloadPantry => "Failed to reload pantry: "@,
        Failure::CreateRecipe => "Failed to create recipe: "@,
    }
}

/// The state of the main window.
#[derive(Debug)]
pub struct AppModel {
    pub data_dir: String,
    pub current_tab: Tab,
    pub selected_recipe: Option<String>,
    pub selected_ingredient: Option<String>,
    pub selected_kb_entry: Option<String>,
    pub search_text: String,
    pub show_about_dialog: bool,
    pub show_help_dialog: bool,
    pub selected_pantry_categories: Vec<String>,
    pub show_in_stock_only: bool,
    pub error_message: Option<String>,
    pub pantry_list_needs_rebuild: bool,
    pub refresh_category_popover: bool,
}

/// Whether a list of strings holds this text.
pub open spec fn holds_text(v: Seq<String>, t: Seq<char>) -> bool {
    exists|i: int| 0 <= i < v.len() && (#[trigger] v[i])@ == t
}

/// The state after `msg`, as `update` leaves it: each message sets the fields
/// it names and leaves the others as they were.
pub open spec fn after_message(a: AppModel, msg: AppMsg, b: AppModel) -> bool {
    match msg {
        AppMsg::SwitchTab(t) => b == AppModel {
            current_tab: t,
            selected_recipe: if t == Tab::Recipes {
                None
            } else {
                a.selected_recipe
            },
            selected_ingredient: if t == Tab::Pantry {
                None
            } else {
                a.selected_ingredient
            },
            ..a
        },
        AppMsg::ShowAbout => b == AppModel { show_about_dialog: true, ..a },
        AppMsg::ShowHelp => b == AppModel { show_help_dialog: true, ..a },
        AppMsg::ResetDialogs => b == AppModel {
            show_about_dialog: false,
            show_help_dialog: false,
            ..a
        },
        AppMsg::SelectRecipe(t) => b == AppModel { selected_recipe: Some(t), ..a },
        AppMsg::SelectIngredient(n) => b == AppModel { selected_ingredient: Some(n), ..a },
        AppMsg::SelectKnowledgeBaseEntry(s) => b == AppModel { selected_kb_entry: Some(s), ..a },
        AppMsg::ToggleInStockFilter(f) => b == AppModel {
            show_in_stock_only: f,
            pantry_list_needs_rebuild: true,
            ..a
        },
        AppMsg::SearchTextChanged(t) => b == AppModel {
            search_text: t,
            pantry_list_needs_rebuild: true,
            ..a
        },
        AppMsg::TogglePantryCategory(c, selected) => if selected && holds_text(
            a.selected_pantry_categories@,
            c@,
        ) {
            b == a
        } else {
            &&& b == AppModel {
                selected_pantry_categories: b.selected_pantry_categories,
                pantry_list_needs_rebuild: true,
                ..a
            }
            &&& b.selected_pantry_categories@ == if selected {
                a.selected_pantry_categories@.push(c)
            } else {
                a.selected_pantry_categories@.filter(|x: String| x@ != c@)
            }
        },
        AppMsg::ClearError => b == AppModel { error_message: None, ..a },
        AppMsg::RefreshCategoryPopover => b == AppModel { refresh_category_popover: true, ..a },
        _ => b == a,
    }
}

/// The work that `msg` asks of the application, if any.
pub open spec fn effect_of(msg: AppMsg, e: Option<Effect>) -> bool {
    match msg {
        AppMsg::EditIngredient(n) => e == Some(Effect::EditIngredient(n)),
        AppMsg::EditRecipe(t) => e == Some(Effect::EditRecipe(t)),
        AppMsg::AddIngredient => e == Some(Effect::AddIngredient),
        AppMsg::AddRecipe => e == Some(Effect::AddRecipe),
        AppMsg::UpdateIngredientWithPantry(n, ing, q, u, r) => e == Some(
            Effect::SaveIngredient(n, ing, q, u, r),
        ),
        AppMsg::UpdateRecipe(t, r) => e == Some(Effect::SaveRecipe(t, r)),
        AppMsg::DeleteRecipe(t) => e matches Some(Effect::RemoveRecipeFile(f)) && f@ == underscored(
            t@,
        ) + ".md"@,
        AppMsg::DeleteIngredient(slug) => e matches Some(Effect::RemoveIngredientFile(f)) && f@
            == slug@ + ".yaml"@,
        AppMsg::ReloadRecipes => e == Some(Effect::ReloadRecipes),
        AppMsg::ReloadPantry => e == Some(Effect::ReloadPantry),
        AppMsg::CreateRecipe(r) => e matches Some(Effect::WriteRecipe(f, w)) && f@ == underscored(
            r.title@,
        ) + ".md"@ && w == r,
        _ => e is None,
    }
}

/// The state after the work of an effect ended with `o`, and the messages
/// that follow it.
pub open spec fn after_outcome(a: AppModel, o: Outcome, b: AppModel, next: Seq<AppMsg>) -> bool {
    match o {
        Outcome::RecipeSaved(t) => b == AppModel { selected_recipe: Some(t), ..a } && next
            == seq![AppMsg::SwitchTab(Tab::Pantry), AppMsg::SwitchTab(Tab::Recipes)],
        Outcome::IngredientSaved(n) => b == AppModel {
            selected_ingredient: Some(n),
            pantry_list_needs_rebuild: true,
            ..a
        } && next.len() == 0,
        Outcome::RecipeFileRemoved => b == AppModel { selected_recipe: None, ..a } && next
            == seq![AppMsg::ReloadRecipes],
        Outcome::IngredientFileRemoved => b == AppModel { selected_ingredient: None, ..a }
            && next == seq![AppMsg::ReloadPantry],
        Outcome::RecipesReloaded => b == a && next.len() == 0,
        Outcome::PantryReloaded => b == AppModel { pantry_list_needs_rebuild: true, ..a }
            && next.len() == 0,
        Outcome::RecipeWritten(t) => b == AppModel { selected_recipe: Some(t), ..a } && next
            == seq![AppMsg::ReloadRecipes],
        Outcome::Failed(f, e) => {
            &&& b == AppModel { error_message: b.error_message, ..a }
            &&& b.error_message matches Some(m) && m@ == failure_prefix(f) + e@
            &&& next.len() == 0
        },
    }
}

/// Whether a list of strings holds this text (executable form).
fn list_holds(v: &Vec<String>, t: &str) -> (r: bool)
    ensures
        r == holds_text(v@, t@),
{
    let mut i: usize = 0;
    while i < v.len()
        invariant
            i <= v@.len(),
            forall|j: int| 0 <= j < i ==> (#[trigger] v@[j])@ != t@,
        decreases v@.len() - i,
    {
        if same_text(v[i].as_str(), t) {
            return true;
        }
        i = i + 1;
    }
    false
}

/// Removes every entry equal to `t`, keeping the order of the others.
fn remove_text(v: &mut Vec<String>, t: &str)
    ensures
        final(v)@ == old(v)@.filter(|x: String| x@ != t@),
{
    let ghost orig = old(v)@;
    let ghost pred = |x: String| x@ != t@;
    let mut r: Vec<String> = Vec::new();
    let mut i: usize = 0;
    while i < v.len()
        invariant
            v@ == orig,
            pred == (|x: String| x@ != t@),
            i <= v@.len(),
            r@ == orig.take(i as int).filter(pred),
        decreases v@.len() - i,
    {
        proof {
            reveal(Seq::filter);
        }
        assert(orig.take(i + 1).drop_last() =~= orig.take(i as int));
        assert(orig.take(i + 1).last() == orig[i as int]);
        if !same_text(v[i].as_str(), t) {
            r.push(v[i].clone());
        }
        i = i + 1;
    }
    assert(orig.take(i as int) =~= orig);
    *v = r;
}

impl AppModel {
    /// The state in which the window opens: the recipes tab, nothing selected,
    /// no filters, no dialog and no error.
    pub fn new(data_dir: String) -> (m: AppModel)
        ensures
            m.data_dir == data_dir,
            m.current_tab == Tab::Recipes,
            m.selected_recipe is None,
            m.selected_ingredient is None,
            m.selected_kb_entry is None,
            m.search_text@.len() == 0,
            !m.show_about_dialog,
            !m.show_help_dialog,
            m.selected_pantry_categories@.len() == 0,
            !m.show_in_stock_only,
            m.error_message is None,
            !m.pantry_list_needs_rebuild,
            !m.refresh_category_popover,
    {
        AppModel {
            data_dir,
            current_tab: Tab::Recipes,
            selected_recipe: None,
            selected_ingredient: None,
            selected_kb_entry: None,
            search_text: String::new(),
            show_about_dialog: false,
            show_help_dialog: false,
            selected_pantry_categories: Vec::new(),
            show_in_stock_only: false,
            error_message: None,
            pantry_list_needs_rebuild: false,
            refresh_category_popover: false,
        }
    }
    /// Applies a message of the user to the state and returns the work it
    /// asks of the application, if any.
    pub fn update(&mut self, msg: AppMsg) -> (e: Option<Effect>)
        ensures
            after_message(*old(self), msg, *final(self)),
            effect_of(msg, e),
    {
        match msg {
            AppMsg::SwitchTab(t) => {
                self.current_tab = t;
                if t == Tab::Recipes {
                    self.selected_recipe = None;
                }
                if t == Tab::Pantry {
                    self.selected_ingredient = None;
                }
                None
            },
            AppMsg::ShowAbout => {
                self.show_about_dialog = true;
                None
            },
            AppMsg::ShowHelp => {
                self.show_help_dialog = true;
                None
            },
            AppMsg::ResetDialogs => {
                self.show_about_dialog = false;
                self.show_help_dialog = false;
                None
            },
            AppMsg::SelectRecipe(t) => {
                self.selected_recipe = Some(t);
                None
            },
            AppMsg::SelectIngredient(n) => {
                self.selected_ingredient = Some(n);
                None
            },
            AppMsg::SelectKnowledgeBaseEntry(slug) => {
                self.selected_kb_entry = Some(slug);
                None
            },
            AppMsg::TogglePantryCategory(c, selected) => {
                if selected {
                    if !list_holds(&self.selected_pantry_categories, c.as_str()) {
                        self.selected_pantry_categories.push(c);
                        self.pantry_list_needs_rebuild = true;
                    }
                } else {
                    remove_text(&mut self.selected_pantry_categories, c.as_str());
                    self.pantry_list_needs_rebuild = true;
                }
                None
            },
            AppMsg::ToggleInStockFilter(f) => {
                self.show_in_stock_only = f;
                self.pantry_list_needs_rebuild = true;
                None
            },
            AppMsg::SearchTextChanged(t) => {
                self.search_text = t;
                self.pantry_list_needs_rebuild = true;
                None
            },
            AppMsg::ClearError => {
                self.error_message = None;
                None
            },
            AppMsg::RefreshCategoryPopover => {
                self.refresh_category_popover = true;
                None
            },
            AppMsg::EditIngredient(n) => Some(Effect::EditIngredient(n)),
            AppMsg::EditRecipe(t) => Some(Effect::EditRecipe(t)),
            AppMsg::AddIngredient => Some(Effect::AddIngredient),
            AppMsg::AddRecipe => Some(Effect::AddRecipe),
            AppMsg::UpdateIngredientWithPantry(n, ing, q, u, r) => Some(
                Effect::SaveIngredient(n, ing, q, u, r),
            ),
            AppMsg::UpdateRecipe(t, r) => Some(Effect::SaveRecipe(t, r)),
            AppMsg::DeleteRecipe(t) => Some(Effect::RemoveRecipeFile(recipe_file_name(t.as_str()))),
            AppMsg::DeleteIngredient(slug) => Some(
                Effect::RemoveIngredientFile(prefixed(slug.as_str(), ".yaml")),
            ),
            AppMsg::ReloadRecipes => Some(Effect::ReloadRecipes),
            AppMsg::ReloadPantry => Some(Effect::ReloadPantry),
            AppMsg::CreateRecipe(r) => {
                let f = recipe_file_name(r.title.as_str());
                Some(Effect::WriteRecipe(f, r))
            },
        }
    }

    /// Applies how a piece of work ended to the state and returns the
    /// messages that follow it.
    pub fn complete(&mut self, o: Outcome) -> (next: Vec<AppMsg>)
        ensures
            after_outcome(*old(self), o, *final(self), next@),
    {
        let mut next: Vec<AppMsg> = Vec::new();
        match o {
            Outcome::RecipeSaved(t) => {
                self.selected_recipe = Some(t);
                next.push(AppMsg::SwitchTab(Tab::Pantry));
                next.push(AppMsg::SwitchTab(Tab::Recipes));
                assert(next@ =~= seq![AppMsg::SwitchTab(Tab::Pantry), AppMsg::SwitchTab(Tab::Recipes)]);
            },
            Outcome::IngredientSaved(n) => {
                self.selected_ingredient = Some(n);
                self.pantry_list_needs_rebuild = true;
            },
            Outcome::RecipeFileRemoved => {
                self.selected_recipe = None;
                next.push(AppMsg::ReloadRecipes);
                assert(next@ =~= seq![AppMsg::ReloadRecipes]);
            },
            Outcome::IngredientFileRemoved => {
                self.selected_ingredient = None;
                next.push(AppMsg::ReloadPantry);
                assert(next@ =~= seq![AppMsg::ReloadPantry]);
            },
            Outcome::RecipesReloaded => {},
            Outcome::PantryReloaded => {
                self.pantry_list_needs_rebuild = true;
            },
            Outcome::RecipeWritten(t) => {
                self.selected_recipe = Some(t);
                next.push(AppMsg::ReloadRecipes);
                assert(next@ =~= seq![AppMsg::ReloadRecipes]);
            },
            Outcome::Failed(f, e) => {
                let prefix = match f {
                    Failure::UpdateRecipe => "Failed to update recipe: ",
                    Failure::UpdateIngredient => "Failed to update ingredient: ",
                    Failure::DeleteRecipe => "Failed to delete recipe: ",
                    Failure::DeleteIngredient => "Failed to delete ingredient: ",
                    Failure::ReloadRecipes => "Failed to reload recipes: ",
                    Failure::ReloadPantry => "Failed to reload pantry: ",
                    Failure::CreateRecipe => "Failed to create recipe: ",
                };
                self.error_message = Some(prefixed(prefix, e.as_str()));
            },
        }
        next
    }
}

/// What the window sends when the selected recipe or ingredient is not among
/// the rows shown: a search that hides it is cleared; without a search,
/// nothing.
pub fn hidden_selection_follow_up(selection_shown: bool, search_text: &str) -> (m: Option<AppMsg>)
    ensures
        m is Some <==> !selection_shown && search_text@.len() != 0,
        m matches Some(msg) ==> msg matches AppMsg::SearchTextChanged(t) && t@.len() == 0,
{
    if !selection_shown && crate::text::chars_of(search_text).len() != 0 {
        Some(AppMsg::SearchTextChanged(String::new()))
    } else {
        None
    }
}

/// The messages that follow a change in the settings pane: after a new
/// language or data directory the pantry and the recipes are reloaded; in
/// every case the settings tab is shown again.
pub fn after_settings_change(reload: bool) -> (msgs: Vec<AppMsg>)
    ensures
        reload ==> msgs@ == seq![
            AppMsg::ReloadPantry,
            AppMsg::ReloadRecipes,
            AppMsg::SwitchTab(Tab::Settings),
        ],
        !reload ==> msgs@ == seq![AppMsg::SwitchTab(Tab::Settings)],
{
    let mut msgs: Vec<AppMsg> = Vec::new();
    if reload {
        msgs.push(AppMsg::ReloadPantry);
        msgs.push(AppMsg::ReloadRecipes);
    }
    msgs.push(AppMsg::SwitchTab(Tab::Settings));
    if reload {
        assert(msgs@ =~= seq![
            AppMsg::ReloadPantry,
            AppMsg::ReloadRecipes,
            AppMsg::SwitchTab(Tab::Settings),
        ]);
    } else {
        assert(msgs@ =~= seq![AppMsg::SwitchTab(Tab::Settings)]);
    }
    msgs
}

/// What the window redraws for the current state.
#[derive(Debug)]
pub struct ViewPlan {
    /// Rebuild the category checklist of the pantry filter.
    pub refresh_categories: bool,
    /// The tab whose page is shown (and whose sidebar button is marked).
    pub page: Tab,
    /// Select the selected recipe in the recipe list (recipes tab).
    pub sync_recipe_selection: bool,
    /// Select the selected ingredient in the pantry list and show its pane
    /// (pantry tab).
    pub sync_ingredient_selection: bool,
    /// Show the selected article, or a placeholder (knowledge-base tab).
    pub show_kb_details: bool,
    pub show_about: bool,
    pub show_help: bool,
    /// Rebuild the pantry list (pantry tab, when a change asked for it).
    pub rebuild_pantry_list: bool,
    /// Rebuild the recipe list and the recipe pane (recipes tab); on other
    /// tabs only the list is rebuilt.
    pub refresh_recipe_pane: bool,
    /// The error to show.
    pub error: Option<String>,
    /// The message the window sends once the plan is carried out:
    /// `ClearError` after an error was shown, else none.
    pub follow_up: Option<AppMsg>,
}

impl AppModel {
    /// Plans a redraw of the window and clears the requests that it serves:
    /// the category checklist is refreshed when asked for, and the pantry list
    /// is rebuilt when asked for while the pantry tab is shown.
    pub fn plan_view(&mut self) -> (p: ViewPlan)
        ensures
            p.refresh_categories == old(self).refresh_category_popover,
            p.page == old(self).current_tab,
            p.sync_recipe_selection == (old(self).current_tab == Tab::Recipes),
            p.sync_ingredient_selection == (old(self).current_tab == Tab::Pantry),
            p.show_kb_details == (old(self).current_tab == Tab::KnowledgeBase),
            p.show_about == old(self).show_about_dialog,
            p.show_help == old(self).show_help_dialog,
            p.rebuild_pantry_list == (old(self).current_tab == Tab::Pantry
                && old(self).pantry_list_needs_rebuild),
            p.refresh_recipe_pane == (old(self).current_tab == Tab::Recipes),
            p.error == old(self).error_message,
            p.follow_up == (if old(self).error_message is Some {
                Some(AppMsg::ClearError)
            } else {
                None
            }),
            *final(self) == (AppModel {
                refresh_category_popover: false,
                pantry_list_needs_rebuild: old(self).pantry_list_needs_rebuild && !p.rebuild_pantry_list,
                ..*old(self)
            }),
    {
        let tab = self.current_tab;
        let refresh_categories = self.refresh_category_popover;
        self.refresh_category_popover = false;
        let rebuild = tab == Tab::Pantry && self.pantry_list_needs_rebuild;
        if rebuild {
            self.pantry_list_needs_rebuild = false;
        }
        ViewPlan {
            refresh_categories,
            page: tab,
            sync_recipe_selection: tab == Tab::Recipes,
            sync_ingredient_selection: tab == Tab::Pantry,
            show_kb_details: tab == Tab::KnowledgeBase,
            show_about: self.show_about_dialog,
            show_help: self.show_help_dialog,
            rebuild_pantry_list: rebuild,
            refresh_recipe_pane: tab == Tab::Recipes,
            error: self.error_message.clone(),
            follow_up: if self.error_message.is_some() {
                Some(AppMsg::ClearError)
            } else {
                None
            },
        }
    }
}

} // verus!
