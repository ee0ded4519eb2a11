//! Recipe, pantry and knowledge-base management for a plain-file cookbook.
//!
//! The data lives in plain files (YAML and Markdown); this crate holds the
//! in-memory model of that data and every rule that reads or changes it.

pub mod app_state;
pub mod bridge;
pub mod config;
pub mod document;
pub mod forms;
pub mod i18n;
pub mod laws;
pub mod manager;
pub mod markup;
pub mod model;
pub mod sorting;
pub mod text;
pub mod ui;
pub mod user_settings;
pub mod views;

pub use manager::{DataManager, FileWrites};
pub use model::{
    CookbookError, Ingredient, KnowledgeBaseEntry, Pantry, PantryItem, Quantity, Recipe,
    RecipeIngredient, TranslationForms,
};
