//! The application's persisted settings as plain data: window and font
//! preferences, the model endpoint, and bookkeeping the configuration
//! store fills in at startup. Reading and writing the store is the
//! surrounding application's work.

use vstd::prelude::*;

verus! {

/// User preferences for the application window and locale.
#[derive(Debug, Clone)]
pub struct Preference {
    pub win_width: u32,
    pub win_height: u32,
    pub font_size: u32,
    pub font_family: String,
    pub language: String,
    pub always_on_top: bool,
    pub no_frame: bool,
    pub is_dark: bool,
}

impl Default for Preference {
    fn default() -> (p: Preference)
        ensures
            p.win_width == 1200,
            p.win_height == 800,
            p.font_size == 16,
            p.font_family@ == "Source Han Sans CN"@,
            p.language@ == "en"@,
            !p.always_on_top,
            !p.no_frame,
            !p.is_dark,
    {
        Preference {
            win_width: 1200,
            win_height: 800,
            font_size: 16,
            font_family: String::from_str("Source Han Sans CN"),
            language: String::from_str("en"),
            always_on_top: false,
            no_frame: false,
            is_dark: false,
        }
    }
}

/// The model endpoint the application talks to.
#[derive(Debug, Clone)]
pub struct Model {
    pub api_base_url: String,
    pub model_name: String,
    pub api_key: String,
}

impl Default for Model {
    fn default() -> (m: Model)
        ensures
            m.api_base_url@.len() == 0,
            m.model_name@.len() == 0,
            m.api_key@.len() == 0,
    {
        Model { api_base_url: String::new(), model_name: String::new(), api_key: String::new() }
    }
}

/// The full application configuration: paths and flags the store fills in
/// at startup, the application identifier, and the persisted sections.
#[derive(Debug, Clone)]
pub struct Config {
    pub config_path: String,
    pub db_path: String,
    pub cache_dir: String,
    pub is_first_run: bool,
    pub app_name: String,
    pub appid: String,
    pub preference: Preference,
    pub model: Model,
}

impl Default for Config {
    fn default() -> (c: Config)
        ensures
            c.config_path@.len() == 0,
            c.db_path@.len() == 0,
            c.cache_dir@.len() == 0,
            !c.is_first_run,
            c.app_name@.len() == 0,
            c.appid@.len() == 0,
            c.preference.win_width == 1200,
            c.preference.win_height == 800,
            c.model.model_name@.len() == 0,
    {
        Config {
            config_path: String::new(),
            db_path: String::new(),
            cache_dir: String::new(),
            is_first_run: false,
            app_name: String::new(),
            appid: String::new(),
            preference: Preference::default(),
            model: Model::default(),
        }
    }
}

} // verus!
