//! The application settings: the chosen LUT directory.

use vstd::prelude::*;

verus! {

/// What the application remembers between runs.
pub struct AppSettings {
    pub lut_directory: Option<String>,
}

impl Default for AppSettings {
    /// No LUT directory chosen yet.
    fn default() -> (r: AppSettings)
        ensures
            r.lut_directory is None,
    {
        AppSettings { lut_directory: None }
    }
}

impl Clone for AppSettings {
    fn clone(&self) -> (r: AppSettings)
        ensures
            r.lut_directory == self.lut_directory,
    {
        AppSettings { lut_directory: self.lut_directory.clone() }
    }
}

/// Why the settings cannot be used yet.
#[derive(Clone, Copy, PartialEq, Eq, Debug)]
pub enum SettingsError {
    /// No LUT directory was chosen.
    NoLutDirectory,
}

impl SettingsError {
    /// The text that tells a user what to do.
    pub fn message(&self) -> (r: String)
        ensures
            r@ == "Choose a LUT directory first"@,
    {
        "Choose a LUT directory first".to_owned()
    }
}

impl AppSettings {
    /// Settings with `directory` as the LUT directory.
    pub fn with_lut_directory(directory: String) -> (r: AppSettings)
        ensures
            r.lut_directory == Some(directory),
    {
        AppSettings { lut_directory: Some(directory) }
    }

    /// The chosen LUT directory.
    pub fn configured_lut_directory(&self) -> (r: Result<String, SettingsError>)
        ensures
            match self.lut_directory {
                Some(d) => r == Ok::<String, SettingsError>(d),
                None => r == Err::<String, SettingsError>(SettingsError::NoLutDirectory),
            },
    {
        match &self.lut_directory {
            Some(d) => Ok(d.clone()),
            None => Err(SettingsError::NoLutDirectory),
        }
    }
}

} // verus!
