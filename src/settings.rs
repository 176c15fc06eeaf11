//! Runtime configuration values.

use vstd::prelude::*;

verus! {

/// Where the assistant finds its collaborators and keeps its state.
pub struct Settings {
    /// The chat platform credential.
    pub bot_apikey: String,
    /// The address of the recognition service.
    pub recognizer_uri: String,
    /// The path of the preference file.
    pub db_path: String,
}

} // verus!
