//! What a user sets.

use vstd::prelude::*;

verus! {

/// All settings.
pub struct Config {
    pub mumble: Mumble,
    pub aws: Aws,
}

/// Where the conversation takes place.
pub struct Mumble {
    pub server: String,
}

/// The account that pays for speech recognition.
pub struct Aws {
    pub access_key_id: String,
    pub secret_access_key: String,
}

} // verus!
