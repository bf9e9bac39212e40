//! The two texts the overlay shows, and what to do when none were stored.

use vstd::prelude::*;

verus! {

/// The texts shown beside the icon.
#[derive(Clone, Debug)]
pub struct Settings {
    pub username: String,
    pub game_title: String,
}

/// Settings to show, and whether they still have to be written to the store.
#[derive(Debug)]
pub struct LoadedSettings {
    pub settings: Settings,
    pub persist: bool,
}

impl Settings {
    /// `self` holds the texts used when nothing was stored.
    pub open spec fn is_default(&self) -> bool {
        &&& self.username@ == "Your Name"@
        &&& self.game_title@ == "Your Game"@
    }

    /// The texts used when nothing was stored.
    pub fn defaults() -> (settings: Settings)
        ensures
            settings.is_default(),
    {
        Settings { username: "Your Name".to_owned(), game_title: "Your Game".to_owned() }
    }

    /// Chooses the settings to run with. `stored` is what the settings store
    /// held, `None` where it was missing or unreadable: stored settings are
    /// used as they are, and otherwise the defaults are used and marked to be
    /// persisted.
    pub fn load_or_create(stored: Option<Settings>) -> (loaded: LoadedSettings)
        ensures
            match stored {
                Some(s) => loaded.settings == s && !loaded.persist,
                None => loaded.settings.is_default() && loaded.persist,
            },
    {
        match stored {
            Some(settings) => LoadedSettings { settings, persist: false },
            None => LoadedSettings { settings: Settings::defaults(), persist: true },
        }
    }
}

} // verus!
