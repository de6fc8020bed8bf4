use vstd::prelude::*;

verus! {

/// The user settings the host keeps in its flat settings file. The only
/// recognized option is the display theme.
pub struct Settings {
    theme: String,
}

/// The theme used when no settings are stored or they cannot be read.
pub open spec fn default_theme() -> Seq<char> {
    "light"@
}

impl Settings {
    /// The theme this settings value carries, as a mathematical string.
    pub closed spec fn spec_theme(self) -> Seq<char> {
        self.theme@
    }

    pub fn new(theme: String) -> (s: Settings)
        ensures
            s.spec_theme() == theme@,
    {
        Settings { theme }
    }

    pub fn theme(&self) -> (t: &str)
        ensures
            t@ == self.spec_theme(),
    {
        self.theme.as_str()
    }
}

impl Default for Settings {
    /// Missing settings default to the light theme.
    fn default() -> (s: Settings)
        ensures
            s.spec_theme() == default_theme(),
    {
        Settings { theme: "light".to_owned() }
    }
}

/// The default-on-missing rule for the settings file: a value that was
/// read and understood is kept, anything else becomes the default.
pub fn settings_or_default(parsed: Option<Settings>) -> (s: Settings)
    ensures
        (match parsed {
            Some(p) => s.spec_theme() == p.spec_theme(),
            None => s.spec_theme() == default_theme(),
        }),
{
    match parsed {
        Some(p) => p,
        None => Settings::default(),
    }
}

} // verus!
