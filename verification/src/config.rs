//! Gage's own settings: where they live and which scanners they enable.
use vstd::prelude::*;

use crate::text::{push_char, push_str, string_views};

verus! {

/// `rel` appended to `base` as a path component, as `Path::join` does on
/// Unix: an absolute `rel` replaces `base`; otherwise a `/` separates the
/// two unless `base` is empty or already ends in one.
pub open spec fn joined_path(base: Seq<char>, rel: Seq<char>) -> Seq<char> {
    if rel.len() > 0 && rel[0] == '/' {
        rel
    } else if base.len() == 0 || base.last() == '/' {
        base + rel
    } else {
        base + seq!['/'] + rel
    }
}

/// Joins `rel` onto the path `base` (see `joined_path`).
pub fn join_path(base: &str, rel: &str) -> (p: String)
    ensures
        p@ == joined_path(base@, rel@),
{
    let mut p = String::new();
    let rel_len = rel.unicode_len();
    if rel_len > 0 && rel.get_char(0) == '/' {
        push_str(&mut p, rel);
        return p;
    }
    let base_len = base.unicode_len();
    push_str(&mut p, base);
    if base_len > 0 && base.get_char(base_len - 1) != '/' {
        push_char(&mut p, '/');
    }
    push_str(&mut p, rel);
    p
}

/// The gage home directory: `$GAGE_HOME` when it is set, otherwise
/// `$HOME/.gage`. The arguments are the values of the two variables.
pub fn gage_home(gage_home_var: Option<String>, home_var: Option<String>) -> (p: String)
    requires
        gage_home_var is Some || home_var is Some,
    ensures
        p@ == match gage_home_var {
            Some(g) => g@,
            None => joined_path(home_var->0@, ".gage"@),
        },
{
    match gage_home_var {
        Some(g) => g,
        None => {
            let home = home_var.unwrap();
            join_path(home.as_str(), ".gage")
        },
    }
}

/// The default settings file under the gage home directory.
pub fn default_settings_path(gage_home: &str) -> (p: String)
    ensures
        p@ == joined_path(gage_home@, "settings.json"@),
{
    join_path(gage_home, "settings.json")
}

/// The plugin marketplace directory under the gage home directory, where
/// `gage init` stages the coding agent's plugin marketplace.
pub fn plugin_marketplace_dir(gage_home: &str) -> (p: String)
    ensures
        p@ == joined_path(gage_home@, ".plugin-marketplace"@),
{
    join_path(gage_home, ".plugin-marketplace")
}

/// A display-friendly settings path: `~/.gage/settings.json` when
/// `$GAGE_HOME` is not set, otherwise the literal path under it. The
/// argument is the value of `$GAGE_HOME`.
pub fn display_settings_path(gage_home_var: Option<String>) -> (p: String)
    ensures
        p@ == match gage_home_var {
            Some(g) => joined_path(g@, "settings.json"@),
            None => "~/.gage/settings.json"@,
        },
{
    match gage_home_var {
        Some(g) => default_settings_path(g.as_str()),
        None => {
            let mut p = String::new();
            push_str(&mut p, "~/.gage/settings.json");
            p
        },
    }
}

/// Scanner selection in the settings file.
#[derive(Debug, Clone)]
pub struct ScannerSettings {
    /// When non-empty, only these scanners are enabled. Otherwise all
    /// scanners not in `disable` are enabled.
    pub enable: Vec<String>,
    /// Scanners that are explicitly disabled. Takes precedence over
    /// `enable`.
    pub disable: Vec<String>,
}

/// Contents of the settings file.
#[derive(Debug, Clone)]
pub struct Settings {
    pub scanners: ScannerSettings,
}

impl Default for ScannerSettings {
    fn default() -> (s: Self)
        ensures
            s.enable@.len() == 0,
            s.disable@.len() == 0,
    {
        ScannerSettings { enable: Vec::new(), disable: Vec::new() }
    }
}

impl Default for Settings {
    fn default() -> (s: Self)
        ensures
            s.scanners.enable@.len() == 0,
            s.scanners.disable@.len() == 0,
    {
        Settings { scanners: ScannerSettings::default() }
    }
}

/// A scanner is enabled when `disable` does not name it and either
/// `enable` is empty or names it.
pub open spec fn scanner_enabled(settings: Settings, name: Seq<char>) -> bool {
    &&& !string_views(settings.scanners.disable@).contains(name)
    &&& (settings.scanners.enable@.len() == 0 || string_views(settings.scanners.enable@).contains(
        name,
    ))
}

/// Whether `list` holds a string equal to `name`.
fn names_contain(list: &Vec<String>, name: &str) -> (r: bool)
    ensures
        r == string_views(list@).contains(name@),
{
    let mut i: usize = 0;
    while i < list.len()
        invariant
            i <= list@.len(),
            forall|j: int| 0 <= j < i ==> #[trigger] list@[j]@ != name@,
        decreases list.len() - i,
    {
        if list[i].as_str().eq(name) {
            assert(string_views(list@)[i as int] == name@);
            return true;
        }
        i = i + 1;
    }
    assert forall|j: int| 0 <= j < list@.len() implies #[trigger] string_views(list@)[j] != name@ by {
        assert(list@[j]@ != name@);
    }
    false
}

impl Settings {
    /// True if the named scanner is enabled per these settings.
    ///
    /// A scanner is enabled when (a) `enable` is empty or contains the
    /// name, and (b) `disable` does not contain the name.
    pub fn is_scanner_enabled(&self, name: &str) -> (r: bool)
        ensures
            r == scanner_enabled(*self, name@),
    {
        if names_contain(&self.scanners.disable, name) {
            return false;
        }
        if self.scanners.enable.len() == 0 {
            return true;
        }
        names_contain(&self.scanners.enable, name)
    }
}

/// A non-empty enable list enables only the scanners it names: a scanner
/// it does not name is not enabled, whatever the disable list holds.
pub proof fn law_enable_list_restricts(settings: Settings, name: Seq<char>)
    requires
        settings.scanners.enable@.len() > 0,
        forall|j: int|
            0 <= j < settings.scanners.enable@.len() ==> (#[trigger] settings.scanners.enable@[j])@
                != name,
    ensures
        !scanner_enabled(settings, name),
{
    assert(!string_views(settings.scanners.enable@).contains(name)) by {
        if string_views(settings.scanners.enable@).contains(name) {
            let j = choose|j: int|
                0 <= j < string_views(settings.scanners.enable@).len() && string_views(
                    settings.scanners.enable@,
                )[j] == name;
            assert(settings.scanners.enable@[j]@ == name);
        }
    }
}

/// A scanner is enabled exactly when no entry of the disable list names it
/// and the enable list is empty or one of its entries names it.
pub proof fn law_enabled_exactly(settings: Settings, name: Seq<char>)
    ensures
        scanner_enabled(settings, name) <==> (forall|j: int|
            0 <= j < settings.scanners.disable@.len() ==> (#[trigger] settings.scanners.disable@[j])@
                != name) && (settings.scanners.enable@.len() == 0 || exists|j: int|
            0 <= j < settings.scanners.enable@.len() && (#[trigger] settings.scanners.enable@[j])@
                == name),
{
    let d = settings.scanners.disable@;
    let e = settings.scanners.enable@;
    assert(string_views(d).contains(name) <==> exists|j: int| 0 <= j < d.len() && (#[trigger] d[j])@ == name) by {
        if string_views(d).contains(name) {
            let j = choose|j: int| 0 <= j < string_views(d).len() && string_views(d)[j] == name;
            assert(d[j]@ == name);
        }
        if exists|j: int| 0 <= j < d.len() && (#[trigger] d[j])@ == name {
            let j = choose|j: int| 0 <= j < d.len() && (#[trigger] d[j])@ == name;
            assert(string_views(d)[j] == name);
        }
    }
    assert(string_views(e).contains(name) <==> exists|j: int| 0 <= j < e.len() && (#[trigger] e[j])@ == name) by {
        if string_views(e).contains(name) {
            let j = choose|j: int| 0 <= j < string_views(e).len() && string_views(e)[j] == name;
            assert(e[j]@ == name);
        }
        if exists|j: int| 0 <= j < e.len() && (#[trigger] e[j])@ == name {
            let j = choose|j: int| 0 <= j < e.len() && (#[trigger] e[j])@ == name;
            assert(string_views(e)[j] == name);
        }
    }
}

/// Disabling wins over enabling: a scanner named in `disable` is never
/// enabled, whatever `enable` says.
pub proof fn law_disable_wins(settings: Settings, name: Seq<char>)
    requires
        string_views(settings.scanners.disable@).contains(name),
    ensures
        !scanner_enabled(settings, name),
{
}

/// Default settings enable every scanner.
pub proof fn law_default_enables_all(settings: Settings, name: Seq<char>)
    requires
        settings.scanners.enable@.len() == 0,
        settings.scanners.disable@.len() == 0,
    ensures
        scanner_enabled(settings, name),
{
}

} // verus!
