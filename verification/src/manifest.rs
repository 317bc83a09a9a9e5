//! Defaults and fix-ups of an app's `app.json` manifest.

use vstd::prelude::*;

use crate::text::{chars_of, lit, str_eq};
use crate::tokens::Appearance;

verus! {

/// Window title when the manifest gives none.
pub fn default_title() -> (r: String)
    ensures
        r@ == "nativum"@,
{
    lit("nativum")
}

/// Version when the manifest gives none.
pub fn default_version() -> (r: String)
    ensures
        r@ == "0.1.0"@,
{
    lit("0.1.0")
}

/// View path (relative to the app directory) when the manifest gives none.
pub fn default_view() -> (r: String)
    ensures
        r@ == "src/app.native"@,
{
    lit("src/app.native")
}

/// JSON core path (relative to the app directory) when the manifest gives none.
pub fn default_core() -> (r: String)
    ensures
        r@ == "src/core.json"@,
{
    lit("src/core.json")
}

/// The appearance named by the manifest's `appearance` setting: `"dark"` is dark, anything
/// else (`"light"`, `"system"`, empty) is light.
pub open spec fn spec_appearance_of(setting: Seq<char>) -> Appearance {
    if setting == "dark"@ {
        Appearance::Dark
    } else {
        Appearance::Light
    }
}

/// Resolves the manifest's `appearance` setting.
pub fn appearance_of(setting: &str) -> (a: Appearance)
    ensures
        a == spec_appearance_of(setting@),
{
    if str_eq(setting, "dark") {
        Appearance::Dark
    } else {
        Appearance::Light
    }
}

/// The window title shown: the display name replaces a title that is empty or still the
/// default, as long as there is a display name.
pub open spec fn spec_window_title(title: Seq<char>, display_name: Seq<char>) -> Seq<char> {
    if (title.len() == 0 || title == "nativum"@) && display_name.len() > 0 {
        display_name
    } else {
        title
    }
}

/// Resolves the window title from the manifest's title and display name.
pub fn window_title(title: &str, display_name: &str) -> (r: String)
    ensures
        r@ == spec_window_title(title@, display_name@),
{
    let t = chars_of(title);
    let d = chars_of(display_name);
    if (t.len() == 0 || str_eq(title, "nativum")) && d.len() > 0 {
        lit(display_name)
    } else {
        lit(title)
    }
}

/// The package name: the manifest's own, else the app directory's name, else `"app"`.
pub open spec fn spec_package_name(name: Seq<char>, dir_name: Option<Seq<char>>) -> Seq<char> {
    if name.len() > 0 {
        name
    } else {
        match dir_name {
            Some(d) => d,
            None => "app"@,
        }
    }
}

/// Resolves the package name; `dir_name` is the app directory's last component, where it has
/// one that is valid text.
pub fn package_name(name: &str, dir_name: Option<&str>) -> (r: String)
    ensures
        r@ == spec_package_name(name@, match dir_name {
            Some(d) => Some(d@),
            None => None,
        }),
{
    let n = chars_of(name);
    if n.len() > 0 {
        lit(name)
    } else {
        match dir_name {
            Some(d) => lit(d),
            None => lit("app"),
        }
    }
}

} // verus!
