//! Named design tokens. Values resolve against the live appearance.

use vstd::prelude::*;

use crate::color::Color;
use crate::text::{chars_eq, chars_of};

verus! {

/// Light or dark palette. Follows the host when the app does not pin one.
#[derive(Clone, Copy, Debug, PartialEq, Eq, Structural)]
pub enum Appearance {
    /// Warm paper background, dark ink.
    Light,
    /// Charcoal background, light ink.
    Dark,
}

/// Corner radius token names (`radius="md"`).
#[derive(Clone, Copy, Debug, PartialEq, Eq, Structural)]
pub enum RadiusToken {
    /// 4px.
    Sm,
    /// 8px.
    Md,
    /// 12px.
    Lg,
    /// 16px.
    Xl,
    /// 0.
    Zero,
}

/// What `RadiusToken::parse` returns for `name`.
pub open spec fn spec_radius_parse(name: Seq<char>) -> Option<RadiusToken> {
    if name == "sm"@ {
        Some(RadiusToken::Sm)
    } else if name == "md"@ {
        Some(RadiusToken::Md)
    } else if name == "lg"@ {
        Some(RadiusToken::Lg)
    } else if name == "xl"@ {
        Some(RadiusToken::Xl)
    } else if name == "none"@ || name == "0"@ {
        Some(RadiusToken::Zero)
    } else {
        None
    }
}

/// Whether the characters `v` spell the literal `s`.
pub fn is_lit(v: &Vec<char>, s: &str) -> (r: bool)
    ensures
        r == (v@ == s@),
{
    let w = chars_of(s);
    chars_eq(v.as_slice(), w.as_slice())
}

impl RadiusToken {
    /// Parse a token name.
    pub fn parse(name: &str) -> (r: Option<Self>)
        ensures
            r == spec_radius_parse(name@),
    {
        let v = chars_of(name);
        if is_lit(&v, "sm") {
            Some(RadiusToken::Sm)
        } else if is_lit(&v, "md") {
            Some(RadiusToken::Md)
        } else if is_lit(&v, "lg") {
            Some(RadiusToken::Lg)
        } else if is_lit(&v, "xl") {
            Some(RadiusToken::Xl)
        } else if is_lit(&v, "none") || is_lit(&v, "0") {
            Some(RadiusToken::Zero)
        } else {
            None
        }
    }
}

/// Fully resolved color and radius tables for one appearance.
#[derive(Clone, Copy, Debug)]
pub struct TokenSet {
    /// Window chrome / page fill.
    pub background: Color,
    /// Raised panels, cards, fields.
    pub surface: Color,
    /// Subtle wells, secondary buttons.
    pub surface_subtle: Color,
    /// Pressed / selected wash.
    pub surface_pressed: Color,
    /// Primary copy.
    pub text: Color,
    /// Secondary copy.
    pub text_muted: Color,
    /// Hairlines, field borders.
    pub border: Color,
    /// Interactive accent (buttons, radios, focus companion).
    pub accent: Color,
    /// Text on accent fills.
    pub accent_text: Color,
    /// Destructive action.
    pub destructive: Color,
    /// Text on destructive fills.
    pub destructive_text: Color,
    /// Success.
    pub success: Color,
    /// Warning.
    pub warning: Color,
    /// Keyboard focus ring.
    pub focus_ring: Color,
    /// Disabled fill / copy.
    pub disabled: Color,
    /// Modal scrim.
    pub scrim: Color,
    /// Drop-shadow tint (software approximation).
    pub shadow: Color,
}

/// The color token named `name` in `t` (the names markup authors use).
pub open spec fn spec_token_color(t: TokenSet, name: Seq<char>) -> Option<Color> {
    if name == "background"@ {
        Some(t.background)
    } else if name == "surface"@ {
        Some(t.surface)
    } else if name == "surface_subtle"@ {
        Some(t.surface_subtle)
    } else if name == "surface_pressed"@ {
        Some(t.surface_pressed)
    } else if name == "text"@ {
        Some(t.text)
    } else if name == "text_muted"@ {
        Some(t.text_muted)
    } else if name == "border"@ {
        Some(t.border)
    } else if name == "accent"@ {
        Some(t.accent)
    } else if name == "accent_text"@ || name == "accent-foreground"@ {
        Some(t.accent_text)
    } else if name == "destructive"@ {
        Some(t.destructive)
    } else if name == "destructive_text"@ {
        Some(t.destructive_text)
    } else if name == "success"@ {
        Some(t.success)
    } else if name == "success_text"@ {
        Some(t.text)
    } else if name == "warning"@ {
        Some(t.warning)
    } else if name == "warning_text"@ {
        Some(t.text)
    } else if name == "info"@ {
        Some(t.accent)
    } else if name == "info_text"@ {
        Some(t.accent_text)
    } else if name == "focus_ring"@ || name == "focus-ring"@ {
        Some(t.focus_ring)
    } else if name == "shadow"@ {
        Some(t.shadow)
    } else if name == "scrim"@ {
        Some(t.scrim)
    } else if name == "disabled"@ {
        Some(t.disabled)
    } else if name == "transparent"@ {
        Some(Color { r: 0, g: 0, b: 0, a: 0 })
    } else {
        None
    }
}

impl TokenSet {
    /// Look up a color token by the names markup authors use.
    pub fn color(&self, name: &str) -> (r: Option<Color>)
        ensures
            r == spec_token_color(*self, name@),
    {
        let v = chars_of(name);
        if is_lit(&v, "background") {
            Some(self.background)
        } else if is_lit(&v, "surface") {
            Some(self.surface)
        } else if is_lit(&v, "surface_subtle") {
            Some(self.surface_subtle)
        } else if is_lit(&v, "surface_pressed") {
            Some(self.surface_pressed)
        } else if is_lit(&v, "text") {
            Some(self.text)
        } else if is_lit(&v, "text_muted") {
            Some(self.text_muted)
        } else if is_lit(&v, "border") {
            Some(self.border)
        } else if is_lit(&v, "accent") {
            Some(self.accent)
        } else if is_lit(&v, "accent_text") || is_lit(&v, "accent-foreground") {
            Some(self.accent_text)
        } else if is_lit(&v, "destructive") {
            Some(self.destructive)
        } else if is_lit(&v, "destructive_text") {
            Some(self.destructive_text)
        } else if is_lit(&v, "success") {
            Some(self.success)
        } else if is_lit(&v, "success_text") {
            Some(self.text)
        } else if is_lit(&v, "warning") {
            Some(self.warning)
        } else if is_lit(&v, "warning_text") {
            Some(self.text)
        } else if is_lit(&v, "info") {
            Some(self.accent)
        } else if is_lit(&v, "info_text") {
            Some(self.accent_text)
        } else if is_lit(&v, "focus_ring") || is_lit(&v, "focus-ring") {
            Some(self.focus_ring)
        } else if is_lit(&v, "shadow") {
            Some(self.shadow)
        } else if is_lit(&v, "scrim") {
            Some(self.scrim)
        } else if is_lit(&v, "disabled") {
            Some(self.disabled)
        } else if is_lit(&v, "transparent") {
            Some(Color::transparent())
        } else {
            None
        }
    }
}

/// The stock palette for `appearance`.
pub open spec fn spec_tokens_for(appearance: Appearance) -> TokenSet {
    match appearance {
        Appearance::Light => TokenSet {
            background: Color { r: 0xF4, g: 0xF3, b: 0xEE, a: 255 },
            surface: Color { r: 0xFF, g: 0xFF, b: 0xFC, a: 255 },
            surface_subtle: Color { r: 0xEB, g: 0xEA, b: 0xE3, a: 255 },
            surface_pressed: Color { r: 0xE0, g: 0xDE, b: 0xD4, a: 255 },
            text: Color { r: 0x1A, g: 0x19, b: 0x14, a: 255 },
            text_muted: Color { r: 0x6B, g: 0x69, b: 0x5E, a: 255 },
            border: Color { r: 0xD9, g: 0xD7, b: 0xCC, a: 255 },
            accent: Color { r: 0x2A, g: 0x62, b: 0xD6, a: 255 },
            accent_text: Color { r: 0xFF, g: 0xFF, b: 0xFF, a: 255 },
            destructive: Color { r: 0xC4, g: 0x32, b: 0x2A, a: 255 },
            destructive_text: Color { r: 0xFF, g: 0xFF, b: 0xFF, a: 255 },
            success: Color { r: 0x2A, g: 0x8A, b: 0x4A, a: 255 },
            warning: Color { r: 0xC4, g: 0x86, b: 0x12, a: 255 },
            focus_ring: Color { r: 0x2A, g: 0x62, b: 0xD6, a: 255 },
            disabled: Color { r: 0xB0, g: 0xAE, b: 0xA4, a: 255 },
            scrim: Color { r: 0x14, g: 0x12, b: 0x0C, a: 90 },
            shadow: Color { r: 0x14, g: 0x12, b: 0x0C, a: 40 },
        },
        Appearance::Dark => TokenSet {
            background: Color { r: 0x14, g: 0x14, b: 0x12, a: 255 },
            surface: Color { r: 0x1E, g: 0x1E, b: 0x1B, a: 255 },
            surface_subtle: Color { r: 0x2A, g: 0x2A, b: 0x26, a: 255 },
            surface_pressed: Color { r: 0x34, g: 0x34, b: 0x2E, a: 255 },
            text: Color { r: 0xF2, g: 0xF1, b: 0xEA, a: 255 },
            text_muted: Color { r: 0x9A, g: 0x98, b: 0x8C, a: 255 },
            border: Color { r: 0x3A, g: 0x39, b: 0x33, a: 255 },
            accent: Color { r: 0x6B, g: 0x9B, b: 0xFF, a: 255 },
            accent_text: Color { r: 0x0C, g: 0x12, b: 0x24, a: 255 },
            destructive: Color { r: 0xF0, g: 0x71, b: 0x67, a: 255 },
            destructive_text: Color { r: 0x1A, g: 0x0A, b: 0x08, a: 255 },
            success: Color { r: 0x5D, g: 0xC4, b: 0x78, a: 255 },
            warning: Color { r: 0xE6, g: 0xB8, b: 0x4A, a: 255 },
            focus_ring: Color { r: 0x6B, g: 0x9B, b: 0xFF, a: 255 },
            disabled: Color { r: 0x6A, g: 0x68, b: 0x5E, a: 255 },
            scrim: Color { r: 0x00, g: 0x00, b: 0x00, a: 140 },
            shadow: Color { r: 0x00, g: 0x00, b: 0x00, a: 80 },
        },
    }
}

/// Resolve the stock palette for an appearance.
pub fn tokens_for(appearance: Appearance) -> (t: TokenSet)
    ensures
        t == spec_tokens_for(appearance),
{
    match appearance {
        Appearance::Light => TokenSet {
            background: Color::rgb(0xF4, 0xF3, 0xEE),
            surface: Color::rgb(0xFF, 0xFF, 0xFC),
            surface_subtle: Color::rgb(0xEB, 0xEA, 0xE3),
            surface_pressed: Color::rgb(0xE0, 0xDE, 0xD4),
            text: Color::rgb(0x1A, 0x19, 0x14),
            text_muted: Color::rgb(0x6B, 0x69, 0x5E),
            border: Color::rgb(0xD9, 0xD7, 0xCC),
            accent: Color::rgb(0x2A, 0x62, 0xD6),
            accent_text: Color::rgb(0xFF, 0xFF, 0xFF),
            destructive: Color::rgb(0xC4, 0x32, 0x2A),
            destructive_text: Color::rgb(0xFF, 0xFF, 0xFF),
            success: Color::rgb(0x2A, 0x8A, 0x4A),
            warning: Color::rgb(0xC4, 0x86, 0x12),
            focus_ring: Color::rgb(0x2A, 0x62, 0xD6),
            disabled: Color::rgb(0xB0, 0xAE, 0xA4),
            scrim: Color { r: 20, g: 18, b: 12, a: 90 },
            shadow: Color { r: 20, g: 18, b: 12, a: 40 },
        },
        Appearance::Dark => TokenSet {
            background: Color::rgb(0x14, 0x14, 0x12),
            surface: Color::rgb(0x1E, 0x1E, 0x1B),
            surface_subtle: Color::rgb(0x2A, 0x2A, 0x26),
            surface_pressed: Color::rgb(0x34, 0x34, 0x2E),
            text: Color::rgb(0xF2, 0xF1, 0xEA),
            text_muted: Color::rgb(0x9A, 0x98, 0x8C),
            border: Color::rgb(0x3A, 0x39, 0x33),
            accent: Color::rgb(0x6B, 0x9B, 0xFF),
            accent_text: Color::rgb(0x0C, 0x12, 0x24),
            destructive: Color::rgb(0xF0, 0x71, 0x67),
            destructive_text: Color::rgb(0x1A, 0x0A, 0x08),
            success: Color::rgb(0x5D, 0xC4, 0x78),
            warning: Color::rgb(0xE6, 0xB8, 0x4A),
            focus_ring: Color::rgb(0x6B, 0x9B, 0xFF),
            disabled: Color::rgb(0x6A, 0x68, 0x5E),
            scrim: Color { r: 0, g: 0, b: 0, a: 140 },
            shadow: Color { r: 0, g: 0, b: 0, a: 80 },
        },
    }
}

/// The token vocabulary does not depend on the palette: a name resolves in one token set
/// exactly when it resolves in any other (so markup that checks in light mode also
/// resolves in dark mode).
pub proof fn law_token_names_are_palette_independent(t1: TokenSet, t2: TokenSet, name: Seq<char>)
    ensures
        (spec_token_color(t1, name) is Some) == (spec_token_color(t2, name) is Some),
{
}

} // verus!
