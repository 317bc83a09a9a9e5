//! Widget vocabulary: flex axis and alignment, widget kinds, their accessible roles, and the
//! text normalisation and identity mixing used while expanding markup.

use vstd::prelude::*;

use crate::text::{
    chars_of, is_ws, lemma_trim_end_bound, lemma_trim_start_bound, push_char, spec_is_ws, spec_trim,
    str_eq, trim_end_len, trim_range, trim_start_len,
};

verus! {

/// Flex axis.
#[derive(Clone, Copy, Debug, PartialEq, Eq, Structural)]
pub enum Axis {
    /// `row`
    Horizontal,
    /// `column`
    Vertical,
}

/// Main/cross alignment.
#[derive(Clone, Copy, Debug, PartialEq, Eq, Structural)]
pub enum Align {
    /// Pack toward the start.
    Start,
    /// Center on the axis.
    Center,
    /// Pack toward the end.
    End,
    /// Stretch on the cross axis (default for containers).
    Stretch,
}

pub open spec fn spec_align_parse(raw: Seq<char>) -> Align {
    if raw == "center"@ {
        Align::Center
    } else if raw == "end"@ {
        Align::End
    } else if raw == "stretch"@ {
        Align::Stretch
    } else {
        Align::Start
    }
}

impl Align {
    /// Parse `main` / `cross` attribute values (anything unknown packs toward the start).
    pub fn parse(raw: &str) -> (r: Self)
        ensures
            r == spec_align_parse(raw@),
    {
        if str_eq(raw, "center") {
            Align::Center
        } else if str_eq(raw, "end") {
            Align::End
        } else if str_eq(raw, "stretch") {
            Align::Stretch
        } else {
            Align::Start
        }
    }
}

/// Visual / interactive kind.
#[derive(Clone, Copy, Debug, PartialEq, Eq, Structural)]
pub enum WidgetKind {
    /// Flex row.
    Row,
    /// Flex column.
    Column,
    /// Overlay stack.
    Stack,
    /// Card / panel surface.
    Surface,
    /// Scroll clip.
    Scroll,
    /// Flexible or fixed empty space.
    Spacer,
    /// Hairline.
    Separator,
    /// Text leaf.
    Text,
    /// Badge leaf.
    Badge,
    /// Status bar.
    StatusBar,
    /// Button.
    Button,
    /// Checkbox.
    Checkbox,
    /// Radio.
    Radio,
    /// Text field.
    TextField,
    /// Slider track.
    Slider,
    /// Progress bar.
    Progress,
    /// Alert well.
    Alert,
    /// Expansion wrapper. Layout splices children into the parent.
    Fragment,
}

/// The widget kind an element tag expands to (unknown tags lay out as columns).
pub open spec fn spec_kind_of(name: Seq<char>) -> WidgetKind {
    if name == "row"@ || name == "tabs"@ || name == "radio-group"@ || name == "button-group"@
        || name == "toggle-group"@ {
        WidgetKind::Row
    } else if name == "column"@ || name == "list"@ {
        WidgetKind::Column
    } else if name == "stack"@ {
        WidgetKind::Stack
    } else if name == "panel"@ || name == "card"@ || name == "dialog"@ {
        WidgetKind::Surface
    } else if name == "scroll"@ {
        WidgetKind::Scroll
    } else if name == "spacer"@ {
        WidgetKind::Spacer
    } else if name == "separator"@ {
        WidgetKind::Separator
    } else if name == "text"@ || name == "span"@ {
        WidgetKind::Text
    } else if name == "badge"@ {
        WidgetKind::Badge
    } else if name == "status-bar"@ {
        WidgetKind::StatusBar
    } else if name == "button"@ || name == "toggle-button"@ || name == "list-item"@ {
        WidgetKind::Button
    } else if name == "checkbox"@ || name == "toggle"@ || name == "switch"@ {
        WidgetKind::Checkbox
    } else if name == "radio"@ {
        WidgetKind::Radio
    } else if name == "text-field"@ || name == "input"@ || name == "search-field"@
        || name == "textarea"@ {
        WidgetKind::TextField
    } else if name == "slider"@ {
        WidgetKind::Slider
    } else if name == "progress"@ {
        WidgetKind::Progress
    } else if name == "alert"@ {
        WidgetKind::Alert
    } else {
        WidgetKind::Column
    }
}

/// The widget kind for element tag `name`.
pub fn kind_of(name: &str) -> (k: WidgetKind)
    ensures
        k == spec_kind_of(name@),
{
    if str_eq(name, "row") || str_eq(name, "tabs") || str_eq(name, "radio-group") || str_eq(
        name,
        "button-group",
    ) || str_eq(name, "toggle-group") {
        WidgetKind::Row
    } else if str_eq(name, "column") || str_eq(name, "list") {
        WidgetKind::Column
    } else if str_eq(name, "stack") {
        WidgetKind::Stack
    } else if str_eq(name, "panel") || str_eq(name, "card") || str_eq(name, "dialog") {
        WidgetKind::Surface
    } else if str_eq(name, "scroll") {
        WidgetKind::Scroll
    } else if str_eq(name, "spacer") {
        WidgetKind::Spacer
    } else if str_eq(name, "separator") {
        WidgetKind::Separator
    } else if str_eq(name, "text") || str_eq(name, "span") {
        WidgetKind::Text
    } else if str_eq(name, "badge") {
        WidgetKind::Badge
    } else if str_eq(name, "status-bar") {
        WidgetKind::StatusBar
    } else if str_eq(name, "button") || str_eq(name, "toggle-button") || str_eq(name, "list-item") {
        WidgetKind::Button
    } else if str_eq(name, "checkbox") || str_eq(name, "toggle") || str_eq(name, "switch") {
        WidgetKind::Checkbox
    } else if str_eq(name, "radio") {
        WidgetKind::Radio
    } else if str_eq(name, "text-field") || str_eq(name, "input") || str_eq(name, "search-field")
        || str_eq(name, "textarea") {
        WidgetKind::TextField
    } else if str_eq(name, "slider") {
        WidgetKind::Slider
    } else if str_eq(name, "progress") {
        WidgetKind::Progress
    } else if str_eq(name, "alert") {
        WidgetKind::Alert
    } else {
        WidgetKind::Column
    }
}

/// The accessibility role a widget kind is announced with.
pub open spec fn spec_role_of(kind: WidgetKind) -> Seq<char> {
    match kind {
        WidgetKind::Button => "button"@,
        WidgetKind::Checkbox => "checkbox"@,
        WidgetKind::Radio => "radio"@,
        WidgetKind::TextField => "textbox"@,
        WidgetKind::Text => "text"@,
        WidgetKind::Slider => "slider"@,
        WidgetKind::Progress => "progressbar"@,
        WidgetKind::Scroll => "scrollview"@,
        WidgetKind::StatusBar => "status"@,
        WidgetKind::Alert => "alert"@,
        WidgetKind::Separator => "separator"@,
        WidgetKind::Badge => "badge"@,
        WidgetKind::Row | WidgetKind::Column | WidgetKind::Stack | WidgetKind::Surface => "group"@,
        WidgetKind::Spacer => "none"@,
        WidgetKind::Fragment => "group"@,
    }
}

/// Accessibility role of a widget kind.
pub fn role_of(kind: WidgetKind) -> (r: &'static str)
    ensures
        r@ == spec_role_of(kind),
{
    match kind {
        WidgetKind::Button => "button",
        WidgetKind::Checkbox => "checkbox",
        WidgetKind::Radio => "radio",
        WidgetKind::TextField => "textbox",
        WidgetKind::Text => "text",
        WidgetKind::Slider => "slider",
        WidgetKind::Progress => "progressbar",
        WidgetKind::Scroll => "scrollview",
        WidgetKind::StatusBar => "status",
        WidgetKind::Alert => "alert",
        WidgetKind::Separator => "separator",
        WidgetKind::Badge => "badge",
        WidgetKind::Row | WidgetKind::Column | WidgetKind::Stack | WidgetKind::Surface => "group",
        WidgetKind::Spacer => "none",
        WidgetKind::Fragment => "group",
    }
}

// ---------------------------------------------------------------------------
// Whitespace collapsing.
// ---------------------------------------------------------------------------
/// Runs of whitespace in `t` become one space (`prev`: the character before was whitespace).
pub open spec fn collapse_run(t: Seq<char>, prev: bool) -> Seq<char>
    decreases t.len(),
{
    if t.len() == 0 {
        Seq::empty()
    } else if spec_is_ws(t[0]) {
        if prev {
            collapse_run(t.drop_first(), true)
        } else {
            seq![' '] + collapse_run(t.drop_first(), true)
        }
    } else {
        seq![t[0]] + collapse_run(t.drop_first(), false)
    }
}

/// `s` trimmed, with every inner run of whitespace replaced by one space.
pub open spec fn spec_collapse_ws(s: Seq<char>) -> Seq<char> {
    collapse_run(spec_trim(s), false)
}

/// Trim, then collapse inner whitespace runs to single spaces.
pub fn collapse_ws(s: &str) -> (r: String)
    ensures
        r@ == spec_collapse_ws(s@),
{
    let v = chars_of(s);
    let (a, b) = trim_range(v.as_slice(), 0, v.len());
    let ghost t = v@.subrange(a as int, b as int);
    assert(v@.subrange(0, v@.len() as int) =~= s@);
    let mut out = String::new();
    let mut prev = false;
    let mut i = a;
    assert(t.skip(0) =~= t);
    while i < b
        invariant
            a <= i <= b <= v.len(),
            t == v@.subrange(a as int, b as int),
            out@ + collapse_run(t.skip(i - a), prev) == collapse_run(t, false),
        decreases b - i,
    {
        let ch = v[i];
        let ghost rest = t.skip(i - a);
        assert(rest[0] == ch);
        assert(rest.drop_first() =~= t.skip(i + 1 - a));
        if is_ws(ch) {
            if !prev {
                push_char(&mut out, ' ');
                assert(out@ + collapse_run(t.skip(i + 1 - a), true) =~= collapse_run(t, false));
                prev = true;
            }
        } else {
            prev = false;
            push_char(&mut out, ch);
            assert(out@ + collapse_run(t.skip(i + 1 - a), false) =~= collapse_run(t, false));
        }
        i += 1;
    }
    assert(t.skip(i - a) =~= Seq::<char>::empty());
    assert(out@ + Seq::<char>::empty() =~= out@);
    out
}

/// Whitespace in `w` is only single spaces.
pub open spec fn single_spaced(w: Seq<char>) -> bool {
    &&& forall|i: int| 0 <= i < w.len() && spec_is_ws(#[trigger] w[i]) ==> w[i] == ' '
    &&& forall|i: int| 0 <= i < w.len() - 1 ==> !(spec_is_ws(#[trigger] w[i]) && spec_is_ws(w[i + 1]))
}

proof fn lemma_collapse_run_shape(t: Seq<char>, prev: bool)
    ensures
        single_spaced(collapse_run(t, prev)),
        prev ==> collapse_run(t, prev).len() == 0 || !spec_is_ws(collapse_run(t, prev)[0]),
        t.len() > 0 && !spec_is_ws(t.last()) ==> collapse_run(t, prev).len() > 0 && !spec_is_ws(
            collapse_run(t, prev).last(),
        ),
        t.len() > 0 && !spec_is_ws(t[0]) ==> collapse_run(t, prev).len() > 0 && collapse_run(
            t,
            prev,
        )[0] == t[0],
    decreases t.len(),
{
    if t.len() > 0 {
        let r = collapse_run(t, prev);
        if spec_is_ws(t[0]) {
            lemma_collapse_run_shape(t.drop_first(), true);
            let rest = collapse_run(t.drop_first(), true);
            if !prev {
                assert(r =~= seq![' '] + rest);
                assert(' ' == ' ');
                assert forall|i: int| 0 <= i < r.len() && spec_is_ws(#[trigger] r[i]) implies r[i]
                    == ' ' by {
                    if i > 0 {
                        assert(r[i] == rest[i - 1]);
                    }
                }
                assert forall|i: int| 0 <= i < r.len() - 1 implies !(spec_is_ws(#[trigger] r[i])
                    && spec_is_ws(r[i + 1])) by {
                    if i > 0 {
                        assert(r[i] == rest[i - 1]);
                        assert(r[i + 1] == rest[i]);
                    } else {
                        assert(r[1] == rest[0]);
                    }
                }
                if t.len() > 0 && !spec_is_ws(t.last()) {
                    assert(t.drop_first().len() > 0);
                    assert(t.drop_first().last() == t.last());
                }
            } else {
                if t.len() > 0 && !spec_is_ws(t.last()) {
                    assert(t.drop_first().len() > 0);
                    assert(t.drop_first().last() == t.last());
                }
            }
        } else {
            lemma_collapse_run_shape(t.drop_first(), false);
            let rest = collapse_run(t.drop_first(), false);
            assert(r =~= seq![t[0]] + rest);
            assert forall|i: int| 0 <= i < r.len() && spec_is_ws(#[trigger] r[i]) implies r[i]
                == ' ' by {
                if i > 0 {
                    assert(r[i] == rest[i - 1]);
                }
            }
            assert forall|i: int| 0 <= i < r.len() - 1 implies !(spec_is_ws(#[trigger] r[i])
                && spec_is_ws(r[i + 1])) by {
                if i > 0 {
                    assert(r[i] == rest[i - 1]);
                    assert(r[i + 1] == rest[i]);
                }
            }
            if t.len() > 1 && !spec_is_ws(t.last()) {
                assert(t.drop_first().last() == t.last());
            }
        }
    }
}

proof fn lemma_collapse_run_fixed(u: Seq<char>, prev: bool)
    requires
        single_spaced(u),
        prev ==> u.len() == 0 || !spec_is_ws(u[0]),
    ensures
        collapse_run(u, prev) == u,
    decreases u.len(),
{
    if u.len() > 0 {
        let d = u.drop_first();
        assert(single_spaced(d)) by {
            assert forall|i: int| 0 <= i < d.len() && spec_is_ws(#[trigger] d[i]) implies d[i]
                == ' ' by {
                assert(d[i] == u[i + 1]);
            }
            assert forall|i: int| 0 <= i < d.len() - 1 implies !(spec_is_ws(#[trigger] d[i])
                && spec_is_ws(d[i + 1])) by {
                assert(d[i] == u[i + 1]);
                assert(d[i + 1] == u[i + 2]);
            }
        }
        if spec_is_ws(u[0]) {
            if d.len() > 0 {
                assert(!(spec_is_ws(u[0]) && spec_is_ws(u[1])));
                assert(d[0] == u[1]);
            }
            lemma_collapse_run_fixed(d, true);
            assert(seq![' '] + d =~= u);
        } else {
            lemma_collapse_run_fixed(d, false);
            assert(seq![u[0]] + d =~= u);
        }
    }
}

proof fn lemma_trimmed_ends(s: Seq<char>)
    ensures
        spec_trim(s).len() > 0 ==> !spec_is_ws(spec_trim(s)[0]) && !spec_is_ws(spec_trim(s).last()),
{
    lemma_trim_start_bound(s);
    let a = s.skip(trim_start_len(s) as int);
    lemma_trim_end_bound(a);
    let t = spec_trim(s);
    if t.len() > 0 {
        assert(t[0] == a[0]);
        assert(a[0] == s[trim_start_len(s) as int]);
        assert(t.last() == a[a.len() - trim_end_len(a) - 1]);
    }
}

proof fn lemma_trim_fixed(w: Seq<char>)
    requires
        w.len() > 0 ==> !spec_is_ws(w[0]) && !spec_is_ws(w.last()),
    ensures
        spec_trim(w) == w,
{
    assert(trim_start_len(w) == 0);
    assert(w.skip(0) =~= w);
    assert(trim_end_len(w) == 0);
    assert(w.take(w.len() as int) =~= w);
}

/// What `collapse_ws` returns is normalised: no whitespace at either end, and inside only
/// single spaces.
pub proof fn law_collapse_ws_normalises(s: Seq<char>)
    ensures
        single_spaced(spec_collapse_ws(s)),
        spec_collapse_ws(s).len() > 0 ==> !spec_is_ws(spec_collapse_ws(s)[0]) && !spec_is_ws(
            spec_collapse_ws(s).last(),
        ),
{
    lemma_trimmed_ends(s);
    lemma_collapse_run_shape(spec_trim(s), false);
    let t = spec_trim(s);
    if t.len() == 0 {
        assert(collapse_run(t, false) =~= Seq::<char>::empty());
    }
}

/// Collapsing whitespace twice is collapsing it once.
pub proof fn law_collapse_ws_idempotent(s: Seq<char>)
    ensures
        spec_collapse_ws(spec_collapse_ws(s)) == spec_collapse_ws(s),
{
    let w = spec_collapse_ws(s);
    law_collapse_ws_normalises(s);
    lemma_trim_fixed(w);
    lemma_collapse_run_fixed(w, false);
}

// ---------------------------------------------------------------------------
// Identity mixing.
// ---------------------------------------------------------------------------
/// Mix a child index (or any `u64`) into a structural id.
pub fn mix_u64(seed: u64, extra: u64) -> (r: u64)
    ensures
        r == seed ^ extra.wrapping_mul(0x9E37_79B9_7F4A_7C15u64),
{
    seed ^ extra.wrapping_mul(0x9E37_79B9_7F4A_7C15)
}

} // verus!
