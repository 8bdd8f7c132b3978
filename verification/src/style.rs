//! The style the reader gives an element from the rules that match it: its
//! font family, weight, slant, decoration, alignment, and the other facts
//! that style sheets set by keyword. Each matching rule's declarations are
//! applied in turn, so a later one wins. Lengths, font sizes and colours are
//! floating-point quantities and are not held here.
use vstd::prelude::*;

use crate::css::{
    applies_in_parent, ancestor_views, matches_in_context, matching_indices, matching_rules_in_parent,
    matching_rules_with_ancestors, pair_views, CssRule,
};
use crate::text::{
    chars_of, eq_ignore_ascii_case, eq_ignore_ascii_case_exec, find_char_exec, find_char_from, find_exec,
    find_from, lemma_find_char_from_result, string_from_range, trim, trim_bounds,
    trim_quote_bounds, trim_quotes, views_of, word_bounds, words, pieces, str_eq,
};

verus! {

/// Horizontal alignment of a block's lines (`justify` is laid out as left).
#[derive(Debug, Clone, Copy, PartialEq, Eq, Structural)]
pub enum TextAlign {
    Left,
    Right,
    Center,
}

/// The keyword-valued part of an element's computed style.
#[derive(Debug, Clone)]
pub struct ResolvedStyle {
    pub font_family: Option<String>,
    pub bold: bool,
    pub italic: bool,
    pub underline: bool,
    pub align: Option<TextAlign>,
    pub float_left: bool,
    pub vertical_middle: bool,
    pub border_dashed: bool,
    pub uppercase: bool,
    pub list_style: Option<String>,
    pub text_transparent: bool,
    pub background_clip_text: bool,
}

pub struct StyleView {
    pub font_family: Option<Seq<char>>,
    pub bold: bool,
    pub italic: bool,
    pub underline: bool,
    pub align: Option<TextAlign>,
    pub float_left: bool,
    pub vertical_middle: bool,
    pub border_dashed: bool,
    pub uppercase: bool,
    pub list_style: Option<Seq<char>>,
    pub text_transparent: bool,
    pub background_clip_text: bool,
}

pub open spec fn opt_view(o: Option<String>) -> Option<Seq<char>> {
    match o {
        Some(s) => Some(s@),
        None => None,
    }
}

impl View for ResolvedStyle {
    type V = StyleView;

    open spec fn view(&self) -> StyleView {
        StyleView {
            font_family: opt_view(self.font_family),
            bold: self.bold,
            italic: self.italic,
            underline: self.underline,
            align: self.align,
            float_left: self.float_left,
            vertical_middle: self.vertical_middle,
            border_dashed: self.border_dashed,
            uppercase: self.uppercase,
            list_style: opt_view(self.list_style),
            text_transparent: self.text_transparent,
            background_clip_text: self.background_clip_text,
        }
    }
}

/// The style of an element that no rule touches.
pub open spec fn plain_style() -> StyleView {
    StyleView {
        font_family: None,
        bold: false,
        italic: false,
        underline: false,
        align: None,
        float_left: false,
        vertical_middle: false,
        border_dashed: false,
        uppercase: false,
        list_style: None,
        text_transparent: false,
        background_clip_text: false,
    }
}

impl Default for ResolvedStyle {
    fn default() -> (s: Self)
        ensures
            s@ == plain_style(),
    {
        ResolvedStyle {
            font_family: None,
            bold: false,
            italic: false,
            underline: false,
            align: None,
            float_left: false,
            vertical_middle: false,
            border_dashed: false,
            uppercase: false,
            list_style: None,
            text_transparent: false,
            background_clip_text: false,
        }
    }
}

// ---------------------------------------------------------------------------
// One declaration
// ---------------------------------------------------------------------------

/// The part of a value before its first comma.
pub open spec fn first_piece(value: Seq<char>) -> Seq<char> {
    match find_char_from(value, 0, ',') {
        Some(i) => value.take(i),
        None => value,
    }
}

/// The family a `font-family` value names first, without white space or quotes.
pub open spec fn family_of(value: Seq<char>) -> Seq<char> {
    trim_quotes(trim(first_piece(value)))
}

/// Whether a `font-weight` value makes text bold.
pub open spec fn is_bold_weight(value: Seq<char>) -> bool {
    value == "bold"@ || value == "bolder"@ || value == "700"@ || value == "800"@ || value == "900"@
}

/// The alignment a `text-align` value asks for.
pub open spec fn alignment(value: Seq<char>) -> Option<TextAlign> {
    if value == "left"@ || value == "justify"@ {
        Some(TextAlign::Left)
    } else if value == "right"@ {
        Some(TextAlign::Right)
    } else if value == "center"@ {
        Some(TextAlign::Center)
    } else {
        None
    }
}

/// Whether a border shorthand draws a dashed or dotted line.
pub open spec fn dashed_border(value: Seq<char>) -> bool {
    exists|i: int|
        0 <= i < words(value).len() && (words(value)[i] == "dashed"@ || words(value)[i] == "dotted"@)
}

/// The style after one declaration `prop: value`.
pub open spec fn property_applied(s: StyleView, prop: Seq<char>, value: Seq<char>) -> StyleView {
    if prop == "font-family"@ {
        if family_of(value).len() > 0 {
            StyleView { font_family: Some(family_of(value)), ..s }
        } else {
            s
        }
    } else if prop == "font-weight"@ {
        StyleView { bold: is_bold_weight(value), ..s }
    } else if prop == "font-style"@ {
        StyleView { italic: value == "italic"@ || value == "oblique"@, ..s }
    } else if prop == "text-decoration"@ {
        StyleView { underline: find_from(value, 0, "underline"@) is Some, ..s }
    } else if prop == "text-align"@ {
        StyleView { align: alignment(value), ..s }
    } else if prop == "float"@ {
        StyleView { float_left: eq_ignore_ascii_case(value, "left"@), ..s }
    } else if prop == "vertical-align"@ {
        StyleView { vertical_middle: eq_ignore_ascii_case(value, "middle"@), ..s }
    } else if prop == "border"@ || prop == "border-left"@ || prop == "border-bottom"@ {
        StyleView { border_dashed: s.border_dashed || dashed_border(value), ..s }
    } else if prop == "text-transform"@ {
        StyleView { uppercase: eq_ignore_ascii_case(value, "uppercase"@), ..s }
    } else if prop == "list-style-type"@ {
        StyleView { list_style: Some(trim(value)), ..s }
    } else if prop == "-webkit-text-fill-color"@ && eq_ignore_ascii_case(value, "transparent"@) {
        StyleView { text_transparent: true, ..s }
    } else if prop == "-webkit-background-clip"@ || prop == "background-clip"@ {
        StyleView { background_clip_text: eq_ignore_ascii_case(value, "text"@), ..s }
    } else {
        s
    }
}

fn first_family(value: &str) -> (r: String)
    ensures
        r@ == family_of(value@),
{
    let v = chars_of(value);
    let end = match find_char_exec(&v, 0, ',') {
        Some(i) => {
            proof {
                lemma_find_char_from_result(v@, 0, ',');
            }
            i
        },
        None => v.len(),
    };
    assert(v@.subrange(0, end as int) =~= first_piece(value@));
    let (a, b) = trim_bounds(&v, 0, end);
    let (c, d) = trim_quote_bounds(&v, a, b);
    string_from_range(&v, c, d)
}

fn has_dashed_word(value: &str) -> (r: bool)
    ensures
        r == dashed_border(value@),
{
    let v = chars_of(value);
    let bounds = word_bounds(&v, 0, v.len());
    assert(v@.subrange(0, v@.len() as int) =~= v@);
    let ghost ws = words(value@);
    let dashed = chars_of("dashed");
    let dotted = chars_of("dotted");
    let mut k: usize = 0;
    while k < bounds.len()
        invariant
            k <= bounds.len(),
            v@ == value@,
            ws == words(value@),
            pieces(v@, bounds@) == ws,
            dashed@ == "dashed"@,
            dotted@ == "dotted"@,
            forall|j: int| 0 <= j < bounds.len() ==> (#[trigger] bounds@[j]).0 < bounds@[j].1 <= v.len(),
            forall|j: int| 0 <= j < k ==> ws[j] != "dashed"@ && ws[j] != "dotted"@,
        decreases bounds.len() - k,
    {
        let (a, b) = bounds[k];
        assert(ws[k as int] == v@.subrange(a as int, b as int));
        if crate::text::range_eq(&v, a, b, &dashed) || crate::text::range_eq(&v, a, b, &dotted) {
            return true;
        }
        k += 1;
    }
    false
}

/// Applies one declaration to `style`; see `property_applied`.
pub fn apply_property(style: &mut ResolvedStyle, prop: &str, value: &str)
    ensures
        final(style)@ == property_applied(old(style)@, prop@, value@),
{
    proof {
        reveal_strlit("font-family");
        reveal_strlit("font-weight");
        reveal_strlit("font-style");
        reveal_strlit("text-decoration");
        reveal_strlit("text-align");
        reveal_strlit("float");
        reveal_strlit("vertical-align");
        reveal_strlit("border");
        reveal_strlit("border-left");
        reveal_strlit("border-bottom");
        reveal_strlit("text-transform");
        reveal_strlit("list-style-type");
        reveal_strlit("-webkit-text-fill-color");
        reveal_strlit("-webkit-background-clip");
        reveal_strlit("background-clip");
    }
    let vv = chars_of(value);
    if str_eq(prop, "font-family") {
        let family = first_family(value);
        if family.as_str().unicode_len() > 0 {
            style.font_family = Some(family);
        }
    } else if str_eq(prop, "font-weight") {
        style.bold = str_eq(value, "bold") || str_eq(value, "bolder") || str_eq(value, "700")
            || str_eq(value, "800") || str_eq(value, "900");
    } else if str_eq(prop, "font-style") {
        style.italic = str_eq(value, "italic") || str_eq(value, "oblique");
    } else if str_eq(prop, "text-decoration") {
        style.underline = find_exec(&vv, 0, &chars_of("underline")).is_some();
    } else if str_eq(prop, "text-align") {
        style.align = if str_eq(value, "left") || str_eq(value, "justify") {
            Some(TextAlign::Left)
        } else if str_eq(value, "right") {
            Some(TextAlign::Right)
        } else if str_eq(value, "center") {
            Some(TextAlign::Center)
        } else {
            None
        };
    } else if str_eq(prop, "float") {
        style.float_left = eq_ignore_ascii_case_exec(&vv, "left");
    } else if str_eq(prop, "vertical-align") {
        style.vertical_middle = eq_ignore_ascii_case_exec(&vv, "middle");
    } else if str_eq(prop, "border") || str_eq(prop, "border-left") || str_eq(prop, "border-bottom") {
        if has_dashed_word(value) {
            style.border_dashed = true;
        }
    } else if str_eq(prop, "text-transform") {
        style.uppercase = eq_ignore_ascii_case_exec(&vv, "uppercase");
    } else if str_eq(prop, "list-style-type") {
        style.list_style = Some(crate::text::trim_str(value));
    } else if str_eq(prop, "-webkit-text-fill-color") && eq_ignore_ascii_case_exec(&vv, "transparent") {
        style.text_transparent = true;
    } else if str_eq(prop, "-webkit-background-clip") || str_eq(prop, "background-clip") {
        style.background_clip_text = eq_ignore_ascii_case_exec(&vv, "text");
    }
}

// ---------------------------------------------------------------------------
// Matching rules, in order
// ---------------------------------------------------------------------------

/// The style after a rule's declarations, applied in their order.
pub open spec fn properties_applied(s: StyleView, pairs: Seq<(Seq<char>, Seq<char>)>) -> StyleView
    decreases pairs.len(),
{
    if pairs.len() == 0 {
        s
    } else {
        let before = properties_applied(s, pairs.drop_last());
        property_applied(before, pairs.last().0, pairs.last().1)
    }
}

/// The style after the declarations of the chosen rules, in the order chosen.
pub open spec fn rules_applied(s: StyleView, rules: Seq<CssRule>, chosen: Seq<usize>) -> StyleView
    decreases chosen.len(),
{
    if chosen.len() == 0 {
        s
    } else {
        let before = rules_applied(s, rules, chosen.drop_last());
        properties_applied(before, rules[chosen.last() as int].properties.pairs())
    }
}

pub proof fn lemma_matching_indices_below(applies: spec_fn(int) -> bool, n: int)
    requires
        0 <= n <= usize::MAX + 1,
    ensures
        forall|k: int|
            0 <= k < matching_indices(applies, n).len() ==> matching_indices(applies, n)[k] < n,
    decreases n,
{
    if n > 0 {
        lemma_matching_indices_below(applies, n - 1);
        let prev = matching_indices(applies, n - 1);
        assert((n - 1) as usize == n - 1);
        assert forall|k: int|
            0 <= k < matching_indices(applies, n).len() implies matching_indices(applies, n)[k] < n by {
            if k < prev.len() {
                assert(matching_indices(applies, n)[k] == prev[k]);
            }
        }
    }
}

fn apply_rule(style: &mut ResolvedStyle, rule: &CssRule)
    ensures
        final(style)@ == properties_applied(old(style)@, rule.properties.pairs()),
{
    let entries = rule.properties.entries();
    let ghost ps = pair_views(entries@);
    let mut i: usize = 0;
    while i < entries.len()
        invariant
            i <= entries.len(),
            ps == pair_views(entries@),
            ps == rule.properties.pairs(),
            style@ == properties_applied(old(style)@, ps.take(i as int)),
        decreases entries.len() - i,
    {
        assert(ps.take(i + 1).drop_last() =~= ps.take(i as int));
        apply_property(style, entries[i].0.as_str(), entries[i].1.as_str());
        i += 1;
    }
    assert(ps.take(entries.len() as int) =~= ps);
}

fn apply_rules(style: &mut ResolvedStyle, rules: &[CssRule], chosen: &Vec<usize>)
    requires
        forall|k: int| 0 <= k < chosen.len() ==> chosen@[k] < rules.len(),
    ensures
        final(style)@ == rules_applied(old(style)@, rules@, chosen@),
{
    let mut k: usize = 0;
    while k < chosen.len()
        invariant
            k <= chosen.len(),
            forall|j: int| 0 <= j < chosen.len() ==> chosen@[j] < rules.len(),
            style@ == rules_applied(old(style)@, rules@, chosen@.take(k as int)),
        decreases chosen.len() - k,
    {
        assert(chosen@.take(k + 1).drop_last() =~= chosen@.take(k as int));
        apply_rule(style, &rules[chosen[k]]);
        k += 1;
    }
    assert(chosen@.take(chosen.len() as int) =~= chosen@);
}

/// The style of an element: the declarations of every rule that matches it
/// (directly, or through a two-part descendant selector naming its parent),
/// applied in style-sheet order.
pub fn resolve_style_in_parent(
    tag: &str,
    classes: &[String],
    parent_tag: Option<&str>,
    rules: &[CssRule],
) -> (r: ResolvedStyle)
    ensures
        r@ == rules_applied(
            plain_style(),
            rules@,
            matching_indices(
                applies_in_parent(
                    rules@,
                    tag@,
                    views_of(classes@),
                    match parent_tag {
                        Some(p) => Some(p@),
                        None => None,
                    },
                ),
                rules@.len() as int,
            ),
        ),
{
    let chosen = matching_rules_in_parent(tag, classes, parent_tag, rules);
    proof {
        let pt = match parent_tag {
            Some(p) => Some(p@),
            None => None,
        };
        lemma_matching_indices_below(applies_in_parent(rules@, tag@, views_of(classes@), pt), rules.len() as int);
    }
    let mut style = ResolvedStyle::default();
    apply_rules(&mut style, rules, &chosen);
    style
}

/// The style of an element with no parent context.
pub fn resolve_style(tag: &str, classes: &[String], rules: &[CssRule]) -> (r: ResolvedStyle)
    ensures
        r@ == rules_applied(
            plain_style(),
            rules@,
            matching_indices(applies_in_parent(rules@, tag@, views_of(classes@), None), rules@.len() as int),
        ),
{
    resolve_style_in_parent(tag, classes, None, rules)
}

/// The style of an element given its chain of ancestors: the declarations of
/// every rule whose selector matches it in that context, in style-sheet order.
pub fn resolve_style_with_ancestors(
    tag: &str,
    classes: &[String],
    ancestors: &[(&str, &[String])],
    rules: &[CssRule],
) -> (r: ResolvedStyle)
    ensures
        r@ == rules_applied(
            plain_style(),
            rules@,
            matching_indices(
                |i: int|
                    matches_in_context(
                        rules@[i].selector@,
                        tag@,
                        views_of(classes@),
                        ancestor_views(ancestors@),
                    ),
                rules@.len() as int,
            ),
        ),
{
    let chosen = matching_rules_with_ancestors(tag, classes, ancestors, rules);
    proof {
        lemma_matching_indices_below(
            |i: int|
                matches_in_context(
                    rules@[i].selector@,
                    tag@,
                    views_of(classes@),
                    ancestor_views(ancestors@),
                ),
            rules.len() as int,
        );
    }
    let mut style = ResolvedStyle::default();
    apply_rules(&mut style, rules, &chosen);
    style
}

// ---------------------------------------------------------------------------
// Inheritance
// ---------------------------------------------------------------------------

/// A child's style once it inherits from its parent: the family when it sets
/// none, and bold, italic, underline and upper case when the parent has them.
pub open spec fn inherited(parent: StyleView, child: StyleView) -> StyleView {
    StyleView {
        font_family: match child.font_family {
            Some(f) => Some(f),
            None => parent.font_family,
        },
        bold: child.bold || parent.bold,
        italic: child.italic || parent.italic,
        underline: child.underline || parent.underline,
        uppercase: child.uppercase || parent.uppercase,
        align: child.align,
        float_left: child.float_left,
        vertical_middle: child.vertical_middle,
        border_dashed: child.border_dashed,
        list_style: child.list_style,
        text_transparent: child.text_transparent,
        background_clip_text: child.background_clip_text,
    }
}

fn copy_option(o: &Option<String>) -> (r: Option<String>)
    ensures
        opt_view(r) == opt_view(*o),
{
    match o {
        Some(s) => Some(crate::text::string_from(&chars_of(s.as_str()))),
        None => None,
    }
}

pub fn inherit_style(parent: &ResolvedStyle, child: &ResolvedStyle) -> (r: ResolvedStyle)
    ensures
        r@ == inherited(parent@, child@),
{
    let font_family = copy_option(if child.font_family.is_some() { &child.font_family } else { &parent.font_family });
    let list_style = copy_option(&child.list_style);
    let r = ResolvedStyle {
        font_family,
        bold: child.bold || parent.bold,
        italic: child.italic || parent.italic,
        underline: child.underline || parent.underline,
        align: child.align,
        float_left: child.float_left,
        vertical_middle: child.vertical_middle,
        border_dashed: child.border_dashed,
        uppercase: child.uppercase || parent.uppercase,
        list_style,
        text_transparent: child.text_transparent,
        background_clip_text: child.background_clip_text,
    };
    proof {
        assert(r@.font_family == inherited(parent@, child@).font_family);
    }
    r
}


/// A numeric `font-weight` (a hundred from 100 to 900, written in decimal)
/// makes text bold exactly from 700 up, whatever the style was; the keywords
/// `bold` and `bolder` make it bold too, and `normal` does not.
pub proof fn law_font_weight_is_bold_from_700(s: StyleView, n: nat)
    requires
        n % 100 == 0,
        100 <= n <= 900,
    ensures
        property_applied(s, "font-weight"@, crate::numbers::decimal_digits(n)).bold <==> n >= 700,
        property_applied(s, "font-weight"@, "bold"@).bold,
        property_applied(s, "font-weight"@, "bolder"@).bold,
        !property_applied(s, "font-weight"@, "normal"@).bold,
{
    reveal_strlit("font-family");
    reveal_strlit("font-weight");
    reveal_strlit("bold");
    reveal_strlit("bolder");
    reveal_strlit("normal");
    reveal_strlit("700");
    reveal_strlit("800");
    reveal_strlit("900");
    reveal_with_fuel(crate::numbers::decimal_digits, 3);
    assert("font-weight"@ != "font-family"@) by {
        assert("font-weight"@[5] != "font-family"@[5]);
    }
    assert("normal"@ != "bold"@ && "normal"@ != "bolder"@ && "normal"@ != "700"@);
    assert("normal"@ != "800"@ && "normal"@ != "900"@);
    let h = (n / 100) as nat;
    assert(n == h * 100);
    let c = (('0' as nat) + h) as char;
    assert(crate::numbers::decimal_digits(n) =~= seq![c, '0', '0']) by {
        assert(n / 10 == h * 10);
        assert((h * 10) / 10 == h);
        assert(crate::numbers::decimal_digits(h) =~= seq![c]);
        assert(crate::numbers::decimal_digits(h * 10) =~= seq![c, '0']);
    }
    let d = crate::numbers::decimal_digits(n);
    if n >= 700 {
        assert(h == 7 || h == 8 || h == 9);
        if h == 7 {
            assert(d =~= "700"@);
        } else if h == 8 {
            assert(d =~= "800"@);
        } else {
            assert(d =~= "900"@);
        }
    } else {
        assert(d[0] != '7' && d[0] != '8' && d[0] != '9' && d[0] != 'b');
        assert(d != "700"@ && d != "800"@ && d != "900"@);
        assert(d != "bold"@ && d != "bolder"@);
    }
}

} // verus!
