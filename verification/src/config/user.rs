//! The user-authored style configuration: style rules, shorthands, groups,
//! palettes, keyframes, breakpoints, media queries, modifiers, colors,
//! atoms and CSS variables.

use vstd::prelude::*;

use crate::ordered_map::OrderedMap;
use crate::utils::{
    css_variables_of, get_css_variables_from_string, indent, join_strings, kebab_of, push_char,
    sep_join, spec_indent, to_kebab_case, views_of_strings,
};
use crate::INDENTATION;

verus! {

/// The selector under which root-level CSS variables are declared.
pub fn root_selector() -> (r: &'static str)
    ensures
        r@ == ":root"@,
{
    ":root"
}

/// A CSS value: either a bare number (interpreted as a pixel measurement
/// when it names a breakpoint) or a string.
pub enum CssValue {
    Number(u32),
    Str(String),
}

impl CssValue {
    /// The textual form of the value.
    pub open spec fn spec_get_string(&self) -> Seq<char> {
        match self {
            CssValue::Number(n) => crate::utils::dec_str(*n as int),
            CssValue::Str(s) => s@,
        }
    }

    /// Render the value as text: numbers in decimal, strings unchanged.
    pub fn get_string(&self) -> (r: String)
        ensures
            r@ == self.spec_get_string(),
    {
        match self {
            CssValue::Number(n) => crate::utils::u32_to_string(*n),
            CssValue::Str(s) => s.clone(),
        }
    }

    /// An equal value.
    pub fn dup(&self) -> (r: Self)
        ensures
            r == *self,
    {
        match self {
            CssValue::Number(n) => CssValue::Number(*n),
            CssValue::Str(s) => CssValue::Str(s.clone()),
        }
    }
}

/// One declaration template of a style rule: either a fixed
/// property/value pair, or a property name whose value is filled in from
/// the resolved class-name value.
pub enum StyleRule {
    /// The rule carries its own value.
    WithValue(String, CssValue),
    /// The rule names a property; the value comes from the class name.
    Name(String),
}

impl StyleRule {
    /// The declaration text, with a missing value rendered as empty after
    /// the colon.
    pub open spec fn spec_style_declaration(&self, value: Option<CssValue>) -> Seq<char> {
        match self {
            StyleRule::WithValue(name, v) => name@ + ": "@ + v.spec_get_string(),
            StyleRule::Name(name) => match value {
                Some(v) => name@ + ": "@ + v.spec_get_string(),
                None => name@ + ": "@,
            },
        }
    }

    /// The declaration text, where a value-less template with no supplied
    /// value renders as nothing at all.
    pub open spec fn spec_style_declaration_opt(&self, value: Option<CssValue>) -> Seq<char> {
        match self {
            StyleRule::WithValue(name, v) => name@ + ": "@ + v.spec_get_string(),
            StyleRule::Name(name) => match value {
                Some(v) => name@ + ": "@ + v.spec_get_string(),
                None => Seq::empty(),
            },
        }
    }

    /// Render the declaration; a missing value leaves the value slot empty.
    pub fn get_style_declaration(&self, css_value: Option<CssValue>) -> (r: String)
        ensures
            r@ == self.spec_style_declaration(css_value),
    {
        match self {
            StyleRule::WithValue(name, v) => {
                let mut out = name.clone();
                out.append(": ");
                let vs = v.get_string();
                out.append(vs.as_str());
                proof {
                    assert(out@ =~= self.spec_style_declaration(css_value));
                }
                out
            },
            StyleRule::Name(name) => {
                let mut out = name.clone();
                out.append(": ");
                match &css_value {
                    Some(v) => {
                        let vs = v.get_string();
                        out.append(vs.as_str());
                    },
                    None => {},
                }
                proof {
                    assert(out@ =~= self.spec_style_declaration(css_value));
                }
                out
            },
        }
    }

    /// Render the declaration; a value-less template with no supplied value
    /// renders as the empty string.
    pub fn get_style_declaration_as_ref(&self, css_value: Option<&CssValue>) -> (r: String)
        ensures
            r@ == match css_value {
                Some(v) => self.spec_style_declaration_opt(Some(*v)),
                None => self.spec_style_declaration_opt(None),
            },
    {
        match self {
            StyleRule::WithValue(name, v) => {
                let mut out = name.clone();
                out.append(": ");
                let vs = v.get_string();
                out.append(vs.as_str());
                proof {
                    assert(out@ =~= name@ + ": "@ + v.spec_get_string());
                }
                out
            },
            StyleRule::Name(name) => match css_value {
                Some(v) => {
                    let mut out = name.clone();
                    out.append(": ");
                    let vs = v.get_string();
                    out.append(vs.as_str());
                    proof {
                        assert(out@ =~= name@ + ": "@ + v.spec_get_string());
                    }
                    out
                },
                None => String::new(),
            },
        }
    }

    /// An equal rule.
    pub fn dup(&self) -> (r: Self)
        ensures
            r == *self,
    {
        match self {
            StyleRule::WithValue(name, v) => StyleRule::WithValue(name.clone(), v.dup()),
            StyleRule::Name(name) => StyleRule::Name(name.clone()),
        }
    }
}

/// A named set of declarations shared by several selectors.
pub enum Group {
    Props(Vec<StyleRule>),
}

/// The declaration lines of a group, each closed with a semicolon.
pub open spec fn group_decl_views(props: Seq<StyleRule>) -> Seq<Seq<char>> {
    props.map_values(|p: StyleRule| p.spec_style_declaration(None) + ";"@)
}

/// The rendered CSS block of a group, over the views of its parts.
pub open spec fn spec_group_css(props: Seq<StyleRule>, selectors: Seq<Seq<char>>) -> Seq<char> {
    sep_join(selectors, ",\n"@) + " {\n"@ + spec_indent(
        sep_join(group_decl_views(props), "\n"@),
        INDENTATION as int,
    ) + "\n}"@
}

impl Group {
    /// The group's declaration templates.
    pub open spec fn spec_props(&self) -> Seq<StyleRule> {
        match self {
            Group::Props(props) => props@,
        }
    }

    /// Render the group's declaration block for the given selectors.
    pub fn get_css(&self, selectors: &Vec<String>) -> (r: String)
        ensures
            r@ == spec_group_css(self.spec_props(), views_of_strings(selectors@)),
    {
        match self {
            Group::Props(props) => {
                let mut declarations: Vec<String> = Vec::new();
                let ghost decl_views = group_decl_views(props@);
                let mut i: usize = 0;
                while i < props.len()
                    invariant
                        0 <= i <= props@.len(),
                        decl_views == group_decl_views(props@),
                        views_of_strings(declarations@) == decl_views.take(i as int),
                    decreases props@.len() - i,
                {
                    let mut d = props[i].get_style_declaration(None);
                    d.append(";");
                    let ghost pre = declarations@;
                    declarations.push(d);
                    proof {
                        crate::utils::lemma_views_push(pre, d);
                        assert(views_of_strings(declarations@) =~= decl_views.take(i + 1 as int));
                    }
                    i = i + 1;
                }
                proof {
                    assert(decl_views.take(props@.len() as int) =~= decl_views);
                }
                let body = join_strings(&declarations, "\n");
                let indented = indent(body.as_str(), INDENTATION);
                let mut out = join_strings(selectors, ",\n");
                out.append(" {\n");
                out.append(indented.as_str());
                out.append("\n}");
                proof {
                    assert(out@ =~= spec_group_css(
                        self.spec_props(),
                        views_of_strings(selectors@),
                    ));
                }
                out
            },
        }
    }

    /// The CSS custom properties referenced by the group's declarations.
    pub fn get_css_variables_names(&self, selectors: &Vec<String>) -> (r: Vec<String>)
        ensures
            views_of_strings(r@) == css_variables_of(
                spec_group_css(self.spec_props(), views_of_strings(selectors@)),
            ),
    {
        let css = self.get_css(selectors);
        get_css_variables_from_string(css.as_str())
    }

    /// An equal group.
    pub fn dup(&self) -> (r: Self)
        ensures
            r.spec_props() =~= self.spec_props(),
    {
        match self {
            Group::Props(props) => {
                let mut out: Vec<StyleRule> = Vec::new();
                let mut i: usize = 0;
                while i < props.len()
                    invariant
                        0 <= i <= props@.len(),
                        out@ == props@.take(i as int),
                    decreases props@.len() - i,
                {
                    out.push(props[i].dup());
                    proof {
                        assert(out@ =~= props@.take(i + 1 as int));
                    }
                    i = i + 1;
                }
                proof {
                    assert(props@.take(props@.len() as int) =~= props@);
                }
                Group::Props(out)
            },
        }
    }
}

/// Copy a vector of names; the copy's view equals the original's.
pub fn dup_string_vec(v: &Vec<String>) -> (r: Vec<String>)
    ensures
        r@ == v@,
{
    let mut out: Vec<String> = Vec::new();
    let mut i: usize = 0;
    while i < v.len()
        invariant
            0 <= i <= v@.len(),
            out@ == v@.take(i as int),
        decreases v@.len() - i,
    {
        out.push(v[i].clone());
        proof {
            assert(out@ =~= v@.take(i + 1 as int));
        }
        i = i + 1;
    }
    proof {
        assert(v@.take(v@.len() as int) =~= v@);
    }
    out
}

/// Copy a map of plain string values.
pub fn dup_string_map(m: &OrderedMap<String>) -> (r: OrderedMap<String>)
    ensures
        r@ == m@,
{
    let mut out: OrderedMap<String> = OrderedMap::new();
    let mut i: usize = 0;
    while i < m.len()
        invariant
            0 <= i <= m@.len(),
            out@ == m@.take(i as int),
        decreases m@.len() - i,
    {
        out.push_entry(m.key_at(i).clone(), m.value_at(i).clone());
        proof {
            assert(out@ =~= m@.take(i + 1 as int));
        }
        i = i + 1;
    }
    proof {
        assert(m@.take(m@.len() as int) =~= m@);
    }
    out
}

/// Copy a map of CSS values.
pub fn dup_css_value_map(m: &OrderedMap<CssValue>) -> (r: OrderedMap<CssValue>)
    ensures
        r@ == m@,
{
    let mut out: OrderedMap<CssValue> = OrderedMap::new();
    let mut i: usize = 0;
    while i < m.len()
        invariant
            0 <= i <= m@.len(),
            out@ == m@.take(i as int),
        decreases m@.len() - i,
    {
        out.push_entry(m.key_at(i).clone(), m.value_at(i).dup());
        proof {
            assert(out@ =~= m@.take(i + 1 as int));
        }
        i = i + 1;
    }
    proof {
        assert(m@.take(m@.len() as int) =~= m@);
    }
    out
}

/// Whether the views of the entries of two nested maps agree entry for
/// entry. Two nested maps cannot be compared whole, since the inner maps
/// compare by their views.
pub open spec fn nested_map_views_agree(
    a: Seq<(String, OrderedMap<CssValue>)>,
    b: Seq<(String, OrderedMap<CssValue>)>,
) -> bool {
    &&& a.len() == b.len()
    &&& forall|i: int|
        0 <= i < a.len() ==> (#[trigger] a[i]).0@ == (#[trigger] b[i]).0@ && a[i].1@ == b[i].1@
}

/// Copy a nested map of CSS values.
pub fn dup_nested_css_value_map(m: &OrderedMap<OrderedMap<CssValue>>) -> (r: OrderedMap<
    OrderedMap<CssValue>,
>)
    ensures
        nested_map_views_agree(r@, m@),
{
    let mut out: OrderedMap<OrderedMap<CssValue>> = OrderedMap::new();
    let mut i: usize = 0;
    while i < m.len()
        invariant
            0 <= i <= m@.len(),
            nested_map_views_agree(out@, m@.take(i as int)),
        decreases m@.len() - i,
    {
        out.push_entry(m.key_at(i).clone(), dup_css_value_map(m.value_at(i)));
        proof {
            assert(m@.take(i + 1 as int).drop_last() =~= m@.take(i as int));
            assert(forall|j: int|
                0 <= j < i ==> (#[trigger] m@.take(i + 1 as int)[j]) == m@.take(i as int)[j]);
        }
        i = i + 1;
    }
    proof {
        assert(m@.take(m@.len() as int) =~= m@);
    }
    out
}

/// A set of named animation frames: frame selector to property table.
pub enum Keyframes {
    Frame(OrderedMap<OrderedMap<String>>),
}

/// The property name of a keyframe declaration: custom properties pass
/// through, anything else is converted to kebab case.
pub open spec fn spec_kf_prop_name(p: Seq<char>) -> Seq<char> {
    if p.len() > 0 && p[0] == '-' {
        p
    } else {
        kebab_of(p)
    }
}

/// The declaration lines of one frame.
pub open spec fn kf_decl_views(styles: Seq<(String, String)>) -> Seq<Seq<char>> {
    styles.map_values(|e: (String, String)| spec_kf_prop_name(e.0@) + ": "@ + e.1@ + ";"@)
}

/// One rendered frame section.
pub open spec fn spec_kf_section(key: Seq<char>, styles: Seq<(String, String)>) -> Seq<char> {
    key + " {\n"@ + spec_indent(sep_join(kf_decl_views(styles), "\n"@), INDENTATION as int)
        + "\n}"@
}

/// The rendered frame sections of a keyframes table.
pub open spec fn kf_section_views(frames: Seq<(String, OrderedMap<String>)>) -> Seq<Seq<char>> {
    frames.map_values(|f: (String, OrderedMap<String>)| spec_kf_section(f.0@, f.1@))
}

/// The whole `@keyframes` block for the given name.
pub open spec fn spec_keyframes_css(
    name: Seq<char>,
    frames: Seq<(String, OrderedMap<String>)>,
) -> Seq<char> {
    "@keyframes "@ + name + " {\n"@ + spec_indent(
        sep_join(kf_section_views(frames), "\n"@),
        INDENTATION as int,
    ) + "\n}"@
}

impl Keyframes {
    /// The frame table.
    pub open spec fn spec_frames(&self) -> Seq<(String, OrderedMap<String>)> {
        match self {
            Keyframes::Frame(frames) => frames@,
        }
    }

    /// Render the whole `@keyframes` block for the given animation name.
    pub fn get_css(&self, name: &str) -> (r: String)
        ensures
            r@ == spec_keyframes_css(name@, self.spec_frames()),
    {
        match self {
            Keyframes::Frame(frames) => {
                let mut sections: Vec<String> = Vec::new();
                let ghost section_views = kf_section_views(frames@);
                let mut i: usize = 0;
                while i < frames.len()
                    invariant
                        0 <= i <= frames@.len(),
                        section_views == kf_section_views(frames@),
                        views_of_strings(sections@) == section_views.take(i as int),
                    decreases frames@.len() - i,
                {
                    let key = frames.key_at(i);
                    let styles = frames.value_at(i);
                    let mut declarations: Vec<String> = Vec::new();
                    let ghost decl_views = kf_decl_views(styles@);
                    let mut j: usize = 0;
                    while j < styles.len()
                        invariant
                            0 <= j <= styles@.len(),
                            decl_views == kf_decl_views(styles@),
                            views_of_strings(declarations@) == decl_views.take(j as int),
                        decreases styles@.len() - j,
                    {
                        let property = styles.key_at(j);
                        let value = styles.value_at(j);
                        let starts_dash = property.as_str().unicode_len() > 0
                            && property.as_str().get_char(0) == '-';
                        let mut d = if starts_dash {
                            property.clone()
                        } else {
                            to_kebab_case(property.as_str())
                        };
                        d.append(": ");
                        d.append(value.as_str());
                        d.append(";");
                        let ghost pre = declarations@;
                        declarations.push(d);
                        proof {
                            crate::utils::lemma_views_push(pre, d);
                            assert(d@ == spec_kf_prop_name(property@) + ": "@ + value@ + ";"@);
                            assert(views_of_strings(declarations@) =~= decl_views.take(
                                j + 1 as int,
                            ));
                        }
                        j = j + 1;
                    }
                    proof {
                        assert(decl_views.take(styles@.len() as int) =~= decl_views);
                    }
                    let body = join_strings(&declarations, "\n");
                    let indented = indent(body.as_str(), INDENTATION);
                    let mut section = key.clone();
                    section.append(" {\n");
                    section.append(indented.as_str());
                    section.append("\n}");
                    let ghost pre_sections = sections@;
                    proof {
                        assert(section@ =~= spec_kf_section(key@, styles@));
                    }
                    sections.push(section);
                    proof {
                        crate::utils::lemma_views_push(pre_sections, section);
                        assert(views_of_strings(sections@) =~= section_views.take(i + 1 as int));
                    }
                    i = i + 1;
                }
                proof {
                    assert(section_views.take(frames@.len() as int) =~= section_views);
                }
                let body = join_strings(&sections, "\n");
                let indented = indent(body.as_str(), INDENTATION);
                let mut out = String::from_str("@keyframes ");
                out.append(name);
                out.append(" {\n");
                out.append(indented.as_str());
                out.append("\n}");
                proof {
                    assert(out@ =~= spec_keyframes_css(name@, self.spec_frames()));
                }
                out
            },
        }
    }

    /// The CSS custom properties referenced anywhere in the block.
    pub fn get_css_variables_names(&self, name: &str) -> (r: Vec<String>)
        ensures
            views_of_strings(r@) == css_variables_of(spec_keyframes_css(name@, self.spec_frames())),
    {
        let css = self.get_css(name);
        get_css_variables_from_string(css.as_str())
    }
}

/// A value atom: named values plus the style rules they apply to.
pub struct AtomValue {
    pub keyframes: Vec<String>,
    pub groups: Vec<String>,
    pub style_rules: Vec<String>,
    pub values: OrderedMap<AtomCssValue>,
}

/// The value a named atom value resolves to: either one CSS value or a
/// table of values.
pub enum AtomCssValue {
    Value(CssValue),
    /// A table of values keyed by name.
    Object(OrderedMap<CssValue>),
}

impl AtomCssValue {
    /// Whether the views of two atom values agree.
    pub open spec fn view_agrees(self, other: AtomCssValue) -> bool {
        match (self, other) {
            (AtomCssValue::Value(a), AtomCssValue::Value(b)) => a == b,
            (AtomCssValue::Object(a), AtomCssValue::Object(b)) => a@ == b@,
            _ => false,
        }
    }

    /// A copy whose views agree with this value's.
    pub fn dup(&self) -> (r: Self)
        ensures
            self.view_agrees(r),
            r.view_agrees(*self),
    {
        match self {
            AtomCssValue::Value(v) => AtomCssValue::Value(v.dup()),
            AtomCssValue::Object(m) => AtomCssValue::Object(dup_css_value_map(m)),
        }
    }
}

/// A color atom: its values are derived from the configured colors and,
/// optionally, the palette.
pub struct AtomColor {
    pub keyframes: Vec<String>,
    pub groups: Vec<String>,
    pub style_rules: Vec<String>,
    pub colors: AtomColorOptions,
}

/// The options of a color atom.
pub struct AtomColorOptions {
    /// The CSS variable that carries the color opacity.
    pub opacity: String,
    /// When true, every palette entry also becomes an available value.
    pub palette: bool,
}

/// An authored atom: either a color atom or a value atom.
pub enum Atom {
    Color(AtomColor),
    Value(AtomValue),
}

/// Whether the views of two atom-value maps agree entry for entry.
pub open spec fn atom_values_agree(
    a: Seq<(String, AtomCssValue)>,
    b: Seq<(String, AtomCssValue)>,
) -> bool {
    &&& a.len() == b.len()
    &&& forall|i: int|
        0 <= i < a.len() ==> (#[trigger] a[i]).0@ == (#[trigger] b[i]).0@ && a[i].1.view_agrees(
            b[i].1,
        )
}

impl Atom {
    /// Flatten an atom into value form: a color atom keeps its keyframes
    /// and groups but starts with no style rules or values.
    pub fn to_atom_value(&self) -> (r: AtomValue)
        ensures
            match self {
                Atom::Color(color) => r.keyframes@ == color.keyframes@ && r.groups@
                    == color.groups@ && r.style_rules@.len() == 0 && r.values@.len() == 0,
                Atom::Value(value) => r.keyframes@ == value.keyframes@ && r.groups@
                    == value.groups@ && r.style_rules@ == value.style_rules@ && atom_values_agree(
                    r.values@,
                    value.values@,
                ),
            },
    {
        match self {
            Atom::Color(color) => AtomValue {
                keyframes: dup_string_vec(&color.keyframes),
                groups: dup_string_vec(&color.groups),
                style_rules: Vec::new(),
                values: OrderedMap::new(),
            },
            Atom::Value(value) => {
                let mut values: OrderedMap<AtomCssValue> = OrderedMap::new();
                let mut i: usize = 0;
                while i < value.values.len()
                    invariant
                        0 <= i <= value.values@.len(),
                        atom_values_agree(values@, value.values@.take(i as int)),
                    decreases value.values@.len() - i,
                {
                    values.push_entry(
                        value.values.key_at(i).clone(),
                        value.values.value_at(i).dup(),
                    );
                    proof {
                        assert(forall|j: int|
                            0 <= j <= i ==> (#[trigger] value.values@.take(i + 1 as int)[j])
                                == value.values@[j]);
                        assert(forall|j: int|
                            0 <= j < i ==> (#[trigger] value.values@.take(i as int)[j])
                                == value.values@[j]);
                    }
                    i = i + 1;
                }
                proof {
                    assert(value.values@.take(value.values@.len() as int) =~= value.values@);
                }
                AtomValue {
                    keyframes: dup_string_vec(&value.keyframes),
                    groups: dup_string_vec(&value.groups),
                    style_rules: dup_string_vec(&value.style_rules),
                    values,
                }
            },
        }
    }
}

/// The output format of derived colors.
#[derive(PartialEq, Eq, Structural, Clone, Copy)]
pub enum ColorFormat {
    Rgb,
    Hsl,
}

impl Default for ColorFormat {
    /// The default color format is HSL.
    fn default() -> (r: ColorFormat)
        ensures
            r == ColorFormat::Hsl,
    {
        ColorFormat::Hsl
    }
}

/// General configuration options.
pub struct Options {
    pub color_format: ColorFormat,
}

/// A CSS variable normalized into one lookup structure: a value per
/// selector, with optional per-breakpoint and per-media-query overrides.
pub struct PopulatedCssVariable {
    pub selectors: OrderedMap<CssValue>,
    pub media_queries: Option<OrderedMap<OrderedMap<CssValue>>>,
    pub breakpoints: Option<OrderedMap<OrderedMap<CssValue>>>,
}

/// Whether the optional nested tables agree at view level.
pub open spec fn optional_nested_agree(
    a: Option<OrderedMap<OrderedMap<CssValue>>>,
    b: Option<OrderedMap<OrderedMap<CssValue>>>,
) -> bool {
    match (a, b) {
        (Option::Some(x), Option::Some(y)) => nested_map_views_agree(x@, y@),
        (Option::None, Option::None) => true,
        _ => false,
    }
}

impl PopulatedCssVariable {
    /// A copy whose views agree with this one's.
    pub fn dup(&self) -> (r: Self)
        ensures
            r.selectors@ == self.selectors@,
            optional_nested_agree(r.media_queries, self.media_queries),
            optional_nested_agree(r.breakpoints, self.breakpoints),
    {
        let media_queries = match &self.media_queries {
            Some(m) => Some(dup_nested_css_value_map(m)),
            None => None,
        };
        let breakpoints = match &self.breakpoints {
            Some(m) => Some(dup_nested_css_value_map(m)),
            None => None,
        };
        PopulatedCssVariable { selectors: dup_css_value_map(&self.selectors), media_queries, breakpoints }
    }
}

/// An authored CSS variable: either one value for the root selector or an
/// already nested table.
pub enum CssVariable {
    Value(CssValue),
    Object(PopulatedCssVariable),
}

/// The user-authored configuration, decoded and normalized.
pub struct UserConfig {
    /// General options.
    pub options: Options,
    /// The declaration templates of each atom name.
    pub style_rules: OrderedMap<Vec<StyleRule>>,
    /// Named aliases that expand to fixed declarations.
    pub shorthand: OrderedMap<Vec<StyleRule>>,
    /// Named selector groups sharing a declaration block.
    pub groups: OrderedMap<Group>,
    /// The base color table.
    pub palette: OrderedMap<String>,
    /// Named animations.
    pub keyframes: OrderedMap<Keyframes>,
    /// Ordered minimum-width thresholds.
    pub breakpoints: OrderedMap<CssValue>,
    /// Named media queries.
    pub media_queries: OrderedMap<String>,
    /// Modifiers realized by wrapping with an ancestor selector.
    pub parent_modifiers: OrderedMap<Vec<String>>,
    /// Modifier layers; each layer maps a modifier name to its selector
    /// templates.
    pub modifiers: Vec<OrderedMap<Vec<String>>>,
    /// Themed color variables.
    pub colors: OrderedMap<CssVariable>,
    /// The authored atoms.
    pub atoms: Vec<Atom>,
    /// Custom CSS variables.
    pub variables: OrderedMap<CssVariable>,
}

/// What `populate` yields for a plain value that names the special
/// `container` variable: `none` at the root and one override per
/// breakpoint carrying that breakpoint's minimum width.
pub open spec fn is_container_populated(
    r: PopulatedCssVariable,
    breakpoints: Seq<(String, CssValue)>,
) -> bool {
    &&& r.selectors@.len() == 1
    &&& r.selectors@[0].0@ == ":root"@
    &&& r.selectors@[0].1.spec_get_string() == "none"@
    &&& r.media_queries is None
    &&& r.breakpoints matches Some(bps) && {
        &&& bps@.len() == breakpoints.len()
        &&& forall|i: int|
            0 <= i < breakpoints.len() ==> {
                &&& (#[trigger] bps@[i]).0@ == breakpoints[i].0@
                &&& bps@[i].1@.len() == 1
                &&& bps@[i].1@[0].0@ == ":root"@
                &&& bps@[i].1@[0].1 == breakpoints[i].1
            }
    }
}

/// How a populated variable relates to the authored one: the
/// postcondition of [`CssVariable::populate`].
pub open spec fn populated_from(
    v: CssVariable,
    breakpoints: Seq<(String, CssValue)>,
    r: PopulatedCssVariable,
) -> bool {
    match v {
        CssVariable::Value(val) => {
            if val.spec_get_string() == "container"@ {
                is_container_populated(r, breakpoints)
            } else {
                &&& r.selectors@.len() == 1
                &&& r.selectors@[0].0@ == ":root"@
                &&& r.selectors@[0].1 == val
                &&& r.media_queries is None
                &&& r.breakpoints is None
            }
        },
        CssVariable::Object(p) => {
            &&& r.selectors@ == p.selectors@
            &&& optional_nested_agree(r.media_queries, p.media_queries)
            &&& optional_nested_agree(r.breakpoints, p.breakpoints)
        },
    }
}

impl CssVariable {
    /// Normalize the variable: a plain value becomes a root-selector entry
    /// (the special `container` value expands per breakpoint), an authored
    /// table is kept as it stands.
    pub fn populate(&self, user: &UserConfig) -> (r: PopulatedCssVariable)
        ensures
            populated_from(*self, user.breakpoints@, r),
    {
        match self {
            CssVariable::Value(value) => {
                let vs = value.get_string();
                if crate::utils::str_eq(vs.as_str(), "container") {
                    proof {
                        reveal_strlit("container");
                    }
                    let mut selectors: OrderedMap<CssValue> = OrderedMap::new();
                    selectors.push_entry(
                        String::from_str(root_selector()),
                        CssValue::Str(String::from_str("none")),
                    );
                    let mut bps: OrderedMap<OrderedMap<CssValue>> = OrderedMap::new();
                    let mut i: usize = 0;
                    while i < user.breakpoints.len()
                        invariant
                            0 <= i <= user.breakpoints@.len(),
                            bps@.len() == i,
                            forall|j: int|
                                0 <= j < i ==> {
                                    &&& (#[trigger] bps@[j]).0@ == user.breakpoints@[j].0@
                                    &&& bps@[j].1@.len() == 1
                                    &&& bps@[j].1@[0].0@ == ":root"@
                                    &&& bps@[j].1@[0].1 == user.breakpoints@[j].1
                                },
                        decreases user.breakpoints@.len() - i,
                    {
                        let mut inner: OrderedMap<CssValue> = OrderedMap::new();
                        inner.push_entry(
                            String::from_str(root_selector()),
                            user.breakpoints.value_at(i).dup(),
                        );
                        bps.push_entry(user.breakpoints.key_at(i).clone(), inner);
                        i = i + 1;
                    }
                    PopulatedCssVariable {
                        selectors,
                        media_queries: None,
                        breakpoints: Some(bps),
                    }
                } else {
                    let mut selectors: OrderedMap<CssValue> = OrderedMap::new();
                    selectors.push_entry(String::from_str(root_selector()), value.dup());
                    PopulatedCssVariable { selectors, media_queries: None, breakpoints: None }
                }
            },
            CssVariable::Object(p) => p.dup(),
        }
    }
}

/// One selector table rewritten entry for entry into color form.
pub open spec fn color_selectors_from(
    orig: Seq<(String, CssValue)>,
    palette: Seq<(String, String)>,
    opacity: Seq<char>,
    r: Seq<(String, CssValue)>,
) -> bool {
    &&& r.len() == orig.len()
    &&& forall|i: int|
        0 <= i < orig.len() ==> (#[trigger] r[i]).0@ == (#[trigger] orig[i]).0@
            && r[i].1.spec_get_string() == crate::config::color_utils::spec_rgba_color(
            crate::config::color_utils::palette_resolved(orig[i].1.spec_get_string(), palette),
            opacity,
        )
}

/// A nested table rewritten entry for entry into color form.
pub open spec fn color_nested_from(
    orig: Seq<(String, OrderedMap<CssValue>)>,
    palette: Seq<(String, String)>,
    opacity: Seq<char>,
    r: Seq<(String, OrderedMap<CssValue>)>,
) -> bool {
    &&& r.len() == orig.len()
    &&& forall|i: int|
        0 <= i < orig.len() ==> (#[trigger] r[i]).0@ == (#[trigger] orig[i]).0@
            && color_selectors_from(orig[i].1@, palette, opacity, r[i].1@)
}

/// How the color form of a variable relates to the authored one: the
/// postcondition of [`CssVariable::populate_color`].
pub open spec fn populated_color_from(
    v: CssVariable,
    palette: Seq<(String, String)>,
    opacity: Seq<char>,
    r: PopulatedCssVariable,
) -> bool {
    match v {
        CssVariable::Value(val) => {
            &&& r.selectors@.len() == 1
            &&& r.selectors@[0].0@ == ":root"@
            &&& r.selectors@[0].1.spec_get_string()
                == crate::config::color_utils::spec_rgba_color(
                crate::config::color_utils::palette_resolved(val.spec_get_string(), palette),
                opacity,
            )
            &&& r.media_queries is None
            &&& r.breakpoints is None
        },
        CssVariable::Object(p) => {
            &&& color_selectors_from(p.selectors@, palette, opacity, r.selectors@)
            &&& match (p.media_queries, r.media_queries) {
                (Option::Some(a), Option::Some(b)) => color_nested_from(
                    a@,
                    palette,
                    opacity,
                    b@,
                ),
                (Option::None, Option::None) => true,
                _ => false,
            }
            &&& match (p.breakpoints, r.breakpoints) {
                (Option::Some(a), Option::Some(b)) => color_nested_from(a@, palette, opacity, b@),
                (Option::None, Option::None) => true,
                _ => false,
            }
        },
    }
}

/// Rewrite one selector table into color form.
fn clone_with_color(
    palette: &OrderedMap<String>,
    opacity: &str,
    original_selectors: &OrderedMap<CssValue>,
) -> (r: OrderedMap<CssValue>)
    ensures
        color_selectors_from(original_selectors@, palette@, opacity@, r@),
{
    let mut out: OrderedMap<CssValue> = OrderedMap::new();
    let mut i: usize = 0;
    while i < original_selectors.len()
        invariant
            0 <= i <= original_selectors@.len(),
            color_selectors_from(original_selectors@.take(i as int), palette@, opacity@, out@),
        decreases original_selectors@.len() - i,
    {
        let converted = crate::config::color_utils::convert_css_value_to_color(
            original_selectors.value_at(i),
            palette,
            opacity,
        );
        out.push_entry(original_selectors.key_at(i).clone(), CssValue::Str(converted));
        proof {
            assert(forall|j: int|
                0 <= j <= i ==> (#[trigger] original_selectors@.take(i + 1 as int)[j])
                    == original_selectors@[j]);
            assert(forall|j: int|
                0 <= j < i ==> (#[trigger] original_selectors@.take(i as int)[j])
                    == original_selectors@[j]);
        }
        i = i + 1;
    }
    proof {
        assert(original_selectors@.take(original_selectors@.len() as int)
            =~= original_selectors@);
    }
    out
}

/// Rewrite a nested table into color form.
fn clone_parent_with_color(
    palette: &OrderedMap<String>,
    opacity: &str,
    original: &OrderedMap<OrderedMap<CssValue>>,
) -> (r: OrderedMap<OrderedMap<CssValue>>)
    ensures
        color_nested_from(original@, palette@, opacity@, r@),
{
    let mut out: OrderedMap<OrderedMap<CssValue>> = OrderedMap::new();
    let mut i: usize = 0;
    while i < original.len()
        invariant
            0 <= i <= original@.len(),
            color_nested_from(original@.take(i as int), palette@, opacity@, out@),
        decreases original@.len() - i,
    {
        let inner = clone_with_color(palette, opacity, original.value_at(i));
        out.push_entry(original.key_at(i).clone(), inner);
        proof {
            assert(forall|j: int|
                0 <= j <= i ==> (#[trigger] original@.take(i + 1 as int)[j]) == original@[j]);
            assert(forall|j: int|
                0 <= j < i ==> (#[trigger] original@.take(i as int)[j]) == original@[j]);
        }
        i = i + 1;
    }
    proof {
        assert(original@.take(original@.len() as int) =~= original@);
    }
    out
}

impl CssVariable {
    /// Populate a themed color variable: every value is resolved through
    /// the palette and rewritten to `rgba(...)` with the opacity slot
    /// referencing the configured opacity variable.
    pub fn populate_color(&self, palette: &OrderedMap<String>, opacity: &str) -> (r:
        PopulatedCssVariable)
        ensures
            populated_color_from(*self, palette@, opacity@, r),
    {
        match self {
            CssVariable::Value(original_value) => {
                let converted = crate::config::color_utils::convert_css_value_to_color(
                    original_value,
                    palette,
                    opacity,
                );
                let mut selectors: OrderedMap<CssValue> = OrderedMap::new();
                selectors.push_entry(String::from_str(root_selector()), CssValue::Str(converted));
                PopulatedCssVariable { selectors, media_queries: None, breakpoints: None }
            },
            CssVariable::Object(value) => {
                let selectors = clone_with_color(palette, opacity, &value.selectors);
                let media_queries = match &value.media_queries {
                    Some(m) => Some(clone_parent_with_color(palette, opacity, m)),
                    None => None,
                };
                let breakpoints = match &value.breakpoints {
                    Some(m) => Some(clone_parent_with_color(palette, opacity, m)),
                    None => None,
                };
                PopulatedCssVariable { selectors, media_queries, breakpoints }
            },
        }
    }
}

/// Whether a populated variable's declarations mention the custom property
/// `x` through `var(...)`.
pub open spec fn populated_mentions(p: PopulatedCssVariable, x: Seq<char>) -> bool {
    ||| exists|i: int|
        0 <= i < p.selectors@.len() && css_variables_of(
            (#[trigger] p.selectors@[i]).1.spec_get_string(),
        ).contains(x)
    ||| p.breakpoints matches Some(b) && nested_mentions(b@, x)
    ||| p.media_queries matches Some(m) && nested_mentions(m@, x)
}

/// Whether any value of a nested table mentions `x`.
pub open spec fn nested_mentions(t: Seq<(String, OrderedMap<CssValue>)>, x: Seq<char>) -> bool {
    exists|i: int, j: int|
        0 <= i < t.len() && 0 <= j < (#[trigger] t[i]).1@.len() && css_variables_of(
            (#[trigger] t[i].1@[j]).1.spec_get_string(),
        ).contains(x)
}

/// Whether the populated form of a variable would mention the custom
/// property `x`, stated over the authored variable and the breakpoints.
pub open spec fn css_variable_mentions(
    v: CssVariable,
    breakpoints: Seq<(String, CssValue)>,
    x: Seq<char>,
) -> bool {
    match v {
        CssVariable::Value(val) => {
            if val.spec_get_string() == "container"@ {
                css_variables_of("none"@).contains(x) || exists|i: int|
                    0 <= i < breakpoints.len() && css_variables_of(
                        (#[trigger] breakpoints[i]).1.spec_get_string(),
                    ).contains(x)
            } else {
                css_variables_of(val.spec_get_string()).contains(x)
            }
        },
        CssVariable::Object(p) => populated_mentions(p, x),
    }
}

/// Tables whose views agree mention the same custom properties.
pub proof fn lemma_nested_mentions_agree(
    a: Seq<(String, OrderedMap<CssValue>)>,
    b: Seq<(String, OrderedMap<CssValue>)>,
    x: Seq<char>,
)
    requires
        nested_map_views_agree(a, b),
    ensures
        nested_mentions(a, x) == nested_mentions(b, x),
{
    if nested_mentions(a, x) {
        let (i, j) = choose|i: int, j: int|
            0 <= i < a.len() && 0 <= j < (#[trigger] a[i]).1@.len() && css_variables_of(
                (#[trigger] a[i].1@[j]).1.spec_get_string(),
            ).contains(x);
        assert(b[i].1@[j].1 == a[i].1@[j].1);
        assert(nested_mentions(b, x));
    }
    if nested_mentions(b, x) {
        let (i, j) = choose|i: int, j: int|
            0 <= i < b.len() && 0 <= j < (#[trigger] b[i]).1@.len() && css_variables_of(
                (#[trigger] b[i].1@[j]).1.spec_get_string(),
            ).contains(x);
        assert(a[i].1@[j].1 == b[i].1@[j].1);
        assert(nested_mentions(a, x));
    }
}

impl CssVariable {
    /// Collect the distinct custom properties mentioned by the populated
    /// form of this variable.
    pub fn get_css_variables_names(&self, user: &UserConfig) -> (r: Vec<String>)
        ensures
            crate::utils::no_dup_views(r@),
            forall|x: Seq<char>|
                #[trigger] views_of_strings(r@).contains(x) <==> css_variable_mentions(
                    *self,
                    user.breakpoints@,
                    x,
                ),
    {
        let populated = self.populate(user);
        let mut out: Vec<String> = Vec::new();
        let mut i: usize = 0;
        while i < populated.selectors.len()
            invariant
                0 <= i <= populated.selectors@.len(),
                crate::utils::no_dup_views(out@),
                forall|x: Seq<char>|
                    #[trigger] views_of_strings(out@).contains(x) <==> exists|k: int|
                        0 <= k < i && css_variables_of(
                            (#[trigger] populated.selectors@[k]).1.spec_get_string(),
                        ).contains(x),
            decreases populated.selectors@.len() - i,
        {
            let vs = populated.selectors.value_at(i).get_string();
            let vars = get_css_variables_from_string(vs.as_str());
            proof {
                crate::utils::lemma_dedup_seqs_props(
                    crate::utils::scan_css_vars(vs@, 0),
                );
            }
            crate::utils::extend_unique(&mut out, &vars);
            i = i + 1;
        }
        match &populated.breakpoints {
            Some(b) => {
                collect_nested_variable_names(&mut out, b);
            },
            None => {},
        }
        match &populated.media_queries {
            Some(m) => {
                collect_nested_variable_names(&mut out, m);
            },
            None => {},
        }
        proof {
            assert forall|x: Seq<char>| #[trigger]
            views_of_strings(out@).contains(x) implies css_variable_mentions(
                *self,
                user.breakpoints@,
                x,
            ) by {
                lemma_mentions_bridge(*self, user.breakpoints@, populated, x);
            }
            assert forall|x: Seq<char>| css_variable_mentions(
                *self,
                user.breakpoints@,
                x,
            ) implies #[trigger] views_of_strings(out@).contains(x) by {
                lemma_mentions_bridge(*self, user.breakpoints@, populated, x);
            }
        }
        out
    }
}

/// The populated form mentions exactly what the authored variable
/// mentions, given the postcondition of `populate`.
proof fn lemma_mentions_bridge(
    v: CssVariable,
    breakpoints: Seq<(String, CssValue)>,
    populated: PopulatedCssVariable,
    x: Seq<char>,
)
    requires
        populated_from(v, breakpoints, populated),
    ensures
        populated_mentions(populated, x) == css_variable_mentions(v, breakpoints, x),
{
    match v {
        CssVariable::Value(val) => {
            if val.spec_get_string() == "container"@ {
                let bps = populated.breakpoints->Some_0;
                if populated_mentions(populated, x) {
                    if exists|i: int|
                        0 <= i < populated.selectors@.len() && css_variables_of(
                            (#[trigger] populated.selectors@[i]).1.spec_get_string(),
                        ).contains(x) {
                        assert(css_variables_of("none"@).contains(x));
                    } else {
                        assert(nested_mentions(bps@, x));
                        let (i, j) = choose|i: int, j: int|
                            0 <= i < bps@.len() && 0 <= j < (#[trigger] bps@[i]).1@.len()
                                && css_variables_of(
                                (#[trigger] bps@[i].1@[j]).1.spec_get_string(),
                            ).contains(x);
                        assert(j == 0);
                        assert(bps@[i].1@[0].1 == breakpoints[i].1);
                    }
                }
                if css_variable_mentions(v, breakpoints, x) {
                    if css_variables_of("none"@).contains(x) {
                        assert(css_variables_of(
                            populated.selectors@[0].1.spec_get_string(),
                        ).contains(x));
                    } else {
                        let i = choose|i: int|
                            0 <= i < breakpoints.len() && css_variables_of(
                                (#[trigger] breakpoints[i]).1.spec_get_string(),
                            ).contains(x);
                        assert(bps@[i].1@[0].1 == breakpoints[i].1);
                        assert(nested_mentions(bps@, x));
                    }
                }
            } else {
                if populated_mentions(populated, x) {
                    assert(css_variables_of(val.spec_get_string()).contains(x));
                }
                if css_variable_mentions(v, breakpoints, x) {
                    assert(css_variables_of(
                        (populated.selectors@[0]).1.spec_get_string(),
                    ).contains(x));
                }
            }
        },
        CssVariable::Object(p) => {
            match (populated.breakpoints, p.breakpoints) {
                (Option::Some(a), Option::Some(b)) => {
                    lemma_nested_mentions_agree(a@, b@, x);
                },
                _ => {},
            }
            match (populated.media_queries, p.media_queries) {
                (Option::Some(a), Option::Some(b)) => {
                    lemma_nested_mentions_agree(a@, b@, x);
                },
                _ => {},
            }
        },
    }
}

/// Add every custom property mentioned by the values of a nested table.
fn collect_nested_variable_names(out: &mut Vec<String>, t: &OrderedMap<OrderedMap<CssValue>>)
    requires
        crate::utils::no_dup_views(old(out)@),
    ensures
        crate::utils::no_dup_views(final(out)@),
        forall|x: Seq<char>|
            #[trigger] views_of_strings(final(out)@).contains(x) <==> (views_of_strings(
                old(out)@,
            ).contains(x) || nested_mentions(t@, x)),
{
    let mut i: usize = 0;
    while i < t.len()
        invariant
            0 <= i <= t@.len(),
            crate::utils::no_dup_views(out@),
            forall|x: Seq<char>|
                #[trigger] views_of_strings(out@).contains(x) <==> (views_of_strings(
                    old(out)@,
                ).contains(x) || exists|k: int, j: int|
                    0 <= k < i && 0 <= j < (#[trigger] t@[k]).1@.len() && css_variables_of(
                        (#[trigger] t@[k].1@[j]).1.spec_get_string(),
                    ).contains(x)),
        decreases t@.len() - i,
    {
        let inner = t.value_at(i);
        let mut j: usize = 0;
        while j < inner.len()
            invariant
                0 <= j <= inner@.len(),
                inner == t@[i as int].1,
                0 <= i < t@.len(),
                crate::utils::no_dup_views(out@),
                forall|x: Seq<char>|
                    #[trigger] views_of_strings(out@).contains(x) <==> (views_of_strings(
                        old(out)@,
                    ).contains(x) || (exists|k: int, l: int|
                        0 <= k < i && 0 <= l < (#[trigger] t@[k]).1@.len() && css_variables_of(
                            (#[trigger] t@[k].1@[l]).1.spec_get_string(),
                        ).contains(x)) || (exists|l: int|
                        0 <= l < j && css_variables_of(
                            (#[trigger] inner@[l]).1.spec_get_string(),
                        ).contains(x))),
            decreases inner@.len() - j,
        {
            let vs = inner.value_at(j).get_string();
            let vars = get_css_variables_from_string(vs.as_str());
            proof {
                crate::utils::lemma_dedup_seqs_props(crate::utils::scan_css_vars(vs@, 0));
            }
            crate::utils::extend_unique(out, &vars);
            j = j + 1;
        }
        i = i + 1;
    }
}

} // verus!
