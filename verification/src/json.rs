//! Loading the configuration from its JSON document: the document is
//! parsed by the JSON crate, and a shape-sniffing decoder walks the parsed
//! value into the configuration model, trying each union's shapes in a
//! fixed order — string, then list, then object. A malformed document
//! fails the whole load; an absent section is an empty one.

use vstd::prelude::*;

use crate::config::user::{
    Atom, AtomColor, AtomColorOptions, AtomCssValue, AtomValue, ColorFormat, CssValue,
    CssVariable, Group, Keyframes, Options, PopulatedCssVariable, StyleRule, UserConfig,
};
use crate::config::Config;
use crate::ordered_map::OrderedMap;

verus! {

/// The error of a configuration load.
#[derive(Debug)]
pub enum ConfigError {
    /// The document cannot be parsed into the expected shape; the text
    /// says which part failed.
    Parse(String),
}

impl ConfigError {
    /// The error's text.
    pub fn message(&self) -> (r: String)
        ensures
            self matches ConfigError::Parse(m) && r@ == m@,
    {
        match self {
            ConfigError::Parse(m) => m.clone(),
        }
    }
}

#[verifier::external_type_specification]
#[verifier::external_body]
pub struct ExValue(serde_json::Value);

/// What a parsed value holds when it is a string.
pub uninterp spec fn json_str_of(v: serde_json::Value) -> Option<Seq<char>>;

/// What a parsed value holds when it is an unsigned integer.
pub uninterp spec fn json_u64_of(v: serde_json::Value) -> Option<u64>;

/// What a parsed value holds when it is a boolean.
pub uninterp spec fn json_bool_of(v: serde_json::Value) -> Option<bool>;

/// What a parsed value holds when it is a list.
pub uninterp spec fn json_items_of(v: serde_json::Value) -> Option<Seq<serde_json::Value>>;

/// What a parsed value holds when it is an object: its entries in
/// document order.
pub uninterp spec fn json_entries_of(v: serde_json::Value) -> Option<
    Seq<(Seq<char>, serde_json::Value)>,
>;

/// What parsing a document yields: the parsed value for well-formed JSON,
/// nothing for malformed text; a function of the text alone.
pub uninterp spec fn json_document_of(s: Seq<char>) -> Option<serde_json::Value>;

/// Relies on `serde_json::from_str::<Value>`: parses a JSON document, or
/// fails on malformed text.
#[verifier::external_body]
fn json_from_str(s: &str) -> (r: Option<serde_json::Value>)
    ensures
        r == json_document_of(s@),
{
    serde_json::from_str(s).ok()
}

/// Relies on `Value::as_str`: the string a value holds, when it is one.
#[verifier::external_body]
fn value_as_str(v: &serde_json::Value) -> (r: Option<String>)
    ensures
        match r {
            Some(s) => json_str_of(*v) == Some(s@),
            None => json_str_of(*v) is None,
        },
{
    v.as_str().map(|s| s.to_string())
}

/// Relies on `Value::as_u64`: the integer a value holds, when it is one.
#[verifier::external_body]
fn value_as_u64(v: &serde_json::Value) -> (r: Option<u64>)
    ensures
        r == json_u64_of(*v),
{
    v.as_u64()
}

/// Relies on `Value::as_bool`: the boolean a value holds, when it is one.
#[verifier::external_body]
fn value_as_bool(v: &serde_json::Value) -> (r: Option<bool>)
    ensures
        r == json_bool_of(*v),
{
    v.as_bool()
}

/// Relies on `Value::as_array` and `Vec::clone`: the items of a list
/// value, in order.
#[verifier::external_body]
fn value_items(v: &serde_json::Value) -> (r: Option<Vec<serde_json::Value>>)
    ensures
        match r {
            Some(items) => json_items_of(*v) == Some(items@),
            None => json_items_of(*v) is None,
        },
{
    v.as_array().cloned()
}

/// The key views of a decoded entry list.
pub open spec fn json_entry_views(es: Seq<(String, serde_json::Value)>) -> Seq<
    (Seq<char>, serde_json::Value),
> {
    es.map_values(|e: (String, serde_json::Value)| (e.0@, e.1))
}

/// Relies on `Value::as_object` and the map's iteration: the entries of an
/// object value in document order (the JSON crate is built with its
/// order-preserving map).
#[verifier::external_body]
fn value_entries(v: &serde_json::Value) -> (r: Option<Vec<(String, serde_json::Value)>>)
    ensures
        match r {
            Some(es) => json_entries_of(*v) == Some(json_entry_views(es@)),
            None => json_entries_of(*v) is None,
        },
{
    v.as_object().map(|m| m.iter().map(|(k, val)| (k.clone(), val.clone())).collect())
}

/// Decode a CSS value: a number, then a string.
fn decode_css_value(v: &serde_json::Value) -> (r: Result<CssValue, ConfigError>)
    ensures
        match r {
            Ok(c) => match c {
                CssValue::Number(n) => json_u64_of(*v) == Some(n as u64),
                CssValue::Str(s) => json_u64_of(*v) is None && json_str_of(*v) == Some(s@),
            },
            Err(_) => true,
        },
{
    match value_as_u64(v) {
        Some(n) => {
            if n <= u32::MAX as u64 {
                Ok(CssValue::Number(n as u32))
            } else {
                Err(ConfigError::Parse(String::from_str("a numeric value is too large")))
            }
        },
        None => match value_as_str(v) {
            Some(s) => Ok(CssValue::Str(s)),
            None => Err(ConfigError::Parse(String::from_str("expected a number or a string"))),
        },
    }
}

/// Decode a style rule: a property name, then a name/value pair.
fn decode_style_rule(v: &serde_json::Value) -> (r: Result<StyleRule, ConfigError>) {
    match value_as_str(v) {
        Some(s) => Ok(StyleRule::Name(s)),
        None => match value_items(v) {
            Some(items) => {
                if items.len() == 2 {
                    match value_as_str(&items[0]) {
                        Some(name) => {
                            let value = decode_css_value(&items[1])?;
                            Ok(StyleRule::WithValue(name, value))
                        },
                        None => Err(ConfigError::Parse(String::from_str(
                            "a rule name must be a string",
                        ))),
                    }
                } else {
                    Err(ConfigError::Parse(String::from_str(
                        "a rule pair holds a name and a value",
                    )))
                }
            },
            None => Err(ConfigError::Parse(String::from_str(
                "expected a rule name or a pair",
            ))),
        },
    }
}

/// Decode a list of style rules.
fn decode_style_rules(v: &serde_json::Value) -> (r: Result<Vec<StyleRule>, ConfigError>) {
    match value_items(v) {
        Some(items) => {
            let mut out: Vec<StyleRule> = Vec::new();
            let mut i: usize = 0;
            while i < items.len()
                decreases items@.len() - i,
            {
                let rule = decode_style_rule(&items[i])?;
                out.push(rule);
                i = i + 1;
            }
            Ok(out)
        },
        None => Err(ConfigError::Parse(String::from_str("expected a list of rules"))),
    }
}

/// An absent section decodes as an empty map.
fn section<'v>(
    entries: &'v Vec<(String, serde_json::Value)>,
    name: &str,
) -> (r: Option<&'v serde_json::Value>) {
    let mut i: usize = 0;
    while i < entries.len()
        decreases entries@.len() - i,
    {
        if crate::utils::str_eq(entries[i].0.as_str(), name) {
            return Some(&entries[i].1);
        }
        i = i + 1;
    }
    None
}

/// Decode an object of style-rule lists.
fn decode_style_rule_map(v: Option<&serde_json::Value>) -> (r: Result<
    OrderedMap<Vec<StyleRule>>,
    ConfigError,
>)
    ensures
        r matches Ok(m) ==> m.wf(),
{
    let mut out: OrderedMap<Vec<StyleRule>> = OrderedMap::new();
    match v {
        Some(value) => {
            match value_entries(value) {
                Some(es) => {
                    let mut i: usize = 0;
                    while i < es.len()
                        invariant
                            out.wf(),
                        decreases es@.len() - i,
                    {
                        let rules = decode_style_rules(&es[i].1)?;
                        out.insert(es[i].0.clone(), rules);
                        i = i + 1;
                    }
                    Ok(out)
                },
                None => Err(ConfigError::Parse(String::from_str("expected a table"))),
            }
        },
        None => Ok(out),
    }
}

/// Decode an object of strings.
fn decode_string_map(v: Option<&serde_json::Value>) -> (r: Result<OrderedMap<String>, ConfigError>)
    ensures
        r matches Ok(m) ==> m.wf(),
{
    let mut out: OrderedMap<String> = OrderedMap::new();
    match v {
        Some(value) => {
            match value_entries(value) {
                Some(es) => {
                    let mut i: usize = 0;
                    while i < es.len()
                        invariant
                            out.wf(),
                        decreases es@.len() - i,
                    {
                        match value_as_str(&es[i].1) {
                            Some(s) => {
                                out.insert(es[i].0.clone(), s);
                            },
                            None => {
                                return Err(ConfigError::Parse(String::from_str(
                                    "expected a string value",
                                )));
                            },
                        }
                        i = i + 1;
                    }
                    Ok(out)
                },
                None => Err(ConfigError::Parse(String::from_str("expected a table"))),
            }
        },
        None => Ok(out),
    }
}

/// Decode an object of string lists.
fn decode_string_list_map(v: Option<&serde_json::Value>) -> (r: Result<
    OrderedMap<Vec<String>>,
    ConfigError,
>)
    ensures
        r matches Ok(m) ==> m.wf(),
{
    let mut out: OrderedMap<Vec<String>> = OrderedMap::new();
    match v {
        Some(value) => {
            match value_entries(value) {
                Some(es) => {
                    let mut i: usize = 0;
                    while i < es.len()
                        invariant
                            out.wf(),
                        decreases es@.len() - i,
                    {
                        let list = decode_string_list(&es[i].1)?;
                        out.insert(es[i].0.clone(), list);
                        i = i + 1;
                    }
                    Ok(out)
                },
                None => Err(ConfigError::Parse(String::from_str("expected a table"))),
            }
        },
        None => Ok(out),
    }
}

/// Decode a list of strings.
fn decode_string_list(v: &serde_json::Value) -> (r: Result<Vec<String>, ConfigError>) {
    match value_items(v) {
        Some(items) => {
            let mut out: Vec<String> = Vec::new();
            let mut i: usize = 0;
            while i < items.len()
                decreases items@.len() - i,
            {
                match value_as_str(&items[i]) {
                    Some(s) => {
                        out.push(s);
                    },
                    None => {
                        return Err(ConfigError::Parse(String::from_str("expected a string")));
                    },
                }
                i = i + 1;
            }
            Ok(out)
        },
        None => Err(ConfigError::Parse(String::from_str("expected a list of strings"))),
    }
}

/// Decode an object of CSS values.
fn decode_css_value_map(v: Option<&serde_json::Value>) -> (r: Result<
    OrderedMap<CssValue>,
    ConfigError,
>)
    ensures
        r matches Ok(m) ==> m.wf(),
{
    let mut out: OrderedMap<CssValue> = OrderedMap::new();
    match v {
        Some(value) => {
            match value_entries(value) {
                Some(es) => {
                    let mut i: usize = 0;
                    while i < es.len()
                        invariant
                            out.wf(),
                        decreases es@.len() - i,
                    {
                        let c = decode_css_value(&es[i].1)?;
                        out.insert(es[i].0.clone(), c);
                        i = i + 1;
                    }
                    Ok(out)
                },
                None => Err(ConfigError::Parse(String::from_str("expected a table"))),
            }
        },
        None => Ok(out),
    }
}

/// Decode a selector table of one variable.
fn decode_selector_table(v: &serde_json::Value) -> (r: Result<OrderedMap<CssValue>, ConfigError>)
    ensures
        r matches Ok(m) ==> m.wf(),
{
    match value_entries(v) {
        Some(es) => {
            let mut out: OrderedMap<CssValue> = OrderedMap::new();
            let mut i: usize = 0;
            while i < es.len()
                invariant
                    out.wf(),
                decreases es@.len() - i,
            {
                let c = decode_css_value(&es[i].1)?;
                out.insert(es[i].0.clone(), c);
                i = i + 1;
            }
            Ok(out)
        },
        None => Err(ConfigError::Parse(String::from_str("expected a selector table"))),
    }
}

/// Decode a nested table: breakpoint or media-query name to a selector
/// table.
fn decode_nested_table(v: &serde_json::Value) -> (r: Result<
    OrderedMap<OrderedMap<CssValue>>,
    ConfigError,
>)
    ensures
        r matches Ok(m) ==> m.wf(),
{
    match value_entries(v) {
        Some(es) => {
            let mut out: OrderedMap<OrderedMap<CssValue>> = OrderedMap::new();
            let mut i: usize = 0;
            while i < es.len()
                invariant
                    out.wf(),
                decreases es@.len() - i,
            {
                let inner = decode_selector_table(&es[i].1)?;
                out.insert(es[i].0.clone(), inner);
                i = i + 1;
            }
            Ok(out)
        },
        None => Err(ConfigError::Parse(String::from_str("expected a nested table"))),
    }
}

/// Decode a CSS variable: a plain value, then an object with `selectors`
/// and optional nested tables.
fn decode_variable(v: &serde_json::Value) -> (r: Result<CssVariable, ConfigError>) {
    match decode_css_value(v) {
        Ok(c) => Ok(CssVariable::Value(c)),
        Err(_) => {
            match value_entries(v) {
                Some(es) => {
                    let selectors = match section(&es, "selectors") {
                        Some(s) => decode_selector_table(s)?,
                        None => OrderedMap::new(),
                    };
                    let media_queries = match section(&es, "mediaQueries") {
                        Some(m) => Some(decode_nested_table(m)?),
                        None => None,
                    };
                    let breakpoints = match section(&es, "breakpoints") {
                        Some(m) => Some(decode_nested_table(m)?),
                        None => None,
                    };
                    Ok(
                        CssVariable::Object(
                            PopulatedCssVariable { selectors, media_queries, breakpoints },
                        ),
                    )
                },
                None => Err(ConfigError::Parse(String::from_str(
                    "expected a value or a table",
                ))),
            }
        },
    }
}

/// Decode an object of CSS variables.
fn decode_variable_map(v: Option<&serde_json::Value>) -> (r: Result<
    OrderedMap<CssVariable>,
    ConfigError,
>)
    ensures
        r matches Ok(m) ==> m.wf(),
{
    let mut out: OrderedMap<CssVariable> = OrderedMap::new();
    match v {
        Some(value) => {
            match value_entries(value) {
                Some(es) => {
                    let mut i: usize = 0;
                    while i < es.len()
                        invariant
                            out.wf(),
                        decreases es@.len() - i,
                    {
                        let var = decode_variable(&es[i].1)?;
                        out.insert(es[i].0.clone(), var);
                        i = i + 1;
                    }
                    Ok(out)
                },
                None => Err(ConfigError::Parse(String::from_str("expected a table"))),
            }
        },
        None => Ok(out),
    }
}

/// Decode an object of keyframes.
fn decode_keyframes_map(v: Option<&serde_json::Value>) -> (r: Result<
    OrderedMap<Keyframes>,
    ConfigError,
>)
    ensures
        r matches Ok(m) ==> m.wf(),
{
    let mut out: OrderedMap<Keyframes> = OrderedMap::new();
    match v {
        Some(value) => {
            match value_entries(value) {
                Some(es) => {
                    let mut i: usize = 0;
                    while i < es.len()
                        invariant
                            out.wf(),
                        decreases es@.len() - i,
                    {
                        let frames = decode_frames(&es[i].1)?;
                        out.insert(es[i].0.clone(), Keyframes::Frame(frames));
                        i = i + 1;
                    }
                    Ok(out)
                },
                None => Err(ConfigError::Parse(String::from_str("expected a table"))),
            }
        },
        None => Ok(out),
    }
}

/// Decode a table of frames: frame selector to property table.
fn decode_frames(v: &serde_json::Value) -> (r: Result<
    OrderedMap<OrderedMap<String>>,
    ConfigError,
>)
    ensures
        r matches Ok(m) ==> m.wf(),
{
    match value_entries(v) {
        Some(es) => {
            let mut out: OrderedMap<OrderedMap<String>> = OrderedMap::new();
            let mut i: usize = 0;
            while i < es.len()
                invariant
                    out.wf(),
                decreases es@.len() - i,
            {
                let styles = decode_style_table(&es[i].1)?;
                out.insert(es[i].0.clone(), styles);
                i = i + 1;
            }
            Ok(out)
        },
        None => Err(ConfigError::Parse(String::from_str("expected a table of frames"))),
    }
}

/// Decode a table of property texts.
fn decode_style_table(v: &serde_json::Value) -> (r: Result<OrderedMap<String>, ConfigError>)
    ensures
        r matches Ok(m) ==> m.wf(),
{
    match value_entries(v) {
        Some(es) => {
            let mut out: OrderedMap<String> = OrderedMap::new();
            let mut i: usize = 0;
            while i < es.len()
                invariant
                    out.wf(),
                decreases es@.len() - i,
            {
                match value_as_str(&es[i].1) {
                    Some(s) => {
                        out.insert(es[i].0.clone(), s);
                    },
                    None => {
                        return Err(ConfigError::Parse(String::from_str(
                            "expected a string value",
                        )));
                    },
                }
                i = i + 1;
            }
            Ok(out)
        },
        None => Err(ConfigError::Parse(String::from_str("expected a style table"))),
    }
}

/// Decode an object of groups.
fn decode_group_map(v: Option<&serde_json::Value>) -> (r: Result<OrderedMap<Group>, ConfigError>)
    ensures
        r matches Ok(m) ==> m.wf(),
{
    let mut out: OrderedMap<Group> = OrderedMap::new();
    match v {
        Some(value) => {
            match value_entries(value) {
                Some(es) => {
                    let mut i: usize = 0;
                    while i < es.len()
                        invariant
                            out.wf(),
                        decreases es@.len() - i,
                    {
                        let props = decode_style_rules(&es[i].1)?;
                        out.insert(es[i].0.clone(), Group::Props(props));
                        i = i + 1;
                    }
                    Ok(out)
                },
                None => Err(ConfigError::Parse(String::from_str("expected a table"))),
            }
        },
        None => Ok(out),
    }
}

/// Decode one atom: a color atom (it carries `colors`), then a value
/// atom.
fn decode_atom(v: &serde_json::Value) -> (r: Result<Atom, ConfigError>)
    ensures
        r matches Ok(a) ==> crate::config::atom_values_wf(a),
{
    match value_entries(v) {
        Some(es) => {
            let keyframes = match section(&es, "keyframes") {
                Some(k) => decode_string_list(k)?,
                None => Vec::new(),
            };
            let groups = match section(&es, "groups") {
                Some(g) => decode_string_list(g)?,
                None => Vec::new(),
            };
            let style_rules = match section(&es, "styleRules") {
                Some(sr) => decode_string_list(sr)?,
                None => Vec::new(),
            };
            match section(&es, "colors") {
                Some(colors_v) => {
                    match value_entries(colors_v) {
                        Some(ces) => {
                            let opacity = match section(&ces, "opacity") {
                                Some(o) => match value_as_str(o) {
                                    Some(s) => s,
                                    None => {
                                        return Err(ConfigError::Parse(String::from_str(
                                            "an opacity names a CSS variable",
                                        )));
                                    },
                                },
                                None => {
                                    return Err(ConfigError::Parse(String::from_str(
                                        "a color atom names its opacity variable",
                                    )));
                                },
                            };
                            let palette = match section(&ces, "palette") {
                                Some(p) => match value_as_bool(p) {
                                    Some(b) => b,
                                    None => false,
                                },
                                None => false,
                            };
                            Ok(
                                Atom::Color(
                                    AtomColor {
                                        keyframes,
                                        groups,
                                        style_rules,
                                        colors: AtomColorOptions { opacity, palette },
                                    },
                                ),
                            )
                        },
                        None => Err(ConfigError::Parse(String::from_str(
                            "the colors of an atom form a table",
                        ))),
                    }
                },
                None => {
                    let mut values: OrderedMap<AtomCssValue> = OrderedMap::new();
                    match section(&es, "values") {
                        Some(values_v) => {
                            match value_entries(values_v) {
                                Some(ves) => {
                                    let mut i: usize = 0;
                                    while i < ves.len()
                                        invariant
                                            values.wf(),
                                        decreases ves@.len() - i,
                                    {
                                        match decode_css_value(&ves[i].1) {
                                            Ok(c) => {
                                                values.insert(
                                                    ves[i].0.clone(),
                                                    AtomCssValue::Value(c),
                                                );
                                            },
                                            Err(_) => {
                                                let inner = decode_selector_table(&ves[i].1)?;
                                                values.insert(
                                                    ves[i].0.clone(),
                                                    AtomCssValue::Object(inner),
                                                );
                                            },
                                        }
                                        i = i + 1;
                                    }
                                },
                                None => {
                                    return Err(ConfigError::Parse(String::from_str(
                                        "the values of an atom form a table",
                                    )));
                                },
                            }
                        },
                        None => {},
                    }
                    Ok(Atom::Value(AtomValue { keyframes, groups, style_rules, values }))
                },
            }
        },
        None => Err(ConfigError::Parse(String::from_str("expected an atom table"))),
    }
}

/// Decode the atom list.
fn decode_atoms(v: Option<&serde_json::Value>) -> (r: Result<Vec<Atom>, ConfigError>)
    ensures
        r matches Ok(atoms) ==> forall|i: int|
            0 <= i < atoms@.len() ==> crate::config::atom_values_wf(#[trigger] atoms@[i]),
{
    let mut out: Vec<Atom> = Vec::new();
    match v {
        Some(value) => {
            match value_items(value) {
                Some(items) => {
                    let mut i: usize = 0;
                    while i < items.len()
                        invariant
                            forall|w: int|
                                0 <= w < out@.len() ==> crate::config::atom_values_wf(
                                    #[trigger] out@[w],
                                ),
                        decreases items@.len() - i,
                    {
                        let a = decode_atom(&items[i])?;
                        out.push(a);
                        i = i + 1;
                    }
                    Ok(out)
                },
                None => Err(ConfigError::Parse(String::from_str("expected a list of atoms"))),
            }
        },
        None => Ok(out),
    }
}

/// Decode the modifier layers.
fn decode_modifier_layers(v: Option<&serde_json::Value>) -> (r: Result<
    Vec<OrderedMap<Vec<String>>>,
    ConfigError,
>)
    ensures
        r matches Ok(layers) ==> forall|i: int|
            0 <= i < layers@.len() ==> (#[trigger] layers@[i]).wf(),
{
    let mut out: Vec<OrderedMap<Vec<String>>> = Vec::new();
    match v {
        Some(value) => {
            match value_items(value) {
                Some(items) => {
                    let mut i: usize = 0;
                    while i < items.len()
                        invariant
                            forall|w: int| 0 <= w < out@.len() ==> (#[trigger] out@[w]).wf(),
                        decreases items@.len() - i,
                    {
                        let layer = decode_string_list_map(Some(&items[i]))?;
                        out.push(layer);
                        i = i + 1;
                    }
                    Ok(out)
                },
                None => Err(ConfigError::Parse(String::from_str(
                    "expected a list of modifier layers",
                ))),
            }
        },
        None => Ok(out),
    }
}

/// Decode the options section; its absence means the defaults.
fn decode_options(v: Option<&serde_json::Value>) -> (r: Result<Options, ConfigError>) {
    proof {
        reveal_strlit("rgb");
    }
    match v {
        Some(value) => {
            match value_entries(value) {
                Some(es) => {
                    match section(&es, "colorFormat") {
                        Some(cf) => match value_as_str(cf) {
                            Some(s) => {
                                if crate::utils::str_eq(s.as_str(), "rgb") {
                                    Ok(Options { color_format: ColorFormat::Rgb })
                                } else {
                                    Ok(Options { color_format: ColorFormat::Hsl })
                                }
                            },
                            None => Err(ConfigError::Parse(String::from_str(
                                "the color format is a name",
                            ))),
                        },
                        None => Ok(Options { color_format: ColorFormat::Hsl }),
                    }
                },
                None => Err(ConfigError::Parse(String::from_str("expected an options table"))),
            }
        },
        None => Ok(Options { color_format: ColorFormat::Hsl }),
    }
}

impl UserConfig {
    /// Load the user configuration from its JSON document. The load
    /// either succeeds whole, with every map well formed, or fails with a
    /// parse error; it is never partially applied.
    pub fn new(json: &str) -> (r: Result<UserConfig, ConfigError>)
        ensures
            r matches Ok(u) ==> u.wf(),
            json_document_of(json@) is None ==> r is Err,
            r is Ok ==> json_document_of(json@) is Some && json_entries_of(
                json_document_of(json@)->Some_0,
            ) is Some,
    {
        let root = match json_from_str(json) {
            Some(v) => v,
            None => {
                return Err(ConfigError::Parse(String::from_str(
                    "the document is not valid JSON",
                )));
            },
        };
        let entries = match value_entries(&root) {
            Some(es) => es,
            None => {
                return Err(ConfigError::Parse(String::from_str(
                    "the document is not an object",
                )));
            },
        };
        let options = decode_options(section(&entries, "options"))?;
        let style_rules = decode_style_rule_map(section(&entries, "styleRules"))?;
        let shorthand = decode_style_rule_map(section(&entries, "shorthand"))?;
        let groups = decode_group_map(section(&entries, "groups"))?;
        let palette = decode_string_map(section(&entries, "palette"))?;
        let keyframes = decode_keyframes_map(section(&entries, "keyframes"))?;
        let breakpoints = decode_css_value_map(section(&entries, "breakpoints"))?;
        let media_queries = decode_string_map(section(&entries, "mediaQueries"))?;
        let parent_modifiers = decode_string_list_map(section(&entries, "parentModifiers"))?;
        let modifiers = decode_modifier_layers(section(&entries, "modifiers"))?;
        let colors = decode_variable_map(section(&entries, "colors"))?;
        let atoms = decode_atoms(section(&entries, "atoms"))?;
        let variables = decode_variable_map(section(&entries, "variables"))?;
        Ok(
            UserConfig {
                options,
                style_rules,
                shorthand,
                groups,
                palette,
                keyframes,
                breakpoints,
                media_queries,
                parent_modifiers,
                modifiers,
                colors,
                atoms,
                variables,
            },
        )
    }
}

impl Config {
    /// Load the whole configuration: decode the document, then derive the
    /// flattened modifiers, the populated variables and the atom
    /// metadata.
    pub fn new(source: &str) -> (r: Result<Config, ConfigError>)
        ensures
            r matches Ok(c) ==> {
                &&& c.user.wf()
                &&& crate::utils::views_of_strings(c.modifiers@)
                    == crate::config::flat_modifier_names(c.user.modifiers@)
                &&& crate::config::modifiers_map_from(c.modifiers_map@, c.user.modifiers@)
                &&& c.atoms.wf()
                &&& c.css_variables.wf()
            },
    {
        let user = UserConfig::new(source)?;
        Ok(Config::from_user(user))
    }
}

} // verus!
