//! The loaded style configuration: the user-authored sections plus the
//! derived lookup tables — the flattened modifier list, the modifier
//! lookup map, the populated CSS variables and the atom metadata.

pub mod color_utils;
pub mod user;

use vstd::prelude::*;

use crate::ordered_map::{find_key, key_views, lemma_find_key, lemma_find_key_push, OrderedMap};
use crate::utils::{dedup_seqs, lemma_dedup_seqs_props, lemma_views_push, views_of_strings};
use user::{
    dup_string_vec, populated_from, Atom, AtomCssValue, CssValue, CssVariable,
    PopulatedCssVariable, UserConfig,
};

verus! {

/// Metadata derived for one atom name: the keyframes and groups its users
/// inherit and the legal named values with their resolved CSS values.
pub struct AtomMeta {
    /// The keyframes a class name using this atom references.
    pub keyframes: Vec<String>,
    /// The groups a class name using this atom references.
    pub groups: Vec<String>,
    /// The legal named values, in scoring order.
    pub values: OrderedMap<AtomCssValue>,
}

/// The loaded configuration.
pub struct Config {
    /// The user configuration.
    pub user: UserConfig,
    /// Modifier name to its selector templates, across all layers.
    pub modifiers_map: OrderedMap<Vec<String>>,
    /// All modifier names, flattened in layer order.
    pub modifiers: Vec<String>,
    /// All atoms derived from the configuration.
    pub atoms: OrderedMap<AtomMeta>,
    /// All CSS variables derived from the configuration.
    pub css_variables: OrderedMap<PopulatedCssVariable>,
}

/// All modifier names over the layers, flattened in order, duplicates
/// kept.
pub open spec fn flat_modifier_names(layers: Seq<OrderedMap<Vec<String>>>) -> Seq<Seq<char>>
    decreases layers.len(),
{
    if layers.len() == 0 {
        Seq::empty()
    } else {
        flat_modifier_names(layers.drop_last()) + key_views(layers.last()@)
    }
}

/// The selector templates of the last layer that defines the modifier.
pub open spec fn last_layer_templates(
    layers: Seq<OrderedMap<Vec<String>>>,
    k: Seq<char>,
) -> Seq<Seq<char>>
    decreases layers.len(),
{
    if layers.len() == 0 {
        Seq::empty()
    } else {
        match find_key(layers.last()@, k) {
            Some(i) => views_of_strings(layers.last()@[i].1@),
            None => last_layer_templates(layers.drop_last(), k),
        }
    }
}

/// Whether the modifier lookup map is the correct flattening of the
/// layers: its keys are the distinct modifier names in order of first
/// appearance, each mapped to the templates of the last layer defining it.
pub open spec fn modifiers_map_from(
    mm: Seq<(String, Vec<String>)>,
    layers: Seq<OrderedMap<Vec<String>>>,
) -> bool {
    &&& key_views(mm) == dedup_seqs(flat_modifier_names(layers))
    &&& forall|i: int|
        0 <= i < mm.len() ==> views_of_strings((#[trigger] mm[i]).1@) == last_layer_templates(
            layers,
            mm[i].0@,
        )
}

/// Whether the derived variable table holds, entry for entry, the
/// populated form of each authored variable.
pub open spec fn variables_populated_from(
    vars: Seq<(String, PopulatedCssVariable)>,
    authored: Seq<(String, CssVariable)>,
    breakpoints: Seq<(String, CssValue)>,
) -> bool {
    &&& vars.len() == authored.len()
    &&& forall|i: int|
        0 <= i < authored.len() ==> (#[trigger] vars[i]).0@ == (#[trigger] authored[i]).0@
            && populated_from(authored[i].1, breakpoints, vars[i].1)
}

impl UserConfig {
    /// Every map of the configuration has pairwise-distinct keys.
    pub open spec fn wf(&self) -> bool {
        &&& self.style_rules.wf()
        &&& self.shorthand.wf()
        &&& self.groups.wf()
        &&& self.palette.wf()
        &&& self.keyframes.wf()
        &&& self.breakpoints.wf()
        &&& self.media_queries.wf()
        &&& self.parent_modifiers.wf()
        &&& forall|i: int| 0 <= i < self.modifiers@.len() ==> (#[trigger] self.modifiers@[i]).wf()
        &&& self.colors.wf()
        &&& self.variables.wf()
        &&& forall|i: int| 0 <= i < self.atoms@.len() ==> atom_values_wf(#[trigger] self.atoms@[i])
    }
}

/// A value atom's value table has distinct names.
pub open spec fn atom_values_wf(a: Atom) -> bool {
    match a {
        Atom::Value(v) => v.values.wf(),
        Atom::Color(_) => true,
    }
}

/// Flatten the modifier layers into one ordered name list, duplicates
/// kept.
fn flatten_modifier_names(layers: &Vec<OrderedMap<Vec<String>>>) -> (r: Vec<String>)
    ensures
        views_of_strings(r@) == flat_modifier_names(layers@),
{
    let mut out: Vec<String> = Vec::new();
    let mut i: usize = 0;
    while i < layers.len()
        invariant
            0 <= i <= layers@.len(),
            views_of_strings(out@) == flat_modifier_names(layers@.take(i as int)),
        decreases layers@.len() - i,
    {
        let layer = &layers[i];
        let mut j: usize = 0;
        while j < layer.len()
            invariant
                0 <= j <= layer@.len(),
                layer == layers@[i as int],
                0 <= i < layers@.len(),
                views_of_strings(out@) == flat_modifier_names(layers@.take(i as int))
                    + key_views(layer@).take(j as int),
            decreases layer@.len() - j,
        {
            let ghost pre = out@;
            out.push(layer.key_at(j).clone());
            proof {
                lemma_views_push(pre, out@.last());
                assert(key_views(layer@).take(j + 1 as int) =~= key_views(layer@).take(
                    j as int,
                ).push(layer@[j as int].0@));
                assert(views_of_strings(out@) =~= flat_modifier_names(layers@.take(i as int))
                    + key_views(layer@).take(j + 1 as int));
            }
            j = j + 1;
        }
        proof {
            let t = layers@.take(i + 1 as int);
            assert(t.drop_last() =~= layers@.take(i as int));
            assert(t.last() == layers@[i as int]);
            assert(key_views(layer@).take(layer@.len() as int) =~= key_views(layer@));
        }
        i = i + 1;
    }
    proof {
        assert(layers@.take(layers@.len() as int) =~= layers@);
    }
    out
}

/// The templates a name resolves to when the layers before the current one
/// are done and the current layer is processed up to some entry.
pub open spec fn partial_layer_templates(
    layers: Seq<OrderedMap<Vec<String>>>,
    part: Seq<(String, Vec<String>)>,
    k: Seq<char>,
) -> Seq<Seq<char>> {
    match find_key(part, k) {
        Some(i) => views_of_strings(part[i].1@),
        None => last_layer_templates(layers, k),
    }
}

/// Build the modifier lookup map: each layer's entries are inserted in
/// order, so a name keeps its first position and its last templates.
fn build_modifiers_map(layers: &Vec<OrderedMap<Vec<String>>>) -> (r: OrderedMap<Vec<String>>)
    requires
        forall|i: int| 0 <= i < layers@.len() ==> (#[trigger] layers@[i]).wf(),
    ensures
        modifiers_map_from(r@, layers@),
        r.wf(),
{
    let mut mm: OrderedMap<Vec<String>> = OrderedMap::new();
    let mut i: usize = 0;
    while i < layers.len()
        invariant
            0 <= i <= layers@.len(),
            forall|w: int| 0 <= w < layers@.len() ==> (#[trigger] layers@[w]).wf(),
            mm.wf(),
            key_views(mm@) == dedup_seqs(flat_modifier_names(layers@.take(i as int))),
            forall|w: int|
                0 <= w < mm@.len() ==> views_of_strings((#[trigger] mm@[w]).1@)
                    == last_layer_templates(layers@.take(i as int), mm@[w].0@),
        decreases layers@.len() - i,
    {
        let layer = &layers[i];
        let mut j: usize = 0;
        proof {
            assert(key_views(layer@).take(0int) =~= Seq::<Seq<char>>::empty());
            assert(flat_modifier_names(layers@.take(i as int)) + Seq::<Seq<char>>::empty()
                =~= flat_modifier_names(layers@.take(i as int)));
            assert(layer@.take(0int) =~= Seq::<(String, Vec<String>)>::empty());
        }
        while j < layer.len()
            invariant
                0 <= j <= layer@.len(),
                layer == layers@[i as int],
                0 <= i < layers@.len(),
                forall|w: int| 0 <= w < layers@.len() ==> (#[trigger] layers@[w]).wf(),
                mm.wf(),
                key_views(mm@) == dedup_seqs(
                    flat_modifier_names(layers@.take(i as int)) + key_views(layer@).take(j as int),
                ),
                forall|w: int|
                    0 <= w < mm@.len() ==> views_of_strings((#[trigger] mm@[w]).1@)
                        == partial_layer_templates(
                        layers@.take(i as int),
                        layer@.take(j as int),
                        mm@[w].0@,
                    ),
            decreases layer@.len() - j,
        {
            let ghost pre = mm@;
            let ghost named = flat_modifier_names(layers@.take(i as int)) + key_views(
                layer@,
            ).take(j as int);
            let key = layer.key_at(j).clone();
            let templates = dup_string_vec(layer.value_at(j));
            mm.insert(key, templates);
            proof {
                lemma_find_key(pre, key@);
                lemma_dedup_seqs_props(named);
                assert(named.push(layer@[j as int].0@) =~= flat_modifier_names(
                    layers@.take(i as int),
                ) + key_views(layer@).take(j + 1 as int));
                assert(dedup_seqs(named.push(layer@[j as int].0@)) == if dedup_seqs(
                    named,
                ).contains(layer@[j as int].0@) {
                    dedup_seqs(named)
                } else {
                    dedup_seqs(named).push(layer@[j as int].0@)
                }) by {
                    assert(named.push(layer@[j as int].0@).drop_last() =~= named);
                }
                match find_key(pre, key@) {
                    Some(w) => {
                        assert(key_views(pre).contains(key@)) by {
                            assert(key_views(pre)[w] == key@);
                        }
                        assert(key_views(mm@) =~= key_views(pre));
                    },
                    None => {
                        assert(!key_views(pre).contains(key@)) by {
                            if key_views(pre).contains(key@) {
                                let w = choose|w: int|
                                    0 <= w < pre.len() && key_views(pre)[w] == key@;
                                lemma_find_key(pre, key@);
                            }
                        }
                        assert(key_views(mm@) =~= key_views(pre).push(key@));
                    },
                }
                // templates of each entry after the insert
                assert forall|w: int| 0 <= w < mm@.len() implies views_of_strings(
                    (#[trigger] mm@[w]).1@,
                ) == partial_layer_templates(
                    layers@.take(i as int),
                    layer@.take(j + 1 as int),
                    mm@[w].0@,
                ) by {
                    let part_old = layer@.take(j as int);
                    let part_new = layer@.take(j + 1 as int);
                    assert(part_new =~= part_old.push(layer@[j as int]));
                    lemma_find_key_push(part_old, layer@[j as int], mm@[w].0@);
                    lemma_find_key(part_old, mm@[w].0@);
                    if mm@[w].0@ == key@ {
                        // the inserted or updated entry: templates come from
                        // entry j of the layer, which is its only occurrence
                        if find_key(part_old, key@) is Some {
                            let v = find_key(part_old, key@)->Some_0;
                            lemma_find_key(part_old, key@);
                            assert(part_old[v] == layer@[v]);
                            assert(layer@[v].0@ == layer@[j as int].0@);
                            assert(false);
                        }
                        assert(find_key(part_old, key@) is None);
                        assert(find_key(part_new, key@) == Some(j as int));
                        match find_key(pre, key@) {
                            Some(v) => {
                                assert(mm@ == pre.update(v, (pre[v].0, templates)));
                                assert(pre[v].0@ == key@);
                                assert(w == v) by {
                                    lemma_find_key(pre, key@);
                                    if w != v {
                                        assert(pre[w].0@ == mm@[w].0@);
                                    }
                                }
                                assert(mm@[w].1 == templates);
                            },
                            None => {
                                assert(w == mm@.len() - 1) by {
                                    lemma_find_key(pre, key@);
                                    if w < mm@.len() - 1 {
                                        assert(mm@[w] == pre[w]);
                                    }
                                }
                                assert(mm@[w].1 == templates);
                            },
                        }
                        assert(views_of_strings(templates@) =~= views_of_strings(
                            layer@[j as int].1@,
                        ));
                    } else {
                        match find_key(pre, key@) {
                            Some(v) => {
                                if w == v {
                                    assert(pre[v].0@ == key@);
                                    assert(false);
                                }
                                assert(mm@[w] == pre[w]);
                            },
                            None => {
                                if w == mm@.len() - 1 {
                                    assert(mm@[w].0@ == key@);
                                    assert(false);
                                }
                                assert(mm@[w] == pre[w]);
                            },
                        }
                        assert(mm@[w] == pre[w]);
                    }
                }
            }
            j = j + 1;
        }
        proof {
            let t = layers@.take(i + 1 as int);
            assert(t.drop_last() =~= layers@.take(i as int));
            assert(t.last() == layers@[i as int]);
            assert(key_views(layer@).take(layer@.len() as int) =~= key_views(layer@));
            assert(layer@.take(layer@.len() as int) =~= layer@);
            assert(flat_modifier_names(t) == flat_modifier_names(layers@.take(i as int))
                + key_views(layer@));
            assert forall|w: int| 0 <= w < mm@.len() implies views_of_strings(
                (#[trigger] mm@[w]).1@,
            ) == last_layer_templates(t, mm@[w].0@) by {
                assert(views_of_strings(mm@[w].1@) == partial_layer_templates(
                    layers@.take(i as int),
                    layer@,
                    mm@[w].0@,
                ));
            }
        }
        i = i + 1;
    }
    proof {
        assert(layers@.take(layers@.len() as int) =~= layers@);
    }
    mm
}

/// The derived CSS-variable name for a color atom's value: the style-rule
/// and color names in kebab case under a `--color-` prefix.
pub open spec fn color_var_name(rule: Seq<char>, name: Seq<char>) -> Seq<char> {
    "--color-"@ + crate::utils::kebab_of(rule) + "-"@ + crate::utils::kebab_of(name)
}

/// What one color atom resolves a value name to: a configured color wins
/// over a palette entry of the same name; a configured color becomes a
/// reference to its derived variable, a palette entry becomes its
/// `rgba(...)` form.
pub open spec fn color_value_agrees(
    options: user::AtomColorOptions,
    colors: Seq<(String, CssVariable)>,
    palette: Seq<(String, String)>,
    rule: Seq<char>,
    name: Seq<char>,
    v: AtomCssValue,
) -> bool {
    if find_key(colors, name) is Some {
        v matches AtomCssValue::Value(cv) && cv.spec_get_string()
            == crate::wrapped_css_variable(color_var_name(rule, name))
    } else if options.palette && find_key(palette, name) is Some {
        v matches AtomCssValue::Value(cv) && cv.spec_get_string()
            == crate::config::color_utils::spec_rgba_color(
            palette[find_key(palette, name)->Some_0].1@,
            options.opacity@,
        )
    } else {
        false
    }
}

/// The value names a color atom offers: the palette entries (when enabled)
/// and the configured colors.
pub open spec fn color_value_names(
    options: user::AtomColorOptions,
    colors: Seq<(String, CssVariable)>,
    palette: Seq<(String, String)>,
) -> Seq<Seq<char>> {
    if options.palette {
        key_views(palette) + key_views(colors)
    } else {
        key_views(colors)
    }
}

/// The derived variable names one color atom contributes for one rule.
pub open spec fn color_var_names(
    colors: Seq<(String, CssVariable)>,
    rule: Seq<char>,
) -> Seq<Seq<char>> {
    key_views(colors).map_values(|n: Seq<char>| color_var_name(rule, n))
}

/// Build the value table of a color atom for one style rule, and record
/// each configured color's populated variable under its derived name.
fn values_from_color_options(
    rule: &str,
    options: &user::AtomColorOptions,
    colors: &OrderedMap<CssVariable>,
    palette: &OrderedMap<String>,
    css_variables: &mut OrderedMap<PopulatedCssVariable>,
) -> (r: OrderedMap<AtomCssValue>)
    requires
        colors.wf(),
        palette.wf(),
        old(css_variables).wf(),
    ensures
        r.wf(),
        key_views(r@) == dedup_seqs(color_value_names(*options, colors@, palette@)),
        forall|i: int|
            0 <= i < r@.len() ==> color_value_agrees(
                *options,
                colors@,
                palette@,
                rule@,
                (#[trigger] r@[i]).0@,
                r@[i].1,
            ),
        final(css_variables).wf(),
        key_views(final(css_variables)@) == dedup_seqs(
            key_views(old(css_variables)@) + color_var_names(colors@, rule@),
        ),
        forall|i: int|
            0 <= i < final(css_variables)@.len() ==> ((i < old(css_variables)@.len() && (
            #[trigger] final(css_variables)@[i]) == old(css_variables)@[i]) || exists|c: int|
                0 <= c < colors@.len() && final(css_variables)@[i].0@ == color_var_name(
                    rule@,
                    (#[trigger] colors@[c]).0@,
                ) && user::populated_color_from(
                    colors@[c].1,
                    palette@,
                    options.opacity@,
                    final(css_variables)@[i].1,
                )),
{
    let ghost palette_part: Seq<Seq<char>> = if options.palette {
        key_views(palette@)
    } else {
        Seq::empty()
    };
    let mut values: OrderedMap<AtomCssValue> = OrderedMap::new();
    // Palette entries first: each palette color becomes an available value.
    if options.palette {
        let mut i: usize = 0;
        while i < palette.len()
            invariant
                0 <= i <= palette@.len(),
                palette.wf(),
                values.wf(),
                key_views(values@) == key_views(palette@).take(i as int),
                forall|w: int|
                    0 <= w < values@.len() ==> ((#[trigger] values@[w]).0@ == palette@[w].0@
                        && (values@[w].1 matches AtomCssValue::Value(cv) && cv.spec_get_string()
                        == crate::config::color_utils::spec_rgba_color(
                        palette@[w].1@,
                        options.opacity@,
                    ))),
            decreases palette@.len() - i,
        {
            let color = crate::config::color_utils::get_rgba_color_from_string(
                palette.value_at(i).as_str(),
                options.opacity.as_str(),
            );
            let ghost pre = values@;
            values.push_entry(
                palette.key_at(i).clone(),
                AtomCssValue::Value(CssValue::Str(color)),
            );
            proof {
                crate::ordered_map::lemma_key_views_push(pre, values@.last());
                assert(key_views(values@) =~= key_views(palette@).take(i + 1 as int));
            }
            i = i + 1;
        }
        proof {
            assert(key_views(palette@).take(palette@.len() as int) =~= key_views(palette@));
        }
    }
    proof {
        lemma_dedup_of_distinct(key_views(values@));
        assert(key_views(values@) == palette_part);
        assert(palette_part + key_views(colors@).take(0int) =~= palette_part);
        assert(colors@.take(0int) =~= Seq::<(String, CssVariable)>::empty());
        assert forall|w: int| 0 <= w < values@.len() implies value_entry_partial(
            *options,
            colors@,
            palette@,
            rule@,
            0int,
            (#[trigger] values@[w]).0@,
            values@[w].1,
        ) by {
            lemma_find_key(palette@, values@[w].0@);
            match find_key(palette@, values@[w].0@) {
                Some(f) => {
                    if f != w {
                        assert(palette@[f].0@ == palette@[w].0@);
                    }
                    assert(f == w);
                },
                None => {
                    assert(palette@[w].0@ != values@[w].0@);
                },
            }
        }
    }
    // Configured colors second: they override palette entries of the same
    // name and also register a derived CSS variable.
    let ghost cvn = color_var_names(colors@, rule@);
    let mut i: usize = 0;
    proof {
        assert(key_views(old(css_variables)@) + cvn.take(0int) =~= key_views(
            old(css_variables)@,
        ));
        lemma_dedup_of_distinct(key_views(old(css_variables)@));
    }
    while i < colors.len()
        invariant
            0 <= i <= colors@.len(),
            colors.wf(),
            palette.wf(),
            values.wf(),
            css_variables.wf(),
            cvn == color_var_names(colors@, rule@),
            cvn.len() == colors@.len(),
            key_views(values@) == dedup_seqs(palette_part + key_views(colors@).take(i as int)),
            forall|w: int|
                0 <= w < values@.len() ==> value_entry_partial(
                    *options,
                    colors@,
                    palette@,
                    rule@,
                    i as int,
                    (#[trigger] values@[w]).0@,
                    values@[w].1,
                ),
            key_views(css_variables@) == dedup_seqs(
                key_views(old(css_variables)@) + cvn.take(i as int),
            ),
            forall|w: int|
                0 <= w < css_variables@.len() ==> ((w < old(css_variables)@.len() && (
                #[trigger] css_variables@[w]) == old(css_variables)@[w]) || exists|c: int|
                    0 <= c < colors@.len() && css_variables@[w].0@ == color_var_name(
                        rule@,
                        (#[trigger] colors@[c]).0@,
                    ) && user::populated_color_from(
                        colors@[c].1,
                        palette@,
                        options.opacity@,
                        css_variables@[w].1,
                    )),
        decreases colors@.len() - i,
    {
        let name = colors.key_at(i);
        let populated = colors.value_at(i).populate_color(palette, options.opacity.as_str());
        // The derived variable name: --color-<rule>-<name> in kebab case.
        let mut var_name = String::from_str("--color-");
        let kr = crate::utils::to_kebab_case(rule);
        var_name.append(kr.as_str());
        var_name.append("-");
        let kn = crate::utils::to_kebab_case(name.as_str());
        var_name.append(kn.as_str());
        proof {
            assert(var_name@ =~= color_var_name(rule@, name@));
        }
        let wrapped = crate::wrap_css_variable(var_name.as_str());
        let ghost pre_values = values@;
        let ghost named_v = palette_part + key_views(colors@).take(i as int);
        values.insert(name.clone(), AtomCssValue::Value(CssValue::Str(wrapped)));
        proof {
            lemma_find_key(pre_values, name@);
            lemma_dedup_seqs_props(named_v);
            assert(named_v.push(colors@[i as int].0@) =~= palette_part + key_views(
                colors@,
            ).take(i + 1 as int));
            assert(named_v.push(colors@[i as int].0@).drop_last() =~= named_v);
            match find_key(pre_values, name@) {
                Some(w) => {
                    assert(key_views(pre_values).contains(name@)) by {
                        assert(key_views(pre_values)[w] == name@);
                    }
                    assert(key_views(values@) =~= key_views(pre_values));
                },
                None => {
                    assert(!key_views(pre_values).contains(name@)) by {
                        if key_views(pre_values).contains(name@) {
                            let w = choose|w: int|
                                0 <= w < pre_values.len() && key_views(pre_values)[w] == name@;
                        }
                    }
                    assert(key_views(values@) =~= key_views(pre_values).push(name@));
                },
            }
            assert forall|w: int| 0 <= w < values@.len() implies value_entry_partial(
                *options,
                colors@,
                palette@,
                rule@,
                i + 1 as int,
                (#[trigger] values@[w]).0@,
                values@[w].1,
            ) by {
                lemma_find_key_push_seq(colors@, i as int, values@[w].0@);
                if values@[w].0@ == name@ {
                    match find_key(pre_values, name@) {
                        Some(v) => {
                            if w != v {
                                assert(values@[w] == pre_values[w]);
                                assert(pre_values[v].0@ == name@);
                                assert(false);
                            }
                        },
                        None => {
                            if w != values@.len() - 1 {
                                assert(values@[w] == pre_values[w]);
                                assert(false);
                            }
                        },
                    }
                    assert(find_key(colors@.take(i + 1 as int), name@) is Some) by {
                        lemma_find_key(colors@.take(i + 1 as int), name@);
                        if find_key(colors@.take(i + 1 as int), name@) is None {
                            assert(colors@.take(i + 1 as int)[i as int].0@ != name@);
                        }
                    }
                } else {
                    match find_key(pre_values, name@) {
                        Some(v) => {
                            if w == v {
                                assert(pre_values[v].0@ == name@);
                                assert(false);
                            }
                            assert(values@[w] == pre_values[w]);
                        },
                        None => {
                            if w == values@.len() - 1 {
                                assert(values@[w].0@ == name@);
                                assert(false);
                            }
                            assert(values@[w] == pre_values[w]);
                        },
                    }
                }
            }
        }
        let ghost pre_cv = css_variables@;
        let ghost named_c = key_views(old(css_variables)@) + cvn.take(i as int);
        css_variables.insert(var_name, populated);
        proof {
            lemma_find_key(pre_cv, cvn[i as int]);
            lemma_dedup_seqs_props(named_c);
            assert(cvn[i as int] == color_var_name(rule@, colors@[i as int].0@));
            assert(named_c.push(cvn[i as int]) =~= key_views(old(css_variables)@) + cvn.take(
                i + 1 as int,
            ));
            assert(named_c.push(cvn[i as int]).drop_last() =~= named_c);
            match find_key(pre_cv, cvn[i as int]) {
                Some(w) => {
                    assert(key_views(pre_cv).contains(cvn[i as int])) by {
                        assert(key_views(pre_cv)[w] == cvn[i as int]);
                    }
                    assert(key_views(css_variables@) =~= key_views(pre_cv));
                },
                None => {
                    assert(!key_views(pre_cv).contains(cvn[i as int])) by {
                        if key_views(pre_cv).contains(cvn[i as int]) {
                            let w = choose|w: int|
                                0 <= w < pre_cv.len() && key_views(pre_cv)[w] == cvn[i as int];
                        }
                    }
                    assert(key_views(css_variables@) =~= key_views(pre_cv).push(cvn[i as int]));
                },
            }
            assert forall|w: int| 0 <= w < css_variables@.len() implies ((w < old(
                css_variables,
            )@.len() && (#[trigger] css_variables@[w]) == old(css_variables)@[w]) || exists|c: int|
                0 <= c < colors@.len() && css_variables@[w].0@ == color_var_name(
                    rule@,
                    (#[trigger] colors@[c]).0@,
                ) && user::populated_color_from(
                    colors@[c].1,
                    palette@,
                    options.opacity@,
                    css_variables@[w].1,
                )) by {
                match find_key(pre_cv, cvn[i as int]) {
                    Some(v) => {
                        if w == v {
                            assert(css_variables@[w].0@ == cvn[i as int]);
                            assert(css_variables@[w].1 == populated);
                            assert(0 <= i < colors@.len() && css_variables@[w].0@
                                == color_var_name(rule@, colors@[i as int].0@)
                                && user::populated_color_from(
                                colors@[i as int].1,
                                palette@,
                                options.opacity@,
                                css_variables@[w].1,
                            ));
                        } else {
                            assert(css_variables@[w] == pre_cv[w]);
                        }
                    },
                    None => {
                        if w == css_variables@.len() - 1 {
                            assert(css_variables@[w].0@ == cvn[i as int]);
                            assert(0 <= i < colors@.len() && css_variables@[w].0@
                                == color_var_name(rule@, colors@[i as int].0@)
                                && user::populated_color_from(
                                colors@[i as int].1,
                                palette@,
                                options.opacity@,
                                css_variables@[w].1,
                            ));
                        } else {
                            assert(css_variables@[w] == pre_cv[w]);
                        }
                    },
                }
            }
        }
        i = i + 1;
    }
    proof {
        assert(key_views(colors@).take(colors@.len() as int) =~= key_views(colors@));
        assert(cvn.take(cvn.len() as int) =~= cvn);
        if options.palette {
            assert(palette_part + key_views(colors@) =~= color_value_names(
                *options,
                colors@,
                palette@,
            ));
        } else {
            assert(palette_part + key_views(colors@) =~= color_value_names(
                *options,
                colors@,
                palette@,
            ));
        }
        assert forall|w: int| 0 <= w < values@.len() implies color_value_agrees(
            *options,
            colors@,
            palette@,
            rule@,
            (#[trigger] values@[w]).0@,
            values@[w].1,
        ) by {
            assert(value_entry_partial(
                *options,
                colors@,
                palette@,
                rule@,
                colors@.len() as int,
                values@[w].0@,
                values@[w].1,
            ));
            assert(colors@.take(colors@.len() as int) =~= colors@);
        }
    }
    values
}

/// The value relation while only the first `upto` configured colors have
/// been applied.
pub open spec fn value_entry_partial(
    options: user::AtomColorOptions,
    colors: Seq<(String, CssVariable)>,
    palette: Seq<(String, String)>,
    rule: Seq<char>,
    upto: int,
    name: Seq<char>,
    v: AtomCssValue,
) -> bool {
    if find_key(colors.take(upto), name) is Some {
        v matches AtomCssValue::Value(cv) && cv.spec_get_string()
            == crate::wrapped_css_variable(color_var_name(rule, name))
    } else if options.palette && find_key(palette, name) is Some {
        v matches AtomCssValue::Value(cv) && cv.spec_get_string()
            == crate::config::color_utils::spec_rgba_color(
            palette[find_key(palette, name)->Some_0].1@,
            options.opacity@,
        )
    } else {
        false
    }
}

/// A sequence without duplicates is its own deduplication.
pub proof fn lemma_dedup_of_distinct(xs: Seq<Seq<char>>)
    requires
        forall|i: int, j: int| 0 <= i < j < xs.len() ==> #[trigger] xs[i] != #[trigger] xs[j],
    ensures
        dedup_seqs(xs) == xs,
    decreases xs.len(),
{
    if xs.len() > 0 {
        lemma_dedup_of_distinct(xs.drop_last());
        let rest = dedup_seqs(xs.drop_last());
        assert(rest == xs.drop_last());
        if rest.contains(xs.last()) {
            let w = choose|w: int| 0 <= w < rest.len() && rest[w] == xs.last();
            assert(xs[w] == xs.last());
            assert(false);
        }
        assert(dedup_seqs(xs) =~= xs);
    }
}

/// Searching among the keys of a prefix one longer: the new entry is found
/// only when nothing earlier matches.
proof fn lemma_find_key_push_seq<V>(s: Seq<(String, V)>, i: int, k: Seq<char>)
    requires
        0 <= i < s.len(),
    ensures
        find_key(s.take(i + 1), k) == match find_key(s.take(i), k) {
            Some(w) => Some(w),
            None => if s[i].0@ == k {
                Some(i)
            } else {
                None
            },
        },
{
    assert(s.take(i + 1) =~= s.take(i).push(s[i]));
    lemma_find_key_push(s.take(i), s[i], k);
}

/// The style-rule names an atom targets.
pub open spec fn atom_rules(a: Atom) -> Seq<String> {
    match a {
        Atom::Color(c) => c.style_rules@,
        Atom::Value(v) => v.style_rules@,
    }
}

/// The keyframes an atom carries.
pub open spec fn atom_kfs(a: Atom) -> Seq<String> {
    match a {
        Atom::Color(c) => c.keyframes@,
        Atom::Value(v) => v.keyframes@,
    }
}

/// The groups an atom carries.
pub open spec fn atom_grps(a: Atom) -> Seq<String> {
    match a {
        Atom::Color(c) => c.groups@,
        Atom::Value(v) => v.groups@,
    }
}

/// Every targeted style-rule name over the atoms, flattened in authoring
/// order, duplicates kept.
pub open spec fn rule_names_flat(atoms: Seq<Atom>) -> Seq<Seq<char>>
    decreases atoms.len(),
{
    if atoms.len() == 0 {
        Seq::empty()
    } else {
        rule_names_flat(atoms.drop_last()) + views_of_strings(atom_rules(atoms.last()))
    }
}

/// How often `rule` occurs among the names.
pub open spec fn occurrences(rules: Seq<String>, rule: Seq<char>) -> int
    decreases rules.len(),
{
    if rules.len() == 0 {
        0
    } else {
        occurrences(rules.drop_last(), rule) + if rules.last()@ == rule {
            1int
        } else {
            0int
        }
    }
}

/// An occurrence count is never negative and only grows with the prefix.
pub proof fn lemma_occurrences_facts(rules: Seq<String>, rule: Seq<char>, k: int)
    requires
        0 <= k <= rules.len(),
    ensures
        occurrences(rules, rule) >= occurrences(rules.take(k), rule) >= 0,
    decreases rules.len(),
{
    if rules.len() == 0 {
        assert(rules.take(k) =~= rules);
    } else if k == rules.len() {
        assert(rules.take(k) =~= rules);
        lemma_occurrences_facts(rules.drop_last(), rule, rules.len() - 1);
        assert(rules.drop_last().take(rules.len() - 1) =~= rules.drop_last());
    } else {
        lemma_occurrences_facts(rules.drop_last(), rule, k);
        assert(rules.drop_last().take(k) =~= rules.take(k));
    }
}

/// `s` repeated `n` times.
pub open spec fn rep_concat(s: Seq<Seq<char>>, n: int) -> Seq<Seq<char>>
    decreases n,
{
    if n <= 0 {
        Seq::empty()
    } else {
        rep_concat(s, n - 1) + s
    }
}

/// Whether the atom targets the rule at all.
pub open spec fn atom_targets(a: Atom, rule: Seq<char>) -> bool {
    occurrences(atom_rules(a), rule) > 0
}

/// The keyframe names a rule inherits: each targeting atom contributes its
/// list once per occurrence, in authoring order.
pub open spec fn kf_concat(atoms: Seq<Atom>, rule: Seq<char>) -> Seq<Seq<char>>
    decreases atoms.len(),
{
    if atoms.len() == 0 {
        Seq::empty()
    } else {
        kf_concat(atoms.drop_last(), rule) + rep_concat(
            views_of_strings(atom_kfs(atoms.last())),
            occurrences(atom_rules(atoms.last()), rule),
        )
    }
}

/// The group names a rule inherits, like the keyframes.
pub open spec fn group_concat(atoms: Seq<Atom>, rule: Seq<char>) -> Seq<Seq<char>>
    decreases atoms.len(),
{
    if atoms.len() == 0 {
        Seq::empty()
    } else {
        group_concat(atoms.drop_last(), rule) + rep_concat(
            views_of_strings(atom_grps(atoms.last())),
            occurrences(atom_rules(atoms.last()), rule),
        )
    }
}

/// The distinct value names an atom offers.
pub open spec fn atom_value_names(
    a: Atom,
    palette: Seq<(String, String)>,
    colors: Seq<(String, CssVariable)>,
) -> Seq<Seq<char>> {
    match a {
        Atom::Color(c) => dedup_seqs(color_value_names(c.colors, colors, palette)),
        Atom::Value(v) => key_views(v.values@),
    }
}

/// The value names contributed to a rule over the atoms, flattened.
pub open spec fn value_names_concat(
    atoms: Seq<Atom>,
    palette: Seq<(String, String)>,
    colors: Seq<(String, CssVariable)>,
    rule: Seq<char>,
) -> Seq<Seq<char>>
    decreases atoms.len(),
{
    if atoms.len() == 0 {
        Seq::empty()
    } else {
        value_names_concat(atoms.drop_last(), palette, colors, rule) + rep_concat(
            atom_value_names(atoms.last(), palette, colors),
            occurrences(atom_rules(atoms.last()), rule),
        )
    }
}

/// What one atom resolves a value name to.
pub open spec fn atom_value_agrees(
    a: Atom,
    palette: Seq<(String, String)>,
    colors: Seq<(String, CssVariable)>,
    rule: Seq<char>,
    name: Seq<char>,
    v: AtomCssValue,
) -> bool {
    match a {
        Atom::Color(c) => color_value_agrees(c.colors, colors, palette, rule, name, v),
        Atom::Value(av) => find_key(av.values@, name) is Some && v.view_agrees(
            av.values@[find_key(av.values@, name)->Some_0].1,
        ),
    }
}

/// A merged value comes from some targeting atom's contribution.
pub open spec fn merged_value_ok(
    atoms: Seq<Atom>,
    palette: Seq<(String, String)>,
    colors: Seq<(String, CssVariable)>,
    rule: Seq<char>,
    name: Seq<char>,
    v: AtomCssValue,
) -> bool {
    exists|t: int|
        0 <= t < atoms.len() && atom_targets(#[trigger] atoms[t], rule) && atom_value_agrees(
            atoms[t],
            palette,
            colors,
            rule,
            name,
            v,
        )
}

/// Whether a derived-variable entry is accounted for: it was already there
/// before the atoms were processed, or some color atom contributed it.
pub open spec fn css_var_entry_ok(
    atoms: Seq<Atom>,
    palette: Seq<(String, String)>,
    colors: Seq<(String, CssVariable)>,
    old_vars: Seq<(String, PopulatedCssVariable)>,
    i: int,
    e: (String, PopulatedCssVariable),
) -> bool {
    ||| (i < old_vars.len() && e == old_vars[i])
    ||| exists|t: int, c: int, rule: Seq<char>|
        0 <= t < atoms.len() && 0 <= c < colors.len() && ((#[trigger] atoms[t]) matches Atom::Color(ca)
            && #[trigger] atom_targets(atoms[t], rule) && e.0@ == color_var_name(
            rule,
            (#[trigger] colors[c]).0@,
        ) && user::populated_color_from(colors[c].1, palette, ca.colors.opacity@, e.1))
}

/// Append copies of every string of `src`.
fn extend_with(dst: &mut Vec<String>, src: &Vec<String>)
    ensures
        final(dst)@ == old(dst)@ + src@,
{
    let mut i: usize = 0;
    while i < src.len()
        invariant
            0 <= i <= src@.len(),
            dst@ == old(dst)@ + src@.take(i as int),
        decreases src@.len() - i,
    {
        dst.push(src[i].clone());
        proof {
            assert(dst@ =~= old(dst)@ + src@.take(i + 1 as int));
        }
        i = i + 1;
    }
    proof {
        assert(old(dst)@ + src@.take(src@.len() as int) =~= old(dst)@ + src@);
    }
}

/// How appending strings extends the views.
proof fn lemma_views_concat(a: Seq<String>, b: Seq<String>)
    ensures
        views_of_strings(a + b) == views_of_strings(a) + views_of_strings(b),
{
    assert(views_of_strings(a + b) =~= views_of_strings(a) + views_of_strings(b));
}

/// The whole postcondition of the atom derivation, for one derived entry.
pub open spec fn atom_meta_ok(
    atoms: Seq<Atom>,
    palette: Seq<(String, String)>,
    colors: Seq<(String, CssVariable)>,
    rule: Seq<char>,
    meta: AtomMeta,
) -> bool {
    &&& views_of_strings(meta.keyframes@) == kf_concat(atoms, rule)
    &&& views_of_strings(meta.groups@) == group_concat(atoms, rule)
    &&& meta.values.wf()
    &&& key_views(meta.values@) == dedup_seqs(value_names_concat(atoms, palette, colors, rule))
    &&& forall|w: int|
        0 <= w < meta.values@.len() ==> merged_value_ok(
            atoms,
            palette,
            colors,
            rule,
            (#[trigger] meta.values@[w]).0@,
            meta.values@[w].1,
        )
}

/// Derive the metadata of one style rule: walk the atoms in authoring
/// order, collect keyframes and groups per occurrence, and merge the value
/// tables, later contributions overriding earlier names.
#[verifier::loop_isolation(false)]
fn derive_atom_meta(
    atoms: &Vec<Atom>,
    palette: &OrderedMap<String>,
    colors: &OrderedMap<CssVariable>,
    rule: &str,
    css_variables: &mut OrderedMap<PopulatedCssVariable>,
) -> (r: AtomMeta)
    requires
        palette.wf(),
        colors.wf(),
        old(css_variables).wf(),
        forall|i: int| 0 <= i < atoms@.len() ==> atom_values_wf(#[trigger] atoms@[i]),
    ensures
        atom_meta_ok(atoms@, palette@, colors@, rule@, r),
        final(css_variables).wf(),
        forall|i: int|
            0 <= i < final(css_variables)@.len() ==> css_var_entry_ok(
                atoms@,
                palette@,
                colors@,
                old(css_variables)@,
                i,
                (#[trigger] final(css_variables)@[i]),
            ),
{
    let mut kf: Vec<String> = Vec::new();
    let mut grps: Vec<String> = Vec::new();
    let mut values: OrderedMap<AtomCssValue> = OrderedMap::new();
    let mut t: usize = 0;
    while t < atoms.len()
        invariant
            0 <= t <= atoms@.len(),
            views_of_strings(kf@) == kf_concat(atoms@.take(t as int), rule@),
            views_of_strings(grps@) == group_concat(atoms@.take(t as int), rule@),
            key_views(values@) == dedup_seqs(
                value_names_concat(atoms@.take(t as int), palette@, colors@, rule@),
            ),
            forall|w: int|
                0 <= w < values@.len() ==> merged_value_ok(
                    atoms@.take(t as int),
                    palette@,
                    colors@,
                    rule@,
                    (#[trigger] values@[w]).0@,
                    values@[w].1,
                ),
            css_variables.wf(),
            forall|i: int|
                0 <= i < css_variables@.len() ==> css_var_entry_ok(
                    atoms@,
                    palette@,
                    colors@,
                    old(css_variables)@,
                    i,
                    (#[trigger] css_variables@[i]),
                ),
        decreases atoms@.len() - t,
    {
        let atom = &atoms[t];
        let (style_rules, akf, agrps): (&Vec<String>, &Vec<String>, &Vec<String>) = match atom {
            Atom::Color(c) => (&c.style_rules, &c.keyframes, &c.groups),
            Atom::Value(v) => (&v.style_rules, &v.keyframes, &v.groups),
        };
        let mut j: usize = 0;
        proof {
            assert(style_rules@ == atom_rules(atoms@[t as int]));
            assert(akf@ == atom_kfs(atoms@[t as int]));
            assert(agrps@ == atom_grps(atoms@[t as int]));
            assert(style_rules@.take(0int) =~= Seq::<String>::empty());
        }
        while j < style_rules.len()
            invariant
                0 <= j <= style_rules@.len(),
                views_of_strings(kf@) == kf_concat(atoms@.take(t as int), rule@) + rep_concat(
                    views_of_strings(akf@),
                    occurrences(style_rules@.take(j as int), rule@),
                ),
                views_of_strings(grps@) == group_concat(atoms@.take(t as int), rule@)
                    + rep_concat(
                    views_of_strings(agrps@),
                    occurrences(style_rules@.take(j as int), rule@),
                ),
                key_views(values@) == dedup_seqs(
                    value_names_concat(atoms@.take(t as int), palette@, colors@, rule@)
                        + rep_concat(
                        atom_value_names(atoms@[t as int], palette@, colors@),
                        occurrences(style_rules@.take(j as int), rule@),
                    ),
                ),
                forall|w: int|
                    0 <= w < values@.len() ==> merged_value_ok(
                        atoms@.take(t + 1 as int),
                        palette@,
                        colors@,
                        rule@,
                        (#[trigger] values@[w]).0@,
                        values@[w].1,
                    ),
                css_variables.wf(),
                forall|i: int|
                    0 <= i < css_variables@.len() ==> css_var_entry_ok(
                        atoms@,
                        palette@,
                        colors@,
                        old(css_variables)@,
                        i,
                        (#[trigger] css_variables@[i]),
                    ),
            decreases style_rules@.len() - j,
        {
            let matches_rule = crate::utils::str_eq(style_rules[j].as_str(), rule);
            proof {
                assert(style_rules@.take(j + 1 as int).drop_last() =~= style_rules@.take(
                    j as int,
                ));
            }
            if matches_rule {
                let ghost occ_pre = occurrences(style_rules@.take(j as int), rule@);
                proof {
                    lemma_occurrences_facts(style_rules@, rule@, j as int);
                    lemma_occurrences_facts(style_rules@, rule@, j + 1 as int);
                    assert(occurrences(style_rules@.take(j + 1 as int), rule@) == occ_pre + 1);
                    assert(occurrences(style_rules@, rule@) > 0);
                }
                let ghost kf_pre = kf@;
                extend_with(&mut kf, akf);
                let ghost g_pre = grps@;
                extend_with(&mut grps, agrps);
                proof {
                    lemma_views_concat(kf_pre, akf@);
                    lemma_views_concat(g_pre, agrps@);
                    assert(occurrences(style_rules@.take(j + 1 as int), rule@) == occ_pre + 1);
                    assert(rep_concat(views_of_strings(akf@), occ_pre + 1) == rep_concat(
                        views_of_strings(akf@),
                        occ_pre,
                    ) + views_of_strings(akf@));
                    assert(views_of_strings(kf@) =~= kf_concat(atoms@.take(t as int), rule@)
                        + rep_concat(
                        views_of_strings(akf@),
                        occurrences(style_rules@.take(j + 1 as int), rule@),
                    ));
                    assert(views_of_strings(grps@) =~= group_concat(atoms@.take(t as int), rule@)
                        + rep_concat(
                        views_of_strings(agrps@),
                        occurrences(style_rules@.take(j + 1 as int), rule@),
                    ));
                }
                // merge this atom's value table
                match atom {
                    Atom::Color(c) => {
                        let ghost mid_cv = css_variables@;
                        let vals = values_from_color_options(
                            rule,
                            &c.colors,
                            colors,
                            palette,
                            css_variables,
                        );
                        proof {
                            assert(atom_value_names(atoms@[t as int], palette@, colors@)
                                == key_views(vals@));
                            assert forall|w: int| 0 <= w < vals@.len() implies atom_value_agrees(
                                atoms@[t as int],
                                palette@,
                                colors@,
                                rule@,
                                (#[trigger] vals@[w]).0@,
                                vals@[w].1,
                            ) by {}
                            assert forall|i: int| 0 <= i < css_variables@.len() implies
                            css_var_entry_ok(
                                atoms@,
                                palette@,
                                colors@,
                                old(css_variables)@,
                                i,
                                (#[trigger] css_variables@[i]),
                            ) by {
                                if i < mid_cv.len() && css_variables@[i] == mid_cv[i] {
                                    assert(css_var_entry_ok(
                                        atoms@,
                                        palette@,
                                        colors@,
                                        old(css_variables)@,
                                        i,
                                        mid_cv[i],
                                    ));
                                } else {
                                    let cc = choose|cc: int|
                                        0 <= cc < colors@.len() && css_variables@[i].0@
                                            == color_var_name(
                                            rule@,
                                            (#[trigger] colors@[cc]).0@,
                                        ) && user::populated_color_from(
                                            colors@[cc].1,
                                            palette@,
                                            c.colors.opacity@,
                                            css_variables@[i].1,
                                        );
                                    assert(atoms@[t as int] matches Atom::Color(ca)
                                        && atom_targets(atoms@[t as int], rule@)
                                        && css_variables@[i].0@ == color_var_name(
                                        rule@,
                                        colors@[cc].0@,
                                    ) && user::populated_color_from(
                                        colors@[cc].1,
                                        palette@,
                                        ca.colors.opacity@,
                                        css_variables@[i].1,
                                    ));
                                }
                            }
                        }
                        merge_value_entries(&mut values, &vals, Ghost(atoms@), Ghost(t as int), Ghost(palette@), Ghost(colors@), Ghost(rule@), Ghost(occ_pre));
                    },
                    Atom::Value(av) => {
                        proof {
                            assert(atom_values_wf(atoms@[t as int]));
                            assert forall|w: int| 0 <= w < av.values@.len() implies
                            atom_value_agrees(
                                atoms@[t as int],
                                palette@,
                                colors@,
                                rule@,
                                (#[trigger] av.values@[w]).0@,
                                av.values@[w].1,
                            ) by {
                                lemma_find_key(av.values@, av.values@[w].0@);
                                match find_key(av.values@, av.values@[w].0@) {
                                    Some(f) => {
                                        if f != w {
                                            assert(av.values@[f].0@ == av.values@[w].0@);
                                        }
                                        assert(f == w);
                                    },
                                    None => {
                                        assert(av.values@[w].0@ != av.values@[w].0@);
                                    },
                                }
                            }
                        }
                        merge_value_entries(&mut values, &av.values, Ghost(atoms@), Ghost(t as int), Ghost(palette@), Ghost(colors@), Ghost(rule@), Ghost(occ_pre));
                    },
                }
            } else {
                proof {
                    assert(occurrences(style_rules@.take(j + 1 as int), rule@) == occurrences(
                        style_rules@.take(j as int),
                        rule@,
                    ));
                }
            }
            j = j + 1;
        }
        proof {
            let full = atoms@.take(t + 1 as int);
            assert(full.drop_last() =~= atoms@.take(t as int));
            assert(full.last() == atoms@[t as int]);
            assert(style_rules@.take(style_rules@.len() as int) =~= style_rules@);
        }
        t = t + 1;
    }
    proof {
        assert(atoms@.take(atoms@.len() as int) =~= atoms@);
        lemma_dedup_seqs_props(value_names_concat(atoms@, palette@, colors@, rule@));
        assert forall|a: int, b: int| 0 <= a < b < values@.len() implies (
        #[trigger] values@[a]).0@ != (#[trigger] values@[b]).0@ by {
            assert(key_views(values@)[a] == values@[a].0@);
            assert(key_views(values@)[b] == values@[b].0@);
        }
    }
    AtomMeta { keyframes: kf, groups: grps, values }
}

/// Merge one atom's value table into the rule's accumulated values: each
/// entry is inserted in order, overriding an earlier entry of the same
/// name.
#[verifier::loop_isolation(false)]
fn merge_value_entries(
    values: &mut OrderedMap<AtomCssValue>,
    vals: &OrderedMap<AtomCssValue>,
    Ghost(atoms): Ghost<Seq<Atom>>,
    Ghost(t): Ghost<int>,
    Ghost(palette): Ghost<Seq<(String, String)>>,
    Ghost(colors): Ghost<Seq<(String, CssVariable)>>,
    Ghost(rule): Ghost<Seq<char>>,
    Ghost(occ_pre): Ghost<int>,
)
    requires
        0 <= t < atoms.len(),
        occ_pre >= 0,
        occurrences(atom_rules(atoms[t]), rule) > 0,
        key_views(vals@) == atom_value_names(atoms[t], palette, colors),
        vals.wf(),
        forall|w: int|
            0 <= w < vals@.len() ==> atom_value_agrees(
                atoms[t],
                palette,
                colors,
                rule,
                (#[trigger] vals@[w]).0@,
                vals@[w].1,
            ),
        key_views(old(values)@) == dedup_seqs(
            value_names_concat(atoms.take(t), palette, colors, rule) + rep_concat(
                atom_value_names(atoms[t], palette, colors),
                occ_pre,
            ),
        ),
        forall|w: int|
            0 <= w < old(values)@.len() ==> merged_value_ok(
                atoms.take(t + 1),
                palette,
                colors,
                rule,
                (#[trigger] old(values)@[w]).0@,
                old(values)@[w].1,
            ),
    ensures
        key_views(final(values)@) == dedup_seqs(
            value_names_concat(atoms.take(t), palette, colors, rule) + rep_concat(
                atom_value_names(atoms[t], palette, colors),
                occ_pre + 1,
            ),
        ),
        forall|w: int|
            0 <= w < final(values)@.len() ==> merged_value_ok(
                atoms.take(t + 1),
                palette,
                colors,
                rule,
                (#[trigger] final(values)@[w]).0@,
                final(values)@[w].1,
            ),
{
    let ghost base = value_names_concat(atoms.take(t), palette, colors, rule) + rep_concat(
        atom_value_names(atoms[t], palette, colors),
        occ_pre,
    );
    let mut k: usize = 0;
    proof {
        assert(base + key_views(vals@).take(0int) =~= base);
    }
    while k < vals.len()
        invariant
            0 <= k <= vals@.len(),
            key_views(values@) == dedup_seqs(base + key_views(vals@).take(k as int)),
            forall|w: int|
                0 <= w < values@.len() ==> merged_value_ok(
                    atoms.take(t + 1),
                    palette,
                    colors,
                    rule,
                    (#[trigger] values@[w]).0@,
                    values@[w].1,
                ),
        decreases vals@.len() - k,
    {
        let ghost pre = values@;
        let ghost named = base + key_views(vals@).take(k as int);
        let key = vals.key_at(k).clone();
        let v = vals.value_at(k).dup();
        values.insert(key, v);
        proof {
            crate::ordered_map::lemma_insert_dedup_step(pre, values@, named, key, v);
            assert(named.push(vals@[k as int].0@) =~= base + key_views(vals@).take(k + 1 as int));
            assert forall|w: int| 0 <= w < values@.len() implies merged_value_ok(
                atoms.take(t + 1),
                palette,
                colors,
                rule,
                (#[trigger] values@[w]).0@,
                values@[w].1,
            ) by {
                if values@[w].0@ == key@ && values@[w].1 == v {
                    assert(atom_value_agrees(
                        atoms[t],
                        palette,
                        colors,
                        rule,
                        vals@[k as int].0@,
                        vals@[k as int].1,
                    ));
                    assert(agrees_dup(atoms[t], palette, colors, rule, vals@[k as int].0@, vals@[k as int].1, v));
                    assert(atoms.take(t + 1)[t] == atoms[t]);
                    assert(merged_value_ok(atoms.take(t + 1), palette, colors, rule, values@[w].0@, values@[w].1));
                }
            }
        }
        k = k + 1;
    }
    proof {
        assert(key_views(vals@).take(vals@.len() as int) =~= key_views(vals@));
        assert(rep_concat(atom_value_names(atoms[t], palette, colors), occ_pre + 1) == rep_concat(
            atom_value_names(atoms[t], palette, colors),
            occ_pre,
        ) + atom_value_names(atoms[t], palette, colors));
        assert(base + key_views(vals@) =~= value_names_concat(atoms.take(t), palette, colors, rule)
            + rep_concat(atom_value_names(atoms[t], palette, colors), occ_pre + 1));
    }
}

/// A value that agrees with a contribution still agrees after copying.
pub open spec fn agrees_dup(
    a: Atom,
    palette: Seq<(String, String)>,
    colors: Seq<(String, CssVariable)>,
    rule: Seq<char>,
    name: Seq<char>,
    orig: AtomCssValue,
    copy: AtomCssValue,
) -> bool {
    atom_value_agrees(a, palette, colors, rule, name, orig) && orig.view_agrees(copy)
        ==> atom_value_agrees(a, palette, colors, rule, name, copy)
}

/// Derive the atom metadata table and register the colors' CSS variables.
#[verifier::loop_isolation(false)]
fn transform_atoms(user: &UserConfig, css_variables: &mut OrderedMap<PopulatedCssVariable>) -> (r:
    OrderedMap<AtomMeta>)
    requires
        user.wf(),
        old(css_variables).wf(),
    ensures
        r.wf(),
        key_views(r@) == dedup_seqs(rule_names_flat(user.atoms@)),
        forall|i: int|
            0 <= i < r@.len() ==> atom_meta_ok(
                user.atoms@,
                user.palette@,
                user.colors@,
                (#[trigger] r@[i]).0@,
                r@[i].1,
            ),
        final(css_variables).wf(),
        forall|i: int|
            0 <= i < final(css_variables)@.len() ==> css_var_entry_ok(
                user.atoms@,
                user.palette@,
                user.colors@,
                old(css_variables)@,
                i,
                (#[trigger] final(css_variables)@[i]),
            ),
{
    let atoms = &user.atoms;
    // First pass: the distinct style-rule names in order of first
    // appearance.
    let mut rule_list: Vec<String> = Vec::new();
    let mut t: usize = 0;
    while t < atoms.len()
        invariant
            0 <= t <= atoms@.len(),
            views_of_strings(rule_list@) == dedup_seqs(rule_names_flat(atoms@.take(t as int))),
        decreases atoms@.len() - t,
    {
        let style_rules: &Vec<String> = match &atoms[t] {
            Atom::Color(c) => &c.style_rules,
            Atom::Value(v) => &v.style_rules,
        };
        let mut j: usize = 0;
        proof {
            assert(style_rules@ == atom_rules(atoms@[t as int]));
            assert(rule_names_flat(atoms@.take(t as int)) + views_of_strings(style_rules@).take(
                0int,
            ) =~= rule_names_flat(atoms@.take(t as int)));
        }
        while j < style_rules.len()
            invariant
                0 <= j <= style_rules@.len(),
                style_rules@ == atom_rules(atoms@[t as int]),
                0 <= t < atoms@.len(),
                views_of_strings(rule_list@) == dedup_seqs(
                    rule_names_flat(atoms@.take(t as int)) + views_of_strings(
                        style_rules@,
                    ).take(j as int),
                ),
            decreases style_rules@.len() - j,
        {
            let ghost named = rule_names_flat(atoms@.take(t as int)) + views_of_strings(
                style_rules@,
            ).take(j as int);
            let present = crate::utils::contains_string(&rule_list, style_rules[j].as_str());
            let ghost pre = rule_list@;
            if !present {
                rule_list.push(style_rules[j].clone());
            }
            proof {
                lemma_views_push(pre, style_rules@[j as int]);
                assert(named.push(style_rules@[j as int]@) =~= rule_names_flat(
                    atoms@.take(t as int),
                ) + views_of_strings(style_rules@).take(j + 1 as int));
                assert(named.push(style_rules@[j as int]@).drop_last() =~= named);
                if !present {
                    assert(views_of_strings(rule_list@) =~= views_of_strings(pre).push(
                        style_rules@[j as int]@,
                    ));
                }
            }
            j = j + 1;
        }
        proof {
            let full = atoms@.take(t + 1 as int);
            assert(full.drop_last() =~= atoms@.take(t as int));
            assert(full.last() == atoms@[t as int]);
            assert(views_of_strings(style_rules@).take(style_rules@.len() as int)
                =~= views_of_strings(style_rules@));
        }
        t = t + 1;
    }
    proof {
        assert(atoms@.take(atoms@.len() as int) =~= atoms@);
        lemma_dedup_seqs_props(rule_names_flat(atoms@));
    }
    // Second pass: derive each rule's metadata.
    let mut out: OrderedMap<AtomMeta> = OrderedMap::new();
    let mut k: usize = 0;
    while k < rule_list.len()
        invariant
            0 <= k <= rule_list@.len(),
            views_of_strings(rule_list@) == dedup_seqs(rule_names_flat(atoms@)),
            key_views(out@) == views_of_strings(rule_list@).take(k as int),
            forall|i: int|
                0 <= i < out@.len() ==> atom_meta_ok(
                    user.atoms@,
                    user.palette@,
                    user.colors@,
                    (#[trigger] out@[i]).0@,
                    out@[i].1,
                ),
            css_variables.wf(),
            forall|i: int|
                0 <= i < css_variables@.len() ==> css_var_entry_ok(
                    user.atoms@,
                    user.palette@,
                    user.colors@,
                    old(css_variables)@,
                    i,
                    (#[trigger] css_variables@[i]),
                ),
        decreases rule_list@.len() - k,
    {
        let ghost mid_cv = css_variables@;
        let meta = derive_atom_meta(
            atoms,
            &user.palette,
            &user.colors,
            rule_list[k].as_str(),
            css_variables,
        );
        proof {
            assert forall|i: int| 0 <= i < css_variables@.len() implies css_var_entry_ok(
                user.atoms@,
                user.palette@,
                user.colors@,
                old(css_variables)@,
                i,
                (#[trigger] css_variables@[i]),
            ) by {
                if i < mid_cv.len() && css_variables@[i] == mid_cv[i] {
                    assert(css_var_entry_ok(
                        user.atoms@,
                        user.palette@,
                        user.colors@,
                        old(css_variables)@,
                        i,
                        mid_cv[i],
                    ));
                }
            }
        }
        let ghost pre = out@;
        out.push_entry(rule_list[k].clone(), meta);
        proof {
            crate::ordered_map::lemma_key_views_push(pre, out@.last());
            assert(key_views(out@) =~= views_of_strings(rule_list@).take(k + 1 as int));
        }
        k = k + 1;
    }
    proof {
        assert(views_of_strings(rule_list@).take(rule_list@.len() as int) =~= views_of_strings(
            rule_list@,
        ));
        lemma_dedup_seqs_props(rule_names_flat(atoms@));
        assert forall|a: int, b: int| 0 <= a < b < out@.len() implies (#[trigger] out@[a]).0@ != (
        #[trigger] out@[b]).0@ by {
            assert(key_views(out@)[a] == out@[a].0@);
            assert(key_views(out@)[b] == out@[b].0@);
        }
    }
    out
}

/// Whether a derived variable entry of the finished configuration is
/// accounted for: the populated form of the authored variable at the same
/// position, or a color atom's derived variable.
pub open spec fn config_css_var_ok(
    user: UserConfig,
    i: int,
    e: (String, PopulatedCssVariable),
) -> bool {
    ||| (i < user.variables@.len() && e.0@ == (#[trigger] user.variables@[i]).0@
        && populated_from(user.variables@[i].1, user.breakpoints@, e.1))
    ||| exists|t: int, c: int, rule: Seq<char>|
        0 <= t < user.atoms@.len() && 0 <= c < user.colors@.len() && ((
        #[trigger] user.atoms@[t]) matches Atom::Color(ca) && #[trigger] atom_targets(
            user.atoms@[t],
            rule,
        ) && e.0@ == color_var_name(rule, (#[trigger] user.colors@[c]).0@)
            && user::populated_color_from(user.colors@[c].1, user.palette@, ca.colors.opacity@, e.1))
}

impl Config {
    /// Derive the full configuration from a decoded user configuration:
    /// flatten the modifier layers, populate the CSS variables and build
    /// the atom metadata.
    pub fn from_user(user: UserConfig) -> (r: Config)
        requires
            user.wf(),
        ensures
            r.user == user,
            views_of_strings(r.modifiers@) == flat_modifier_names(user.modifiers@),
            modifiers_map_from(r.modifiers_map@, user.modifiers@),
            r.modifiers_map.wf(),
            r.atoms.wf(),
            key_views(r.atoms@) == dedup_seqs(rule_names_flat(user.atoms@)),
            forall|i: int|
                0 <= i < r.atoms@.len() ==> atom_meta_ok(
                    user.atoms@,
                    user.palette@,
                    user.colors@,
                    (#[trigger] r.atoms@[i]).0@,
                    r.atoms@[i].1,
                ),
            r.css_variables.wf(),
            forall|i: int|
                0 <= i < r.css_variables@.len() ==> config_css_var_ok(
                    user,
                    i,
                    (#[trigger] r.css_variables@[i]),
                ),
    {
        let modifiers = flatten_modifier_names(&user.modifiers);
        let modifiers_map = build_modifiers_map(&user.modifiers);
        // Populate the authored variables first, in authoring order.
        let mut css_variables: OrderedMap<PopulatedCssVariable> = OrderedMap::new();
        let mut i: usize = 0;
        while i < user.variables.len()
            invariant
                0 <= i <= user.variables@.len(),
                user.variables.wf(),
                css_variables@.len() == i,
                forall|w: int|
                    0 <= w < i ==> ((#[trigger] css_variables@[w]).0@ == user.variables@[w].0@
                        && populated_from(
                        user.variables@[w].1,
                        user.breakpoints@,
                        css_variables@[w].1,
                    )),
            decreases user.variables@.len() - i,
        {
            let populated = user.variables.value_at(i).populate(&user);
            css_variables.push_entry(user.variables.key_at(i).clone(), populated);
            i = i + 1;
        }
        proof {
            assert forall|a: int, b: int| 0 <= a < b < css_variables@.len() implies (
            #[trigger] css_variables@[a]).0@ != (#[trigger] css_variables@[b]).0@ by {
                assert(css_variables@[a].0@ == user.variables@[a].0@);
                assert(css_variables@[b].0@ == user.variables@[b].0@);
            }
        }
        let ghost vars0 = css_variables@;
        let atoms = transform_atoms(&user, &mut css_variables);
        proof {
            assert forall|w: int| 0 <= w < css_variables@.len() implies config_css_var_ok(
                user,
                w,
                (#[trigger] css_variables@[w]),
            ) by {
                assert(css_var_entry_ok(
                    user.atoms@,
                    user.palette@,
                    user.colors@,
                    vars0,
                    w,
                    css_variables@[w],
                ));
            }
        }
        Config { user, modifiers_map, modifiers, atoms, css_variables }
    }
}

} // verus!
