//! The stylesheet renderer: it takes the resolved, sorted class names and
//! the configuration, groups them by breakpoint and media query, injects
//! the CSS variables they reference, and emits one CSS document.

use vstd::prelude::*;

use crate::config::user::CssValue;
use crate::config::Config;
use crate::ordered_map::{find_key, OrderedMap};
use crate::scanner::class_name::{class_mentions, ClassModel, ClassName};
use crate::utils::{
    indent, join_strings, no_dup_views, sep_join, spec_indent, views_of_strings,
};
use crate::INDENTATION;

verus! {

/// The models of a sequence of class-name references.
pub open spec fn ref_models<'a, 'c>(s: Seq<&'a ClassName<'c>>) -> Seq<ClassModel> {
    s.map_values(|c: &ClassName<'c>| c.model())
}

/// One breakpoint block: the content wrapped in its `@media (min-width:)`
/// rule, or bare for the default bucket.
pub open spec fn spec_breakpoint_block(
    css_list: Seq<Seq<char>>,
    named: Option<Seq<char>>,
    min_width: Seq<char>,
) -> Seq<char> {
    let inner = sep_join(css_list, "\n\n"@);
    match named {
        Some(_) => "@media (min-width: "@ + min_width + ") {\n"@ + spec_indent(
            inner,
            INDENTATION as int,
        ) + "\n}"@,
        None => inner,
    }
}

/// Wrap a breakpoint bucket's pieces; the default bucket stays bare.
pub fn get_css_from_breakpoints(
    css_list: &Vec<String>,
    named_breakpoint: &Option<String>,
    css_value: &CssValue,
) -> (r: String)
    ensures
        r@ == spec_breakpoint_block(
            views_of_strings(css_list@),
            crate::scanner::class_name::opt_view(*named_breakpoint),
            css_value.spec_get_string(),
        ),
{
    let inner_styles = join_strings(css_list, "\n\n");
    match named_breakpoint {
        Some(_) => {
            let min_width = css_value.get_string();
            let mut out = String::from_str("@media (min-width: ");
            out.append(min_width.as_str());
            out.append(") {\n");
            let indented = indent(inner_styles.as_str(), INDENTATION);
            out.append(indented.as_str());
            out.append("\n}");
            proof {
                assert(out@ =~= spec_breakpoint_block(
                    views_of_strings(css_list@),
                    crate::scanner::class_name::opt_view(*named_breakpoint),
                    css_value.spec_get_string(),
                ));
            }
            out
        },
        None => inner_styles,
    }
}

/// One media-query block.
pub open spec fn spec_media_query_block(css_list: Seq<Seq<char>>, query: Seq<char>) -> Seq<char> {
    "@media "@ + query + " {\n"@ + spec_indent(sep_join(css_list, "\n\n"@), INDENTATION as int)
        + "\n}"@
}

/// Wrap a media-query bucket in its `@media` rule.
pub fn get_css_from_media_query(css_list: &Vec<String>, media_query: &str) -> (r: String)
    ensures
        r@ == spec_media_query_block(views_of_strings(css_list@), media_query@),
{
    let inner_styles = join_strings(css_list, "\n\n");
    let mut out = String::from_str("@media ");
    out.append(media_query);
    out.append(" {\n");
    let indented = indent(inner_styles.as_str(), INDENTATION);
    out.append(indented.as_str());
    out.append("\n}");
    proof {
        assert(out@ =~= spec_media_query_block(views_of_strings(css_list@), media_query@));
    }
    out
}

/// The declaration blocks of a selector-to-lines container.
pub open spec fn spec_container_blocks(container: Seq<(String, Vec<String>)>) -> Seq<Seq<char>> {
    container.map_values(
        |e: (String, Vec<String>)| e.0@ + " {\n"@ + spec_indent(
            sep_join(views_of_strings(e.1@), "\n"@),
            INDENTATION as int,
        ) + "\n}"@,
    )
}

/// The rendered declarations of the container, one block per selector.
pub open spec fn spec_variable_declarations(container: Seq<(String, Vec<String>)>) -> Seq<char> {
    sep_join(spec_container_blocks(container), "\n\n"@)
}

/// Render each selector's variable lines as its own block.
pub fn get_css_variable_declarations(container: &OrderedMap<Vec<String>>) -> (r: String)
    ensures
        r@ == spec_variable_declarations(container@),
{
    let mut blocks: Vec<String> = Vec::new();
    let ghost views = spec_container_blocks(container@);
    let mut i: usize = 0;
    while i < container.len()
        invariant
            0 <= i <= container@.len(),
            views == spec_container_blocks(container@),
            views_of_strings(blocks@) == views.take(i as int),
        decreases container@.len() - i,
    {
        let body = join_strings(container.value_at(i), "\n");
        let indented = indent(body.as_str(), INDENTATION);
        let mut block = container.key_at(i).clone();
        block.append(" {\n");
        block.append(indented.as_str());
        block.append("\n}");
        let ghost pre = blocks@;
        blocks.push(block);
        proof {
            crate::utils::lemma_views_push(pre, blocks@.last());
            assert(views_of_strings(blocks@) =~= views.take(i + 1 as int));
        }
        i = i + 1;
    }
    proof {
        assert(views.take(container@.len() as int) =~= views);
    }
    join_strings(&blocks, "\n\n")
}

/// Whether the definition of variable `y` mentions the custom property
/// `x`.
pub open spec fn mention_edge(cfg: Config, y: Seq<char>, x: Seq<char>) -> bool {
    match find_key(cfg.user.variables@, y) {
        Some(i) => crate::config::user::css_variable_mentions(
            cfg.user.variables@[i].1,
            cfg.user.breakpoints@,
            x,
        ),
        None => false,
    }
}

/// Every entry of the list is justified: it is a root, or some earlier
/// entry's variable definition mentions it. A list of this shape holds
/// only names transitively referenced from the roots.
pub open spec fn closure_justified(cfg: Config, roots: Seq<Seq<char>>, out: Seq<String>) -> bool {
    forall|k: int|
        0 <= k < out.len() ==> (roots.contains((#[trigger] out[k])@) || exists|w: int|
            0 <= w < k && mention_edge(cfg, out[w]@, out[k]@))
}

/// Compute the distinct variables transitively referenced from the given
/// roots. Each pass looks every known name up once and adds the names its
/// definition mentions; the passes are bounded by the number of
/// configured variables, so the computation terminates even when
/// variables reference one another in a cycle, and the result holds each
/// name at most once.
#[verifier::loop_isolation(false)]
#[verifier::rlimit(100)]
pub fn get_nested_css_variables(cfg: &Config, roots: &Vec<String>) -> (r: Vec<String>)
    requires
        no_dup_views(roots@),
    ensures
        no_dup_views(r@),
        r@.len() >= roots@.len(),
        forall|k: int| 0 <= k < roots@.len() ==> #[trigger] r@[k] == roots@[k],
        closure_justified(*cfg, views_of_strings(roots@), r@),
{
    let mut out: Vec<String> = Vec::new();
    let mut i: usize = 0;
    while i < roots.len()
        invariant
            0 <= i <= roots@.len(),
            out@ == roots@.take(i as int),
        decreases roots@.len() - i,
    {
        out.push(roots[i].clone());
        proof {
            assert(out@ =~= roots@.take(i + 1 as int));
        }
        i = i + 1;
    }
    proof {
        assert(roots@.take(roots@.len() as int) =~= roots@);
        assert(out@ == roots@);
        assert forall|k: int| 0 <= k < out@.len() implies (views_of_strings(roots@).contains(
            (#[trigger] out@[k])@,
        ) || exists|w: int| 0 <= w < k && mention_edge(*cfg, out@[w]@, out@[k]@)) by {
            assert(views_of_strings(roots@)[k] == out@[k]@);
            assert(views_of_strings(roots@).contains(out@[k]@));
        }
    }
    let mut round: usize = 0;
    let bound = cfg.user.variables.len();
    while round < bound
        invariant
            no_dup_views(out@),
            out@.len() >= roots@.len(),
            forall|k: int| 0 <= k < roots@.len() ==> #[trigger] out@[k] == roots@[k],
            closure_justified(*cfg, views_of_strings(roots@), out@),
        decreases bound - round,
    {
        let snapshot = out.len();
        let mut j: usize = 0;
        let mut grew = false;
        while j < snapshot
            invariant
                0 <= j <= snapshot,
                snapshot <= out@.len(),
                no_dup_views(out@),
                out@.len() >= roots@.len(),
                forall|k: int| 0 <= k < roots@.len() ==> #[trigger] out@[k] == roots@[k],
                grew == (out@.len() > snapshot),
                closure_justified(*cfg, views_of_strings(roots@), out@),
            decreases snapshot - j,
        {
            let name = out[j].clone();
            proof {
                assert(name@ == out@[j as int]@);
            }
            match cfg.user.variables.get_full(name.as_str()) {
                Some((_, variable)) => {
                    let mentioned = variable.get_css_variables_names(&cfg.user);
                    let ghost pre = out@;
                    crate::utils::extend_unique(&mut out, &mentioned);
                    if out.len() > snapshot {
                        grew = true;
                    }
                    proof {
                        assert forall|k: int| 0 <= k < out@.len() implies (views_of_strings(
                            roots@,
                        ).contains((#[trigger] out@[k])@) || exists|w: int|
                            0 <= w < k && mention_edge(*cfg, out@[w]@, out@[k]@)) by {
                            if k < pre.len() {
                                assert(out@[k] == pre[k]);
                                if !views_of_strings(roots@).contains(out@[k]@) {
                                    let w = choose|w: int|
                                        0 <= w < k && mention_edge(*cfg, pre[w]@, pre[k]@);
                                    assert(out@[w] == pre[w]);
                                    assert(mention_edge(*cfg, out@[w]@, out@[k]@));
                                }
                            } else {
                                assert(views_of_strings(out@)[k] == out@[k]@);
                                assert(views_of_strings(out@).contains(out@[k]@));
                                if views_of_strings(pre).contains(out@[k]@) {
                                    let w = choose|w: int|
                                        0 <= w < pre.len() && views_of_strings(pre)[w]
                                            == out@[k]@;
                                    assert(pre[w]@ == out@[k]@);
                                    assert(out@[w] == pre[w]);
                                    if !views_of_strings(roots@).contains(out@[k]@) {
                                        let v = choose|v: int|
                                            0 <= v < w && mention_edge(*cfg, pre[v]@, pre[w]@);
                                        assert(out@[v] == pre[v]);
                                        assert(mention_edge(*cfg, out@[v]@, out@[k]@));
                                    }
                                } else {
                                    assert(views_of_strings(mentioned@).contains(out@[k]@));
                                    assert(mention_edge(*cfg, pre[j as int]@, out@[k]@));
                                    assert(out@[j as int] == pre[j as int]);
                                }
                            }
                        }
                    }
                },
                None => {},
            }
            j = j + 1;
        }
        if !grew {
            return out;
        }
        round = round + 1;
    }
    out
}

/// One rendered variable line inside a selector block.
pub open spec fn var_line(name: Seq<char>, value: CssValue) -> Seq<char> {
    name + ": "@ + value.spec_get_string() + ";"@
}

/// Whether a line of a selector's block is justified by a used variable
/// that declares that selector.
pub open spec fn line_justified(
    cfg: Config,
    used: Seq<Seq<char>>,
    sel: Seq<char>,
    line: Seq<char>,
) -> bool {
    exists|v: int|
        0 <= v < cfg.css_variables@.len() && used.contains((#[trigger] cfg.css_variables@[v]).0@)
            && (exists|s: int|
            0 <= s < cfg.css_variables@[v].1.selectors@.len() && (
            #[trigger] cfg.css_variables@[v].1.selectors@[s]).0@ == sel && line == var_line(
                cfg.css_variables@[v].0@,
                cfg.css_variables@[v].1.selectors@[s].1,
            ))
}

/// Every line of every selector block is justified.
pub open spec fn container_justified(
    cfg: Config,
    used: Seq<Seq<char>>,
    container: Seq<(String, Vec<String>)>,
) -> bool {
    forall|e: int, l: int|
        0 <= e < container.len() && 0 <= l < (#[trigger] container[e]).1@.len() ==> line_justified(
            cfg,
            used,
            container[e].0@,
            (#[trigger] container[e].1@[l])@,
        )
}

/// How one entry and line of the container relate to the state before a
/// line was pushed: either unchanged, or the newly pushed line.
pub open spec fn push_line_entry_ok(
    pre: Seq<(String, Vec<String>)>,
    post: Seq<(String, Vec<String>)>,
    sel: Seq<char>,
    nm: Seq<char>,
    value: CssValue,
    e: int,
    l: int,
) -> bool {
    ||| (e < pre.len() && l < pre[e].1@.len() && post[e].0 == pre[e].0 && post[e].1@[l]
        == pre[e].1@[l])
    ||| (post[e].0@ == sel && post[e].1@[l]@ == var_line(nm, value))
}

/// Whether one position of a variable's nested table carries the given
/// scope, selector and rendered line.
pub open spec fn table_line_match(
    table: Option<OrderedMap<OrderedMap<CssValue>>>,
    nm: Seq<char>,
    t: int,
    s: int,
    scope: Seq<char>,
    sel: Seq<char>,
    line: Seq<char>,
) -> bool {
    &&& table is Some
    &&& 0 <= t < table->Some_0@.len()
    &&& table->Some_0@[t].0@ == scope
    &&& 0 <= s < table->Some_0@[t].1@.len()
    &&& table->Some_0@[t].1@[s].0@ == sel
    &&& line == var_line(nm, table->Some_0@[t].1@[s].1)
}

/// Whether a line of a scoped selector block is justified by a used
/// variable that declares that scope and selector; `for_breakpoints`
/// chooses which of the variable's nested tables the scope comes from.
pub open spec fn scoped_line_justified(
    cfg: Config,
    used: Seq<Seq<char>>,
    for_breakpoints: bool,
    scope: Seq<char>,
    sel: Seq<char>,
    line: Seq<char>,
) -> bool {
    if for_breakpoints {
        exists|v: int, t: int, s: int|
            0 <= v < cfg.css_variables@.len() && used.contains(cfg.css_variables@[v].0@)
                && #[trigger] table_line_match(
                cfg.css_variables@[v].1.breakpoints,
                cfg.css_variables@[v].0@,
                t,
                s,
                scope,
                sel,
                line,
            )
    } else {
        exists|v: int, t: int, s: int|
            0 <= v < cfg.css_variables@.len() && used.contains(cfg.css_variables@[v].0@)
                && #[trigger] table_line_match(
                cfg.css_variables@[v].1.media_queries,
                cfg.css_variables@[v].0@,
                t,
                s,
                scope,
                sel,
                line,
            )
    }
}

/// Every line of every scope's selector block is justified.
pub open spec fn nested_container_justified(
    cfg: Config,
    used: Seq<Seq<char>>,
    for_breakpoints: bool,
    container: Seq<(String, OrderedMap<Vec<String>>)>,
) -> bool {
    forall|e: int, i: int, l: int|
        0 <= e < container.len() && 0 <= i < (#[trigger] container[e]).1@.len() && 0 <= l < (
        #[trigger] container[e].1@[i]).1@.len() ==> scoped_line_justified(
            cfg,
            used,
            for_breakpoints,
            container[e].0@,
            container[e].1@[i].0@,
            (#[trigger] container[e].1@[i].1@[l])@,
        )
}

/// Add `name: value;` to the block of `selector`.
#[verifier::loop_isolation(false)]
fn push_variable_line(
    container: &mut OrderedMap<Vec<String>>,
    selector: &String,
    name: &String,
    value: &CssValue,
)
    ensures
        final(container)@.len() >= old(container)@.len(),
        forall|e: int, l: int|
            0 <= e < final(container)@.len() && 0 <= l < final(container)@[e].1@.len()
                ==> #[trigger] push_line_entry_ok(
                old(container)@,
                final(container)@,
                selector@,
                name@,
                *value,
                e,
                l,
            ),
{
    let mut line = name.clone();
    line.append(": ");
    let vs = value.get_string();
    line.append(vs.as_str());
    line.append(";");
    proof {
        assert(line@ =~= var_line(name@, *value));
    }
    let ghost pre = container@;
    match container.get_full(selector.as_str()) {
        Some((idx, existing)) => {
            let mut lines = crate::config::user::dup_string_vec(existing);
            lines.push(line);
            container.insert(selector.clone(), lines);
            proof {
                crate::ordered_map::lemma_find_key(pre, selector@);
            }
        },
        None => {
            let mut lines: Vec<String> = Vec::new();
            lines.push(line);
            container.insert(selector.clone(), lines);
            proof {
                crate::ordered_map::lemma_find_key(pre, selector@);
            }
        },
    }
}

/// Whether a selector/line pair comes from some entry of the scoped
/// selector table, rendered under the given variable name.
pub open spec fn scoped_entry_ok(
    selmap: Seq<(String, CssValue)>,
    nm: Seq<char>,
    sel: Seq<char>,
    line: Seq<char>,
) -> bool {
    exists|s: int|
        0 <= s < selmap.len() && sel == (#[trigger] selmap[s]).0@ && line == var_line(
            nm,
            selmap[s].1,
        )
}

/// Build one scope's selector container from a variable's scoped selector
/// table: every line carries that variable's name and one of the table's
/// values, under that value's selector.
#[verifier::loop_isolation(false)]
fn build_scoped_container(name: &String, selmap: &OrderedMap<CssValue>) -> (r: OrderedMap<
    Vec<String>,
>)
    ensures
        forall|i: int, l: int|
            0 <= i < r@.len() && 0 <= l < r@[i].1@.len() ==> #[trigger] scoped_entry_ok(
                selmap@,
                name@,
                r@[i].0@,
                r@[i].1@[l]@,
            ),
{
    let mut inner: OrderedMap<Vec<String>> = OrderedMap::new();
    let mut s2: usize = 0;
    while s2 < selmap.len()
        invariant
            0 <= s2 <= selmap@.len(),
            forall|i: int, l: int|
                0 <= i < inner@.len() && 0 <= l < inner@[i].1@.len() ==> #[trigger] scoped_entry_ok(
                    selmap@,
                    name@,
                    inner@[i].0@,
                    inner@[i].1@[l]@,
                ),
        decreases selmap@.len() - s2,
    {
        let ghost pre = inner@;
        let sel_ref = selmap.key_at(s2);
        let val_ref = selmap.value_at(s2);
        push_variable_line(&mut inner, sel_ref, name, val_ref);
        proof {
            assert forall|i: int, l: int|
                0 <= i < inner@.len() && 0 <= l < inner@[i].1@.len() implies #[trigger]
            scoped_entry_ok(selmap@, name@, inner@[i].0@, inner@[i].1@[l]@) by {
                assert(push_line_entry_ok(pre, inner@, sel_ref@, name@, *val_ref, i, l));
                if i < pre.len() && l < pre[i].1@.len() && inner@[i].0 == pre[i].0
                    && inner@[i].1@[l] == pre[i].1@[l] {
                    assert(scoped_entry_ok(selmap@, name@, pre[i].0@, pre[i].1@[l]@));
                    let s = choose|s: int|
                        0 <= s < selmap@.len() && pre[i].0@ == (#[trigger] selmap@[s]).0@
                            && pre[i].1@[l]@ == var_line(name@, selmap@[s].1);
                    assert(inner@[i].0@ == (selmap@[s]).0@ && inner@[i].1@[l]@ == var_line(
                        name@,
                        selmap@[s].1,
                    ));
                } else {
                    assert(inner@[i].0@ == (selmap@[s2 as int]).0@ && inner@[i].1@[l]@
                        == var_line(name@, selmap@[s2 as int].1));
                }
            }
        }
        s2 = s2 + 1;
    }
    inner
}

/// Bucket the used variables' declarations: flat root-level selectors,
/// breakpoint-scoped tables and media-query-scoped tables.
#[verifier::loop_isolation(false)]
#[verifier::rlimit(100)]
fn create_css_variable_containers(cfg: &Config, used: &Vec<String>) -> (r: (
    OrderedMap<Vec<String>>,
    OrderedMap<OrderedMap<Vec<String>>>,
    OrderedMap<OrderedMap<Vec<String>>>,
))
    ensures
        container_justified(*cfg, views_of_strings(used@), r.0@),
        nested_container_justified(*cfg, views_of_strings(used@), true, r.1@),
        nested_container_justified(*cfg, views_of_strings(used@), false, r.2@),
{
    let mut root: OrderedMap<Vec<String>> = OrderedMap::new();
    let mut bps: OrderedMap<OrderedMap<Vec<String>>> = OrderedMap::new();
    let mut mqs: OrderedMap<OrderedMap<Vec<String>>> = OrderedMap::new();
    let mut v: usize = 0;
    while v < cfg.css_variables.len()
        invariant
            0 <= v <= cfg.css_variables@.len(),
            container_justified(*cfg, views_of_strings(used@), root@),
            nested_container_justified(*cfg, views_of_strings(used@), true, bps@),
            nested_container_justified(*cfg, views_of_strings(used@), false, mqs@),
        decreases cfg.css_variables@.len() - v,
    {
        let name = cfg.css_variables.key_at(v);
        if crate::utils::contains_string(used, name.as_str()) {
            let populated = cfg.css_variables.value_at(v);
            let mut s: usize = 0;
            while s < populated.selectors.len()
                invariant
                    0 <= s <= populated.selectors@.len(),
                    0 <= v < cfg.css_variables@.len(),
                    populated == cfg.css_variables@[v as int].1,
                    name == cfg.css_variables@[v as int].0,
                    views_of_strings(used@).contains(name@),
                    container_justified(*cfg, views_of_strings(used@), root@),
                decreases populated.selectors@.len() - s,
            {
                let ghost pre = root@;
                let sel_ref = populated.selectors.key_at(s);
                let val_ref = populated.selectors.value_at(s);
                push_variable_line(&mut root, sel_ref, name, val_ref);
                proof {
                    assert forall|e: int, l: int|
                        0 <= e < root@.len() && 0 <= l < (#[trigger] root@[e]).1@.len() implies
                    line_justified(
                        *cfg,
                        views_of_strings(used@),
                        root@[e].0@,
                        (#[trigger] root@[e].1@[l])@,
                    ) by {
                        assert(push_line_entry_ok(
                            pre,
                            root@,
                            sel_ref@,
                            name@,
                            *val_ref,
                            e,
                            l,
                        ));
                        if !(e < pre.len() && l < pre[e].1@.len() && root@[e].0 == pre[e].0
                            && root@[e].1@[l] == pre[e].1@[l]) {
                            assert(root@[e].0@ == sel_ref@ && root@[e].1@[l]@ == var_line(
                                name@,
                                *val_ref,
                            ));
                            assert(sel_ref@ == populated.selectors@[s as int].0@);
                            assert(*val_ref == populated.selectors@[s as int].1);
                            assert(views_of_strings(used@).contains(
                                cfg.css_variables@[v as int].0@,
                            ));
                            assert(line_justified(
                                *cfg,
                                views_of_strings(used@),
                                root@[e].0@,
                                root@[e].1@[l]@,
                            )) by {
                                assert(0 <= v < cfg.css_variables@.len()
                                    && views_of_strings(used@).contains(
                                    cfg.css_variables@[v as int].0@,
                                ) && 0 <= s < cfg.css_variables@[v as int].1.selectors@.len() && (
                                cfg.css_variables@[v as int].1.selectors@[s as int]).0@
                                    == root@[e].0@ && root@[e].1@[l]@ == var_line(
                                    cfg.css_variables@[v as int].0@,
                                    cfg.css_variables@[v as int].1.selectors@[s as int].1,
                                ));
                            }
                        } else {
                            assert(line_justified(
                                *cfg,
                                views_of_strings(used@),
                                pre[e].0@,
                                pre[e].1@[l]@,
                            ));
                        }
                    }
                }
                s = s + 1;
            }
            // breakpoint- and media-query-scoped tables: each variable
            // rewrites its scoped selector tables wholesale
            match &populated.breakpoints {
                Some(table) => {
                    let mut t: usize = 0;
                    while t < table.len()
                        invariant
                            0 <= t <= table@.len(),
                            0 <= v < cfg.css_variables@.len(),
                            populated == cfg.css_variables@[v as int].1,
                            name == cfg.css_variables@[v as int].0,
                            views_of_strings(used@).contains(name@),
                            populated.breakpoints == Some(*table),
                            nested_container_justified(
                                *cfg,
                                views_of_strings(used@),
                                true,
                                bps@,
                            ),
                        decreases table@.len() - t,
                    {
                        let selmap = table.value_at(t);
                        let inner = build_scoped_container(name, selmap);
                        let ghost pre = bps@;
                        bps.insert(table.key_at(t).clone(), inner);
                        proof {
                            crate::ordered_map::lemma_find_key(pre, table@[t as int].0@);
                            assert forall|e: int, i: int, l: int|
                                0 <= e < bps@.len() && 0 <= i < (#[trigger] bps@[e]).1@.len() && 0
                                    <= l < (#[trigger] bps@[e].1@[i]).1@.len() implies
                            scoped_line_justified(
                                *cfg,
                                views_of_strings(used@),
                                true,
                                bps@[e].0@,
                                bps@[e].1@[i].0@,
                                (#[trigger] bps@[e].1@[i].1@[l])@,
                            ) by {
                                if e < pre.len() && bps@[e] == pre[e] {
                                } else {
                                    assert(bps@[e].0@ == table@[t as int].0@ && bps@[e].1
                                        == inner);
                                    assert(scoped_entry_ok(
                                        selmap@,
                                        name@,
                                        inner@[i].0@,
                                        inner@[i].1@[l]@,
                                    ));
                                    let s = choose|s: int|
                                        0 <= s < selmap@.len() && inner@[i].0@ == (
                                        #[trigger] selmap@[s]).0@ && inner@[i].1@[l]@ == var_line(
                                            name@,
                                            selmap@[s].1,
                                        );
                                    assert(scoped_line_justified(
                                        *cfg,
                                        views_of_strings(used@),
                                        true,
                                        bps@[e].0@,
                                        bps@[e].1@[i].0@,
                                        bps@[e].1@[i].1@[l]@,
                                    )) by {
                                        assert(table_line_match(
                                            cfg.css_variables@[v as int].1.breakpoints,
                                            cfg.css_variables@[v as int].0@,
                                            t as int,
                                            s,
                                            bps@[e].0@,
                                            bps@[e].1@[i].0@,
                                            bps@[e].1@[i].1@[l]@,
                                        ));
                                    }
                                }
                            }
                        }
                        t = t + 1;
                    }
                },
                None => {},
            }
            match &populated.media_queries {
                Some(table) => {
                    let mut t: usize = 0;
                    while t < table.len()
                        invariant
                            0 <= t <= table@.len(),
                            0 <= v < cfg.css_variables@.len(),
                            populated == cfg.css_variables@[v as int].1,
                            name == cfg.css_variables@[v as int].0,
                            views_of_strings(used@).contains(name@),
                            populated.media_queries == Some(*table),
                            nested_container_justified(
                                *cfg,
                                views_of_strings(used@),
                                false,
                                mqs@,
                            ),
                        decreases table@.len() - t,
                    {
                        let selmap = table.value_at(t);
                        let inner = build_scoped_container(name, selmap);
                        let ghost pre = mqs@;
                        mqs.insert(table.key_at(t).clone(), inner);
                        proof {
                            crate::ordered_map::lemma_find_key(pre, table@[t as int].0@);
                            assert forall|e: int, i: int, l: int|
                                0 <= e < mqs@.len() && 0 <= i < (#[trigger] mqs@[e]).1@.len() && 0
                                    <= l < (#[trigger] mqs@[e].1@[i]).1@.len() implies
                            scoped_line_justified(
                                *cfg,
                                views_of_strings(used@),
                                false,
                                mqs@[e].0@,
                                mqs@[e].1@[i].0@,
                                (#[trigger] mqs@[e].1@[i].1@[l])@,
                            ) by {
                                if e < pre.len() && mqs@[e] == pre[e] {
                                } else {
                                    assert(mqs@[e].0@ == table@[t as int].0@ && mqs@[e].1
                                        == inner);
                                    assert(scoped_entry_ok(
                                        selmap@,
                                        name@,
                                        inner@[i].0@,
                                        inner@[i].1@[l]@,
                                    ));
                                    let s = choose|s: int|
                                        0 <= s < selmap@.len() && inner@[i].0@ == (
                                        #[trigger] selmap@[s]).0@ && inner@[i].1@[l]@ == var_line(
                                            name@,
                                            selmap@[s].1,
                                        );
                                    assert(scoped_line_justified(
                                        *cfg,
                                        views_of_strings(used@),
                                        false,
                                        mqs@[e].0@,
                                        mqs@[e].1@[i].0@,
                                        mqs@[e].1@[i].1@[l]@,
                                    )) by {
                                        assert(table_line_match(
                                            cfg.css_variables@[v as int].1.media_queries,
                                            cfg.css_variables@[v as int].0@,
                                            t as int,
                                            s,
                                            mqs@[e].0@,
                                            mqs@[e].1@[i].0@,
                                            mqs@[e].1@[i].1@[l]@,
                                        ));
                                    }
                                }
                            }
                        }
                        t = t + 1;
                    }
                },
                None => {},
            }
        }
        v = v + 1;
    }
    (root, bps, mqs)
}

/// The models of a bucket: those with the given media query.
pub open spec fn filter_mq(models: Seq<ClassModel>, q: Option<Seq<char>>) -> Seq<ClassModel> {
    models.filter(|m: ClassModel| m.media_query == q)
}

/// The models of a bucket: those with the given breakpoint.
pub open spec fn filter_bp(models: Seq<ClassModel>, b: Option<Seq<char>>) -> Seq<ClassModel> {
    models.filter(|m: ClassModel| m.breakpoint == b)
}

/// The rendered rules of the models, in order.
pub open spec fn css_views(cfg: Config, models: Seq<ClassModel>) -> Seq<Seq<char>> {
    models.map_values(|m: ClassModel| crate::scanner::class_name::spec_class_css(cfg, m))
}

/// Whether rendered text is blank: empty or all whitespace.
pub open spec fn is_blank(s: Seq<char>) -> bool {
    crate::utils::is_blank_line(s)
}

/// How one more model changes a media-query bucket.
proof fn lemma_filter_mq_step(models: Seq<ClassModel>, i: int, q: Option<Seq<char>>)
    requires
        0 <= i < models.len(),
    ensures
        filter_mq(models.take(i + 1), q) == if models[i].media_query == q {
            filter_mq(models.take(i), q).push(models[i])
        } else {
            filter_mq(models.take(i), q)
        },
{
    reveal(Seq::filter);
    let t1 = models.take(i + 1);
    assert(t1.drop_last() =~= models.take(i));
    assert(t1.last() == models[i]);
}

/// Rendering distributes over extending the bucket.
proof fn lemma_css_views_push(cfg: Config, x: Seq<ClassModel>, m: ClassModel)
    ensures
        css_views(cfg, x.push(m)) == css_views(cfg, x).push(
            crate::scanner::class_name::spec_class_css(cfg, m),
        ),
{
    assert(css_views(cfg, x.push(m)) =~= css_views(cfg, x).push(
        crate::scanner::class_name::spec_class_css(cfg, m),
    ));
}

/// The `@media` blocks of one bucket, one per configured media query that
/// has content; in the root bucket, query-scoped variable declarations
/// open their query's block.
pub open spec fn mq_blocks(
    cfg: Config,
    models: Seq<ClassModel>,
    mq_entries: Seq<(String, String)>,
    qcontainers: Seq<(String, OrderedMap<Vec<String>>)>,
    is_root_bucket: bool,
) -> Seq<Seq<char>>
    decreases mq_entries.len(),
{
    if mq_entries.len() == 0 {
        Seq::empty()
    } else {
        let qname = mq_entries.last().0@;
        let qstr = mq_entries.last().1@;
        let base = css_views(cfg, filter_mq(models, Some(qname)));
        let vars: Seq<Seq<char>> = if is_root_bucket && find_key(qcontainers, qname) is Some {
            let decls = spec_variable_declarations(
                qcontainers[find_key(qcontainers, qname)->Some_0].1@,
            );
            if !is_blank(decls) {
                seq![decls]
            } else {
                Seq::empty()
            }
        } else {
            Seq::empty()
        };
        let css_list = vars + base;
        let block: Seq<Seq<char>> = if css_list.len() == 0 {
            Seq::empty()
        } else {
            let styled = spec_media_query_block(css_list, qstr);
            if !is_blank(styled) {
                seq![styled]
            } else {
                Seq::empty()
            }
        };
        mq_blocks(cfg, models, mq_entries.drop_last(), qcontainers, is_root_bucket) + block
    }
}

/// One bucket's inner text: the query-less rules first, then each
/// configured media query's block.
pub open spec fn spec_mq_section(
    cfg: Config,
    models: Seq<ClassModel>,
    mq_entries: Seq<(String, String)>,
    qcontainers: Seq<(String, OrderedMap<Vec<String>>)>,
    is_root_bucket: bool,
) -> Seq<char> {
    let initial = sep_join(css_views(cfg, filter_mq(models, None)), "\n\n"@);
    let head: Seq<Seq<char>> = if !is_blank(initial) {
        seq![initial]
    } else {
        Seq::empty()
    };
    sep_join(head + mq_blocks(cfg, models, mq_entries, qcontainers, is_root_bucket), "\n\n"@)
}

/// Render the rules of one breakpoint bucket grouped by media query.
#[verifier::loop_isolation(false)]
#[verifier::rlimit(100)]
fn create_media_query_string<'a, 'c>(
    cfg: &'c Config,
    class_name_list: &Vec<&'a ClassName<'c>>,
    css_variable_queries: &OrderedMap<OrderedMap<Vec<String>>>,
    breakpoint: &Option<String>,
) -> (r: String)
    requires
        forall|i: int|
            0 <= i < class_name_list@.len() ==> (#[trigger] class_name_list@[i]).cfg() == *cfg,
    ensures
        r@ == spec_mq_section(
            *cfg,
            ref_models(class_name_list@),
            cfg.user.media_queries@,
            css_variable_queries@,
            breakpoint is None,
        ),
{
    proof {
        reveal(Seq::filter);
    }
    let ghost models = ref_models(class_name_list@);
    let is_root = matches!(breakpoint, None);
    // the rules with no media query
    let mut css_without_queries: Vec<String> = Vec::new();
    let mut i: usize = 0;
    proof {
        assert(models.take(0int).filter(|m: ClassModel| m.media_query == None::<Seq<char>>)
            =~= Seq::<ClassModel>::empty());
    }
    while i < class_name_list.len()
        invariant
            0 <= i <= class_name_list@.len(),
            models == ref_models(class_name_list@),
            models.len() == class_name_list@.len(),
            views_of_strings(css_without_queries@) == css_views(
                *cfg,
                filter_mq(models.take(i as int), None),
            ),
        decreases class_name_list@.len() - i,
    {
        proof {
            assert(models.take(i + 1 as int).drop_last() =~= models.take(i as int));
            assert(models.take(i + 1 as int).last() == models[i as int]);
        }
        proof {
            assert(models[i as int] == class_name_list@[i as int].model());
            assert(class_name_list@[i as int].cfg() == *cfg);
            lemma_filter_mq_step(models, i as int, None);
        }
        if class_name_list[i].media_query.is_none() {
            let css = class_name_list[i].get_css();
            let ghost pre = css_without_queries@;
            css_without_queries.push(css);
            proof {
                crate::utils::lemma_views_push(pre, css_without_queries@.last());
                lemma_css_views_push(
                    *cfg,
                    filter_mq(models.take(i as int), None),
                    models[i as int],
                );
                assert(views_of_strings(css_without_queries@) == css_views(
                    *cfg,
                    filter_mq(models.take(i + 1 as int), None),
                ));
            }
        }
        i = i + 1;
    }
    proof {
        assert(models.take(models.len() as int) =~= models);
    }
    let initial_styles = join_strings(&css_without_queries, "\n\n");
    let ghost initial_view = initial_styles@;
    let mut styles: Vec<String> = Vec::new();
    if !is_blank_exec(initial_styles.as_str()) {
        styles.push(initial_styles);
    }
    let ghost head = views_of_strings(styles@);
    proof {
        let initial = sep_join(css_views(*cfg, filter_mq(models, None)), "\n\n"@);
        assert(initial_view == initial);
        if !is_blank(initial) {
            assert(head =~= seq![initial]);
        } else {
            assert(head =~= Seq::<Seq<char>>::empty());
        }
    }
    // each configured media query in order
    let mut q: usize = 0;
    proof {
        assert(mq_blocks(
            *cfg,
            models,
            cfg.user.media_queries@.take(0int),
            css_variable_queries@,
            is_root,
        ) =~= Seq::<Seq<char>>::empty());
        assert(views_of_strings(styles@) =~= head + mq_blocks(
            *cfg,
            models,
            cfg.user.media_queries@.take(0int),
            css_variable_queries@,
            is_root,
        ));
    }
    while q < cfg.user.media_queries.len()
        invariant
            0 <= q <= cfg.user.media_queries@.len(),
            views_of_strings(styles@) == head + mq_blocks(
                *cfg,
                models,
                cfg.user.media_queries@.take(q as int),
                css_variable_queries@,
                is_root,
            ),
        decreases cfg.user.media_queries@.len() - q,
    {
        let qname = cfg.user.media_queries.key_at(q);
        let qstr = cfg.user.media_queries.value_at(q);
        let mut css_list: Vec<String> = Vec::new();
        if is_root {
            match css_variable_queries.get_full(qname.as_str()) {
                Some((_, css_vars)) => {
                    let variable_string = get_css_variable_declarations(css_vars);
                    if !is_blank_exec(variable_string.as_str()) {
                        css_list.push(variable_string);
                    }
                },
                None => {},
            }
        }
        let ghost vars_part = views_of_strings(css_list@);
        let mut k: usize = 0;
        proof {
            assert(models.take(0int).filter(
                |m: ClassModel| m.media_query == Some(qname@),
            ) =~= Seq::<ClassModel>::empty());
            assert(views_of_strings(css_list@) =~= vars_part + css_views(
                *cfg,
                filter_mq(models.take(0int), Some(qname@)),
            ));
        }
        while k < class_name_list.len()
            invariant
                0 <= k <= class_name_list@.len(),
                views_of_strings(css_list@) == vars_part + css_views(
                    *cfg,
                    filter_mq(models.take(k as int), Some(qname@)),
                ),
            decreases class_name_list@.len() - k,
        {
            proof {
                assert(models.take(k + 1 as int).drop_last() =~= models.take(k as int));
                assert(models.take(k + 1 as int).last() == models[k as int]);
            }
            proof {
                assert(models[k as int] == class_name_list@[k as int].model());
                assert(class_name_list@[k as int].cfg() == *cfg);
                lemma_filter_mq_step(models, k as int, Some(qname@));
            }
            let matches_query = match &class_name_list[k].media_query {
                Some(mq) => crate::utils::str_eq(mq.as_str(), qname.as_str()),
                None => false,
            };
            if matches_query {
                let css = class_name_list[k].get_css();
                let ghost pre = css_list@;
                css_list.push(css);
                proof {
                    crate::utils::lemma_views_push(pre, css_list@.last());
                    assert(models[k as int].media_query == Some(qname@));
                    lemma_css_views_push(
                        *cfg,
                        filter_mq(models.take(k as int), Some(qname@)),
                        models[k as int],
                    );
                    assert(views_of_strings(css_list@) =~= vars_part + css_views(
                        *cfg,
                        filter_mq(models.take(k + 1 as int), Some(qname@)),
                    ));
                }
            } else {
                proof {
                    assert(models[k as int].media_query != Some(qname@));
                    assert(views_of_strings(css_list@) =~= vars_part + css_views(
                        *cfg,
                        filter_mq(models.take(k + 1 as int), Some(qname@)),
                    ));
                }
            }
            k = k + 1;
        }
        proof {
            assert(models.take(models.len() as int) =~= models);
        }
        let ghost pre_styles = views_of_strings(styles@);
        if css_list.len() > 0 {
            let query_styles = get_css_from_media_query(&css_list, qstr.as_str());
            if !is_blank_exec(query_styles.as_str()) {
                let ghost pre = styles@;
                styles.push(query_styles);
                proof {
                    crate::utils::lemma_views_push(pre, styles@.last());
                }
            }
        }
        proof {
            let t = cfg.user.media_queries@.take(q + 1 as int);
            assert(t.drop_last() =~= cfg.user.media_queries@.take(q as int));
            assert(t.last() == cfg.user.media_queries@[q as int]);
            let qv = cfg.user.media_queries@[q as int].0@;
            assert(qname@ == qv);
            let specvars: Seq<Seq<char>> = if is_root && find_key(
                css_variable_queries@,
                qv,
            ) is Some {
                let decls = spec_variable_declarations(
                    css_variable_queries@[find_key(css_variable_queries@, qv)->Some_0].1@,
                );
                if !is_blank(decls) {
                    seq![decls]
                } else {
                    Seq::<Seq<char>>::empty()
                }
            } else {
                Seq::<Seq<char>>::empty()
            };
            assert(vars_part =~= specvars);
            assert(views_of_strings(css_list@) =~= specvars + css_views(
                *cfg,
                filter_mq(models, Some(qv)),
            ));
            let speccss = specvars + css_views(*cfg, filter_mq(models, Some(qv)));
            let specblock: Seq<Seq<char>> = if speccss.len() == 0 {
                Seq::<Seq<char>>::empty()
            } else {
                let styled = spec_media_query_block(speccss, cfg.user.media_queries@[q as int].1@);
                if !is_blank(styled) {
                    seq![styled]
                } else {
                    Seq::<Seq<char>>::empty()
                }
            };
            assert(views_of_strings(styles@) =~= pre_styles + specblock);
            assert(mq_blocks(*cfg, models, t, css_variable_queries@, is_root) == mq_blocks(
                *cfg,
                models,
                cfg.user.media_queries@.take(q as int),
                css_variable_queries@,
                is_root,
            ) + specblock);
            assert(views_of_strings(styles@) =~= head + mq_blocks(
                *cfg,
                models,
                t,
                css_variable_queries@,
                is_root,
            ));
        }
        q = q + 1;
    }
    proof {
        assert(cfg.user.media_queries@.take(cfg.user.media_queries@.len() as int)
            =~= cfg.user.media_queries@);
        let initial = sep_join(css_views(*cfg, filter_mq(models, None)), "\n\n"@);
        let headspec: Seq<Seq<char>> = if !is_blank(initial) {
            seq![initial]
        } else {
            Seq::<Seq<char>>::empty()
        };
        assert(head =~= headspec);
        assert(views_of_strings(styles@) =~= headspec + mq_blocks(
            *cfg,
            models,
            cfg.user.media_queries@,
            css_variable_queries@,
            is_root,
        ));
    }
    join_strings(&styles, "\n\n")
}

/// Whether the text is empty or all whitespace.
fn is_blank_exec(s: &str) -> (r: bool)
    ensures
        r == is_blank(s@),
{
    let trimmed = crate::scanner::class_name::trim_str(s);
    let n = trimmed.as_str().unicode_len();
    proof {
        crate::scanner::class_name::lemma_trim_blank(s@);
    }
    n == 0
}

/// How one more reference changes a breakpoint bucket.
proof fn lemma_filter_bp_step(models: Seq<ClassModel>, i: int, b: Option<Seq<char>>)
    requires
        0 <= i < models.len(),
    ensures
        filter_bp(models.take(i + 1), b) == if models[i].breakpoint == b {
            filter_bp(models.take(i), b).push(models[i])
        } else {
            filter_bp(models.take(i), b)
        },
{
    reveal(Seq::filter);
    let t1 = models.take(i + 1);
    assert(t1.drop_last() =~= models.take(i));
    assert(t1.last() == models[i]);
}

/// Collect the references whose breakpoint is `b`.
#[verifier::loop_isolation(false)]
fn filter_by_breakpoint<'a, 'c>(
    class_names: &Vec<&'a ClassName<'c>>,
    b: &Option<String>,
    Ghost(cfg): Ghost<Config>,
) -> (r: Vec<&'a ClassName<'c>>)
    requires
        forall|i: int| 0 <= i < class_names@.len() ==> (#[trigger] class_names@[i]).cfg() == cfg,
    ensures
        ref_models(r@) == filter_bp(
            ref_models(class_names@),
            crate::scanner::class_name::opt_view(*b),
        ),
        forall|i: int| 0 <= i < r@.len() ==> (#[trigger] r@[i]).cfg() == cfg,
{
    proof {
        reveal(Seq::filter);
    }
    let ghost models = ref_models(class_names@);
    let ghost bv = crate::scanner::class_name::opt_view(*b);
    let mut out: Vec<&'a ClassName<'c>> = Vec::new();
    let mut i: usize = 0;
    proof {
        assert(ref_models(out@) =~= filter_bp(models.take(0int), bv));
    }
    while i < class_names.len()
        invariant
            0 <= i <= class_names@.len(),
            ref_models(out@) == filter_bp(models.take(i as int), bv),
            forall|w: int| 0 <= w < out@.len() ==> (#[trigger] out@[w]).cfg() == cfg,
        decreases class_names@.len() - i,
    {
        proof {
            assert(models[i as int] == class_names@[i as int].model());
            lemma_filter_bp_step(models, i as int, bv);
        }
        let matches_bp = match (&class_names[i].breakpoint, b) {
            (Some(x), Some(y)) => crate::utils::str_eq(x.as_str(), y.as_str()),
            (None, None) => true,
            _ => false,
        };
        if matches_bp {
            let ghost pre = out@;
            out.push(class_names[i]);
            proof {
                assert(models[i as int].breakpoint == bv);
                assert(ref_models(out@) =~= ref_models(pre).push(class_names@[i as int].model()));
                assert(ref_models(out@) =~= filter_bp(models.take(i + 1 as int), bv));
            }
        } else {
            proof {
                assert(models[i as int].breakpoint != bv);
                assert(ref_models(out@) =~= filter_bp(models.take(i + 1 as int), bv));
            }
        }
        i = i + 1;
    }
    proof {
        assert(models.take(models.len() as int) =~= models);
    }
    out
}

/// One breakpoint bucket rendered: its media-query-grouped rules,
/// prefixed by the variable declarations scoped to it, wrapped unless it
/// is the default bucket.
pub open spec fn bucket_block(
    cfg: Config,
    models: Seq<ClassModel>,
    name: Option<Seq<char>>,
    value: CssValue,
    root_c: Seq<(String, Vec<String>)>,
    bp_c: Seq<(String, OrderedMap<Vec<String>>)>,
    mq_entries: Seq<(String, String)>,
    q_c: Seq<(String, OrderedMap<Vec<String>>)>,
) -> Seq<Seq<char>> {
    let mqs = spec_mq_section(cfg, filter_bp(models, name), mq_entries, q_c, name is None);
    let base: Seq<Seq<char>> = if !is_blank(mqs) {
        seq![mqs]
    } else {
        Seq::empty()
    };
    let decls: Seq<Seq<char>> = match name {
        Some(nm) => {
            if find_key(bp_c, nm) is Some {
                let d = spec_variable_declarations(bp_c[find_key(bp_c, nm)->Some_0].1@);
                if !is_blank(d) {
                    seq![d]
                } else {
                    Seq::empty()
                }
            } else {
                Seq::empty()
            }
        },
        None => {
            let d = spec_variable_declarations(root_c);
            if !is_blank(d) {
                seq![d]
            } else {
                Seq::empty()
            }
        },
    };
    let css_list = decls + base;
    if css_list.len() == 0 {
        Seq::empty()
    } else {
        seq![spec_breakpoint_block(css_list, name, value.spec_get_string())]
    }
}

/// The blocks of the named breakpoints, in configuration order.
pub open spec fn bp_blocks(
    cfg: Config,
    models: Seq<ClassModel>,
    bp_entries: Seq<(String, CssValue)>,
    root_c: Seq<(String, Vec<String>)>,
    bp_c: Seq<(String, OrderedMap<Vec<String>>)>,
    mq_entries: Seq<(String, String)>,
    q_c: Seq<(String, OrderedMap<Vec<String>>)>,
) -> Seq<Seq<char>>
    decreases bp_entries.len(),
{
    if bp_entries.len() == 0 {
        Seq::empty()
    } else {
        bp_blocks(cfg, models, bp_entries.drop_last(), root_c, bp_c, mq_entries, q_c)
            + bucket_block(
            cfg,
            models,
            Some(bp_entries.last().0@),
            bp_entries.last().1,
            root_c,
            bp_c,
            mq_entries,
            q_c,
        )
    }
}

/// The whole document body: the keyframe and group header, the default
/// bucket, then each breakpoint's block; an empty document renders as the
/// empty string, otherwise a trailing newline closes it.
pub open spec fn spec_css_output(
    cfg: Config,
    models: Seq<ClassModel>,
    initial_css: Seq<char>,
    root_c: Seq<(String, Vec<String>)>,
    bp_c: Seq<(String, OrderedMap<Vec<String>>)>,
    q_c: Seq<(String, OrderedMap<Vec<String>>)>,
) -> Seq<char> {
    let head: Seq<Seq<char>> = if initial_css.len() != 0 {
        seq![initial_css]
    } else {
        Seq::empty()
    };
    let default_value = CssValue::Number(0);
    let styles = head + bucket_block(
        cfg,
        models,
        None,
        default_value,
        root_c,
        bp_c,
        cfg.user.media_queries@,
        q_c,
    ) + bp_blocks(
        cfg,
        models,
        cfg.user.breakpoints@,
        root_c,
        bp_c,
        cfg.user.media_queries@,
        q_c,
    );
    let all = sep_join(styles, "\n\n"@);
    if is_blank(all) {
        Seq::empty()
    } else {
        all + "\n"@
    }
}

/// Assemble the whole document from the rendered header, the class names
/// and the variable containers.
#[verifier::loop_isolation(false)]
#[verifier::rlimit(100)]
fn create_css_output<'a, 'c>(
    cfg: &'c Config,
    initial_css: &str,
    css_variable_names: &Vec<String>,
    class_names: &Vec<&'a ClassName<'c>>,
) -> (r: String)
    requires
        forall|i: int|
            0 <= i < class_names@.len() ==> (#[trigger] class_names@[i]).cfg() == *cfg,
    ensures
        exists|root_c: OrderedMap<Vec<String>>, bp_c: OrderedMap<OrderedMap<Vec<String>>>, q_c: OrderedMap<OrderedMap<Vec<String>>>|
            container_justified(*cfg, views_of_strings(css_variable_names@), root_c@)
                && nested_container_justified(
                *cfg,
                views_of_strings(css_variable_names@),
                true,
                bp_c@,
            ) && nested_container_justified(
                *cfg,
                views_of_strings(css_variable_names@),
                false,
                q_c@,
            ) && r@ == #[trigger] spec_css_output(
                *cfg,
                ref_models(class_names@),
                initial_css@,
                root_c@,
                bp_c@,
                q_c@,
            ),
{
    let ghost models = ref_models(class_names@);
    let (root_c, bp_c, q_c) = create_css_variable_containers(cfg, css_variable_names);
    let mut styles: Vec<String> = Vec::new();
    if initial_css.unicode_len() != 0 {
        styles.push(initial_css.to_owned());
    }
    let ghost head = views_of_strings(styles@);
    proof {
        if initial_css@.len() != 0 {
            assert(head =~= seq![initial_css@]);
        } else {
            assert(head =~= Seq::<Seq<char>>::empty());
        }
    }
    // the default bucket first
    let none_bp: Option<String> = None;
    let bucket = filter_by_breakpoint(class_names, &none_bp, Ghost(*cfg));
    let mqs = create_media_query_string(cfg, &bucket, &q_c, &none_bp);
    let mut css_list: Vec<String> = Vec::new();
    let variable_string = get_css_variable_declarations(&root_c);
    if !is_blank_exec(variable_string.as_str()) {
        css_list.push(variable_string);
    }
    let ghost mqs_view = mqs@;
    if !is_blank_exec(mqs.as_str()) {
        css_list.push(mqs);
    }
    let default_value = CssValue::Number(0);
    if css_list.len() > 0 {
        let block = get_css_from_breakpoints(&css_list, &none_bp, &default_value);
        let ghost pre = styles@;
        styles.push(block);
        proof {
            crate::utils::lemma_views_push(pre, styles@.last());
        }
    }
    proof {
        assert(crate::scanner::class_name::opt_view(none_bp) == None::<Seq<char>>);
        let mqsspec = spec_mq_section(
            *cfg,
            filter_bp(models, None),
            cfg.user.media_queries@,
            q_c@,
            true,
        );
        assert(mqs_view == mqsspec);
        let base: Seq<Seq<char>> = if !is_blank(mqsspec) {
            seq![mqsspec]
        } else {
            Seq::<Seq<char>>::empty()
        };
        let d = spec_variable_declarations(root_c@);
        let decls: Seq<Seq<char>> = if !is_blank(d) {
            seq![d]
        } else {
            Seq::<Seq<char>>::empty()
        };
        assert(views_of_strings(css_list@) =~= decls + base);
        let bspec = bucket_block(
            *cfg,
            models,
            None,
            default_value,
            root_c@,
            bp_c@,
            cfg.user.media_queries@,
            q_c@,
        );
        if css_list@.len() == 0 {
            assert(bspec =~= Seq::<Seq<char>>::empty());
            assert(views_of_strings(styles@) =~= head + bspec);
        } else {
            assert(bspec =~= seq![
                spec_breakpoint_block(
                    decls + base,
                    None,
                    default_value.spec_get_string(),
                ),
            ]);
            assert(views_of_strings(styles@) =~= head + bspec);
        }
    }
    let ghost head2 = views_of_strings(styles@);
    // each named breakpoint in configuration order
    let mut b: usize = 0;
    proof {
        assert(bp_blocks(
            *cfg,
            models,
            cfg.user.breakpoints@.take(0int),
            root_c@,
            bp_c@,
            cfg.user.media_queries@,
            q_c@,
        ) =~= Seq::<Seq<char>>::empty());
        assert(views_of_strings(styles@) =~= head2 + bp_blocks(
            *cfg,
            models,
            cfg.user.breakpoints@.take(0int),
            root_c@,
            bp_c@,
            cfg.user.media_queries@,
            q_c@,
        ));
    }
    while b < cfg.user.breakpoints.len()
        invariant
            0 <= b <= cfg.user.breakpoints@.len(),
            views_of_strings(styles@) == head2 + bp_blocks(
                *cfg,
                models,
                cfg.user.breakpoints@.take(b as int),
                root_c@,
                bp_c@,
                cfg.user.media_queries@,
                q_c@,
            ),
        decreases cfg.user.breakpoints@.len() - b,
    {
        let bname = cfg.user.breakpoints.key_at(b);
        let bvalue = cfg.user.breakpoints.value_at(b);
        let some_bp: Option<String> = Some(bname.clone());
        let bucket_b = filter_by_breakpoint(class_names, &some_bp, Ghost(*cfg));
        let mqs_b = create_media_query_string(cfg, &bucket_b, &q_c, &some_bp);
        let mut css_list_b: Vec<String> = Vec::new();
        match bp_c.get_full(bname.as_str()) {
            Some((_, css_vars)) => {
                let vs = get_css_variable_declarations(css_vars);
                if !is_blank_exec(vs.as_str()) {
                    css_list_b.push(vs);
                }
            },
            None => {},
        }
        let ghost mqs_b_view = mqs_b@;
        if !is_blank_exec(mqs_b.as_str()) {
            css_list_b.push(mqs_b);
        }
        let ghost pre_styles = views_of_strings(styles@);
        if css_list_b.len() > 0 {
            let block = get_css_from_breakpoints(&css_list_b, &some_bp, bvalue);
            let ghost pre = styles@;
            styles.push(block);
            proof {
                crate::utils::lemma_views_push(pre, styles@.last());
            }
        }
        proof {
            let t = cfg.user.breakpoints@.take(b + 1 as int);
            assert(t.drop_last() =~= cfg.user.breakpoints@.take(b as int));
            assert(t.last() == cfg.user.breakpoints@[b as int]);
            crate::ordered_map::lemma_find_key(bp_c@, bname@);
            assert(crate::scanner::class_name::opt_view(some_bp) == Some(bname@));
            let bv = Some(cfg.user.breakpoints@[b as int].0@);
            let mqsspec = spec_mq_section(
                *cfg,
                filter_bp(models, bv),
                cfg.user.media_queries@,
                q_c@,
                false,
            );
            assert(mqs_b_view == mqsspec);
            let base: Seq<Seq<char>> = if !is_blank(mqsspec) {
                seq![mqsspec]
            } else {
                Seq::<Seq<char>>::empty()
            };
            let decls: Seq<Seq<char>> = if find_key(bp_c@, bname@) is Some {
                let d = spec_variable_declarations(bp_c@[find_key(bp_c@, bname@)->Some_0].1@);
                if !is_blank(d) {
                    seq![d]
                } else {
                    Seq::<Seq<char>>::empty()
                }
            } else {
                Seq::<Seq<char>>::empty()
            };
            assert(views_of_strings(css_list_b@) =~= decls + base);
            let bspec = bucket_block(
                *cfg,
                models,
                bv,
                cfg.user.breakpoints@[b as int].1,
                root_c@,
                bp_c@,
                cfg.user.media_queries@,
                q_c@,
            );
            if css_list_b@.len() == 0 {
                assert(bspec =~= Seq::<Seq<char>>::empty());
            } else {
                assert(bspec =~= seq![
                    spec_breakpoint_block(
                        decls + base,
                        bv,
                        cfg.user.breakpoints@[b as int].1.spec_get_string(),
                    ),
                ]);
            }
            assert(views_of_strings(styles@) =~= pre_styles + bspec);
            assert(views_of_strings(styles@) =~= pre_styles + bucket_block(
                *cfg,
                models,
                Some(cfg.user.breakpoints@[b as int].0@),
                cfg.user.breakpoints@[b as int].1,
                root_c@,
                bp_c@,
                cfg.user.media_queries@,
                q_c@,
            ));
            assert(views_of_strings(styles@) =~= head2 + bp_blocks(
                *cfg,
                models,
                t,
                root_c@,
                bp_c@,
                cfg.user.media_queries@,
                q_c@,
            ));
        }
        b = b + 1;
    }
    proof {
        assert(cfg.user.breakpoints@.take(cfg.user.breakpoints@.len() as int)
            =~= cfg.user.breakpoints@);
    }
    let all_styles = join_strings(&styles, "\n\n");
    if is_blank_exec(all_styles.as_str()) {
        let r = String::new();
        proof {
            assert(container_justified(*cfg, views_of_strings(css_variable_names@), root_c@));
            assert(r@ =~= spec_css_output(
                *cfg,
                models,
                initial_css@,
                root_c@,
                bp_c@,
                q_c@,
            ));
        }
        r
    } else {
        let mut r = all_styles;
        r.append("\n");
        proof {
            assert(container_justified(*cfg, views_of_strings(css_variable_names@), root_c@));
            assert(r@ =~= spec_css_output(
                *cfg,
                models,
                initial_css@,
                root_c@,
                bp_c@,
                q_c@,
            ));
        }
        r
    }
}

/// The keyframe names the class names reference, flattened in order.
pub open spec fn flat_kf_names(models: Seq<ClassModel>) -> Seq<Seq<char>>
    decreases models.len(),
{
    if models.len() == 0 {
        Seq::empty()
    } else {
        flat_kf_names(models.drop_last()) + models.last().keyframes
    }
}

/// The group names the class names reference, flattened in order.
pub open spec fn flat_group_names(models: Seq<ClassModel>) -> Seq<Seq<char>>
    decreases models.len(),
{
    if models.len() == 0 {
        Seq::empty()
    } else {
        flat_group_names(models.drop_last()) + models.last().groups
    }
}

/// The rendered `@keyframes` blocks of the named animations, configured
/// ones only.
pub open spec fn kf_blocks(cfg: Config, names: Seq<Seq<char>>) -> Seq<Seq<char>>
    decreases names.len(),
{
    if names.len() == 0 {
        Seq::empty()
    } else {
        kf_blocks(cfg, names.drop_last()) + match find_key(cfg.user.keyframes@, names.last()) {
            Some(i) => seq![
                crate::config::user::spec_keyframes_css(
                    names.last(),
                    cfg.user.keyframes@[i].1.spec_frames(),
                ),
            ],
            None => Seq::empty(),
        }
    }
}

/// The selectors of the class names that reference group `g`, in order.
pub open spec fn group_selectors(cfg: Config, models: Seq<ClassModel>, g: Seq<char>) -> Seq<
    Seq<char>,
> {
    models.filter(|m: ClassModel| m.groups.contains(g)).map_values(
        |m: ClassModel| crate::scanner::class_name::spec_selector(cfg, m),
    )
}

/// The rendered group blocks of the named groups, configured ones only.
pub open spec fn group_blocks(
    cfg: Config,
    models: Seq<ClassModel>,
    names: Seq<Seq<char>>,
) -> Seq<Seq<char>>
    decreases names.len(),
{
    if names.len() == 0 {
        Seq::empty()
    } else {
        group_blocks(cfg, models, names.drop_last()) + match find_key(
            cfg.user.groups@,
            names.last(),
        ) {
            Some(i) => seq![
                crate::config::user::spec_group_css(
                    cfg.user.groups@[i].1.spec_props(),
                    group_selectors(cfg, models, names.last()),
                ),
            ],
            None => Seq::empty(),
        }
    }
}

/// The header of the document: every referenced keyframe's block, then
/// every referenced group's block, each once.
pub open spec fn spec_header_css(cfg: Config, models: Seq<ClassModel>) -> Seq<char> {
    sep_join(
        kf_blocks(cfg, crate::utils::dedup_seqs(flat_kf_names(models))) + group_blocks(
            cfg,
            models,
            crate::utils::dedup_seqs(flat_group_names(models)),
        ),
        "\n\n"@,
    )
}

/// Collect the distinct names of a per-model name list, in order of first
/// appearance.
#[verifier::loop_isolation(false)]
fn collect_distinct_names<'a, 'c>(
    class_names: &Vec<&'a ClassName<'c>>,
    want_keyframes: bool,
) -> (r: Vec<String>)
    ensures
        want_keyframes ==> views_of_strings(r@) == crate::utils::dedup_seqs(
            flat_kf_names(ref_models(class_names@)),
        ),
        !want_keyframes ==> views_of_strings(r@) == crate::utils::dedup_seqs(
            flat_group_names(ref_models(class_names@)),
        ),
{
    let ghost models = ref_models(class_names@);
    let mut out: Vec<String> = Vec::new();
    let mut i: usize = 0;
    proof {
        assert(flat_kf_names(models.take(0int)) =~= Seq::<Seq<char>>::empty());
        assert(flat_group_names(models.take(0int)) =~= Seq::<Seq<char>>::empty());
    }
    while i < class_names.len()
        invariant
            0 <= i <= class_names@.len(),
            want_keyframes ==> views_of_strings(out@) == crate::utils::dedup_seqs(
                flat_kf_names(models.take(i as int)),
            ),
            !want_keyframes ==> views_of_strings(out@) == crate::utils::dedup_seqs(
                flat_group_names(models.take(i as int)),
            ),
        decreases class_names@.len() - i,
    {
        proof {
            assert(models.take(i + 1 as int).drop_last() =~= models.take(i as int));
            assert(models.take(i + 1 as int).last() == models[i as int]);
            assert(models[i as int] == class_names@[i as int].model());
        }
        let names: &Vec<String> = if want_keyframes {
            &class_names[i].keyframes
        } else {
            &class_names[i].groups
        };
        let ghost name_views = views_of_strings(names@);
        let mut j: usize = 0;
        proof {
            if want_keyframes {
                assert(flat_kf_names(models.take(i as int)) + name_views.take(0int)
                    =~= flat_kf_names(models.take(i as int)));
            } else {
                assert(flat_group_names(models.take(i as int)) + name_views.take(0int)
                    =~= flat_group_names(models.take(i as int)));
            }
        }
        while j < names.len()
            invariant
                0 <= j <= names@.len(),
                name_views == views_of_strings(names@),
                name_views.len() == names@.len(),
                want_keyframes ==> views_of_strings(out@) == crate::utils::dedup_seqs(
                    flat_kf_names(models.take(i as int)) + name_views.take(j as int),
                ),
                !want_keyframes ==> views_of_strings(out@) == crate::utils::dedup_seqs(
                    flat_group_names(models.take(i as int)) + name_views.take(j as int),
                ),
            decreases names@.len() - j,
        {
            let ghost named = if want_keyframes {
                flat_kf_names(models.take(i as int)) + name_views.take(j as int)
            } else {
                flat_group_names(models.take(i as int)) + name_views.take(j as int)
            };
            let present = crate::utils::contains_string(&out, names[j].as_str());
            let ghost pre = out@;
            if !present {
                out.push(names[j].clone());
            }
            proof {
                crate::utils::lemma_views_push(pre, names@[j as int]);
                assert(named.push(name_views[j as int]).drop_last() =~= named);
                crate::utils::lemma_dedup_seqs_props(named);
                if !present {
                    assert(views_of_strings(out@) =~= views_of_strings(pre).push(
                        name_views[j as int],
                    ));
                }
                if want_keyframes {
                    assert(named.push(name_views[j as int]) =~= flat_kf_names(
                        models.take(i as int),
                    ) + name_views.take(j + 1 as int));
                } else {
                    assert(named.push(name_views[j as int]) =~= flat_group_names(
                        models.take(i as int),
                    ) + name_views.take(j + 1 as int));
                }
            }
            j = j + 1;
        }
        proof {
            assert(name_views.take(names@.len() as int) =~= name_views);
            if want_keyframes {
                assert(name_views == models[i as int].keyframes);
                assert(flat_kf_names(models.take(i + 1 as int)) =~= flat_kf_names(
                    models.take(i as int),
                ) + name_views);
            } else {
                assert(name_views == models[i as int].groups);
                assert(flat_group_names(models.take(i + 1 as int)) =~= flat_group_names(
                    models.take(i as int),
                ) + name_views);
            }
        }
        i = i + 1;
    }
    proof {
        assert(models.take(models.len() as int) =~= models);
    }
    out
}

/// How one more model changes a group's selector list.
proof fn lemma_group_sel_step(cfg: Config, models: Seq<ClassModel>, k: int, g: Seq<char>)
    requires
        0 <= k < models.len(),
    ensures
        group_selectors(cfg, models.take(k + 1), g) == if models[k].groups.contains(g) {
            group_selectors(cfg, models.take(k), g).push(
                crate::scanner::class_name::spec_selector(cfg, models[k]),
            )
        } else {
            group_selectors(cfg, models.take(k), g)
        },
{
    reveal(Seq::filter);
    let t1 = models.take(k + 1);
    assert(t1.drop_last() =~= models.take(k));
    assert(t1.last() == models[k]);
    let f1 = t1.filter(|m: ClassModel| m.groups.contains(g));
    let f0 = models.take(k).filter(|m: ClassModel| m.groups.contains(g));
    if models[k].groups.contains(g) {
        assert(f1 == f0.push(models[k]));
        assert(f1.map_values(|m: ClassModel| crate::scanner::class_name::spec_selector(cfg, m))
            =~= f0.map_values(
            |m: ClassModel| crate::scanner::class_name::spec_selector(cfg, m),
        ).push(crate::scanner::class_name::spec_selector(cfg, models[k])));
    } else {
        assert(f1 == f0);
    }
}

/// Render the header: every referenced keyframe's block, then every
/// referenced group's block over the selectors that use it.
#[verifier::loop_isolation(false)]
#[verifier::rlimit(100)]
fn get_groups_and_keyframes_css<'a, 'c>(
    cfg: &'c Config,
    class_names: &Vec<&'a ClassName<'c>>,
) -> (r: String)
    requires
        forall|i: int|
            0 <= i < class_names@.len() ==> (#[trigger] class_names@[i]).cfg() == *cfg,
    ensures
        r@ == spec_header_css(*cfg, ref_models(class_names@)),
{
    let ghost models = ref_models(class_names@);
    let kf_names = collect_distinct_names(class_names, true);
    let group_names = collect_distinct_names(class_names, false);
    let ghost kfv = views_of_strings(kf_names@);
    let ghost grv = views_of_strings(group_names@);
    let mut styles: Vec<String> = Vec::new();
    let mut i: usize = 0;
    proof {
        assert(kf_blocks(*cfg, kfv.take(0int)) =~= Seq::<Seq<char>>::empty());
        assert(views_of_strings(styles@) =~= kf_blocks(*cfg, kfv.take(0int)));
    }
    while i < kf_names.len()
        invariant
            0 <= i <= kf_names@.len(),
            views_of_strings(styles@) == kf_blocks(*cfg, kfv.take(i as int)),
        decreases kf_names@.len() - i,
    {
        proof {
            assert(kfv.take(i + 1 as int).drop_last() =~= kfv.take(i as int));
            assert(kfv.take(i + 1 as int).last() == kfv[i as int]);
        }
        let name = &kf_names[i];
        match cfg.user.keyframes.get_full(name.as_str()) {
            Some((_, keyframe)) => {
                let css = keyframe.get_css(name.as_str());
                let ghost pre = styles@;
                styles.push(css);
                proof {
                    crate::utils::lemma_views_push(pre, styles@.last());
                    assert(views_of_strings(styles@) =~= kf_blocks(*cfg, kfv.take(i + 1 as int)));
                }
            },
            None => {
                proof {
                    assert(views_of_strings(styles@) =~= kf_blocks(*cfg, kfv.take(i + 1 as int)));
                }
            },
        }
        i = i + 1;
    }
    proof {
        assert(kfv.take(kfv.len() as int) =~= kfv);
    }
    let ghost kf_part = views_of_strings(styles@);
    let mut gidx: usize = 0;
    proof {
        assert(group_blocks(*cfg, models, grv.take(0int)) =~= Seq::<Seq<char>>::empty());
        assert(views_of_strings(styles@) =~= kf_part + group_blocks(
            *cfg,
            models,
            grv.take(0int),
        ));
    }
    while gidx < group_names.len()
        invariant
            0 <= gidx <= group_names@.len(),
            views_of_strings(styles@) == kf_part + group_blocks(
                *cfg,
                models,
                grv.take(gidx as int),
            ),
        decreases group_names@.len() - gidx,
    {
        proof {
            assert(grv.take(gidx + 1 as int).drop_last() =~= grv.take(gidx as int));
            assert(grv.take(gidx + 1 as int).last() == grv[gidx as int]);
        }
        let gname = &group_names[gidx];
        match cfg.user.groups.get_full(gname.as_str()) {
            Some((_, group)) => {
                // the selectors of the class names referencing this group
                let mut selectors: Vec<String> = Vec::new();
                let mut k: usize = 0;
                proof {
                    reveal(Seq::filter);
                    assert(views_of_strings(selectors@) =~= group_selectors(
                        *cfg,
                        models.take(0int),
                        grv[gidx as int],
                    ));
                }
                while k < class_names.len()
                    invariant
                        0 <= k <= class_names@.len(),
                        views_of_strings(selectors@) == group_selectors(
                            *cfg,
                            models.take(k as int),
                            grv[gidx as int],
                        ),
                    decreases class_names@.len() - k,
                {
                    proof {
                        assert(models[k as int] == class_names@[k as int].model());
                        assert(class_names@[k as int].cfg() == *cfg);
                        lemma_group_sel_step(*cfg, models, k as int, grv[gidx as int]);
                    }
                    if crate::utils::contains_string(&class_names[k].groups, gname.as_str()) {
                        let sel = class_names[k].get_selector();
                        let ghost pre = selectors@;
                        selectors.push(sel);
                        proof {
                            crate::utils::lemma_views_push(pre, selectors@.last());
                            assert(models[k as int].groups.contains(grv[gidx as int]));
                            assert(views_of_strings(selectors@) =~= group_selectors(
                                *cfg,
                                models.take(k + 1 as int),
                                grv[gidx as int],
                            ));
                        }
                    } else {
                        proof {
                            assert(!models[k as int].groups.contains(grv[gidx as int]));
                            assert(views_of_strings(selectors@) =~= group_selectors(
                                *cfg,
                                models.take(k + 1 as int),
                                grv[gidx as int],
                            ));
                        }
                    }
                    k = k + 1;
                }
                proof {
                    assert(models.take(models.len() as int) =~= models);
                }
                let css = group.get_css(&selectors);
                let ghost pre = styles@;
                styles.push(css);
                proof {
                    crate::utils::lemma_views_push(pre, styles@.last());
                    assert(views_of_strings(styles@) =~= kf_part + group_blocks(
                        *cfg,
                        models,
                        grv.take(gidx + 1 as int),
                    ));
                }
            },
            None => {
                proof {
                    assert(views_of_strings(styles@) =~= kf_part + group_blocks(
                        *cfg,
                        models,
                        grv.take(gidx + 1 as int),
                    ));
                }
            },
        }
        gidx = gidx + 1;
    }
    proof {
        assert(grv.take(grv.len() as int) =~= grv);
    }
    join_strings(&styles, "\n\n")
}

/// Whether some class name mentions the custom property directly.
pub open spec fn direct_mentions(cfg: Config, models: Seq<ClassModel>, x: Seq<char>) -> bool {
    exists|i: int| 0 <= i < models.len() && class_mentions(cfg, #[trigger] models[i], x)
}

/// The properties of the variable set the renderer works with: no
/// duplicates, every directly mentioned name present, and every member
/// either directly mentioned or mentioned by an earlier member's variable
/// definition.
pub open spec fn used_set_ok(cfg: Config, models: Seq<ClassModel>, used: Seq<String>) -> bool {
    &&& no_dup_views(used)
    &&& forall|x: Seq<char>|
        direct_mentions(cfg, models, x) ==> #[trigger] views_of_strings(used).contains(x)
    &&& forall|k: int|
        0 <= k < used.len() ==> (direct_mentions(cfg, models, (#[trigger] used[k])@) || exists|
            w: int,
        | 0 <= w < k && mention_edge(cfg, used[w]@, used[k]@))
}

/// Render the whole stylesheet for the resolved class names: the keyframe
/// and group header, then each breakpoint's rules grouped by media query,
/// with the transitively referenced CSS variables' declarations injected.
#[verifier::loop_isolation(false)]
#[verifier::rlimit(100)]
pub fn generate_css<'a, 'c>(config: &'c Config, class_names: &Vec<&'a ClassName<'c>>) -> (r:
    String)
    requires
        forall|i: int|
            0 <= i < class_names@.len() ==> (#[trigger] class_names@[i]).cfg() == *config,
    ensures
        exists|used: Vec<String>, root_c: OrderedMap<Vec<String>>, bp_c: OrderedMap<OrderedMap<Vec<String>>>, q_c: OrderedMap<OrderedMap<Vec<String>>>|
            #[trigger] used_set_ok(*config, ref_models(class_names@), used@)
                && container_justified(*config, views_of_strings(used@), root_c@)
                && nested_container_justified(*config, views_of_strings(used@), true, bp_c@)
                && nested_container_justified(*config, views_of_strings(used@), false, q_c@) && r@
                == #[trigger] spec_css_output(
                *config,
                ref_models(class_names@),
                spec_header_css(*config, ref_models(class_names@)),
                root_c@,
                bp_c@,
                q_c@,
            ),
{
    let ghost models = ref_models(class_names@);
    // the names directly referenced by the class names
    let mut roots: Vec<String> = Vec::new();
    let mut i: usize = 0;
    while i < class_names.len()
        invariant
            0 <= i <= class_names@.len(),
            no_dup_views(roots@),
            forall|x: Seq<char>|
                #[trigger] views_of_strings(roots@).contains(x) <==> exists|w: int|
                    0 <= w < i && class_mentions(*config, #[trigger] models[w], x),
        decreases class_names@.len() - i,
    {
        let ghost pre = views_of_strings(roots@);
        let vars = class_names[i].variables();
        crate::utils::extend_unique(&mut roots, &vars);
        proof {
            assert(models[i as int] == class_names@[i as int].model());
            assert forall|x: Seq<char>| #[trigger] views_of_strings(roots@).contains(
                x,
            ) implies exists|w: int|
                0 <= w < i + 1 && class_mentions(*config, #[trigger] models[w], x) by {
                if pre.contains(x) {
                    let w = choose|w: int|
                        0 <= w < i && class_mentions(*config, #[trigger] models[w], x);
                    assert(class_mentions(*config, models[w], x));
                } else {
                    assert(views_of_strings(vars@).contains(x));
                    assert(class_mentions(*config, models[i as int], x));
                }
            }
            assert forall|x: Seq<char>|
                (exists|w: int|
                    0 <= w < i + 1 && class_mentions(
                        *config,
                        #[trigger] models[w],
                        x,
                    )) implies #[trigger] views_of_strings(roots@).contains(x) by {
                let w = choose|w: int|
                    0 <= w < i + 1 && class_mentions(*config, #[trigger] models[w], x);
                if w < i {
                    assert(pre.contains(x));
                } else {
                    assert(views_of_strings(vars@).contains(x));
                }
            }
        }
        i = i + 1;
    }
    proof {
        assert(models.len() == class_names@.len());
    }
    let used = get_nested_css_variables(config, &roots);
    proof {
        assert(used_set_ok(*config, models, used@)) by {
            assert forall|x: Seq<char>| direct_mentions(*config, models, x) implies #[trigger]
            views_of_strings(used@).contains(x) by {
                assert(views_of_strings(roots@).contains(x));
                let w = choose|w: int|
                    0 <= w < roots@.len() && views_of_strings(roots@)[w] == x;
                assert(used@[w] == roots@[w]);
                assert(views_of_strings(used@)[w] == x);
            }
            assert forall|k: int| 0 <= k < used@.len() implies (direct_mentions(
                *config,
                models,
                (#[trigger] used@[k])@,
            ) || exists|w: int| 0 <= w < k && mention_edge(*config, used@[w]@, used@[k]@)) by {
                if views_of_strings(roots@).contains(used@[k]@) {
                    assert(direct_mentions(*config, models, used@[k]@));
                }
            }
        }
    }
    let header = get_groups_and_keyframes_css(config, class_names);
    let out = create_css_output(config, header.as_str(), &used, class_names);
    proof {
        let (root_c, bp_c, q_c) = choose|
            root_c: OrderedMap<Vec<String>>,
            bp_c: OrderedMap<OrderedMap<Vec<String>>>,
            q_c: OrderedMap<OrderedMap<Vec<String>>>,
        |
            container_justified(*config, views_of_strings(used@), root_c@)
                && nested_container_justified(*config, views_of_strings(used@), true, bp_c@)
                && nested_container_justified(*config, views_of_strings(used@), false, q_c@)
                && out@ == #[trigger] spec_css_output(
                *config,
                models,
                header@,
                root_c@,
                bp_c@,
                q_c@,
            );
        assert(used_set_ok(*config, ref_models(class_names@), used@) && container_justified(
            *config,
            views_of_strings(used@),
            root_c@,
        ) && nested_container_justified(*config, views_of_strings(used@), true, bp_c@)
            && nested_container_justified(*config, views_of_strings(used@), false, q_c@) && out@
            == spec_css_output(
            *config,
            ref_models(class_names@),
            spec_header_css(*config, ref_models(class_names@)),
            root_c@,
            bp_c@,
            q_c@,
        ));
    }
    out
}

} // verus!
