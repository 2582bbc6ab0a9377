use skribble_css::config::user::{
    Atom, AtomCssValue, AtomValue, ColorFormat, CssValue, CssVariable, Group, Keyframes, Options,
    StyleRule, UserConfig,
};
use skribble_css::config::Config;
use skribble_css::generate_css::generate_css;
use skribble_css::ordered_map::OrderedMap;
use skribble_css::scanner::class_name_collector::{
    ClassNameCollector, Expr, Ident, ImportDecl, ImportSpecifier, MemberProp, SourceItem,
    ValidImport,
};

fn render_config() -> Config {
    let mut style_rules: OrderedMap<Vec<StyleRule>> = OrderedMap::new();
    style_rules.insert("p".to_string(), vec![StyleRule::Name("padding".to_string())]);
    style_rules.insert("q".to_string(), vec![StyleRule::Name("color".to_string())]);

    let mut shorthand: OrderedMap<Vec<StyleRule>> = OrderedMap::new();
    shorthand.insert(
        "block".to_string(),
        vec![StyleRule::WithValue(
            "display".to_string(),
            CssValue::Str("block".to_string()),
        )],
    );

    let mut breakpoints: OrderedMap<CssValue> = OrderedMap::new();
    breakpoints.insert("sm".to_string(), CssValue::Str("640px".to_string()));
    breakpoints.insert("md".to_string(), CssValue::Str("768px".to_string()));
    breakpoints.insert("lg".to_string(), CssValue::Str("1024px".to_string()));

    let mut media_queries: OrderedMap<String> = OrderedMap::new();
    media_queries.insert("print".to_string(), "print".to_string());

    let mut layer: OrderedMap<Vec<String>> = OrderedMap::new();
    layer.insert("active".to_string(), vec!["&:active".to_string()]);
    layer.insert("focus".to_string(), vec!["&:focus".to_string()]);

    let mut p_values: OrderedMap<AtomCssValue> = OrderedMap::new();
    p_values.insert(
        "px".to_string(),
        AtomCssValue::Value(CssValue::Str("10px".to_string())),
    );
    let mut q_values: OrderedMap<AtomCssValue> = OrderedMap::new();
    q_values.insert(
        "var".to_string(),
        AtomCssValue::Value(CssValue::Str("var(--a)".to_string())),
    );
    let atoms = vec![
        Atom::Value(AtomValue {
            keyframes: Vec::new(),
            groups: Vec::new(),
            style_rules: vec!["p".to_string()],
            values: p_values,
        }),
        Atom::Value(AtomValue {
            keyframes: Vec::new(),
            groups: Vec::new(),
            style_rules: vec!["q".to_string()],
            values: q_values,
        }),
    ];

    // two variables that reference each other
    let mut variables: OrderedMap<CssVariable> = OrderedMap::new();
    variables.insert(
        "--a".to_string(),
        CssVariable::Value(CssValue::Str("var(--b)".to_string())),
    );
    variables.insert(
        "--b".to_string(),
        CssVariable::Value(CssValue::Str("var(--a)".to_string())),
    );

    let user = UserConfig {
        options: Options { color_format: ColorFormat::Hsl },
        style_rules,
        shorthand,
        groups: OrderedMap::<Group>::new(),
        palette: OrderedMap::<String>::new(),
        keyframes: OrderedMap::<Keyframes>::new(),
        breakpoints,
        media_queries,
        parent_modifiers: OrderedMap::new(),
        modifiers: vec![layer],
        colors: OrderedMap::new(),
        atoms,
        variables,
    };
    Config::from_user(user)
}

fn member(root: Expr, name: &str) -> Expr {
    Expr::Member(Box::new(root), MemberProp::Ident(name.to_string()))
}

fn tracked_import() -> SourceItem {
    SourceItem::Import(ImportDecl {
        src: "skribble-css/client".to_string(),
        type_only: false,
        specifiers: vec![ImportSpecifier::Named {
            local: Ident { sym: "c".to_string(), ctxt: 1 },
            imported: None,
        }],
    })
}

fn chain(tokens: &[&str]) -> Expr {
    let mut e = Expr::Ident(Ident { sym: "c".to_string(), ctxt: 1 });
    for t in tokens {
        e = member(e, t);
    }
    e
}

#[test]
fn end_to_end_breakpoint_scenario() {
    let config = render_config();
    let imports = vec![ValidImport::new("skribble-css/client", "c")];
    let mut collector = ClassNameCollector::new(&imports, &config);
    let module = vec![
        tracked_import(),
        SourceItem::Expression(chain(&["sm", "p", "$px"])),
    ];
    collector.visit_items(&module);
    collector.sort();
    let class_names = collector.get_class_names();
    assert_eq!(class_names.len(), 1);
    assert_eq!(
        class_names[0].get_css(),
        ".sm\\:p\\:\\:\\$px {\n  padding: 10px;\n}"
    );
    let css = generate_css(&config, &class_names);
    assert_eq!(
        css,
        "@media (min-width: 640px) {\n  .sm\\:p\\:\\:\\$px {\n    padding: 10px;\n  }\n}\n"
    );
}

#[test]
fn duplicate_chains_collapse() {
    let config = render_config();
    let imports = vec![ValidImport::new("skribble-css/client", "c")];
    let mut collector = ClassNameCollector::new(&imports, &config);
    let module = vec![
        tracked_import(),
        SourceItem::Expression(chain(&["md", "focus", "$block"])),
        SourceItem::Expression(chain(&["md", "focus", "$block"])),
        SourceItem::Expression(chain(&["sm", "focus", "$block"])),
    ];
    collector.visit_items(&module);
    let class_names = collector.get_class_names();
    assert_eq!(class_names.len(), 2);
}

#[test]
fn untracked_roots_are_ignored() {
    let config = render_config();
    let imports = vec![ValidImport::new("skribble-css/client", "c")];
    let mut collector = ClassNameCollector::new(&imports, &config);
    let module = vec![
        tracked_import(),
        SourceItem::Expression(Expr::Member(
            Box::new(Expr::Ident(Ident { sym: "other".to_string(), ctxt: 7 })),
            MemberProp::Ident("sm".to_string()),
        )),
    ];
    collector.visit_items(&module);
    assert_eq!(collector.get_class_names().len(), 0);
}

#[test]
fn scanning_sorts_by_score() {
    let config = render_config();
    let imports = vec![ValidImport::new("skribble-css/client", "c")];
    let mut collector = ClassNameCollector::new(&imports, &config);
    let module = vec![
        tracked_import(),
        SourceItem::Expression(chain(&["lg", "p", "$px"])),
        SourceItem::Expression(chain(&["sm", "p", "$px"])),
    ];
    collector.visit_items(&module);
    collector.sort();
    let class_names = collector.get_class_names();
    assert_eq!(class_names.len(), 2);
    assert!(class_names[0].score < class_names[1].score);
}

#[test]
fn cyclic_variables_render_once_each() {
    let config = render_config();
    let imports = vec![ValidImport::new("skribble-css/client", "c")];
    let mut collector = ClassNameCollector::new(&imports, &config);
    let module = vec![
        tracked_import(),
        SourceItem::Expression(chain(&["q", "$var"])),
    ];
    collector.visit_items(&module);
    let class_names = collector.get_class_names();
    assert_eq!(class_names.len(), 1);
    let css = generate_css(&config, &class_names);
    assert_eq!(css.matches("--a: var(--b);").count(), 1);
    assert_eq!(css.matches("--b: var(--a);").count(), 1);
}

#[test]
fn call_arguments_attach_literal_values() {
    let config = render_config();
    let imports = vec![ValidImport::new("skribble-css/client", "c")];
    let mut collector = ClassNameCollector::new(&imports, &config);
    let module = vec![
        tracked_import(),
        SourceItem::Expression(Expr::Call(
            Box::new(chain(&["md", "p"])),
            vec![Expr::Lit(skribble_css::scanner::class_name_collector::Lit::Num(
                "10".to_string(),
            ))],
        )),
    ];
    collector.visit_items(&module);
    let class_names = collector.get_class_names();
    assert_eq!(class_names.len(), 1);
    assert_eq!(class_names[0].get_selector(), ".md\\:p\\:\\:\\[10px\\]");
}

#[test]
fn media_queries_wrap_their_rules() {
    let config = render_config();
    let imports = vec![ValidImport::new("skribble-css/client", "c")];
    let mut collector = ClassNameCollector::new(&imports, &config);
    let module = vec![
        tracked_import(),
        SourceItem::Expression(chain(&["print", "p", "$px"])),
    ];
    collector.visit_items(&module);
    let class_names = collector.get_class_names();
    assert_eq!(class_names.len(), 1);
    let css = generate_css(&config, &class_names);
    assert_eq!(
        css,
        "@media print {\n  .print\\:p\\:\\:\\$px {\n    padding: 10px;\n  }\n}\n"
    );
}
