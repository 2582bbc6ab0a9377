use skribble_css::config::user::{
    ColorFormat, CssValue, Group, Keyframes, Options, StyleRule, UserConfig,
};
use skribble_css::config::Config;
use skribble_css::ordered_map::OrderedMap;
use skribble_css::scanner::class_name::{ClassArguments, ClassName};

fn create_config() -> Config {
    let mut style_rules: OrderedMap<Vec<StyleRule>> = OrderedMap::new();
    style_rules.insert("p".to_string(), vec![StyleRule::Name("padding".to_string())]);
    style_rules.insert("m".to_string(), vec![StyleRule::Name("margin".to_string())]);

    let mut shorthand: OrderedMap<Vec<StyleRule>> = OrderedMap::new();
    shorthand.insert(
        "block".to_string(),
        vec![StyleRule::WithValue(
            "display".to_string(),
            CssValue::Str("block".to_string()),
        )],
    );

    let mut breakpoints: OrderedMap<CssValue> = OrderedMap::new();
    breakpoints.insert("sm".to_string(), CssValue::Str("640px".to_string()));
    breakpoints.insert("md".to_string(), CssValue::Str("768px".to_string()));
    breakpoints.insert("lg".to_string(), CssValue::Str("1024px".to_string()));

    let mut media_queries: OrderedMap<String> = OrderedMap::new();
    media_queries.insert("print".to_string(), "print".to_string());

    let mut parent_modifiers: OrderedMap<Vec<String>> = OrderedMap::new();
    parent_modifiers.insert(
        "groupActive".to_string(),
        vec![
            ".\\$group:active &".to_string(),
            ".group:active &".to_string(),
            "[role='group']:active &".to_string(),
        ],
    );

    let mut layer: OrderedMap<Vec<String>> = OrderedMap::new();
    layer.insert("active".to_string(), vec!["&:active".to_string()]);
    layer.insert("focus".to_string(), vec!["&:focus".to_string()]);
    layer.insert(
        "readOnly".to_string(),
        vec![
            "&[aria-readonly=true]".to_string(),
            "&[readonly]".to_string(),
            "&:read-only".to_string(),
        ],
    );
    layer.insert(
        "triple".to_string(),
        vec!["&:a".to_string(), "&:b".to_string(), "&:c".to_string()],
    );

    let mut p_values: OrderedMap<skribble_css::config::user::AtomCssValue> = OrderedMap::new();
    p_values.insert(
        "px".to_string(),
        skribble_css::config::user::AtomCssValue::Value(CssValue::Str("10px".to_string())),
    );
    let atoms = vec![skribble_css::config::user::Atom::Value(
        skribble_css::config::user::AtomValue {
            keyframes: Vec::new(),
            groups: Vec::new(),
            style_rules: vec!["p".to_string(), "m".to_string()],
            values: p_values,
        },
    )];

    let user = UserConfig {
        options: Options { color_format: ColorFormat::Hsl },
        style_rules,
        shorthand,
        groups: OrderedMap::<Group>::new(),
        palette: OrderedMap::<String>::new(),
        keyframes: OrderedMap::<Keyframes>::new(),
        breakpoints,
        media_queries,
        parent_modifiers,
        modifiers: vec![layer],
        colors: OrderedMap::new(),
        atoms,
        variables: OrderedMap::new(),
    };
    Config::from_user(user)
}

#[test]
fn can_compare() {
    let config = create_config();
    let mut class_name1 = ClassName::new(&config);
    let mut class_name2 = ClassName::new(&config);

    class_name1.add_tokens(&vec!["p", "$px"]);
    class_name2.add_token("p");
    class_name2.add_arguments(ClassArguments::from_value("100px"));
    assert!(class_name1 < class_name2);
}

#[test]
fn can_add_tokens() {
    let config = create_config();
    let mut class_name = ClassName::new(&config);

    class_name.add_tokens(&vec!["p", "$px"]);
    assert_eq!(class_name.atom, Some("p".to_string()));
    assert_eq!(class_name.style_name, Some("px".to_string()));
}

#[test]
fn get_selector_from_shorthand() {
    let config = create_config();
    let mut class_name = ClassName::new(&config);

    class_name.add_tokens(&vec!["$block"]);
    assert_eq!(class_name.get_selector(), ".\\$block");
}

#[test]
fn get_selector_with_modifiers() {
    let config = create_config();
    let mut class_name = ClassName::new(&config);

    class_name.add_tokens(&vec!["sm", "focus", "active", "p", "$px"]);
    assert_eq!(
        class_name.get_selector(),
        ".sm\\:active\\:focus\\:p\\:\\:\\$px:active:focus"
    );
}

#[test]
fn get_selector_maintains_modifiers_order() {
    let config = create_config();
    let mut class_name1 = ClassName::new(&config);
    let mut class_name2 = ClassName::new(&config);

    class_name1.add_tokens(&vec!["sm", "focus", "active", "p", "$px"]);
    class_name2.add_tokens(&vec!["sm", "active", "focus", "p", "$px"]);
    assert_eq!(class_name1.get_selector(), class_name2.get_selector());
}

#[test]
fn get_selector_with_multiple_modifiers() {
    let config = create_config();
    let mut class_name = ClassName::new(&config);

    class_name.add_tokens(&vec!["sm", "readOnly", "p", "$px"]);
    assert_eq!(
        class_name.get_selector(),
        ".sm\\:readOnly\\:p\\:\\:\\$px[aria-readonly=true], .sm\\:readOnly\\:p\\:\\:\\$px[readonly], .sm\\:readOnly\\:p\\:\\:\\$px:read-only"
    );
}

#[test]
fn get_selector_with_parent_modifiers() {
    let config = create_config();
    let mut class_name = ClassName::new(&config);

    class_name.add_tokens(&vec!["sm", "groupActive", "focus", "active", "p", "$px"]);
    assert_eq!(
        class_name.get_selector(),
        ".\\$group:active .sm\\:groupActive\\:active\\:focus\\:p\\:\\:\\$px:active:focus, .group:active .sm\\:groupActive\\:active\\:focus\\:p\\:\\:\\$px:active:focus, [role='group']:active .sm\\:groupActive\\:active\\:focus\\:p\\:\\:\\$px:active:focus"
    );
}

#[test]
fn get_css_from_shorthand() {
    let config = create_config();
    let mut class_name = ClassName::new(&config);

    class_name.add_tokens(&vec!["$block"]);
    assert_eq!(class_name.get_css(), ".\\$block {\n  display: block;\n}");
}

#[test]
fn multiplicative_expansion_counts_selectors() {
    let config = create_config();
    let mut one = ClassName::new(&config);
    one.add_tokens(&vec!["readOnly", "p", "$px"]);
    let selectors = one.get_selector();
    assert_eq!(selectors.matches(", ").count(), 2);

    let mut two = ClassName::new(&config);
    two.add_tokens(&vec!["readOnly", "triple", "p", "$px"]);
    let expanded = two.get_selector();
    assert_eq!(expanded.matches(", ").count(), 8);
}

#[test]
fn invalidity_is_sticky_for_two_atoms() {
    let config = create_config();
    let mut class_name = ClassName::new(&config);
    class_name.add_tokens(&vec!["p", "m"]);
    assert!(class_name.is_invalid());
    class_name.add_token("$px");
    assert!(class_name.is_invalid());
    class_name.add_token("sm");
    assert!(class_name.is_invalid());
}

#[test]
fn higher_breakpoint_outscores_lower() {
    let config = create_config();
    let mut smaller = ClassName::new(&config);
    let mut larger = ClassName::new(&config);
    smaller.add_tokens(&vec!["sm", "focus", "active", "p", "$px"]);
    larger.add_tokens(&vec!["md", "p", "$px"]);
    assert!(smaller.score < larger.score);
}

#[test]
fn arguments_are_escaped() {
    let config = create_config();
    let mut class_name = ClassName::new(&config);
    class_name.add_token("p");
    class_name.add_arguments(ClassArguments::from_value("rgb(0,0,0)"));
    assert_eq!(class_name.get_selector(), ".p\\:\\:\\[rgb\\(0\\,0\\,0\\)\\]");
}

#[test]
fn arguments_parse_from_strings() {
    let args = ClassArguments::from_string("[10px]").expect("single value");
    assert_eq!(args.get_value(), "10px");
    let pair = ClassArguments::from_string("padding\\:10px").expect("key and value");
    assert_eq!(pair.get_string(), "padding\\:10px");
    assert_eq!(pair.get_value(), "10px");
    assert!(ClassArguments::from_string("[oops").is_none());
    assert!(ClassArguments::from_string("a\\:b\\:c").is_none());
}

#[test]
fn class_names_rebuild_from_dom_strings() {
    let config = create_config();
    let rebuilt = ClassName::from_dom_string(&config, "sm:p::$px");
    assert!(rebuilt.is_valid());
    assert_eq!(rebuilt.get_selector(), ".sm\\:p\\:\\:\\$px");
    let invalid = ClassName::from_dom_string(&config, "a::b::c");
    assert!(invalid.is_invalid());
}
