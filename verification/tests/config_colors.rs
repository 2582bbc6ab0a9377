use skribble_css::config::user::{
    Atom, AtomColor, AtomColorOptions, AtomCssValue, ColorFormat, CssValue, Group, Keyframes,
    Options, StyleRule, UserConfig,
};
use skribble_css::config::Config;
use skribble_css::ordered_map::OrderedMap;

fn color_config() -> Config {
    let mut style_rules: OrderedMap<Vec<StyleRule>> = OrderedMap::new();
    style_rules.insert(
        "text".to_string(),
        vec![StyleRule::Name("color".to_string())],
    );

    let mut palette: OrderedMap<String> = OrderedMap::new();
    palette.insert("red".to_string(), "#ff0000".to_string());

    let atoms = vec![Atom::Color(AtomColor {
        keyframes: Vec::new(),
        groups: Vec::new(),
        style_rules: vec!["text".to_string()],
        colors: AtomColorOptions { opacity: "--op".to_string(), palette: true },
    })];

    let user = UserConfig {
        options: Options { color_format: ColorFormat::Hsl },
        style_rules,
        shorthand: OrderedMap::new(),
        groups: OrderedMap::<Group>::new(),
        palette,
        keyframes: OrderedMap::<Keyframes>::new(),
        breakpoints: OrderedMap::new(),
        media_queries: OrderedMap::new(),
        parent_modifiers: OrderedMap::new(),
        modifiers: Vec::new(),
        colors: OrderedMap::new(),
        atoms,
        variables: OrderedMap::new(),
    };
    Config::from_user(user)
}

#[test]
fn palette_colors_round_trip_to_rgba() {
    let config = color_config();
    let meta = config.atoms.get("text").expect("the text atom is derived");
    let value = meta.values.get("red").expect("the palette entry is a value");
    match value {
        AtomCssValue::Value(CssValue::Str(s)) => {
            assert_eq!(s.as_str(), "rgba(255, 0, 0, var(--op))");
        }
        _ => panic!("expected a plain color value"),
    }
}

#[test]
fn unparsable_colors_pass_through() {
    let mut palette: OrderedMap<String> = OrderedMap::new();
    palette.insert("odd".to_string(), "not-a-color".to_string());
    let mut style_rules: OrderedMap<Vec<StyleRule>> = OrderedMap::new();
    style_rules.insert(
        "text".to_string(),
        vec![StyleRule::Name("color".to_string())],
    );
    let atoms = vec![Atom::Color(AtomColor {
        keyframes: Vec::new(),
        groups: Vec::new(),
        style_rules: vec!["text".to_string()],
        colors: AtomColorOptions { opacity: "--op".to_string(), palette: true },
    })];
    let user = UserConfig {
        options: Options { color_format: ColorFormat::Hsl },
        style_rules,
        shorthand: OrderedMap::new(),
        groups: OrderedMap::<Group>::new(),
        palette,
        keyframes: OrderedMap::<Keyframes>::new(),
        breakpoints: OrderedMap::new(),
        media_queries: OrderedMap::new(),
        parent_modifiers: OrderedMap::new(),
        modifiers: Vec::new(),
        colors: OrderedMap::new(),
        atoms,
        variables: OrderedMap::new(),
    };
    let config = Config::from_user(user);
    let meta = config.atoms.get("text").expect("the text atom is derived");
    match meta.values.get("odd").expect("the entry exists") {
        AtomCssValue::Value(CssValue::Str(s)) => {
            assert_eq!(s.as_str(), "not-a-color");
        }
        _ => panic!("expected a plain value"),
    }
}

#[test]
fn keyframe_properties_render_in_kebab_case() {
    let mut styles: OrderedMap<String> = OrderedMap::new();
    styles.insert("backgroundColor".to_string(), "red".to_string());
    let mut frames: OrderedMap<OrderedMap<String>> = OrderedMap::new();
    frames.insert("from".to_string(), styles);
    let kf = Keyframes::Frame(frames);
    assert_eq!(
        kf.get_css("spin"),
        "@keyframes spin {\n  from {\n    background-color: red;\n  }\n}"
    );
}

#[test]
fn configuration_loads_from_json() {
    let json = r#"{
        "breakpoints": { "sm": "640px" },
        "styleRules": { "p": ["padding"] },
        "atoms": [
            { "styleRules": ["p"], "values": { "px": "10px" } }
        ]
    }"#;
    let config = skribble_css::config::Config::new(json).expect("the document is well formed");
    let meta = config.atoms.get("p").expect("the atom is derived");
    match meta.values.get("px").expect("the value is present") {
        AtomCssValue::Value(CssValue::Str(s)) => assert_eq!(s.as_str(), "10px"),
        _ => panic!("expected a plain value"),
    }
    assert!(skribble_css::config::Config::new("not json").is_err());
    assert!(skribble_css::config::Config::new("{ \"styleRules\": 3 }").is_err());
}
