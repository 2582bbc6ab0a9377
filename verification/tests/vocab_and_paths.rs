use skribble_css::find_up::{FindUp, Type};
use skribble_css::tsconfig::{Jsx, Lib, Module, Target};

#[test]
fn it_can_be_built() {
    assert_eq!(
        FindUp::builder().disable_symlinks().build(),
        FindUp {
            path_type: Default::default(),
            disable_symlinks: true,
            stop_at: "/".to_string(),
            min_steps: 0,
            max_steps: usize::MAX,
        }
    );
}

#[test]
fn search_stops_at_the_configured_directory() {
    let find_up = FindUp::builder().stop_at("/srv/site").build();
    assert!(find_up.should_stop("/srv/site"));
    assert!(find_up.should_stop("/srv"));
    assert!(find_up.should_stop("/"));
    assert!(!find_up.should_stop("/srv/site/app"));
    assert!(!find_up.should_stop("/srv/sit"));
}

#[test]
fn entries_match_by_kind_name_and_links() {
    let names = vec!["package.json".to_string()];
    let files = FindUp::builder().build();
    assert!(files.entry_matches("package.json", false, true, false, &names));
    assert!(!files.entry_matches("package.json", true, false, false, &names));
    assert!(!files.entry_matches("other.json", false, true, false, &names));
    let no_links = FindUp::builder().disable_symlinks().build();
    assert!(!no_links.entry_matches("package.json", false, true, true, &names));
    let dirs = FindUp::builder().path_type(Type::Directory).build();
    assert!(dirs.entry_matches("node_modules", true, false, false, &names) == false);
}

#[test]
fn vocabulary_names_render_canonically() {
    assert_eq!(Lib::Es2015Promise.get_string(), "ES2015.Promise");
    assert_eq!(Module::CommonJs.get_string(), "CommonJS");
    assert_eq!(Target::Es2021.get_string(), "ES2021");
    assert_eq!(Jsx::ReactJsx.get_string(), "react-jsx");
}

#[test]
fn vocabulary_names_parse_in_any_case() {
    assert_eq!(Lib::from_text("es2015.promise"), Some(Lib::Es2015Promise));
    assert_eq!(Lib::from_text("ES2015.PROMISE"), Some(Lib::Es2015Promise));
    assert_eq!(Module::from_text("CommonJS"), Some(Module::CommonJs));
    assert_eq!(Target::from_text("es2021"), Some(Target::Es2021));
    assert_eq!(Jsx::from_text("REACT-JSXDEV"), Some(Jsx::ReactJsxdev));
    assert_eq!(Lib::from_text("not-a-lib"), None);
    assert_eq!(Module::from_text(""), None);
}
