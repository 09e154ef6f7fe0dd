use import_glob_array::imports::ImportSpecifier;
use import_glob_array::transformer::transform_import_decl;
use import_glob_array::transformer::expand_matches;
use import_glob_array::transformer::build_glob_path;
use import_glob_array::transformer::is_eligible;
use import_glob_array::utils::ArrayElement;
use import_glob_array::ImportGlobArrayPlugin;
use import_glob_array::ModuleItem;

fn named(local: &str) -> ImportSpecifier {
    ImportSpecifier::Named { local: local.to_string(), imported: None }
}

fn meta_spec(local: &str) -> ImportSpecifier {
    ImportSpecifier::Named { local: local.to_string(), imported: Some("_importMeta".to_string()) }
}

fn plugin_at(cwd: &str, filename: &str) -> ImportGlobArrayPlugin {
    ImportGlobArrayPlugin::new(cwd.to_string(), filename.to_string())
}

#[test]
fn expands_named_specifiers_per_match() {
    let mut plugin = plugin_at("/proj", "/proj/index.js");
    let specifiers = vec![named("a"), named("b")];
    let matched = vec!["/proj/mods/one.js".to_string(), "/proj/mods/two.js".to_string()];
    let t = expand_matches(&mut plugin, &specifiers, &matched);

    assert_eq!(t.imports.len(), 2);
    assert_eq!(t.imports[0].src, "./mods/one.js");
    assert_eq!(t.imports[1].src, "./mods/two.js");
    assert_eq!(t.imports[0].specifiers.len(), 2);
    assert_eq!(t.imports[1].specifiers.len(), 2);
    match &t.imports[0].specifiers[0] {
        ImportSpecifier::Named { local, imported } => {
            assert_eq!(local, "_iga1");
            assert!(imported.is_none());
        },
        _ => panic!("expected a named specifier"),
    }
    match &t.imports[1].specifiers[1] {
        ImportSpecifier::Named { local, .. } => assert_eq!(local, "_iga4"),
        _ => panic!("expected a named specifier"),
    }

    assert_eq!(t.names.len(), 2);
    assert_eq!(t.names[0].name, "a");
    assert_eq!(t.names[1].name, "b");
    assert_eq!(t.names[0].elems.len(), 2);
    assert_eq!(t.names[1].elems.len(), 2);
    match &t.names[0].elems[0] {
        ArrayElement::ValueRef { placeholder } => assert_eq!(placeholder, "_iga1"),
        _ => panic!("expected a value reference"),
    }
    match &t.names[0].elems[1] {
        ArrayElement::ValueRef { placeholder } => assert_eq!(placeholder, "_iga3"),
        _ => panic!("expected a value reference"),
    }
    assert_eq!(t.meta.len(), 0);
    assert_eq!(plugin.id_counter, 4);
}

#[test]
fn meta_specifier_builds_metadata_records_and_no_imports() {
    let mut plugin = plugin_at("/proj", "/proj/index.js");
    let specifiers = vec![meta_spec("meta")];
    let matched = vec!["/proj/data/x.json".to_string()];
    let t = expand_matches(&mut plugin, &specifiers, &matched);

    assert_eq!(t.imports.len(), 0);
    assert_eq!(t.names.len(), 0);
    assert_eq!(t.meta.len(), 1);
    assert_eq!(t.meta[0].name, "meta");
    assert_eq!(t.meta[0].elems.len(), 1);
    match &t.meta[0].elems[0] {
        ArrayElement::MetaRecord { absolute_path, imported_path } => {
            assert_eq!(absolute_path, "/proj/data/x.json");
            assert_eq!(imported_path, "./data/x.json");
        },
        _ => panic!("expected a metadata record"),
    }
    assert_eq!(plugin.id_counter, 0);
}

#[test]
fn mixed_specifiers_split_between_value_and_meta_groups() {
    let mut plugin = plugin_at("/proj", "/proj/index.js");
    let specifiers = vec![named("a"), meta_spec("m")];
    let matched = vec!["/proj/x.js".to_string(), "/proj/y.js".to_string()];
    let t = expand_matches(&mut plugin, &specifiers, &matched);

    assert_eq!(t.imports.len(), 2);
    assert_eq!(t.imports[0].specifiers.len(), 1);
    assert_eq!(t.names.len(), 1);
    assert_eq!(t.names[0].elems.len(), 2);
    assert_eq!(t.meta.len(), 1);
    assert_eq!(t.meta[0].elems.len(), 2);
}

#[test]
fn default_and_namespace_specifiers_keep_their_kind() {
    let mut plugin = plugin_at("/proj", "/proj/index.js");
    let specifiers = vec![
        ImportSpecifier::DefaultImport { local: "def".to_string() },
        ImportSpecifier::Namespace { local: "ns".to_string() },
    ];
    let matched = vec!["/proj/one.js".to_string()];
    let t = expand_matches(&mut plugin, &specifiers, &matched);

    assert_eq!(t.imports.len(), 1);
    assert!(matches!(
        &t.imports[0].specifiers[0],
        ImportSpecifier::DefaultImport { local } if local == "_iga1"
    ));
    assert!(matches!(
        &t.imports[0].specifiers[1],
        ImportSpecifier::Namespace { local } if local == "_iga2"
    ));
    assert_eq!(t.names.len(), 2);
    assert_eq!(t.names[0].name, "def");
    assert_eq!(t.names[1].name, "ns");
}

#[test]
fn unresolvable_match_is_dropped_silently() {
    let mut plugin = plugin_at("/proj", "/proj/index.js");
    let specifiers = vec![named("a")];
    let matched = vec!["/proj/ok.js".to_string(), "/elsewhere/bad.js".to_string()];
    let t = expand_matches(&mut plugin, &specifiers, &matched);

    assert_eq!(t.imports.len(), 1);
    assert_eq!(t.imports[0].src, "./ok.js");
    assert_eq!(t.names[0].elems.len(), 1);
}

#[test]
fn virtual_mount_paths_are_rerooted() {
    let plugin = plugin_at("/proj", "/proj/index.js");
    let paths = plugin.get_paths(&"/cwd/mods/one.js".to_string()).unwrap();
    assert_eq!(paths.absolute_path, "/proj/mods/one.js");
    assert_eq!(paths.imported_path, "./mods/one.js");

    let relative = plugin.get_paths(&"mods/one.js".to_string()).unwrap();
    assert_eq!(relative.absolute_path, "/proj/mods/one.js");
    assert_eq!(relative.imported_path, "./mods/one.js");

    assert!(plugin.get_paths(&"/etc/hosts".to_string()).is_none());
}

#[test]
fn repeated_separators_resolve_as_path_components() {
    let plugin = plugin_at("/proj", "/proj/index.js");

    let under_mount = plugin.get_paths(&"/cwd//x.js".to_string()).unwrap();
    assert_eq!(under_mount.absolute_path, "/proj/x.js");
    assert_eq!(under_mount.imported_path, "./x.js");

    let under_root = plugin.get_paths(&"/proj//mods///one.js".to_string()).unwrap();
    assert_eq!(under_root.absolute_path, "/proj/mods/one.js");
    assert_eq!(under_root.imported_path, "./mods/one.js");
}

#[test]
fn bare_root_project_keeps_every_match() {
    let plugin = plugin_at("/", "/index.js");
    let paths = plugin.get_paths(&"/x.js".to_string()).unwrap();
    assert_eq!(paths.absolute_path, "/x.js");
    assert_eq!(paths.imported_path, "./x.js");
    assert_eq!(plugin.cwd, "/");
}

#[test]
fn empty_specifier_list_still_succeeds_in_root() {
    let mut plugin = plugin_at(
        "/import-glob-array-no-such-root",
        "/import-glob-array-no-such-root/index.js",
    );
    let specifiers: Vec<ImportSpecifier> = vec![];
    let r = transform_import_decl(&mut plugin, &"./mods/*.js".to_string(), &specifiers);
    let t = r.expect("an in-root pattern with no specifiers is owed success");
    assert_eq!(t.imports.len(), 0);
    assert_eq!(t.names.len(), 0);
    assert_eq!(t.meta.len(), 0);
}

#[test]
fn imported_paths_are_relative_to_the_importing_file() {
    let plugin = plugin_at("/proj", "/proj/sub/file.js");

    let up = plugin.get_paths(&"/proj/mods/one.js".to_string()).unwrap();
    assert_eq!(up.absolute_path, "/proj/mods/one.js");
    assert_eq!(up.imported_path, "../mods/one.js");

    let sibling = plugin.get_paths(&"/proj/sub/x.js".to_string()).unwrap();
    assert_eq!(sibling.imported_path, "./x.js");

    let deep = plugin_at("/proj", "/proj/a/b/file.js");
    let far = deep.get_paths(&"/proj/x.js".to_string()).unwrap();
    assert_eq!(far.imported_path, "../../x.js");
}

#[test]
fn hidden_files_still_get_the_dot_slash_prefix() {
    let plugin = plugin_at("/proj", "/proj/index.js");
    let paths = plugin.get_paths(&"/proj/.hidden.js".to_string()).unwrap();
    assert_eq!(paths.imported_path, "./.hidden.js");
}

#[test]
fn generated_sources_follow_the_importing_file() {
    let mut plugin = plugin_at("/proj", "/proj/sub/file.js");
    let specifiers = vec![named("a")];
    let matched = vec!["/proj/mods/one.js".to_string()];
    let t = expand_matches(&mut plugin, &specifiers, &matched);
    assert_eq!(t.imports.len(), 1);
    assert_eq!(t.imports[0].src, "../mods/one.js");
}

#[test]
fn placeholder_counter_is_monotonic_across_statements() {
    let mut plugin = plugin_at("/proj", "/proj/index.js");
    let first = plugin.next_id("_iga");
    let second = plugin.next_id("_iga");
    let third = plugin.next_id("_iga");
    assert_eq!(first, "_iga1");
    assert_eq!(second, "_iga2");
    assert_eq!(third, "_iga3");
    assert_ne!(first, second);
    assert_ne!(second, third);
}

#[test]
fn search_path_is_normalized_and_rerooted() {
    let plugin = plugin_at("/proj", "/proj/sub/file.js");
    let g = build_glob_path(&plugin, "./mods/*.js").unwrap();
    assert_eq!(g, "/cwd/sub/mods/*.js");

    let up = build_glob_path(&plugin, "../mods/*.js").unwrap();
    assert_eq!(up, "/cwd/mods/*.js");
}

#[test]
fn escaping_pattern_aborts_the_statement() {
    let mut plugin = plugin_at("/proj", "/proj/index.js");
    let specifiers = vec![ImportSpecifier::DefaultImport { local: "def".to_string() }];
    assert!(build_glob_path(&plugin, "../../outside/*.js").is_none());
    let r = transform_import_decl(&mut plugin, &"../../outside/*.js".to_string(), &specifiers);
    assert!(r.is_none());
    assert_eq!(plugin.id_counter, 0);
    let items = plugin.build_module_items(r);
    assert!(items.is_empty());
}

#[test]
fn pattern_matching_nothing_yields_empty_replacement() {
    let mut plugin = plugin_at(
        "/import-glob-array-no-such-root",
        "/import-glob-array-no-such-root/index.js",
    );
    let specifiers = vec![ImportSpecifier::DefaultImport { local: "def".to_string() }];
    let r = transform_import_decl(&mut plugin, &"./none/*.js".to_string(), &specifiers);
    let t = r.expect("an in-root pattern is expanded even without matches");
    assert_eq!(t.imports.len(), 0);
    assert_eq!(t.names.len(), 0);
    assert_eq!(t.meta.len(), 0);
    let items = plugin.build_module_items(Some(t));
    assert!(items.is_empty());
}

#[test]
fn replacement_order_is_imports_then_values_then_meta() {
    let mut plugin = plugin_at("/proj", "/proj/index.js");
    let specifiers = vec![named("a"), meta_spec("m")];
    let matched = vec!["/proj/x.js".to_string()];
    let t = expand_matches(&mut plugin, &specifiers, &matched);
    let items = plugin.build_module_items(Some(t));

    assert_eq!(items.len(), 3);
    assert!(matches!(&items[0], ModuleItem::Import(i) if i.src == "./x.js"));
    assert!(matches!(&items[1], ModuleItem::ConstArray(d) if d.name == "a"));
    assert!(matches!(&items[2], ModuleItem::ConstArray(d) if d.name == "m"));
}

#[test]
fn eligibility_requires_relative_start_and_glob_syntax() {
    assert!(is_eligible(&"./mods/*.js".to_string()));
    assert!(is_eligible(&"/abs/**/*.js".to_string()));
    assert!(!is_eligible(&"./mods/plain.js".to_string()));
    assert!(!is_eligible(&"bare/*.js".to_string()));
    assert!(!is_eligible(&"".to_string()));
}

#[test]
fn project_root_loses_trailing_separators() {
    let plugin = plugin_at("/proj/", "/proj/index.js");
    assert_eq!(plugin.cwd, "/proj");
    let paths = plugin.get_paths(&"/proj/a.js".to_string()).unwrap();
    assert_eq!(paths.imported_path, "./a.js");

    let doubled = plugin_at("//proj//sub//", "/proj/sub/index.js");
    assert_eq!(doubled.cwd, "/proj/sub");
}

#[test]
fn rerun_on_equal_inputs_is_identical() {
    let specifiers = vec![named("a"), meta_spec("m")];
    let matched = vec!["/proj/x.js".to_string(), "/proj/sub/y.js".to_string()];

    let mut p1 = plugin_at("/proj", "/proj/index.js");
    let t1 = expand_matches(&mut p1, &specifiers, &matched);
    let mut p2 = plugin_at("/proj", "/proj/index.js");
    let t2 = expand_matches(&mut p2, &specifiers, &matched);

    assert_eq!(p1.id_counter, p2.id_counter);
    assert_eq!(t1.imports.len(), t2.imports.len());
    for (a, b) in t1.imports.iter().zip(t2.imports.iter()) {
        assert_eq!(a.src, b.src);
        assert_eq!(a.specifiers.len(), b.specifiers.len());
    }
    assert_eq!(t1.names.len(), t2.names.len());
    for (a, b) in t1.names.iter().zip(t2.names.iter()) {
        assert_eq!(a.name, b.name);
        assert_eq!(a.elems.len(), b.elems.len());
    }
    assert_eq!(t1.meta.len(), t2.meta.len());
}

#[test]
fn meta_sentinel_is_matched_exactly() {
    assert!(meta_spec("x").is_meta_decl());
    let near_miss = ImportSpecifier::Named {
        local: "x".to_string(),
        imported: Some("_importmeta".to_string()),
    };
    assert!(!near_miss.is_meta_decl());
    assert!(!named("x").is_meta_decl());
    assert!(!ImportSpecifier::DefaultImport { local: "x".to_string() }.is_meta_decl());
    assert_eq!(meta_spec("x").get_local_name(), "x");
}
