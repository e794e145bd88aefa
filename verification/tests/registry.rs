use dx_styles::class_set::ClassSet;
use dx_styles::data_manager::{remove_class_maps, update_class_maps, Registry};

fn set_of(names: &[&str]) -> ClassSet {
    let mut set = ClassSet::new();
    for name in names {
        set.insert(name);
    }
    set
}

fn names_of(set: &ClassSet) -> Vec<String> {
    set.to_vec()
}

/// Recounts from the tracked files what the registry keeps as counts.
fn assert_counts_match(registry: &Registry, paths: &[&str], names: &[&str]) {
    for name in names {
        let mut expected = 0;
        for path in paths {
            if let Some(classes) = registry.classes(path) {
                if classes.contains(name) {
                    expected += 1;
                }
            }
        }
        assert_eq!(registry.ref_count(name), expected, "count of {}", name);
        assert_eq!(registry.is_active(name), expected > 0, "activity of {}", name);
        assert_eq!(registry.active().contains(name), expected > 0);
    }
}

#[test]
fn new_registry_tracks_nothing() {
    let registry = Registry::new();
    assert_eq!(registry.file_count(), 0);
    assert!(registry.active().is_empty());
    assert_eq!(registry.ref_count("flex"), 0);
    assert!(!registry.is_active("flex"));
    assert!(!registry.is_tracked("a.tsx"));
    assert!(registry.classes("a.tsx").is_none());
}

#[test]
fn update_reports_file_and_global_deltas() {
    let mut registry = Registry::new();
    let delta = update_class_maps("a.tsx", &set_of(&["flex", "mt-4"]), &mut registry);
    assert_eq!(delta, (2, 0, 2, 0));
    let delta = update_class_maps("b.tsx", &set_of(&["flex", "h-full"]), &mut registry);
    assert_eq!(delta, (2, 0, 1, 0));
    let delta = update_class_maps("a.tsx", &set_of(&["flex", "p-2"]), &mut registry);
    assert_eq!(delta, (1, 1, 1, 1));
    assert_eq!(names_of(registry.active()), vec!["flex", "h-full", "p-2"]);
}

#[test]
fn update_replaces_the_file_set_wholesale() {
    let mut registry = Registry::new();
    update_class_maps("a.tsx", &set_of(&["flex", "mt-4"]), &mut registry);
    update_class_maps("a.tsx", &set_of(&["grid"]), &mut registry);
    let classes = registry.classes("a.tsx").unwrap();
    assert_eq!(names_of(classes), vec!["grid"]);
    assert_eq!(registry.ref_count("flex"), 0);
    assert_eq!(registry.ref_count("grid"), 1);
}

#[test]
fn update_twice_with_the_same_set_yields_zero_deltas() {
    let mut registry = Registry::new();
    update_class_maps("b.tsx", &set_of(&["flex"]), &mut registry);
    let first = update_class_maps("a.tsx", &set_of(&["flex", "mt-4", "p-2"]), &mut registry);
    assert_eq!(first, (3, 0, 2, 0));
    let second = update_class_maps("a.tsx", &set_of(&["flex", "mt-4", "p-2"]), &mut registry);
    assert_eq!(second, (0, 0, 0, 0));
    assert_eq!(registry.ref_count("flex"), 2);
    assert_eq!(registry.ref_count("mt-4"), 1);
    assert_eq!(names_of(registry.active()), vec!["flex", "mt-4", "p-2"]);
}

#[test]
fn update_with_the_empty_set_twice_yields_zero_deltas() {
    let mut registry = Registry::new();
    assert_eq!(update_class_maps("a.tsx", &ClassSet::new(), &mut registry), (0, 0, 0, 0));
    assert_eq!(update_class_maps("a.tsx", &ClassSet::new(), &mut registry), (0, 0, 0, 0));
    assert!(registry.is_tracked("a.tsx"));
}

#[test]
fn counts_equal_the_number_of_referencing_files() {
    let mut registry = Registry::new();
    let paths = ["a.tsx", "b.tsx", "c.jsx"];
    let names = ["flex", "grid", "mt-4", "p-2", "h-full", "absent"];
    update_class_maps("a.tsx", &set_of(&["flex", "mt-4"]), &mut registry);
    assert_counts_match(&registry, &paths, &names);
    update_class_maps("b.tsx", &set_of(&["flex", "h-full", "grid"]), &mut registry);
    assert_counts_match(&registry, &paths, &names);
    update_class_maps("c.jsx", &set_of(&["flex", "grid"]), &mut registry);
    assert_counts_match(&registry, &paths, &names);
    assert_eq!(registry.ref_count("flex"), 3);
    update_class_maps("b.tsx", &set_of(&["p-2"]), &mut registry);
    assert_counts_match(&registry, &paths, &names);
    remove_class_maps("a.tsx", &mut registry);
    assert_counts_match(&registry, &paths, &names);
    remove_class_maps("c.jsx", &mut registry);
    assert_counts_match(&registry, &paths, &names);
    assert_eq!(names_of(registry.active()), vec!["p-2"]);
    assert_eq!(registry.file_count(), 1);
}

#[test]
fn remove_reports_file_and_global_deltas() {
    let mut registry = Registry::new();
    update_class_maps("a.tsx", &set_of(&["flex", "mt-4"]), &mut registry);
    update_class_maps("b.tsx", &set_of(&["flex", "h-full"]), &mut registry);
    assert_eq!(remove_class_maps("a.tsx", &mut registry), Some((2, 1)));
    assert!(!registry.is_tracked("a.tsx"));
    assert_eq!(registry.ref_count("flex"), 1);
    assert_eq!(registry.ref_count("mt-4"), 0);
    assert_eq!(names_of(registry.active()), vec!["flex", "h-full"]);
}

#[test]
fn remove_of_an_untracked_path_changes_nothing() {
    let mut registry = Registry::new();
    update_class_maps("a.tsx", &set_of(&["flex"]), &mut registry);
    assert_eq!(remove_class_maps("b.tsx", &mut registry), None);
    assert_eq!(registry.file_count(), 1);
    assert_eq!(registry.ref_count("flex"), 1);
}

#[test]
fn remove_deletes_the_entry_where_update_with_nothing_keeps_it() {
    let mut registry = Registry::new();
    update_class_maps("a.tsx", &set_of(&["flex"]), &mut registry);
    update_class_maps("a.tsx", &ClassSet::new(), &mut registry);
    assert!(registry.is_tracked("a.tsx"));
    assert!(registry.classes("a.tsx").unwrap().is_empty());
    assert_eq!(remove_class_maps("a.tsx", &mut registry), Some((0, 0)));
    assert!(!registry.is_tracked("a.tsx"));
    assert_eq!(remove_class_maps("a.tsx", &mut registry), None);
}

#[test]
fn clearing_before_removing_gives_the_state_of_removing_alone() {
    let mut cleared = Registry::new();
    let mut direct = Registry::new();
    for registry in [&mut cleared, &mut direct] {
        update_class_maps("a.tsx", &ClassSet::new(), registry);
        update_class_maps("b.tsx", &set_of(&["flex", "grid"]), registry);
    }
    update_class_maps("a.tsx", &ClassSet::new(), &mut cleared);
    remove_class_maps("a.tsx", &mut cleared);
    remove_class_maps("a.tsx", &mut direct);
    assert_eq!(cleared.file_count(), direct.file_count());
    assert_eq!(cleared.is_tracked("a.tsx"), direct.is_tracked("a.tsx"));
    assert_eq!(names_of(cleared.active()), names_of(direct.active()));
    for name in ["flex", "grid", "mt-4"] {
        assert_eq!(cleared.ref_count(name), direct.ref_count(name));
    }
    assert_eq!(names_of(cleared.classes("b.tsx").unwrap()), names_of(direct.classes("b.tsx").unwrap()));
}

#[test]
fn clearing_a_file_with_names_before_removing_gives_the_same_state_too() {
    let mut cleared = Registry::new();
    let mut direct = Registry::new();
    for registry in [&mut cleared, &mut direct] {
        update_class_maps("a.tsx", &set_of(&["flex", "mt-4"]), registry);
        update_class_maps("b.tsx", &set_of(&["flex"]), registry);
    }
    assert_eq!(update_class_maps("a.tsx", &ClassSet::new(), &mut cleared), (0, 2, 0, 1));
    assert_eq!(remove_class_maps("a.tsx", &mut cleared), Some((0, 0)));
    assert_eq!(remove_class_maps("a.tsx", &mut direct), Some((2, 1)));
    assert_eq!(names_of(cleared.active()), names_of(direct.active()));
    assert_eq!(cleared.ref_count("flex"), 1);
    assert_eq!(direct.ref_count("flex"), 1);
    assert_eq!(cleared.file_count(), direct.file_count());
}

#[test]
fn two_files_share_a_name_until_both_let_go() {
    let mut registry = Registry::new();
    update_class_maps("a.tsx", &set_of(&["flex"]), &mut registry);
    update_class_maps("b.tsx", &set_of(&["flex"]), &mut registry);
    assert_eq!(update_class_maps("a.tsx", &ClassSet::new(), &mut registry), (0, 1, 0, 0));
    assert!(registry.is_active("flex"));
    assert_eq!(update_class_maps("b.tsx", &ClassSet::new(), &mut registry), (0, 1, 0, 1));
    assert!(!registry.is_active("flex"));
    assert!(registry.active().is_empty());
}

#[test]
fn paths_are_told_apart_letter_by_letter() {
    let mut registry = Registry::new();
    update_class_maps("src/a.tsx", &set_of(&["flex"]), &mut registry);
    update_class_maps("src/A.tsx", &set_of(&["flex"]), &mut registry);
    assert_eq!(registry.file_count(), 2);
    assert_eq!(registry.ref_count("flex"), 2);
}
