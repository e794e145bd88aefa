use dx_styles::data_manager::{update_class_maps, Registry};
use dx_styles::engine::{GeneratorRule, StyleEngine, StyleRecord};
use dx_styles::parser::{
    parse_classnames, Attribute, AttributeValue, Element, Expression, Parsed, Statement,
};
use dx_styles::watcher::{process_file_change, process_file_remove, process_scan};

fn times(literal: &str, bits: u32) -> Option<String> {
    literal.parse::<f32>().ok().map(|value| format!("{}", value * f32::from_bits(bits)))
}

fn engine() -> StyleEngine {
    StyleEngine::new(
        vec![
            StyleRecord { name: "flex".to_string(), css: "display: flex;".to_string() },
            StyleRecord { name: "h-full".to_string(), css: "height: 100%;".to_string() },
        ],
        vec![GeneratorRule {
            prefix: "mt".to_string(),
            property: "margin-top".to_string(),
            multiplier_bits: 0.25f32.to_bits(),
            unit: "rem".to_string(),
        }],
    )
}

fn file_with(classes: &str) -> Parsed {
    Parsed {
        program: vec![Statement::Expression(Expression::Element(Element {
            attributes: vec![Attribute::Named(
                "className".to_string(),
                AttributeValue::Literal(classes.to_string()),
            )],
            children: vec![],
        }))],
        errors: 0,
    }
}

const FLEX: &str = ".flex {\n    display: flex;\n}\n";
const H_FULL: &str = ".h-full {\n    height: 100%;\n}\n";
const MT_4: &str = ".mt-4 {\n    margin-top: 1rem;\n}\n";

#[test]
fn two_files_then_one_deleted() {
    let engine = engine();
    let mut registry = Registry::new();

    let a = process_file_change("A.tsx", Some(&file_with("flex mt-4")), &mut registry, &engine, &times);
    assert_eq!((a.added_in_file, a.removed_in_file, a.added_in_global, a.removed_in_global), (2, 0, 2, 0));
    assert_eq!(a.stylesheet, Some(format!("{}{}", FLEX, MT_4)));

    let b = process_file_change("B.tsx", Some(&file_with("flex h-full")), &mut registry, &engine, &times);
    assert_eq!((b.added_in_file, b.removed_in_file, b.added_in_global, b.removed_in_global), (2, 0, 1, 0));
    assert_eq!(b.stylesheet, Some(format!("{}{}{}", FLEX, H_FULL, MT_4)));

    assert_eq!(registry.active().to_vec(), vec!["flex", "h-full", "mt-4"]);
    assert_eq!(registry.ref_count("flex"), 2);

    let gone = process_file_remove("A.tsx", &mut registry, &engine, &times).unwrap();
    assert_eq!((gone.added_in_file, gone.removed_in_file, gone.added_in_global, gone.removed_in_global), (0, 2, 0, 1));
    assert_eq!(registry.active().to_vec(), vec!["flex", "h-full"]);
    assert_eq!(registry.ref_count("flex"), 1);
    assert_eq!(gone.stylesheet, Some(format!("{}{}", FLEX, H_FULL)));

    assert!(process_file_remove("A.tsx", &mut registry, &engine, &times).is_none());
}

#[test]
fn change_that_leaves_the_active_set_alone_writes_nothing() {
    let engine = engine();
    let mut registry = Registry::new();
    process_file_change("A.tsx", Some(&file_with("flex mt-4")), &mut registry, &engine, &times);
    let again = process_file_change("A.tsx", Some(&file_with("mt-4   flex")), &mut registry, &engine, &times);
    assert_eq!(
        (again.added_in_file, again.removed_in_file, again.added_in_global, again.removed_in_global),
        (0, 0, 0, 0)
    );
    assert!(again.stylesheet.is_none());
    let other = process_file_change("B.tsx", Some(&file_with("flex")), &mut registry, &engine, &times);
    assert_eq!(
        (other.added_in_file, other.removed_in_file, other.added_in_global, other.removed_in_global),
        (1, 0, 0, 0)
    );
    assert!(other.stylesheet.is_none());
}

#[test]
fn unknown_names_change_the_active_set_and_write_the_known_rules() {
    let engine = engine();
    let mut registry = Registry::new();
    let change = process_file_change("A.tsx", Some(&file_with("btn flex")), &mut registry, &engine, &times);
    assert_eq!(change.added_in_global, 2);
    assert_eq!(change.stylesheet, Some(FLEX.to_string()));
    let change = process_file_change("A.tsx", Some(&file_with("flex")), &mut registry, &engine, &times);
    assert_eq!(change.removed_in_global, 1);
    assert_eq!(change.stylesheet, Some(FLEX.to_string()));
}

#[test]
fn unreadable_or_broken_file_contributes_nothing() {
    let engine = engine();
    let mut registry = Registry::new();
    process_file_change("A.tsx", Some(&file_with("flex")), &mut registry, &engine, &times);
    let broken = Parsed { program: file_with("flex mt-4").program, errors: 2 };
    let change = process_file_change("A.tsx", Some(&broken), &mut registry, &engine, &times);
    assert_eq!(
        (change.added_in_file, change.removed_in_file, change.added_in_global, change.removed_in_global),
        (0, 1, 0, 1)
    );
    assert_eq!(change.stylesheet, Some(String::new()));
    assert!(registry.is_tracked("A.tsx"));
    let change = process_file_change("B.tsx", None, &mut registry, &engine, &times);
    assert_eq!(
        (change.added_in_file, change.removed_in_file, change.added_in_global, change.removed_in_global),
        (0, 0, 0, 0)
    );
    assert!(change.stylesheet.is_none());
    assert!(registry.is_tracked("B.tsx"));
}

#[test]
fn removal_that_frees_no_name_writes_nothing() {
    let engine = engine();
    let mut registry = Registry::new();
    process_file_change("A.tsx", Some(&file_with("flex")), &mut registry, &engine, &times);
    process_file_change("B.tsx", Some(&file_with("flex")), &mut registry, &engine, &times);
    let gone = process_file_remove("B.tsx", &mut registry, &engine, &times).unwrap();
    assert_eq!((gone.removed_in_file, gone.removed_in_global), (1, 0));
    assert!(gone.stylesheet.is_none());
    let gone = process_file_remove("A.tsx", &mut registry, &engine, &times).unwrap();
    assert_eq!((gone.removed_in_file, gone.removed_in_global), (1, 1));
    assert_eq!(gone.stylesheet, Some(String::new()));
}

#[test]
fn first_scan_writes_the_stylesheet_and_counts_the_active_names() {
    let engine = engine();
    let mut registry = Registry::new();
    let mut total = 0;
    for (path, classes) in [("A.tsx", "flex mt-4"), ("B.tsx", "flex h-full"), ("C.tsx", "")] {
        let parsed = file_with(classes);
        total += update_class_maps(path, &parse_classnames(Some(&parsed)), &mut registry).0;
    }
    let change = process_scan(total, &registry, &engine, &times);
    assert_eq!(
        (change.added_in_file, change.removed_in_file, change.added_in_global, change.removed_in_global),
        (4, 0, 3, 0)
    );
    assert_eq!(change.stylesheet, Some(format!("{}{}{}", FLEX, H_FULL, MT_4)));
}

#[test]
fn first_scan_of_nothing_writes_an_empty_stylesheet() {
    let change = process_scan(0, &Registry::new(), &engine(), &times);
    assert_eq!(
        (change.added_in_file, change.removed_in_file, change.added_in_global, change.removed_in_global),
        (0, 0, 0, 0)
    );
    assert_eq!(change.stylesheet, Some(String::new()));
}
