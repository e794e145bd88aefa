use dx_styles::class_set::ClassSet;
use dx_styles::engine::{GeneratorRule, StyleEngine, StyleRecord};
use dx_styles::generator::generate_css;

fn number(literal: &str, bits: u32) -> Option<String> {
    literal.parse::<f32>().ok().map(|value| format!("{}", value * f32::from_bits(bits)))
}

fn engine_of(styles: &[(&str, &str)], rules: &[(&str, &str, f32, &str)]) -> StyleEngine {
    StyleEngine::new(
        styles.iter().map(|(name, css)| StyleRecord { name: name.to_string(), css: css.to_string() }).collect(),
        rules
            .iter()
            .map(|(prefix, property, multiplier, unit)| GeneratorRule {
                prefix: prefix.to_string(),
                property: property.to_string(),
                multiplier_bits: multiplier.to_bits(),
                unit: unit.to_string(),
            })
            .collect(),
    )
}

fn in_turn(names: &[&str]) -> ClassSet {
    let mut set = ClassSet::new();
    for name in names {
        set.insert(name);
    }
    set
}

#[test]
fn render_gives_one_rule_for_the_one_known_name() {
    let engine = engine_of(&[("flex", "display: flex;")], &[]);
    let expected = ".flex {\n    display: flex;\n}\n";
    assert_eq!(generate_css(&in_turn(&["flex", "unknown-x"]), &engine, &number), expected);
    assert_eq!(generate_css(&in_turn(&["unknown-x", "flex"]), &engine, &number), expected);
}

#[test]
fn render_of_no_names_is_empty() {
    let engine = engine_of(&[("flex", "display: flex;")], &[]);
    assert_eq!(generate_css(&ClassSet::new(), &engine, &number), "");
}

#[test]
fn render_of_unknown_names_only_is_empty() {
    let engine = engine_of(&[("flex", "display: flex;")], &[("mt", "margin-top", 0.25, "rem")]);
    assert_eq!(generate_css(&in_turn(&["unknown-x", "mt-abc", "btn"]), &engine, &number), "");
}

#[test]
fn render_sorts_the_names() {
    let engine = engine_of(
        &[("flex", "display: flex;"), ("h-full", "height: 100%;"), ("block", "display: block;")],
        &[("mt", "margin-top", 0.25, "rem")],
    );
    let expected = ".block {\n    display: block;\n}\n.flex {\n    display: flex;\n}\n.h-full {\n    height: 100%;\n}\n.mt-10 {\n    margin-top: 2.5rem;\n}\n.mt-4 {\n    margin-top: 1rem;\n}\n";
    let orders: [&[&str]; 3] = [
        &["mt-4", "h-full", "flex", "block", "mt-10"],
        &["block", "flex", "h-full", "mt-10", "mt-4"],
        &["mt-10", "mt-4", "block", "h-full", "flex", "flex"],
    ];
    for order in orders {
        assert_eq!(generate_css(&in_turn(order), &engine, &number), expected);
    }
}
