use dx_styles::compiler::{compile, split_compound_key, DynamicEntry, Entry, GeneratorEntry, StyleConfig};
use dx_styles::engine::StyleEngine;

fn entry(key: &str, value: &str) -> Entry {
    Entry { key: key.to_string(), value: value.to_string() }
}

fn dynamic(key: &str, values: &[(&str, &str)]) -> DynamicEntry {
    DynamicEntry { key: key.to_string(), values: values.iter().map(|(k, v)| entry(k, v)).collect() }
}

fn generator(key: &str, multiplier: f32, unit: &str) -> GeneratorEntry {
    GeneratorEntry { key: key.to_string(), multiplier_bits: multiplier.to_bits(), unit: unit.to_string() }
}

fn styles_of(config: &StyleConfig) -> Vec<(String, String)> {
    compile(config).styles.iter().map(|s| (s.name.clone(), s.css.clone())).collect()
}

fn pairs(styles: &[(&str, &str)]) -> Vec<(String, String)> {
    styles.iter().map(|(n, c)| (n.to_string(), c.to_string())).collect()
}

#[test]
fn compound_key_splits_at_its_one_separator() {
    assert_eq!(split_compound_key("mt|margin-top"), Some(("mt", "margin-top")));
    assert_eq!(split_compound_key("|"), Some(("", "")));
    assert_eq!(split_compound_key("a|"), Some(("a", "")));
    assert_eq!(split_compound_key("|b"), Some(("", "b")));
    assert_eq!(split_compound_key("é|日本"), Some(("é", "日本")));
}

#[test]
fn compound_key_without_one_separator_is_malformed() {
    assert_eq!(split_compound_key("mt"), None);
    assert_eq!(split_compound_key(""), None);
    assert_eq!(split_compound_key("a|b|c"), None);
    assert_eq!(split_compound_key("||"), None);
}

#[test]
fn empty_configuration_gives_an_empty_artifact() {
    let artifact = compile(&StyleConfig { statics: vec![], dynamics: vec![], generators: vec![] });
    assert!(artifact.styles.is_empty());
    assert!(artifact.generators.is_empty());
}

#[test]
fn static_styles_are_sorted_by_name() {
    let config = StyleConfig {
        statics: vec![entry("grid", "display: grid;"), entry("block", "display: block;"), entry("flex", "display: flex;")],
        dynamics: vec![],
        generators: vec![],
    };
    assert_eq!(
        styles_of(&config),
        pairs(&[("block", "display: block;"), ("flex", "display: flex;"), ("grid", "display: grid;")])
    );
}

#[test]
fn dynamic_entries_expand_to_one_style_for_each_suffix() {
    let config = StyleConfig {
        statics: vec![entry("flex", "display: flex;")],
        dynamics: vec![dynamic("h|height", &[("full", "100%"), ("auto", "auto")]), dynamic("w|width", &[])],
        generators: vec![],
    };
    assert_eq!(
        styles_of(&config),
        pairs(&[("flex", "display: flex;"), ("h-auto", "height: auto;"), ("h-full", "height: 100%;")])
    );
}

#[test]
fn malformed_dynamic_keys_are_skipped() {
    let config = StyleConfig {
        statics: vec![],
        dynamics: vec![
            dynamic("height", &[("full", "100%")]),
            dynamic("a|b|c", &[("x", "y")]),
            dynamic("w|width", &[("full", "100%")]),
        ],
        generators: vec![],
    };
    assert_eq!(styles_of(&config), pairs(&[("w-full", "width: 100%;")]));
}

#[test]
fn styles_of_one_name_keep_their_order() {
    let config = StyleConfig {
        statics: vec![entry("h-full", "first"), entry("a", "x"), entry("h-full", "second")],
        dynamics: vec![dynamic("h|height", &[("full", "100%")])],
        generators: vec![],
    };
    assert_eq!(
        styles_of(&config),
        pairs(&[("a", "x"), ("h-full", "first"), ("h-full", "second"), ("h-full", "height: 100%;")])
    );
}

#[test]
fn sorting_follows_the_bytes_of_the_names() {
    let names = ["b", "a", "B", "é", "z", "mt-10", "mt-2", "", "日本", "a-b", "a b"];
    let config = StyleConfig {
        statics: names.iter().map(|n| entry(n, "x")).collect(),
        dynamics: vec![],
        generators: vec![],
    };
    let mut expected: Vec<String> = names.iter().map(|n| n.to_string()).collect();
    expected.sort();
    let got: Vec<String> = compile(&config).styles.iter().map(|s| s.name.clone()).collect();
    assert_eq!(got, expected);
}

#[test]
fn generators_keep_the_order_of_the_configuration() {
    let config = StyleConfig {
        statics: vec![],
        dynamics: vec![],
        generators: vec![
            generator("p|padding", 0.25, "rem"),
            generator("broken", 1.0, "px"),
            generator("mt|margin-top", 0.5, "em"),
            generator("a|b|c", 1.0, "px"),
        ],
    };
    let artifact = compile(&config);
    let rules: Vec<(String, String, u32, String)> = artifact
        .generators
        .iter()
        .map(|r| (r.prefix.clone(), r.property.clone(), r.multiplier_bits, r.unit.clone()))
        .collect();
    assert_eq!(
        rules,
        vec![
            ("p".to_string(), "padding".to_string(), 0.25f32.to_bits(), "rem".to_string()),
            ("mt".to_string(), "margin-top".to_string(), 0.5f32.to_bits(), "em".to_string()),
        ]
    );
}

#[test]
fn compiled_artifact_feeds_the_engine() {
    let config = StyleConfig {
        statics: vec![entry("flex", "display: flex;")],
        dynamics: vec![dynamic("h|height", &[("full", "100%")])],
        generators: vec![generator("mt|margin-top", 0.25, "rem")],
    };
    let artifact = compile(&config);
    let engine = StyleEngine::new(artifact.styles, artifact.generators);
    let number = |literal: &str, bits: u32| -> Option<String> {
        literal.parse::<f32>().ok().map(|value| format!("{}", value * f32::from_bits(bits)))
    };
    assert_eq!(engine.resolve("flex", &number), Some("display: flex;".to_string()));
    assert_eq!(engine.resolve("h-full", &number), Some("height: 100%;".to_string()));
    assert_eq!(engine.resolve("mt-4", &number), Some("margin-top: 1rem;".to_string()));
    assert_eq!(engine.resolve("mt-abc", &number), None);
}
