//! The style artifact compiler: from a style configuration to the styles,
//! sorted by name, and the generator rules of an artifact.

use vstd::prelude::*;
use vstd::string::*;
use crate::engine::{GeneratorRule, RuleView, StyleRecord, StyleView};
use crate::text::{
    chars_of, compare, lemma_precedes_asymmetric, lemma_precedes_total, lemma_precedes_transitive, precedes,
    Order,
};

verus! {

/// An entry of a section: a key with its text.
#[derive(Debug)]
pub struct Entry {
    pub key: String,
    pub value: String,
}

/// An entry of the `dynamic` section: under the key `prefix|property`, for
/// each suffix the value of the property.
#[derive(Debug)]
pub struct DynamicEntry {
    pub key: String,
    pub values: Vec<Entry>,
}

/// An entry of the `generators` section: under the key `prefix|property`,
/// the multiplier, held by its bits as a 32-bit float, and the unit.
#[derive(Debug)]
pub struct GeneratorEntry {
    pub key: String,
    pub multiplier_bits: u32,
    pub unit: String,
}

/// A style configuration, each section in the order it is read in.
#[derive(Debug)]
pub struct StyleConfig {
    pub statics: Vec<Entry>,
    pub dynamics: Vec<DynamicEntry>,
    pub generators: Vec<GeneratorEntry>,
}

/// What the compiler gives: the styles, sorted by name, and the generator
/// rules, in the order of the configuration.
#[derive(Debug)]
pub struct StyleArtifact {
    pub styles: Vec<StyleRecord>,
    pub generators: Vec<GeneratorRule>,
}

/// The place of the separator in a well-formed compound key: the one `|`.
pub open spec fn separator_at(key: Seq<char>, k: int) -> bool {
    &&& 0 <= k < key.len()
    &&& key[k] == '|'
    &&& forall|j: int| 0 <= j < key.len() && j != k ==> key[j] != '|'
}

/// The two parts of a compound key; none for a key that does not hold
/// exactly one separator.
pub open spec fn split_key(key: Seq<char>) -> Option<(Seq<char>, Seq<char>)> {
    if exists|k: int| separator_at(key, k) {
        let k = choose|k: int| separator_at(key, k);
        Some((key.subrange(0, k), key.subrange(k + 1, key.len() as int)))
    } else {
        None
    }
}

/// The style of a static entry.
pub open spec fn static_style(key: Seq<char>, value: Seq<char>) -> StyleView {
    StyleView { name: key, css: value }
}

/// The style of one suffix of a dynamic entry.
pub open spec fn dynamic_style(
    prefix: Seq<char>,
    property: Seq<char>,
    suffix: Seq<char>,
    value: Seq<char>,
) -> StyleView {
    StyleView { name: prefix + "-"@ + suffix, css: property + ": "@ + value + ";"@ }
}

/// The styles of the static entries, in their order.
pub open spec fn static_styles(statics: Seq<Entry>) -> Seq<StyleView>
    decreases statics.len(),
{
    if statics.len() == 0 {
        Seq::empty()
    } else {
        static_styles(statics.drop_last()).push(static_style(statics.last().key@, statics.last().value@))
    }
}

/// The styles of the suffixes of one dynamic entry, in their order.
pub open spec fn suffix_styles(prefix: Seq<char>, property: Seq<char>, values: Seq<Entry>) -> Seq<StyleView>
    decreases values.len(),
{
    if values.len() == 0 {
        Seq::empty()
    } else {
        suffix_styles(prefix, property, values.drop_last()).push(
            dynamic_style(prefix, property, values.last().key@, values.last().value@),
        )
    }
}

/// The styles of one dynamic entry; none where its key is malformed.
pub open spec fn entry_styles(entry: DynamicEntry) -> Seq<StyleView> {
    match split_key(entry.key@) {
        Some((prefix, property)) => suffix_styles(prefix, property, entry.values@),
        None => Seq::empty(),
    }
}

/// The styles of the dynamic entries, in their order.
pub open spec fn dynamic_styles(dynamics: Seq<DynamicEntry>) -> Seq<StyleView>
    decreases dynamics.len(),
{
    if dynamics.len() == 0 {
        Seq::empty()
    } else {
        dynamic_styles(dynamics.drop_last()) + entry_styles(dynamics.last())
    }
}

/// The generator rules of the configuration, in its order; an entry with a
/// malformed key gives none.
pub open spec fn generator_rules(generators: Seq<GeneratorEntry>) -> Seq<RuleView>
    decreases generators.len(),
{
    if generators.len() == 0 {
        Seq::empty()
    } else {
        let head = generator_rules(generators.drop_last());
        let entry = generators.last();
        match split_key(entry.key@) {
            Some((prefix, property)) => head.push(
                RuleView { prefix, property, multiplier_bits: entry.multiplier_bits, unit: entry.unit@ },
            ),
            None => head,
        }
    }
}

/// The styles of a configuration before they are sorted: the static ones,
/// then those of the dynamic entries.
pub open spec fn config_styles(config: StyleConfig) -> Seq<StyleView> {
    static_styles(config.statics@) + dynamic_styles(config.dynamics@)
}

/// No style stands before one whose name precedes its own.
pub open spec fn sorted_by_name(styles: Seq<StyleView>) -> bool {
    forall|i: int, j: int| 0 <= i < j < styles.len() ==> !precedes(styles[j].name, styles[i].name)
}

/// The styles of the name `name`, in their order.
pub open spec fn of_name(styles: Seq<StyleView>, name: Seq<char>) -> Seq<StyleView>
    decreases styles.len(),
{
    if styles.len() == 0 {
        Seq::empty()
    } else {
        let head = of_name(styles.drop_last(), name);
        if styles.last().name == name {
            head.push(styles.last())
        } else {
            head
        }
    }
}

/// `sorted` holds the styles of `styles` in ascending order of their names,
/// those of one name in the order they have in `styles`.
pub open spec fn is_sorted_form(sorted: Seq<StyleView>, styles: Seq<StyleView>) -> bool {
    &&& sorted_by_name(sorted)
    &&& forall|name: Seq<char>| #[trigger] of_name(sorted, name) == of_name(styles, name)
}

proof fn lemma_of_name_concat(a: Seq<StyleView>, b: Seq<StyleView>, name: Seq<char>)
    ensures
        of_name(a + b, name) == of_name(a, name) + of_name(b, name),
    decreases b.len(),
{
    if b.len() == 0 {
        assert(a + b =~= a);
        assert(of_name(a, name) + of_name(b, name) =~= of_name(a, name));
    } else {
        lemma_of_name_concat(a, b.drop_last(), name);
        assert((a + b).drop_last() =~= a + b.drop_last());
        assert((a + b).last() == b.last());
        assert(of_name(a + b, name) =~= of_name(a, name) + of_name(b, name));
    }
}

proof fn lemma_of_name_absent(styles: Seq<StyleView>, name: Seq<char>)
    requires
        forall|i: int| 0 <= i < styles.len() ==> styles[i].name != name,
    ensures
        of_name(styles, name) == Seq::<StyleView>::empty(),
    decreases styles.len(),
{
    if styles.len() > 0 {
        lemma_of_name_absent(styles.drop_last(), name);
    }
}

proof fn lemma_not_after_transitive(a: Seq<char>, b: Seq<char>, c: Seq<char>)
    requires
        !precedes(b, a),
        !precedes(c, b),
    ensures
        !precedes(c, a),
{
    lemma_precedes_total(a, b);
    lemma_precedes_total(b, c);
    if precedes(c, a) {
        if precedes(a, b) && precedes(b, c) {
            lemma_precedes_transitive(b, c, a);
        }
    }
}

/// Whether the name `a` comes after the name `b`.
fn follows(a: &str, b: &str) -> (after: bool)
    ensures
        after == precedes(b@, a@),
{
    match compare(a, b) {
        Order::After => true,
        _ => false,
    }
}

/// Puts `style` into the sorted `styles`: behind the styles whose names do
/// not come after its own.
fn insert_sorted(styles: &mut Vec<StyleRecord>, style: StyleRecord, Ghost(input): Ghost<Seq<StyleView>>)
    requires
        is_sorted_form(old(styles)@.map_values(|s: StyleRecord| s@), input),
    ensures
        is_sorted_form(final(styles)@.map_values(|s: StyleRecord| s@), input.push(style@)),
{
    let ghost before = styles@.map_values(|s: StyleRecord| s@);
    let mut at: usize = styles.len();
    while at > 0 && follows(styles[at - 1].name.as_str(), style.name.as_str())
        invariant
            at <= styles.len(),
            styles@.map_values(|s: StyleRecord| s@) == before,
            forall|j: int| at <= j < before.len() ==> precedes(style@.name, #[trigger] before[j].name),
        decreases at,
    {
        assert(before[at - 1] == styles@[at - 1]@);
        at -= 1;
    }
    proof {
        if at > 0 {
            assert(before[at - 1] == styles@[at - 1]@);
            assert forall|j: int| 0 <= j < at implies !precedes(style@.name, #[trigger] before[j].name) by {
                if j < at - 1 {
                    lemma_not_after_transitive(before[j].name, before[at - 1].name, style@.name);
                }
            }
        }
    }
    styles.insert(at, style);
    proof {
        let after = styles@.map_values(|s: StyleRecord| s@);
        assert(after =~= before.insert(at as int, style@));
        assert forall|i: int, j: int| 0 <= i < j < after.len() implies !precedes(
            after[j].name,
            after[i].name,
        ) by {
            let p = if i < at { i } else { i - 1 };
            let q = if j < at { j } else { j - 1 };
            if i == at {
                assert(after[j] == before[q]);
                lemma_precedes_asymmetric(style@.name, before[q].name);
            } else if j == at {
                assert(after[i] == before[p]);
            } else {
                assert(after[i] == before[p] && after[j] == before[q]);
            }
        }
        assert forall|name: Seq<char>| #[trigger] of_name(after, name) == of_name(input.push(style@), name) by {
            let front = before.subrange(0, at as int);
            let back = before.subrange(at as int, before.len() as int);
            assert(before =~= front + back);
            assert(after =~= (front + seq![style@]) + back);
            lemma_of_name_concat(front, back, name);
            lemma_of_name_concat(front + seq![style@], back, name);
            lemma_of_name_concat(front, seq![style@], name);
            assert(input.push(style@).drop_last() =~= input);
            assert(seq![style@].drop_last() =~= Seq::<StyleView>::empty());
            assert(of_name(Seq::<StyleView>::empty(), name) =~= Seq::<StyleView>::empty());
            if style@.name == name {
                assert forall|i: int| 0 <= i < back.len() implies back[i].name != name by {
                    assert(back[i] == before[at + i]);
                    lemma_precedes_asymmetric(style@.name, before[at + i].name);
                }
                lemma_of_name_absent(back, name);
                assert(of_name(seq![style@], name) =~= seq![style@]);
                assert(of_name(after, name) =~= of_name(before, name).push(style@));
            } else {
                assert(of_name(seq![style@], name) =~= Seq::<StyleView>::empty());
                assert(of_name(after, name) =~= of_name(before, name));
            }
        }
    }
}

/// Splits a compound key at its separator; none for a key that does not
/// hold exactly one.
pub fn split_compound_key<'a>(key: &'a str) -> (parts: Option<(&'a str, &'a str)>)
    ensures
        match parts {
            Some((prefix, property)) => split_key(key@) == Some((prefix@, property@)),
            None => split_key(key@) is None,
        },
{
    let chars = chars_of(key);
    let mut found: Option<usize> = None;
    let mut i: usize = 0;
    while i < chars.len()
        invariant
            i <= chars.len(),
            chars@ == key@,
            match found {
                Some(k) => k < i && key@[k as int] == '|' && forall|j: int|
                    0 <= j < i && j != k ==> key@[j] != '|',
                None => forall|j: int| 0 <= j < i ==> key@[j] != '|',
            },
        decreases chars.len() - i,
    {
        if chars[i] == '|' {
            match found {
                Some(k) => {
                    assert forall|m: int| !separator_at(key@, m) by {
                        if m != k as int {
                            assert(key@[k as int] == '|');
                        } else {
                            assert(key@[i as int] == '|');
                        }
                    }
                    return None;
                },
                None => {
                    found = Some(i);
                },
            }
        }
        i += 1;
    }
    match found {
        Some(k) => {
            assert(separator_at(key@, k as int));
            let ghost chosen = choose|m: int| separator_at(key@, m);
            assert(chosen == k);
            Some((key.substring_char(0, k), key.substring_char(k + 1, chars.len())))
        },
        None => {
            assert forall|m: int| !separator_at(key@, m) by {}
            None
        },
    }
}

/// Compiles a style configuration: the static styles and those of the
/// dynamic entries, sorted ascending by name, and the generator rules in
/// the order of the configuration. An entry with a malformed key is skipped.
pub fn compile(config: &StyleConfig) -> (artifact: StyleArtifact)
    ensures
        is_sorted_form(artifact.styles@.map_values(|s: StyleRecord| s@), config_styles(*config)),
        artifact.generators@.map_values(|r: GeneratorRule| r@) == generator_rules(config.generators@),
{
    let mut styles: Vec<StyleRecord> = Vec::new();
    let ghost mut input: Seq<StyleView> = Seq::empty();
    assert(styles@.map_values(|s: StyleRecord| s@) =~= Seq::<StyleView>::empty());
    let mut i: usize = 0;
    assert(config.statics@.take(0) =~= Seq::<Entry>::empty());
    while i < config.statics.len()
        invariant
            i <= config.statics.len(),
            input == static_styles(config.statics@.take(i as int)),
            is_sorted_form(styles@.map_values(|s: StyleRecord| s@), input),
        decreases config.statics.len() - i,
    {
        let entry = &config.statics[i];
        proof {
            assert(config.statics@.take(i + 1).drop_last() =~= config.statics@.take(i as int));
            assert(config.statics@.take(i + 1).last() == *entry);
        }
        insert_sorted(
            &mut styles,
            StyleRecord { name: entry.key.clone(), css: entry.value.clone() },
            Ghost(input),
        );
        proof {
            input = input.push(static_style(entry.key@, entry.value@));
        }
        i += 1;
    }
    assert(config.statics@.take(config.statics.len() as int) =~= config.statics@);
    let ghost statics = input;
    let mut d: usize = 0;
    proof {
        assert(config.dynamics@.take(0) =~= Seq::<DynamicEntry>::empty());
        assert(input =~= statics + dynamic_styles(config.dynamics@.take(0)));
    }
    while d < config.dynamics.len()
        invariant
            d <= config.dynamics.len(),
            statics == static_styles(config.statics@),
            input == statics + dynamic_styles(config.dynamics@.take(d as int)),
            is_sorted_form(styles@.map_values(|s: StyleRecord| s@), input),
        decreases config.dynamics.len() - d,
    {
        let entry = &config.dynamics[d];
        let ghost done = input;
        proof {
            assert(config.dynamics@.take(d + 1).drop_last() =~= config.dynamics@.take(d as int));
            assert(config.dynamics@.take(d + 1).last() == *entry);
        }
        match split_compound_key(entry.key.as_str()) {
            Some((prefix, property)) => {
                let mut v: usize = 0;
                proof {
                    assert(entry.values@.take(0) =~= Seq::<Entry>::empty());
                    assert(input =~= done + suffix_styles(prefix@, property@, entry.values@.take(0)));
                }
                while v < entry.values.len()
                    invariant
                        v <= entry.values.len(),
                        input == done + suffix_styles(prefix@, property@, entry.values@.take(v as int)),
                        is_sorted_form(styles@.map_values(|s: StyleRecord| s@), input),
                    decreases entry.values.len() - v,
                {
                    let value = &entry.values[v];
                    proof {
                        assert(entry.values@.take(v + 1).drop_last() =~= entry.values@.take(v as int));
                        assert(entry.values@.take(v + 1).last() == *value);
                    }
                    let mut name = prefix.to_owned();
                    name.append("-");
                    name.append(value.key.as_str());
                    let mut css = property.to_owned();
                    css.append(": ");
                    css.append(value.value.as_str());
                    css.append(";");
                    let style = StyleRecord { name, css };
                    assert(style@ == dynamic_style(prefix@, property@, value.key@, value.value@));
                    insert_sorted(&mut styles, style, Ghost(input));
                    proof {
                        input = input.push(dynamic_style(prefix@, property@, value.key@, value.value@));
                        assert(input =~= done + suffix_styles(
                            prefix@,
                            property@,
                            entry.values@.take(v + 1),
                        ));
                    }
                    v += 1;
                }
                proof {
                    assert(entry.values@.take(entry.values.len() as int) =~= entry.values@);
                    assert(input =~= statics + dynamic_styles(config.dynamics@.take(d + 1)));
                }
            },
            None => {
                assert(input =~= statics + dynamic_styles(config.dynamics@.take(d + 1)));
            },
        }
        d += 1;
    }
    assert(config.dynamics@.take(config.dynamics.len() as int) =~= config.dynamics@);
    let mut generators: Vec<GeneratorRule> = Vec::new();
    let mut g: usize = 0;
    proof {
        assert(config.generators@.take(0) =~= Seq::<GeneratorEntry>::empty());
        assert(generators@.map_values(|r: GeneratorRule| r@) =~= generator_rules(config.generators@.take(0)));
    }
    while g < config.generators.len()
        invariant
            g <= config.generators.len(),
            generators@.map_values(|r: GeneratorRule| r@) == generator_rules(
                config.generators@.take(g as int),
            ),
        decreases config.generators.len() - g,
    {
        let entry = &config.generators[g];
        let ghost head = generators@.map_values(|r: GeneratorRule| r@);
        proof {
            assert(config.generators@.take(g + 1).drop_last() =~= config.generators@.take(g as int));
            assert(config.generators@.take(g + 1).last() == *entry);
        }
        match split_compound_key(entry.key.as_str()) {
            Some((prefix, property)) => {
                let rule = GeneratorRule {
                    prefix: prefix.to_owned(),
                    property: property.to_owned(),
                    multiplier_bits: entry.multiplier_bits,
                    unit: entry.unit.clone(),
                };
                generators.push(rule);
                assert(generators@.map_values(|r: GeneratorRule| r@) =~= head.push(rule@));
            },
            None => {},
        }
        g += 1;
    }
    assert(config.generators@.take(config.generators.len() as int) =~= config.generators@);
    StyleArtifact { styles, generators }
}

} // verus!
