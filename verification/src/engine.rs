//! The style resolution engine: from a class name to its CSS declaration,
//! by the precompiled styles first and by the generator rules after them.

use vstd::prelude::*;
use vstd::hash_map::StringHashMap;
use vstd::string::*;
use crate::text::chars_of;

verus! {

/// An exact-match style: the declarations of one class name.
#[derive(Debug)]
pub struct StyleRecord {
    pub name: String,
    pub css: String,
}

/// A rule that derives a declaration from the number a class name ends in.
/// The multiplier is held by its bits as a 32-bit float.
#[derive(Debug)]
pub struct GeneratorRule {
    pub prefix: String,
    pub property: String,
    pub multiplier_bits: u32,
    pub unit: String,
}

/// A style as specifications see it.
pub struct StyleView {
    pub name: Seq<char>,
    pub css: Seq<char>,
}

/// A generator rule as specifications see it.
pub struct RuleView {
    pub prefix: Seq<char>,
    pub property: Seq<char>,
    pub multiplier_bits: u32,
    pub unit: Seq<char>,
}

impl View for StyleRecord {
    type V = StyleView;

    open spec fn view(&self) -> StyleView {
        StyleView { name: self.name@, css: self.css@ }
    }
}

impl View for GeneratorRule {
    type V = RuleView;

    open spec fn view(&self) -> RuleView {
        RuleView {
            prefix: self.prefix@,
            property: self.property@,
            multiplier_bits: self.multiplier_bits,
            unit: self.unit@,
        }
    }
}

impl Clone for StyleRecord {
    fn clone(&self) -> (copy: StyleRecord)
        ensures
            copy@ == self@,
    {
        StyleRecord { name: self.name.clone(), css: self.css.clone() }
    }
}

impl Clone for GeneratorRule {
    fn clone(&self) -> (copy: GeneratorRule)
        ensures
            copy@ == self@,
    {
        GeneratorRule {
            prefix: self.prefix.clone(),
            property: self.property.clone(),
            multiplier_bits: self.multiplier_bits,
            unit: self.unit.clone(),
        }
    }
}

impl StyleRecord {
    /// A style from the fields of a stored record; none where the record
    /// lacks its declarations.
    pub fn from_parts(name: String, css: Option<String>) -> (record: Option<StyleRecord>)
        ensures
            match css {
                Some(css) => record is Some && record->0@ == (StyleView { name: name@, css: css@ }),
                None => record is None,
            },
    {
        match css {
            Some(css) => Some(StyleRecord { name, css }),
            None => None,
        }
    }
}

impl GeneratorRule {
    /// A rule from the fields of a stored record; none where the record
    /// lacks its prefix, its property or its unit.
    pub fn from_parts(
        prefix: Option<String>,
        property: Option<String>,
        multiplier_bits: u32,
        unit: Option<String>,
    ) -> (rule: Option<GeneratorRule>)
        ensures
            match (prefix, property, unit) {
                (Some(prefix), Some(property), Some(unit)) => rule is Some && rule->0@ == (RuleView {
                    prefix: prefix@,
                    property: property@,
                    multiplier_bits,
                    unit: unit@,
                }),
                _ => rule is None,
            },
    {
        match (prefix, property, unit) {
            (Some(prefix), Some(property), Some(unit)) => Some(
                GeneratorRule { prefix, property, multiplier_bits, unit },
            ),
            _ => None,
        }
    }
}

/// The styles by name; of two with one name the later stands.
pub open spec fn styles_by_name(styles: Seq<StyleView>) -> Map<Seq<char>, Seq<char>>
    decreases styles.len(),
{
    if styles.len() == 0 {
        Map::empty()
    } else {
        styles_by_name(styles.drop_last()).insert(styles.last().name, styles.last().css)
    }
}

/// The text of an optional string.
pub open spec fn text_of(s: Option<String>) -> Option<Seq<char>> {
    match s {
        Some(s) => Some(s@),
        None => None,
    }
}

/// What the arithmetic on numbers answers: for the text of a number and the
/// bits of a multiplier the text of their product, or nothing where the
/// text is no number.
pub type Numbers = spec_fn(Seq<char>, u32) -> Option<Seq<char>>;

/// Every answer of `scale` is the one that `numbers` gives.
pub open spec fn computes<F: Fn(&str, u32) -> Option<String>>(scale: &F, numbers: Numbers) -> bool {
    forall|literal: &str, bits: u32, out: Option<String>| #[trigger]
        call_ensures(*scale, (literal, bits), out) ==> text_of(out) == numbers(literal@, bits)
}

/// `name` begins with `prefix` and a hyphen.
pub open spec fn has_prefix(prefix: Seq<char>, name: Seq<char>) -> bool {
    &&& name.len() > prefix.len()
    &&& name.subrange(0, prefix.len() as int) == prefix
    &&& name[prefix.len() as int] == '-'
}

/// What follows `prefix` and the hyphen in `name`.
pub open spec fn after_prefix(prefix: Seq<char>, name: Seq<char>) -> Seq<char> {
    name.subrange(prefix.len() as int + 1, name.len() as int)
}

/// `name` is the rule's prefix, a hyphen, and what remains: possibly nothing.
pub open spec fn rule_matches(rule: RuleView, name: Seq<char>) -> bool {
    has_prefix(rule.prefix, name)
}

/// What follows the rule's prefix and the hyphen.
pub open spec fn literal_of(rule: RuleView, name: Seq<char>) -> Seq<char> {
    after_prefix(rule.prefix, name)
}

/// The declaration a rule yields for the text of a scaled number.
pub open spec fn declaration(rule: RuleView, number: Seq<char>) -> Seq<char> {
    rule.property + ": "@ + number + rule.unit + ";"@
}

/// The declaration of the first rule, from place `from` on, that matches
/// `name` and whose number the arithmetic accepts.
pub open spec fn generated(rules: Seq<RuleView>, name: Seq<char>, numbers: Numbers, from: int) -> Option<
    Seq<char>,
>
    decreases rules.len() - from,
{
    if from < 0 || from >= rules.len() {
        None
    } else if rule_matches(rules[from], name) && numbers(
        literal_of(rules[from], name),
        rules[from].multiplier_bits,
    ) is Some {
        Some(declaration(rules[from], numbers(literal_of(rules[from], name), rules[from].multiplier_bits)->0))
    } else {
        generated(rules, name, numbers, from + 1)
    }
}

/// The declaration that `name` resolves to: that of the style of this name
/// where there is one, else the first that a rule generates.
pub open spec fn resolved(
    styles: Map<Seq<char>, Seq<char>>,
    rules: Seq<RuleView>,
    name: Seq<char>,
    numbers: Numbers,
) -> Option<Seq<char>> {
    if styles.contains_key(name) {
        Some(styles[name])
    } else {
        generated(rules, name, numbers, 0)
    }
}

/// `out` is an answer of `scale` for the text `literal` and the multiplier
/// `bits`.
pub open spec fn answers<F: Fn(&str, u32) -> Option<String>>(
    scale: &F,
    literal: Seq<char>,
    bits: u32,
    out: Option<Seq<char>>,
) -> bool {
    exists|l: &str, o: Option<String>|
        l@ == literal && text_of(o) == out && #[trigger] call_ensures(*scale, (l, bits), o)
}

/// `out` is what the rules from place `from` on can give for `name` with
/// answers of `scale`: the declaration of the first rule that matches and
/// whose number `scale` accepted, or nothing where there is none.
pub open spec fn generates<F: Fn(&str, u32) -> Option<String>>(
    scale: &F,
    rules: Seq<RuleView>,
    name: Seq<char>,
    from: int,
    out: Option<Seq<char>>,
) -> bool
    decreases rules.len() - from,
{
    if from < 0 || from >= rules.len() {
        out is None
    } else if !rule_matches(rules[from], name) {
        generates(scale, rules, name, from + 1, out)
    } else {
        exists|number: Option<Seq<char>>| #[trigger]
            answers(scale, literal_of(rules[from], name), rules[from].multiplier_bits, number) && match number {
                Some(n) => out == Some(declaration(rules[from], n)),
                None => generates(scale, rules, name, from + 1, out),
            }
    }
}

/// `out` is what `name` can resolve to with answers of `scale`: the
/// declarations of the style of this name where there is one, else what the
/// rules give.
pub open spec fn resolves<F: Fn(&str, u32) -> Option<String>>(
    scale: &F,
    styles: Map<Seq<char>, Seq<char>>,
    rules: Seq<RuleView>,
    name: Seq<char>,
    out: Option<Seq<char>>,
) -> bool {
    if styles.contains_key(name) {
        out == Some(styles[name])
    } else {
        generates(scale, rules, name, 0, out)
    }
}

/// What the rules give from one place on, they give from the place before
/// it where the rule there does not match or `scale` refused its number.
proof fn lemma_generates_skip<F: Fn(&str, u32) -> Option<String>>(
    scale: &F,
    rules: Seq<RuleView>,
    name: Seq<char>,
    from: int,
    out: Option<Seq<char>>,
)
    requires
        0 <= from < rules.len(),
        generates(scale, rules, name, from + 1, out),
        !rule_matches(rules[from], name) || answers(
            scale,
            literal_of(rules[from], name),
            rules[from].multiplier_bits,
            None,
        ),
    ensures
        generates(scale, rules, name, from, out),
{
}

/// A rule that matches and whose number `scale` accepted gives its
/// declaration.
proof fn lemma_generates_here<F: Fn(&str, u32) -> Option<String>>(
    scale: &F,
    rules: Seq<RuleView>,
    name: Seq<char>,
    from: int,
    number: Seq<char>,
)
    requires
        0 <= from < rules.len(),
        rule_matches(rules[from], name),
        answers(scale, literal_of(rules[from], name), rules[from].multiplier_bits, Some(number)),
    ensures
        generates(scale, rules, name, from, Some(declaration(rules[from], number))),
{
}

/// Where the answers of `scale` are those of `numbers`, the rules can give
/// but one result.
pub proof fn lemma_generates_one<F: Fn(&str, u32) -> Option<String>>(
    scale: &F,
    rules: Seq<RuleView>,
    name: Seq<char>,
    numbers: Numbers,
    from: int,
    out: Option<Seq<char>>,
)
    requires
        computes(scale, numbers),
        generates(scale, rules, name, from, out),
    ensures
        out == generated(rules, name, numbers, from),
    decreases rules.len() - from,
{
    if 0 <= from < rules.len() {
        if !rule_matches(rules[from], name) {
            lemma_generates_one(scale, rules, name, numbers, from + 1, out);
        } else {
            let literal = literal_of(rules[from], name);
            let bits = rules[from].multiplier_bits;
            let number = choose|number: Option<Seq<char>>| #[trigger]
                answers(scale, literal, bits, number) && match number {
                    Some(n) => out == Some(declaration(rules[from], n)),
                    None => generates(scale, rules, name, from + 1, out),
                };
            let (l, o) = choose|l: &str, o: Option<String>|
                l@ == literal && text_of(o) == number && #[trigger] call_ensures(*scale, (l, bits), o);
            assert(number == numbers(literal, bits));
            if number is None {
                lemma_generates_one(scale, rules, name, numbers, from + 1, out);
            }
        }
    }
}

/// Where the answers of `scale` are those of `numbers`, a name can resolve
/// to but one result.
pub proof fn lemma_resolves_one<F: Fn(&str, u32) -> Option<String>>(
    scale: &F,
    styles: Map<Seq<char>, Seq<char>>,
    rules: Seq<RuleView>,
    name: Seq<char>,
    numbers: Numbers,
    out: Option<Seq<char>>,
)
    requires
        computes(scale, numbers),
        resolves(scale, styles, rules, name, out),
    ensures
        out == resolved(styles, rules, name, numbers),
{
    if !styles.contains_key(name) {
        lemma_generates_one(scale, rules, name, numbers, 0, out);
    }
}

/// The rule of a stylesheet that gives `name` its declaration.
pub open spec fn css_rule(name: Seq<char>, declaration: Seq<char>) -> Seq<char> {
    "."@ + name + " {\n    "@ + declaration + "\n}"@
}

/// The rule of a stylesheet for `name`, where it resolved to declarations.
pub open spec fn rule_of(name: Seq<char>, body: Option<Seq<char>>) -> Option<Seq<char>> {
    match body {
        Some(body) => Some(css_rule(name, body)),
        None => None,
    }
}

/// A name that has a style of its own resolves to that style, whatever
/// rules would match it and whatever the arithmetic answers.
pub proof fn lemma_exact_style_wins(
    styles: Map<Seq<char>, Seq<char>>,
    rules: Seq<RuleView>,
    name: Seq<char>,
    numbers: Numbers,
)
    requires
        styles.contains_key(name),
    ensures
        resolved(styles, rules, name, numbers) == Some(styles[name]),
{
}

/// Splits `name` at the prefix and hyphen of a rule: what follows them, or
/// nothing where the name does not begin so.
pub fn literal_after<'a>(name: &'a str, prefix: &str) -> (literal: Option<&'a str>)
    ensures
        match literal {
            Some(l) => has_prefix(prefix@, name@) && l@ == after_prefix(prefix@, name@),
            None => !has_prefix(prefix@, name@),
        },
{
    let n = chars_of(name);
    let p = chars_of(prefix);
    if n.len() <= p.len() {
        return None;
    }
    let mut i: usize = 0;
    while i < p.len()
        invariant
            i <= p.len(),
            p.len() < n.len(),
            n@ == name@,
            p@ == prefix@,
            forall|j: int| 0 <= j < i ==> n@[j] == p@[j],
        decreases p.len() - i,
    {
        if n[i] != p[i] {
            assert(name@.subrange(0, prefix@.len() as int)[i as int] != prefix@[i as int]);
            return None;
        }
        i += 1;
    }
    assert(name@.subrange(0, prefix@.len() as int) =~= prefix@);
    if n[p.len()] != '-' {
        return None;
    }
    Some(name.substring_char(p.len() + 1, n.len()))
}

/// The resolution engine over one style artifact.
pub struct StyleEngine {
    precompiled: StringHashMap<String>,
    generators: Vec<GeneratorRule>,
}

impl StyleEngine {
    /// The precompiled styles: class name to declarations.
    pub closed spec fn styles(&self) -> Map<Seq<char>, Seq<char>> {
        Map::new(
            |name: Seq<char>| self.precompiled@.contains_key(name),
            |name: Seq<char>| self.precompiled@[name]@,
        )
    }

    /// The generator rules, in the order of the artifact.
    pub closed spec fn rules(&self) -> Seq<RuleView> {
        self.generators@.map_values(|r: GeneratorRule| r@)
    }

    /// An engine over the styles and generator rules of an artifact.
    pub fn new(styles: Vec<StyleRecord>, generators: Vec<GeneratorRule>) -> (engine: StyleEngine)
        ensures
            engine.styles() == styles_by_name(styles@.map_values(|s: StyleRecord| s@)),
            engine.rules() == generators@.map_values(|r: GeneratorRule| r@),
    {
        let mut precompiled: StringHashMap<String> = StringHashMap::new();
        let ghost views = styles@.map_values(|s: StyleRecord| s@);
        let mut i: usize = 0;
        assert(views.take(0) =~= Seq::<StyleView>::empty());
        while i < styles.len()
            invariant
                i <= styles.len(),
                views == styles@.map_values(|s: StyleRecord| s@),
                Map::new(
                    |name: Seq<char>| precompiled@.contains_key(name),
                    |name: Seq<char>| precompiled@[name]@,
                ) == styles_by_name(views.take(i as int)),
            decreases styles.len() - i,
        {
            let ghost so_far = Map::new(
                |name: Seq<char>| precompiled@.contains_key(name),
                |name: Seq<char>| precompiled@[name]@,
            );
            precompiled.insert(styles[i].name.clone(), styles[i].css.clone());
            proof {
                assert(views.take(i + 1).drop_last() =~= views.take(i as int));
                assert(views.take(i + 1).last() == views[i as int]);
                assert(Map::new(
                    |name: Seq<char>| precompiled@.contains_key(name),
                    |name: Seq<char>| precompiled@[name]@,
                ) =~= so_far.insert(views[i as int].name, views[i as int].css));
            }
            i += 1;
        }
        assert(views.take(styles.len() as int) =~= views);
        StyleEngine { precompiled, generators }
    }

    /// The number of generator rules.
    pub fn rule_count(&self) -> (n: usize)
        ensures
            n == self.rules().len(),
    {
        self.generators.len()
    }

    /// The declarations that `class_name` resolves to. A style of that name
    /// decides; without one the generator rules are tried in order, and the
    /// first whose prefix matches and whose number `scale` accepts gives the
    /// declaration. `scale` is called with what follows the prefix and with
    /// the bits of the rule's multiplier.
    pub fn resolve<F: Fn(&str, u32) -> Option<String>>(&self, class_name: &str, scale: &F) -> (body: Option<
        String,
    >)
        requires
            forall|literal: &str, bits: u32| call_requires(*scale, (literal, bits)),
        ensures
            resolves(scale, self.styles(), self.rules(), class_name@, text_of(body)),
            self.styles().contains_key(class_name@) ==> text_of(body) == Some(self.styles()[class_name@]),
            forall|numbers: Numbers| #[trigger]
                computes(scale, numbers) ==> text_of(body) == resolved(
                    self.styles(),
                    self.rules(),
                    class_name@,
                    numbers,
                ),
    {
        match self.precompiled.get(class_name) {
            Some(css) => {
                return Some(css.clone());
            },
            None => {},
        }
        let mut i: usize = 0;
        while i < self.generators.len()
            invariant
                i <= self.generators.len(),
                !self.styles().contains_key(class_name@),
                forall|literal: &str, bits: u32| call_requires(*scale, (literal, bits)),
                forall|out: Option<Seq<char>>| #[trigger]
                    generates(scale, self.rules(), class_name@, i as int, out) ==> generates(
                        scale,
                        self.rules(),
                        class_name@,
                        0,
                        out,
                    ),
                forall|numbers: Numbers| #[trigger]
                    computes(scale, numbers) ==> generated(self.rules(), class_name@, numbers, 0)
                        == generated(self.rules(), class_name@, numbers, i as int),
            decreases self.generators.len() - i,
        {
            let rule = &self.generators[i];
            assert(self.rules()[i as int] == rule@);
            match literal_after(class_name, rule.prefix.as_str()) {
                Some(literal) => {
                    match scale(literal, rule.multiplier_bits) {
                        Some(number) => {
                            let mut body = rule.property.clone();
                            body.append(": ");
                            body.append(number.as_str());
                            body.append(rule.unit.as_str());
                            body.append(";");
                            proof {
                                assert(body@ == declaration(rule@, number@));
                                assert(text_of(Some(number)) == Some(number@));
                                assert(answers(scale, literal@, rule.multiplier_bits, Some(number@)));
                                lemma_generates_here(scale, self.rules(), class_name@, i as int, number@);
                            }
                            return Some(body);
                        },
                        None => {
                            proof {
                                assert(text_of(None::<String>) == None::<Seq<char>>);
                                assert(answers(scale, literal@, rule.multiplier_bits, None));
                            }
                        },
                    }
                },
                None => {},
            }
            proof {
                assert forall|out: Option<Seq<char>>| #[trigger]
                    generates(scale, self.rules(), class_name@, i + 1, out) implies generates(
                    scale,
                    self.rules(),
                    class_name@,
                    0,
                    out,
                ) by {
                    lemma_generates_skip(scale, self.rules(), class_name@, i as int, out);
                }
            }
            i += 1;
        }
        assert(generates(scale, self.rules(), class_name@, i as int, None));
        None
    }

    /// The stylesheet rule for `class_name`: its name with the declarations
    /// it resolves to, or nothing where it resolves to none.
    pub fn generate_css_for_class<F: Fn(&str, u32) -> Option<String>>(
        &self,
        class_name: &str,
        scale: &F,
    ) -> (rule: Option<String>)
        requires
            forall|literal: &str, bits: u32| call_requires(*scale, (literal, bits)),
        ensures
            exists|body: Option<Seq<char>>| #[trigger]
                resolves(scale, self.styles(), self.rules(), class_name@, body) && text_of(rule) == rule_of(
                    class_name@,
                    body,
                ),
            self.styles().contains_key(class_name@) ==> text_of(rule) == Some(
                css_rule(class_name@, self.styles()[class_name@]),
            ),
            forall|numbers: Numbers| #[trigger]
                computes(scale, numbers) ==> text_of(rule) == rule_of(
                    class_name@,
                    resolved(self.styles(), self.rules(), class_name@, numbers),
                ),
    {
        match self.resolve(class_name, scale) {
            Some(body) => {
                let mut rule = String::new();
                rule.append(".");
                rule.append(class_name);
                rule.append(" {\n    ");
                rule.append(body.as_str());
                rule.append("\n}");
                assert(rule@ =~= css_rule(class_name@, body@));
                assert(resolves(scale, self.styles(), self.rules(), class_name@, Some(body@)));
                Some(rule)
            },
            None => {
                assert(resolves(scale, self.styles(), self.rules(), class_name@, None));
                None
            },
        }
    }
}

} // verus!
