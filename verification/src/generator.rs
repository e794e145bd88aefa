//! The stylesheet generator: the text of the stylesheet for a set of class
//! names.

use vstd::prelude::*;
use vstd::string::*;
use crate::class_set::{in_order, ClassSet};
use crate::engine::{
    computes, css_rule, lemma_resolves_one, resolved, resolves, rule_of, text_of, Numbers, RuleView,
    StyleEngine,
};

verus! {

/// The stylesheet for `names`, taken in their order: one rule and a line
/// break for each name that resolves; a name that does not resolve gives
/// nothing.
pub open spec fn stylesheet(
    styles: Map<Seq<char>, Seq<char>>,
    rules: Seq<RuleView>,
    names: Seq<Seq<char>>,
    numbers: Numbers,
) -> Seq<char>
    decreases names.len(),
{
    if names.len() == 0 {
        Seq::empty()
    } else {
        let head = stylesheet(styles, rules, names.drop_last(), numbers);
        match resolved(styles, rules, names.last(), numbers) {
            Some(body) => head + css_rule(names.last(), body) + "\n"@,
            None => head,
        }
    }
}

/// A stylesheet with what one more name resolved to: its rule and a line
/// break, or nothing.
pub open spec fn joined(head: Seq<char>, name: Seq<char>, body: Option<Seq<char>>) -> Seq<char> {
    match body {
        Some(body) => head + css_rule(name, body) + "\n"@,
        None => head,
    }
}

/// `text` is a stylesheet that `names`, taken in their order, can give
/// with answers of `scale`: for each name what it can resolve to.
pub open spec fn renders<F: Fn(&str, u32) -> Option<String>>(
    scale: &F,
    styles: Map<Seq<char>, Seq<char>>,
    rules: Seq<RuleView>,
    names: Seq<Seq<char>>,
    text: Seq<char>,
) -> bool
    decreases names.len(),
{
    if names.len() == 0 {
        text == Seq::<char>::empty()
    } else {
        exists|head: Seq<char>, body: Option<Seq<char>>|
            renders(scale, styles, rules, names.drop_last(), head) && resolves(
                scale,
                styles,
                rules,
                names.last(),
                body,
            ) && text == #[trigger] joined(head, names.last(), body)
    }
}

/// Where the answers of `scale` are those of `numbers`, the names can give
/// but one stylesheet.
pub proof fn lemma_renders_one<F: Fn(&str, u32) -> Option<String>>(
    scale: &F,
    styles: Map<Seq<char>, Seq<char>>,
    rules: Seq<RuleView>,
    names: Seq<Seq<char>>,
    numbers: Numbers,
    text: Seq<char>,
)
    requires
        computes(scale, numbers),
        renders(scale, styles, rules, names, text),
    ensures
        text == stylesheet(styles, rules, names, numbers),
    decreases names.len(),
{
    if names.len() > 0 {
        let (head, body) = choose|head: Seq<char>, body: Option<Seq<char>>|
            renders(scale, styles, rules, names.drop_last(), head) && resolves(
                scale,
                styles,
                rules,
                names.last(),
                body,
            ) && text == #[trigger] joined(head, names.last(), body);
        lemma_renders_one(scale, styles, rules, names.drop_last(), numbers, head);
        lemma_resolves_one(scale, styles, rules, names.last(), numbers, body);
    }
}

/// The stylesheet of a set of names: that of its names in the order of
/// names.
pub open spec fn stylesheet_of(
    styles: Map<Seq<char>, Seq<char>>,
    rules: Seq<RuleView>,
    names: Set<Seq<char>>,
    numbers: Numbers,
) -> Seq<char> {
    stylesheet(styles, rules, in_order(names), numbers)
}

/// The stylesheet of a set of names does not depend on how the set came
/// about: two sets that hold the same names give the same text, in whatever
/// order the names were inserted.
pub proof fn lemma_stylesheet_of_names(
    a: &ClassSet,
    b: &ClassSet,
    styles: Map<Seq<char>, Seq<char>>,
    rules: Seq<RuleView>,
    numbers: Numbers,
)
    requires
        a.wf(),
        b.wf(),
        a@ == b@,
    ensures
        a.names() == b.names(),
        stylesheet(styles, rules, a.names(), numbers) == stylesheet_of(styles, rules, b@, numbers),
{
    a.lemma_names_in_order();
    b.lemma_names_in_order();
}

/// A name that does not resolve leaves no trace in the stylesheet.
pub proof fn lemma_unresolved_name_omitted(
    styles: Map<Seq<char>, Seq<char>>,
    rules: Seq<RuleView>,
    names: Seq<Seq<char>>,
    name: Seq<char>,
    numbers: Numbers,
)
    requires
        resolved(styles, rules, name, numbers) is None,
    ensures
        stylesheet(styles, rules, names.push(name), numbers) == stylesheet(styles, rules, names, numbers),
{
    assert(names.push(name).drop_last() =~= names);
}

/// The text of the stylesheet for `class_names`: the rules of the names
/// that resolve, in the order of names.
pub fn generate_css<F: Fn(&str, u32) -> Option<String>>(
    class_names: &ClassSet,
    engine: &StyleEngine,
    scale: &F,
) -> (text: String)
    requires
        class_names.wf(),
        forall|literal: &str, bits: u32| call_requires(*scale, (literal, bits)),
    ensures
        renders(scale, engine.styles(), engine.rules(), in_order(class_names@), text@),
        forall|numbers: Numbers| #[trigger]
            computes(scale, numbers) ==> text@ == stylesheet_of(
                engine.styles(),
                engine.rules(),
                class_names@,
                numbers,
            ),
{
    proof {
        class_names.lemma_names_in_order();
    }
    let mut text = String::new();
    let mut i: usize = 0;
    assert(class_names.names().take(0) =~= Seq::<Seq<char>>::empty());
    while i < class_names.len()
        invariant
            i <= class_names.names().len(),
            forall|literal: &str, bits: u32| call_requires(*scale, (literal, bits)),
            renders(scale, engine.styles(), engine.rules(), class_names.names().take(i as int), text@),
        decreases class_names.names().len() - i,
    {
        let name = class_names.get(i);
        let ghost head = text@;
        proof {
            assert(class_names.names().take(i + 1).drop_last() =~= class_names.names().take(i as int));
            assert(class_names.names().take(i + 1).last() == name@);
        }
        let rule = engine.generate_css_for_class(name, scale);
        let ghost body = choose|body: Option<Seq<char>>| #[trigger]
            resolves(scale, engine.styles(), engine.rules(), name@, body) && text_of(rule) == rule_of(
                name@,
                body,
            );
        match rule {
            Some(rule) => {
                text.append(rule.as_str());
                text.append("\n");
            },
            None => {},
        }
        proof {
            let names = class_names.names().take(i + 1);
            assert(renders(scale, engine.styles(), engine.rules(), names.drop_last(), head));
            assert(resolves(scale, engine.styles(), engine.rules(), names.last(), body));
            assert(text@ == joined(head, names.last(), body));
        }
        i += 1;
    }
    proof {
        assert(class_names.names().take(class_names.names().len() as int) =~= class_names.names());
        assert forall|numbers: Numbers| #[trigger] computes(scale, numbers) implies text@ == stylesheet_of(
            engine.styles(),
            engine.rules(),
            class_names@,
            numbers,
        ) by {
            lemma_renders_one(scale, engine.styles(), engine.rules(), class_names.names(), numbers, text@);
        }
    }
    text
}

} // verus!
