use dx_styles::class_set::ClassSet;
use dx_styles::parser::{
    insert_tokens, parse_classnames, separates, visit_expression, visit_jsx_child, visit_jsx_element,
    visit_jsx_opening_element, visit_program, visit_statement, Attribute, AttributeValue, Child, Element,
    Expression, Parsed, Statement,
};

fn class_attribute(text: &str) -> Attribute {
    Attribute::Named("className".to_string(), AttributeValue::Literal(text.to_string()))
}

fn element(classes: &str, children: Vec<Child>) -> Element {
    Element { attributes: vec![class_attribute(classes)], children }
}

fn markup(classes: &str) -> Expression {
    Expression::Element(element(classes, vec![]))
}

fn statement(classes: &str) -> Statement {
    Statement::Expression(markup(classes))
}

fn classes_in(program: Vec<Statement>) -> Vec<String> {
    parse_classnames(Some(&Parsed { program, errors: 0 })).to_vec()
}

fn tokens_of(text: &str) -> Vec<String> {
    let mut set = ClassSet::new();
    insert_tokens(text, &mut set);
    set.to_vec()
}

#[test]
fn white_space_is_what_std_calls_white_space() {
    for c in '\0'..=char::MAX {
        assert_eq!(separates(c), c.is_whitespace(), "U+{:04X}", c as u32);
    }
}

#[test]
fn tokens_are_the_parts_between_white_space() {
    assert_eq!(tokens_of("flex mt-4"), vec!["flex", "mt-4"]);
    assert_eq!(tokens_of("  flex\t\tmt-4\n p-2  "), vec!["flex", "mt-4", "p-2"]);
    assert_eq!(tokens_of("flex"), vec!["flex"]);
    assert_eq!(tokens_of(""), Vec::<String>::new());
    assert_eq!(tokens_of(" \t\n"), Vec::<String>::new());
    assert_eq!(tokens_of("flex flex flex"), vec!["flex"]);
    assert_eq!(tokens_of("a\u{a0}b\u{3000}c\u{2003}d"), vec!["a", "b", "c", "d"]);
    assert_eq!(tokens_of("a\u{200b}b"), vec!["a\u{200b}b"]);
}

#[test]
fn tokens_agree_with_split_whitespace() {
    let texts = [
        "flex items-center justify-between",
        " lead",
        "trail ",
        "a  b   c",
        "é日本 語\u{85}x",
        "one\rtwo\u{b}three\u{c}four",
        "hover:bg-blue-500 md:w-1/2 [&>*]:p-2",
    ];
    for text in texts {
        let mut expected: Vec<String> = text.split_whitespace().map(|t| t.to_string()).collect();
        expected.sort();
        expected.dedup();
        assert_eq!(tokens_of(text), expected, "{:?}", text);
    }
}

#[test]
fn tokens_join_what_the_set_held() {
    let mut set = ClassSet::new();
    set.insert("grid");
    insert_tokens("flex grid", &mut set);
    assert_eq!(set.to_vec(), vec!["flex", "grid"]);
}

#[test]
fn class_attribute_with_a_literal_gives_its_names() {
    let mut set = ClassSet::new();
    visit_jsx_opening_element(&vec![class_attribute("flex mt-4")], &mut set);
    assert_eq!(set.to_vec(), vec!["flex", "mt-4"]);
}

#[test]
fn other_attributes_and_values_give_nothing() {
    let attributes = vec![
        Attribute::Named("class".to_string(), AttributeValue::Literal("a".to_string())),
        Attribute::Named("classname".to_string(), AttributeValue::Literal("b".to_string())),
        Attribute::Named("ClassName".to_string(), AttributeValue::Literal("c".to_string())),
        Attribute::Named("id".to_string(), AttributeValue::Literal("d".to_string())),
        Attribute::Named("className".to_string(), AttributeValue::Dynamic),
        Attribute::Named("className".to_string(), AttributeValue::Missing),
        Attribute::Other,
    ];
    let mut set = ClassSet::new();
    visit_jsx_opening_element(&attributes, &mut set);
    assert!(set.is_empty());
}

#[test]
fn every_class_attribute_of_a_tag_counts() {
    let attributes = vec![class_attribute("a b"), Attribute::Other, class_attribute("b c")];
    let mut set = ClassSet::new();
    visit_jsx_opening_element(&attributes, &mut set);
    assert_eq!(set.to_vec(), vec!["a", "b", "c"]);
}

#[test]
fn element_gives_its_names_and_those_of_its_children() {
    let tree = element(
        "outer",
        vec![
            Child::Other,
            Child::Element(element("inner", vec![Child::Element(element("deep", vec![]))])),
            Child::Fragment(vec![Child::Element(element("in-fragment", vec![]))]),
            Child::Container(markup("in-braces")),
            Child::Container(Expression::Other),
        ],
    );
    let mut set = ClassSet::new();
    visit_jsx_element(&tree, &mut set);
    assert_eq!(set.to_vec(), vec!["deep", "in-braces", "in-fragment", "inner", "outer"]);
}

#[test]
fn child_forms_are_walked() {
    let mut set = ClassSet::new();
    visit_jsx_child(&Child::Other, &mut set);
    assert!(set.is_empty());
    visit_jsx_child(&Child::Container(markup("a")), &mut set);
    visit_jsx_child(&Child::Fragment(vec![Child::Element(element("b", vec![]))]), &mut set);
    visit_jsx_child(&Child::Element(element("c", vec![])), &mut set);
    assert_eq!(set.to_vec(), vec!["a", "b", "c"]);
}

#[test]
fn expression_forms_are_walked() {
    let cases: Vec<(Expression, Vec<&str>)> = vec![
        (markup("a"), vec!["a"]),
        (Expression::Fragment(vec![Child::Element(element("a", vec![]))]), vec!["a"]),
        (Expression::Conditional(Box::new(markup("yes")), Box::new(markup("no"))), vec!["no", "yes"]),
        (Expression::Logical(Box::new(markup("left")), Box::new(markup("right"))), vec!["left", "right"]),
        (Expression::Function(vec![Statement::Return(Some(markup("body")))]), vec!["body"]),
        (Expression::Call(vec![markup("first"), Expression::Other, markup("spread")]), vec!["first", "spread"]),
        (Expression::Parenthesized(Box::new(markup("inner"))), vec!["inner"]),
        (Expression::Other, vec![]),
    ];
    for (expression, expected) in cases {
        let mut set = ClassSet::new();
        visit_expression(&expression, &mut set);
        assert_eq!(set.to_vec(), expected);
    }
}

#[test]
fn statement_forms_are_walked() {
    let cases: Vec<(Statement, Vec<&str>)> = vec![
        (statement("a"), vec!["a"]),
        (Statement::Block(vec![statement("a"), statement("b")]), vec!["a", "b"]),
        (Statement::Return(Some(markup("a"))), vec!["a"]),
        (Statement::Return(None), vec![]),
        (Statement::If(Box::new(statement("then")), Some(Box::new(statement("else")))), vec!["else", "then"]),
        (Statement::If(Box::new(statement("then")), None), vec!["then"]),
        (Statement::For(Box::new(Statement::Block(vec![statement("looped")]))), vec!["looped"]),
        (Statement::Variables(vec![markup("x"), Expression::Other, markup("y")]), vec!["x", "y"]),
        (Statement::Function(vec![Statement::Return(Some(markup("f")))]), vec!["f"]),
        (Statement::Function(vec![]), vec![]),
        (
            Statement::Class(vec![vec![Statement::Return(Some(markup("render")))], vec![], vec![statement("other")]]),
            vec!["other", "render"],
        ),
        (Statement::ExportNamed(Some(Box::new(Statement::Variables(vec![markup("named")])))), vec!["named"]),
        (Statement::ExportNamed(None), vec![]),
        (Statement::ExportDefault(Box::new(Statement::Function(vec![statement("default")]))), vec!["default"]),
        (Statement::ExportDefault(Box::new(statement("expr"))), vec!["expr"]),
        (Statement::Other, vec![]),
    ];
    for (statement, expected) in cases {
        let mut set = ClassSet::new();
        visit_statement(&statement, &mut set);
        assert_eq!(set.to_vec(), expected);
    }
}

#[test]
fn program_is_walked_statement_by_statement() {
    let mut set = ClassSet::new();
    set.insert("kept");
    visit_program(&vec![statement("b a"), Statement::Other, statement("c a")], &mut set);
    assert_eq!(set.to_vec(), vec!["a", "b", "c", "kept"]);
}

#[test]
fn component_file_gives_the_names_of_its_markup() {
    let badge = Expression::Logical(Box::new(Expression::Other), Box::new(markup("badge hidden")));
    let early = Statement::Block(vec![Statement::Return(Some(markup("empty")))]);
    let colour = Expression::Conditional(Box::new(markup("text-green")), Box::new(markup("text-red")));
    let items = Expression::Call(vec![Expression::Function(vec![statement("item flex")])]);
    let children = vec![Child::Other, Child::Container(colour), Child::Container(items)];
    let root = Expression::Element(element("flex mt-4", children));
    let card = Statement::Function(vec![
        Statement::Variables(vec![badge]),
        Statement::If(Box::new(early), None),
        Statement::Return(Some(Expression::Parenthesized(Box::new(root)))),
    ]);
    let program = vec![Statement::Other, Statement::ExportDefault(Box::new(card))];
    assert_eq!(
        classes_in(program),
        vec!["badge", "empty", "flex", "hidden", "item", "mt-4", "text-green", "text-red"]
    );
}

#[test]
fn unreadable_file_gives_no_names() {
    assert!(parse_classnames(None).is_empty());
}

#[test]
fn file_with_parse_errors_gives_no_names() {
    let parsed = Parsed { program: vec![statement("flex")], errors: 1 };
    assert!(parse_classnames(Some(&parsed)).is_empty());
    let parsed = Parsed { program: vec![statement("flex")], errors: 0 };
    assert_eq!(parse_classnames(Some(&parsed)).to_vec(), vec!["flex"]);
}

#[test]
fn empty_program_gives_no_names() {
    assert!(classes_in(vec![]).is_empty());
}
