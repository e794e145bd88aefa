//! The class name extractor: from the syntax tree of a source file to the
//! set of class names that its markup names in literal `className`
//! attributes.

use vstd::prelude::*;
use vstd::string::*;
use crate::class_set::ClassSet;
use crate::text::{chars_of, equal};

verus! {

/// A statement of a source file, as far as markup can stand in it.
#[derive(Debug)]
pub enum Statement {
    /// An expression statement.
    Expression(Expression),
    /// A block, with its statements.
    Block(Vec<Statement>),
    /// A `return`, with its argument.
    Return(Option<Expression>),
    /// An `if`, with its consequent and its alternate.
    If(Box<Statement>, Option<Box<Statement>>),
    /// A `for` loop of any kind, with its body.
    For(Box<Statement>),
    /// A variable declaration, with the initialisers of its declarators.
    Variables(Vec<Expression>),
    /// A function declaration, with the statements of its body.
    Function(Vec<Statement>),
    /// A class declaration, with the bodies of its methods.
    Class(Vec<Vec<Statement>>),
    /// A named export, with the declaration it exports.
    ExportNamed(Option<Box<Statement>>),
    /// A default export, with what it exports: a declaration, or an
    /// expression as an expression statement.
    ExportDefault(Box<Statement>),
    /// Any other statement.
    Other,
}

/// An expression, as far as markup can stand in it.
#[derive(Debug)]
pub enum Expression {
    /// A markup element.
    Element(Element),
    /// A markup fragment, with its children.
    Fragment(Vec<Child>),
    /// A conditional, with its consequent and its alternate.
    Conditional(Box<Expression>, Box<Expression>),
    /// A logical expression, with its two operands.
    Logical(Box<Expression>, Box<Expression>),
    /// A function or arrow function, with the statements of its body.
    Function(Vec<Statement>),
    /// A call, with its arguments; a spread argument stands by what it
    /// spreads.
    Call(Vec<Expression>),
    /// An expression in parentheses.
    Parenthesized(Box<Expression>),
    /// Any other expression.
    Other,
}

/// A markup element: the attributes of its opening tag and its children.
#[derive(Debug)]
pub struct Element {
    pub attributes: Vec<Attribute>,
    pub children: Vec<Child>,
}

/// An attribute of an opening tag.
#[derive(Debug)]
pub enum Attribute {
    /// An attribute with a plain name.
    Named(String, AttributeValue),
    /// A spread attribute, or one with a namespaced name.
    Other,
}

/// The value of an attribute.
#[derive(Debug)]
pub enum AttributeValue {
    /// A string literal, with its text.
    Literal(String),
    /// A value computed when the program runs.
    Dynamic,
    /// No value.
    Missing,
}

/// A child of an element or fragment.
#[derive(Debug)]
pub enum Child {
    /// An element.
    Element(Element),
    /// A fragment, with its children.
    Fragment(Vec<Child>),
    /// An expression in braces.
    Container(Expression),
    /// Text, an empty pair of braces, or a spread child.
    Other,
}

/// What parsing a source file gave: the statements of the program, and the
/// number of errors the parser reported.
#[derive(Debug)]
pub struct Parsed {
    pub program: Vec<Statement>,
    pub errors: usize,
}

/// The characters that separate class names: those with the Unicode
/// property White_Space.
pub open spec fn is_white_space(c: char) -> bool {
    let u = c as u32;
    ||| 0x09 <= u <= 0x0d
    ||| u == 0x20
    ||| u == 0x85
    ||| u == 0xa0
    ||| u == 0x1680
    ||| 0x2000 <= u <= 0x200a
    ||| u == 0x2028
    ||| u == 0x2029
    ||| u == 0x202f
    ||| u == 0x205f
    ||| u == 0x3000
}

/// From `from` up to `to` stands a class name: characters that are no white
/// space, between white space or the ends of the text.
pub open spec fn is_token(text: Seq<char>, from: int, to: int) -> bool {
    &&& 0 <= from < to <= text.len()
    &&& forall|k: int| from <= k < to ==> !is_white_space(#[trigger] text[k])
    &&& (from == 0 || is_white_space(text[from - 1]))
    &&& (to == text.len() || is_white_space(text[to]))
}

/// The class names of `text` that end at or before `end`.
pub open spec fn tokens_up_to(text: Seq<char>, end: int) -> Set<Seq<char>> {
    Set::new(
        |t: Seq<char>|
            exists|from: int, to: int| #[trigger]
                is_token(text, from, to) && to <= end && t == text.subrange(from, to),
    )
}

/// The class names that a text names: its parts between white space.
pub open spec fn tokens(text: Seq<char>) -> Set<Seq<char>> {
    tokens_up_to(text, text.len() as int)
}

/// The class names of an attribute: those of the literal value of an
/// attribute named `className`.
pub open spec fn attribute_classes(attribute: Attribute) -> Set<Seq<char>> {
    match attribute {
        Attribute::Named(name, AttributeValue::Literal(text)) => if name@ == "className"@ {
            tokens(text@)
        } else {
            Set::empty()
        },
        _ => Set::empty(),
    }
}

/// The class names of the attributes of an opening tag.
pub open spec fn attributes_classes(attributes: Seq<Attribute>) -> Set<Seq<char>>
    decreases attributes.len(),
{
    if attributes.len() == 0 {
        Set::empty()
    } else {
        attributes_classes(attributes.drop_last()).union(attribute_classes(attributes.last()))
    }
}

/// The class names in a statement.
pub open spec fn statement_classes(statement: Statement) -> Set<Seq<char>>
    decreases statement,
{
    match statement {
        Statement::Expression(e) => expression_classes(e),
        Statement::Block(body) => statements_classes(body@),
        Statement::Return(Some(e)) => expression_classes(e),
        Statement::Return(None) => Set::empty(),
        Statement::If(consequent, Some(alternate)) => statement_classes(*consequent).union(
            statement_classes(*alternate),
        ),
        Statement::If(consequent, None) => statement_classes(*consequent),
        Statement::For(body) => statement_classes(*body),
        Statement::Variables(initialisers) => expressions_classes(initialisers@),
        Statement::Function(body) => statements_classes(body@),
        Statement::Class(methods) => methods_classes(methods@),
        Statement::ExportNamed(Some(declaration)) => statement_classes(*declaration),
        Statement::ExportNamed(None) => Set::empty(),
        Statement::ExportDefault(exported) => statement_classes(*exported),
        Statement::Other => Set::empty(),
    }
}

/// The class names in a sequence of statements.
pub open spec fn statements_classes(statements: Seq<Statement>) -> Set<Seq<char>>
    decreases statements,
{
    if statements.len() == 0 {
        Set::empty()
    } else {
        statements_classes(statements.drop_last()).union(statement_classes(statements.last()))
    }
}

/// The class names in the method bodies of a class.
pub open spec fn methods_classes(methods: Seq<Vec<Statement>>) -> Set<Seq<char>>
    decreases methods,
{
    if methods.len() == 0 {
        Set::empty()
    } else {
        methods_classes(methods.drop_last()).union(statements_classes(methods.last()@))
    }
}

/// The class names in an expression.
pub open spec fn expression_classes(expression: Expression) -> Set<Seq<char>>
    decreases expression,
{
    match expression {
        Expression::Element(element) => element_classes(element),
        Expression::Fragment(children) => children_classes(children@),
        Expression::Conditional(consequent, alternate) => expression_classes(*consequent).union(
            expression_classes(*alternate),
        ),
        Expression::Logical(left, right) => expression_classes(*left).union(expression_classes(*right)),
        Expression::Function(body) => statements_classes(body@),
        Expression::Call(arguments) => expressions_classes(arguments@),
        Expression::Parenthesized(inner) => expression_classes(*inner),
        Expression::Other => Set::empty(),
    }
}

/// The class names in a sequence of expressions.
pub open spec fn expressions_classes(expressions: Seq<Expression>) -> Set<Seq<char>>
    decreases expressions,
{
    if expressions.len() == 0 {
        Set::empty()
    } else {
        expressions_classes(expressions.drop_last()).union(expression_classes(expressions.last()))
    }
}

/// The class names in an element: those of its opening tag and those of
/// its children.
pub open spec fn element_classes(element: Element) -> Set<Seq<char>>
    decreases element,
{
    attributes_classes(element.attributes@).union(children_classes(element.children@))
}

/// The class names in a child of an element or fragment.
pub open spec fn child_classes(child: Child) -> Set<Seq<char>>
    decreases child,
{
    match child {
        Child::Element(element) => element_classes(element),
        Child::Fragment(children) => children_classes(children@),
        Child::Container(expression) => expression_classes(expression),
        Child::Other => Set::empty(),
    }
}

/// The class names in a sequence of children.
pub open spec fn children_classes(children: Seq<Child>) -> Set<Seq<char>>
    decreases children,
{
    if children.len() == 0 {
        Set::empty()
    } else {
        children_classes(children.drop_last()).union(child_classes(children.last()))
    }
}

/// The class names that a parsed file contributes: those of its program;
/// none where the file could not be read or the parser reported an error.
pub open spec fn parsed_classes(parsed: Option<&Parsed>) -> Set<Seq<char>> {
    match parsed {
        Some(parsed) => if parsed.errors == 0 {
            statements_classes(parsed.program@)
        } else {
            Set::empty()
        },
        None => Set::empty(),
    }
}

/// Whether `c` separates class names.
pub fn separates(c: char) -> (white: bool)
    ensures
        white == is_white_space(c),
{
    let u: u32 = c as u32;
    (0x09 <= u && u <= 0x0d) || u == 0x20 || u == 0x85 || u == 0xa0 || u == 0x1680 || (0x2000 <= u && u
        <= 0x200a) || u == 0x2028 || u == 0x2029 || u == 0x202f || u == 0x205f || u == 0x3000
}

/// Adds the class names that `text` names to `out`.
pub fn insert_tokens(text: &str, out: &mut ClassSet)
    requires
        old(out).wf(),
    ensures
        final(out).wf(),
        final(out)@ == old(out)@.union(tokens(text@)),
{
    let chars = chars_of(text);
    let n = chars.len();
    let mut i: usize = 0;
    assert(out@ =~= old(out)@.union(tokens_up_to(text@, 0)));
    while i < n
        invariant
            i <= n,
            n == chars.len(),
            chars@ == text@,
            out.wf(),
            i == 0 || i == n || is_white_space(chars@[i - 1]) || is_white_space(chars@[i as int]),
            out@ == old(out)@.union(tokens_up_to(text@, i as int)),
        decreases n - i,
    {
        if separates(chars[i]) {
            assert(tokens_up_to(text@, i + 1) =~= tokens_up_to(text@, i as int));
            i += 1;
        } else {
            let start = i;
            while i < n && !separates(chars[i])
                invariant
                    start <= i <= n,
                    n == chars.len(),
                    forall|k: int| start <= k < i ==> !is_white_space(#[trigger] chars@[k]),
                decreases n - i,
            {
                i += 1;
            }
            let ghost before = out@;
            out.insert(text.substring_char(start, i));
            proof {
                let token = text@.subrange(start as int, i as int);
                assert(is_token(text@, start as int, i as int));
                assert forall|x: Seq<char>|
                    tokens_up_to(text@, i as int).contains(x) <==> tokens_up_to(text@, start as int).insert(
                        token,
                    ).contains(x) by {
                    if tokens_up_to(text@, i as int).contains(x) {
                        let (f, t) = choose|f: int, t: int| #[trigger]
                            is_token(text@, f, t) && t <= i && x == text@.subrange(f, t);
                        if t > start {
                            if f < start {
                                assert(!is_white_space(text@[start - 1]));
                            }
                            if f > start {
                                assert(!is_white_space(text@[f - 1]));
                            }
                            if t < i {
                                assert(!is_white_space(text@[t]));
                            }
                            assert(x == token);
                        } else {
                            assert(tokens_up_to(text@, start as int).contains(x));
                        }
                    }
                    if tokens_up_to(text@, start as int).contains(x) {
                        let (f, t) = choose|f: int, t: int| #[trigger]
                            is_token(text@, f, t) && t <= start && x == text@.subrange(f, t);
                        assert(is_token(text@, f, t) && t <= i);
                    }
                }
                assert(tokens_up_to(text@, i as int) =~= tokens_up_to(text@, start as int).insert(token));
                assert(out@ =~= old(out)@.union(tokens_up_to(text@, i as int)));
            }
        }
    }
}

/// Adds the class names of the attributes of an opening tag to `out`.
pub fn visit_jsx_opening_element(attributes: &Vec<Attribute>, out: &mut ClassSet)
    requires
        old(out).wf(),
    ensures
        final(out).wf(),
        final(out)@ == old(out)@.union(attributes_classes(attributes@)),
{
    let mut i: usize = 0;
    assert(attributes@.take(0) =~= Seq::<Attribute>::empty());
    assert(out@ =~= old(out)@.union(attributes_classes(attributes@.take(0))));
    while i < attributes.len()
        invariant
            i <= attributes.len(),
            out.wf(),
            out@ == old(out)@.union(attributes_classes(attributes@.take(i as int))),
        decreases attributes.len() - i,
    {
        let ghost before = out@;
        proof {
            assert(attributes@.take(i + 1).drop_last() =~= attributes@.take(i as int));
            assert(attributes@.take(i + 1).last() == attributes@[i as int]);
        }
        match &attributes[i] {
            Attribute::Named(name, AttributeValue::Literal(text)) => {
                if equal(name.as_str(), "className") {
                    insert_tokens(text.as_str(), out);
                }
            },
            _ => {},
        }
        assert(out@ =~= old(out)@.union(attributes_classes(attributes@.take(i + 1))));
        i += 1;
    }
    assert(attributes@.take(attributes.len() as int) =~= attributes@);
}

/// Adds the class names in an element to `out`.
pub fn visit_jsx_element(element: &Element, out: &mut ClassSet)
    requires
        old(out).wf(),
    ensures
        final(out).wf(),
        final(out)@ == old(out)@.union(element_classes(*element)),
    decreases element,
{
    visit_jsx_opening_element(&element.attributes, out);
    visit_jsx_fragment(&element.children, out);
    assert(out@ =~= old(out)@.union(element_classes(*element)));
}

/// Adds the class names in the children of an element or fragment to `out`.
pub fn visit_jsx_fragment(children: &Vec<Child>, out: &mut ClassSet)
    requires
        old(out).wf(),
    ensures
        final(out).wf(),
        final(out)@ == old(out)@.union(children_classes(children@)),
    decreases children,
{
    let mut i: usize = 0;
    assert(children@.take(0) =~= Seq::<Child>::empty());
    assert(out@ =~= old(out)@.union(children_classes(children@.take(0))));
    while i < children.len()
        invariant
            i <= children.len(),
            out.wf(),
            out@ == old(out)@.union(children_classes(children@.take(i as int))),
        decreases children.len() - i,
    {
        proof {
            assert(children@.take(i + 1).drop_last() =~= children@.take(i as int));
            assert(children@.take(i + 1).last() == children@[i as int]);
            vstd::std_specs::vec::axiom_vec_index_decreases(*children, i as int);
        }
        visit_jsx_child(&children[i], out);
        assert(out@ =~= old(out)@.union(children_classes(children@.take(i + 1))));
        i += 1;
    }
    assert(children@.take(children.len() as int) =~= children@);
}

/// Adds the class names in a child of an element or fragment to `out`.
pub fn visit_jsx_child(child: &Child, out: &mut ClassSet)
    requires
        old(out).wf(),
    ensures
        final(out).wf(),
        final(out)@ == old(out)@.union(child_classes(*child)),
    decreases child,
{
    match child {
        Child::Element(element) => visit_jsx_element(element, out),
        Child::Fragment(children) => visit_jsx_fragment(children, out),
        Child::Container(expression) => visit_expression(expression, out),
        Child::Other => {
            assert(out@ =~= old(out)@.union(child_classes(*child)));
        },
    }
}

/// Adds the class names in an expression to `out`.
pub fn visit_expression(expression: &Expression, out: &mut ClassSet)
    requires
        old(out).wf(),
    ensures
        final(out).wf(),
        final(out)@ == old(out)@.union(expression_classes(*expression)),
    decreases expression,
{
    match expression {
        Expression::Element(element) => visit_jsx_element(element, out),
        Expression::Fragment(children) => visit_jsx_fragment(children, out),
        Expression::Conditional(consequent, alternate) => {
            visit_expression(consequent, out);
            visit_expression(alternate, out);
        },
        Expression::Logical(left, right) => {
            visit_expression(left, out);
            visit_expression(right, out);
        },
        Expression::Function(body) => visit_program(body, out),
        Expression::Call(arguments) => visit_expressions(arguments, out),
        Expression::Parenthesized(inner) => visit_expression(inner, out),
        Expression::Other => {},
    }
    assert(out@ =~= old(out)@.union(expression_classes(*expression)));
}

/// Adds the class names in a sequence of expressions to `out`.
pub fn visit_expressions(expressions: &Vec<Expression>, out: &mut ClassSet)
    requires
        old(out).wf(),
    ensures
        final(out).wf(),
        final(out)@ == old(out)@.union(expressions_classes(expressions@)),
    decreases expressions,
{
    let mut i: usize = 0;
    assert(expressions@.take(0) =~= Seq::<Expression>::empty());
    assert(out@ =~= old(out)@.union(expressions_classes(expressions@.take(0))));
    while i < expressions.len()
        invariant
            i <= expressions.len(),
            out.wf(),
            out@ == old(out)@.union(expressions_classes(expressions@.take(i as int))),
        decreases expressions.len() - i,
    {
        proof {
            assert(expressions@.take(i + 1).drop_last() =~= expressions@.take(i as int));
            assert(expressions@.take(i + 1).last() == expressions@[i as int]);
            vstd::std_specs::vec::axiom_vec_index_decreases(*expressions, i as int);
        }
        visit_expression(&expressions[i], out);
        assert(out@ =~= old(out)@.union(expressions_classes(expressions@.take(i + 1))));
        i += 1;
    }
    assert(expressions@.take(expressions.len() as int) =~= expressions@);
}

/// Adds the class names in a statement to `out`.
pub fn visit_statement(statement: &Statement, out: &mut ClassSet)
    requires
        old(out).wf(),
    ensures
        final(out).wf(),
        final(out)@ == old(out)@.union(statement_classes(*statement)),
    decreases statement,
{
    match statement {
        Statement::Expression(expression) => visit_expression(expression, out),
        Statement::Block(body) => visit_program(body, out),
        Statement::Return(argument) => {
            match argument {
                Some(expression) => visit_expression(expression, out),
                None => {},
            }
        },
        Statement::If(consequent, alternate) => {
            visit_statement(consequent, out);
            match alternate {
                Some(alternate) => visit_statement(alternate, out),
                None => {},
            }
        },
        Statement::For(body) => visit_statement(body, out),
        Statement::Variables(initialisers) => visit_expressions(initialisers, out),
        Statement::Function(body) => visit_program(body, out),
        Statement::Class(methods) => visit_class(methods, out),
        Statement::ExportNamed(declaration) => {
            match declaration {
                Some(declaration) => visit_statement(declaration, out),
                None => {},
            }
        },
        Statement::ExportDefault(exported) => visit_statement(exported, out),
        Statement::Other => {},
    }
    assert(out@ =~= old(out)@.union(statement_classes(*statement)));
}

/// Adds the class names in the method bodies of a class to `out`.
pub fn visit_class(methods: &Vec<Vec<Statement>>, out: &mut ClassSet)
    requires
        old(out).wf(),
    ensures
        final(out).wf(),
        final(out)@ == old(out)@.union(methods_classes(methods@)),
    decreases methods,
{
    let mut i: usize = 0;
    assert(methods@.take(0) =~= Seq::<Vec<Statement>>::empty());
    assert(out@ =~= old(out)@.union(methods_classes(methods@.take(0))));
    while i < methods.len()
        invariant
            i <= methods.len(),
            out.wf(),
            out@ == old(out)@.union(methods_classes(methods@.take(i as int))),
        decreases methods.len() - i,
    {
        proof {
            assert(methods@.take(i + 1).drop_last() =~= methods@.take(i as int));
            assert(methods@.take(i + 1).last() == methods@[i as int]);
            vstd::std_specs::vec::axiom_vec_index_decreases(*methods, i as int);
        }
        visit_program(&methods[i], out);
        assert(out@ =~= old(out)@.union(methods_classes(methods@.take(i + 1))));
        i += 1;
    }
    assert(methods@.take(methods.len() as int) =~= methods@);
}

/// Adds the class names in a sequence of statements to `out`.
pub fn visit_program(statements: &Vec<Statement>, out: &mut ClassSet)
    requires
        old(out).wf(),
    ensures
        final(out).wf(),
        final(out)@ == old(out)@.union(statements_classes(statements@)),
    decreases statements,
{
    let mut i: usize = 0;
    assert(statements@.take(0) =~= Seq::<Statement>::empty());
    assert(out@ =~= old(out)@.union(statements_classes(statements@.take(0))));
    while i < statements.len()
        invariant
            i <= statements.len(),
            out.wf(),
            out@ == old(out)@.union(statements_classes(statements@.take(i as int))),
        decreases statements.len() - i,
    {
        proof {
            assert(statements@.take(i + 1).drop_last() =~= statements@.take(i as int));
            assert(statements@.take(i + 1).last() == statements@[i as int]);
            vstd::std_specs::vec::axiom_vec_index_decreases(*statements, i as int);
        }
        visit_statement(&statements[i], out);
        assert(out@ =~= old(out)@.union(statements_classes(statements@.take(i + 1))));
        i += 1;
    }
    assert(statements@.take(statements.len() as int) =~= statements@);
}

/// The class names that a source file contributes: those that the markup
/// of its program names. A file that could not be read (`None`) or that
/// the parser found errors in contributes none.
pub fn parse_classnames(parsed: Option<&Parsed>) -> (class_names: ClassSet)
    ensures
        class_names.wf(),
        class_names@ == parsed_classes(parsed),
{
    let mut class_names = ClassSet::new();
    match parsed {
        Some(parsed) => {
            if parsed.errors == 0 {
                visit_program(&parsed.program, &mut class_names);
                assert(class_names@ =~= statements_classes(parsed.program@));
            }
        },
        None => {},
    }
    class_names
}

} // verus!
