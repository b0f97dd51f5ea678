use typlate::{
    compile_elements, Parameterized, Template, TemplateElement, TemplateError, TemplateParams,
    TemplateString,
};

struct Foo<'i> {
    bar: u32,
    qux: &'i str,
}

impl<'i> TemplateParams for Foo<'i> {
    const FIELDS: &'static [&'static str] = &["bar", "qux"];

    fn get_field(&self, index: usize) -> String {
        match index {
            0 => self.bar.to_string(),
            1 => self.qux.to_string(),
            _ => panic!("Index out of bounds"),
        }
    }
}

struct Nothing;

impl TemplateParams for Nothing {
    const FIELDS: &'static [&'static str] = &[];

    fn get_field(&self, _index: usize) -> String {
        panic!("Index out of bounds")
    }
}

struct Twice(u32, u32);

impl TemplateParams for Twice {
    const FIELDS: &'static [&'static str] = &["0", "0", ""];

    fn get_field(&self, index: usize) -> String {
        match index {
            0 => self.0.to_string(),
            1 => self.1.to_string(),
            2 => "empty".to_string(),
            _ => panic!("Index out of bounds"),
        }
    }
}

#[test]
fn test_basic_formatting() {
    let template: Template<Foo> = "Hello {bar}, welcome {qux}!".parse().unwrap();
    let params = Foo { bar: 42, qux: "world" };

    assert_eq!(template.format(&params), "Hello 42, welcome world!");
}

#[test]
fn test_escaped_brackets() {
    let template: Template<Foo> = "{{bar}} is {bar}, {{{{qux}}}} is {{{qux}}}".parse().unwrap();
    let params = Foo { bar: 42, qux: "test" };

    assert_eq!(template.format(&params), "{bar} is 42, {{qux}} is {test}");
}

#[test]
fn unknown_field_is_reported() {
    let r = TemplateString::<Foo>::compile("Value is {invalid_field}");
    assert!(r.is_err());
    let e = r.err().unwrap();
    assert!(e == TemplateError::UnknownField("invalid_field".to_string()));
    assert_eq!(e.message(), "Unknown field name: invalid_field");
}

#[test]
fn unclosed_placeholder_is_reported() {
    let r: Result<Template<Foo>, TemplateError> = "Value is {bar".parse();
    let e = r.err().unwrap();
    assert!(e == TemplateError::UnclosedPlaceholder);
    assert_eq!(e.message(), "Unclosed bracket in template");
}

#[test]
fn unmatched_closing_bracket_is_reported() {
    let e = TemplateString::<Nothing>::compile("a } b").err().unwrap();
    assert!(e == TemplateError::UnmatchedClosingBracket);
    assert_eq!(e.message(), "Unmatched closing bracket");
}

#[test]
fn first_error_in_the_text_wins() {
    let e = TemplateString::<Foo>::compile("} {nope} {bar").err().unwrap();
    assert!(e == TemplateError::UnmatchedClosingBracket);
    let e = TemplateString::<Foo>::compile("{nope} } {bar").err().unwrap();
    assert!(e == TemplateError::UnknownField("nope".to_string()));
}

#[test]
fn canonical_form_recompiles_to_the_same_template() {
    let source = "{{bar}} is {bar}, {{{{qux}}}} is {{{qux}}}";
    let template = TemplateString::<Foo>::compile(source).unwrap();
    let canonical = template.render_escaped();
    assert_eq!(canonical, source);
    let again = TemplateString::<Foo>::compile(&canonical).unwrap();
    assert!(again == template);
    let params = Foo { bar: 7, qux: "x" };
    assert_eq!(again.format(&params), template.format(&params));
}

#[test]
fn canonical_form_of_mixed_text() {
    let template = TemplateString::<Foo>::compile("a}}b{{c{qux}{bar}").unwrap();
    assert_eq!(template.render_escaped(), "a}}b{{c{qux}{bar}");
    let params = Foo { bar: 1, qux: "two" };
    assert_eq!(template.format(&params), "a}b{ctwo1");
}

#[test]
fn text_without_braces_renders_unchanged() {
    let template = TemplateString::<Foo>::compile("plain text, no fields").unwrap();
    let params = Foo { bar: 3, qux: "q" };
    assert_eq!(template.format(&params), "plain text, no fields");
    assert_eq!(template.render_escaped(), "plain text, no fields");
}

#[test]
fn empty_source_gives_empty_template() {
    let template = TemplateString::<Nothing>::compile("").unwrap();
    assert_eq!(template.format(&Nothing), "");
    assert_eq!(template.render_escaped(), "");
    assert!(compile_elements("", &[]).unwrap().is_empty());
}

#[test]
fn compiling_twice_gives_equal_templates() {
    let a = TemplateString::<Foo>::compile("Hello {bar}, welcome {qux}!").unwrap();
    let b = TemplateString::<Foo>::compile("Hello {bar}, welcome {qux}!").unwrap();
    assert!(a == b);
    let c = TemplateString::<Foo>::compile("Hello {qux}, welcome {bar}!").unwrap();
    assert!(a != c);
    assert!(a.clone() == a);
}

#[test]
fn elements_are_coalesced_text_and_indices() {
    let elements = compile_elements("ab{{c}}d{qux}e", &["bar", "qux"]).unwrap();
    assert_eq!(elements.len(), 3);
    assert!(elements[0] == TemplateElement::Text("ab{c}d".to_string()));
    assert!(elements[1] == TemplateElement::Var(1));
    assert!(elements[2] == TemplateElement::Text("e".to_string()));
}

#[test]
fn field_values_with_braces_are_emitted_literally() {
    let template = TemplateString::<Foo>::compile("<{qux}>").unwrap();
    let params = Foo { bar: 0, qux: "{x}}" };
    assert_eq!(template.format(&params), "<{x}}>");
}

#[test]
fn repeated_names_resolve_to_the_first() {
    let template = TemplateString::<Twice>::compile("{0}-{}").unwrap();
    assert_eq!(template.format(&Twice(5, 9)), "5-empty");
    assert_eq!(template.render_escaped(), "{0}-{}");
}

#[test]
fn names_are_matched_verbatim() {
    let e = TemplateString::<Foo>::compile("{ bar}").err().unwrap();
    assert!(e == TemplateError::UnknownField(" bar".to_string()));
    let e = TemplateString::<Foo>::compile("{Bar}").err().unwrap();
    assert!(e == TemplateError::UnknownField("Bar".to_string()));
}

#[test]
fn parameterized_renders_like_format() {
    let template = TemplateString::<Foo>::compile("{qux}={bar}").unwrap();
    let params = Foo { bar: 10, qux: "ten" };
    assert_eq!(Parameterized(&params, &template).to_string(), "ten=10");
}

#[test]
fn render_takes_field_texts_by_index() {
    let template = TemplateString::<Foo>::compile("{qux}{{{bar}}}{qux}").unwrap();
    let values = vec!["1".to_string(), "two".to_string()];
    assert_eq!(template.render(&values), "two{1}two");
}

#[test]
fn templates_order_by_elements() {
    let text = TemplateString::<Foo>::compile("x").unwrap();
    let field = TemplateString::<Foo>::compile("{bar}").unwrap();
    assert!(text < field);
    let a = TemplateString::<Foo>::compile("a{bar}").unwrap();
    let b = TemplateString::<Foo>::compile("b{bar}").unwrap();
    assert!(a < b);
    let first = TemplateString::<Foo>::compile("{bar}").unwrap();
    let second = TemplateString::<Foo>::compile("{qux}").unwrap();
    assert!(first < second);
    let longer = TemplateString::<Foo>::compile("{bar}x").unwrap();
    assert!(first < longer);
    assert_eq!(first.partial_cmp(&field), Some(std::cmp::Ordering::Equal));
    let accented = TemplateString::<Foo>::compile("\u{e9}").unwrap();
    let plain = TemplateString::<Foo>::compile("z").unwrap();
    assert!(plain < accented);
}

#[test]
fn element_order_agrees_with_total_order() {
    let items = vec![
        TemplateElement::Text("".to_string()),
        TemplateElement::Text("ab".to_string()),
        TemplateElement::Text("b".to_string()),
        TemplateElement::Text("\u{e9}".to_string()),
        TemplateElement::Var(0),
        TemplateElement::Var(3),
    ];
    for x in &items {
        for y in &items {
            assert_eq!(x.partial_cmp(y), Some(x.cmp(y)));
        }
    }
}

#[test]
fn format_asks_for_each_placeholder() {
    let template = TemplateString::<Foo>::compile("{bar}+{bar}={qux}").unwrap();
    let params = Foo { bar: 2, qux: "4" };
    assert_eq!(template.format(&params), "2+2=4");
}

#[test]
fn joined_sources_render_as_joined_renderings() {
    let params = Foo { bar: 8, qux: "y" };
    let a = TemplateString::<Foo>::compile("x{{").unwrap();
    let b = TemplateString::<Foo>::compile("}}{bar}z").unwrap();
    let ab = TemplateString::<Foo>::compile("x{{}}{bar}z").unwrap();
    assert_eq!(ab.format(&params), format!("{}{}", a.format(&params), b.format(&params)));
    assert_eq!(ab.format(&params), "x{}8z");
}

#[test]
fn unused_fields_do_not_change_the_output() {
    let template = TemplateString::<Foo>::compile("[{bar}]").unwrap();
    let one = Foo { bar: 4, qux: "first" };
    let two = Foo { bar: 4, qux: "second" };
    assert_eq!(template.format(&one), template.format(&two));
    assert_eq!(template.format(&one), "[4]");
}
