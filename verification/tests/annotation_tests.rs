use asg_passes::annotation::{contains_annotation, Annotation, Identifier};
use asg_passes::span::Span;
use asg_passes::text::Text;

fn span(line: u32) -> Span {
    Span { line_start: line, line_stop: line, col_start: 1, col_stop: 9 }
}

fn text(s: &str) -> Text {
    Text::new(s).expect("short enough for a text")
}

fn annotation(name: &str, arguments: &[&str]) -> Annotation {
    Annotation {
        span: span(1),
        name: Identifier { name: text(name), span: span(1) },
        arguments: arguments.iter().map(|a| text(a)).collect(),
    }
}

#[test]
fn test_marker_is_external_and_valid() {
    let a = annotation("test", &[]);
    assert!(a.is_external_annotation());
    assert!(!a.is_internal_annotation());
    assert!(a.is_valid_annotation());
}

#[test]
fn compiler_directives_are_internal_and_valid() {
    for name in ["AlwaysConst", "CoreFunction"] {
        let a = annotation(name, &[]);
        assert!(a.is_internal_annotation());
        assert!(!a.is_external_annotation());
        assert!(a.is_valid_annotation());
    }
}

#[test]
fn unknown_names_are_invalid() {
    for name in ["", "Test", "test ", "alwaysconst", "CoreFunctions", "transition"] {
        let a = annotation(name, &[]);
        assert!(!a.is_external_annotation());
        assert!(!a.is_internal_annotation());
        assert!(!a.is_valid_annotation());
    }
}

#[test]
fn annotation_text_without_arguments() {
    assert_eq!(annotation("test", &[]).to_string(), "@test()");
}

#[test]
fn annotation_text_puts_a_comma_after_each_argument() {
    assert_eq!(annotation("CoreFunction", &["bar"]).to_string(), "@CoreFunction(bar,)");
    assert_eq!(annotation("x", &["a", "", "c"]).to_string(), "@x(a,,c,)");
}

#[test]
fn a_text_is_compared_as_a_whole() {
    assert!(text("Record").is("Record"));
    assert!(!text("Record").is("Recor"));
    assert!(!text("Recor").is("Record"));
    assert!(!text("Record").is("record"));
    assert!(text("").is(""));
}

#[test]
fn a_text_gives_back_the_characters_it_was_made_of() {
    for s in ["", "a", "12345678", "123456789", "a longer piece of text, kept on the heap", "h\u{e9}llo \u{1f600}"] {
        assert_eq!(text(s).to_string(), s);
    }
}

#[test]
fn contains_annotation_finds_by_name() {
    let list = vec![annotation("a", &[]), annotation("transition", &["x"]), annotation("b", &[])];
    assert!(contains_annotation(&list, "transition"));
    assert!(contains_annotation(&list, "b"));
    assert!(!contains_annotation(&list, "x"));
    assert!(!contains_annotation(&Vec::new(), "a"));
}

#[test]
fn default_span_is_all_zero() {
    assert_eq!(Span::default(), Span { line_start: 0, line_stop: 0, col_start: 0, col_stop: 0 });
}

#[test]
fn annotations_are_equal_when_place_name_and_arguments_are() {
    let a = annotation("CoreFunction", &["bar", "baz"]);
    assert!(a == annotation("CoreFunction", &["bar", "baz"]));
    assert!(a != annotation("CoreFunction", &["bar"]));
    assert!(a != annotation("CoreFunction", &["bar", "bay"]));
    assert!(a != annotation("CoreFunction", &["baz", "bar"]));
    assert!(a != annotation("AlwaysConst", &["bar", "baz"]));
    let mut moved = annotation("CoreFunction", &["bar", "baz"]);
    moved.span = span(2);
    assert!(a != moved);
    let mut renamed_at = annotation("CoreFunction", &["bar", "baz"]);
    renamed_at.name.span = span(3);
    assert!(a != renamed_at);
    assert!(annotation("test", &[]) == annotation("test", &[]));
}

#[test]
fn a_clone_of_an_annotation_equals_it() {
    let a = annotation("CoreFunction", &["bar", "", "a longer argument than fits inline"]);
    let b = a.clone();
    assert!(a == b);
    assert_eq!(b.to_string(), "@CoreFunction(bar,,a longer argument than fits inline,)");
    assert_eq!(b.arguments.len(), 3);
    assert_eq!(a.name.clone(), a.name);
    assert_eq!(text("x").clone(), text("x"));
    assert!(text("x") != text("y"));
}
