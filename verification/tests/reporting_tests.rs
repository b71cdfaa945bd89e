use tenda::reporting::{DiagnosticConfig, StackFrame};
use tenda::runtime::{FunctionName, StackFrame as RuntimeFrame};
use tenda::source::IdentifiedSource;
use tenda::span::SourceSpan;

fn span(a: usize, b: usize) -> SourceSpan {
    SourceSpan::new(a, b, IdentifiedSource::dummy())
}

#[test]
fn builders_replace_or_extend() {
    let config: DiagnosticConfig<SourceSpan> = DiagnosticConfig::new(
        None,
        vec![span(0, 1)],
        vec!["ajuda".to_string()],
        vec![],
        "erro".to_string(),
        vec![],
    );
    let config = config
        .span(Some(span(2, 3)))
        .labels(vec![span(4, 5)])
        .helps(vec!["mais".to_string()])
        .notes(vec!["nota".to_string()])
        .message("outro erro".to_string())
        .stacktrace(vec![StackFrame::new("f".to_string(), None)]);
    assert_eq!(config.span.as_ref().map(|s| (s.start, s.end)), Some((2, 3)));
    assert_eq!(config.labels.len(), 2);
    assert_eq!(config.helps, vec!["ajuda".to_string(), "mais".to_string()]);
    assert_eq!(config.notes, vec!["nota".to_string()]);
    assert_eq!(config.message, "outro erro");
    assert_eq!(config.stacktrace.len(), 1);
    assert_eq!(config.stacktrace[0].function_name, "f");
}

#[test]
fn runtime_frames_show_their_function_names() {
    let top = StackFrame::from_runtime(RuntimeFrame::new(FunctionName::TopLevel, None));
    assert_eq!(top.function_name, "<raiz>");
    let anon = StackFrame::from_runtime(RuntimeFrame::new(FunctionName::Anonymous, Some(span(1, 2))));
    assert_eq!(anon.function_name, "<anônimo>");
    assert_eq!(anon.location.map(|s| (s.start, s.end)), Some((1, 2)));
    let named = StackFrame::from_runtime(RuntimeFrame::new(FunctionName::Named("soma".to_string()), None));
    assert_eq!(named.function_name, "soma");
}
