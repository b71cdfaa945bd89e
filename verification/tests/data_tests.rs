use tenda::interpreter::{int_to_text, AssociativeArrayKey, FunctionParam as ValueParam, ValueType as OldValueType};
use tenda::loader::{import_order, Cycle};
use tenda::scope_tracker::{BlockScope, ScopeGuard, ScopeTracker};
use tenda::source::{IdCounter, IdentifiedSource, UniqueId};
use tenda::span::{Span, SourceSpan};
use tenda::value::{escape_special_chars, DynamicValue, DynamicValueError, ValueType};
use tenda::ast::FunctionParam;
use tenda::scanner::Scanner;
use tenda::token::{Literal, TokenKind};

#[test]
fn integers_in_decimal() {
    assert_eq!(int_to_text(0), "0");
    assert_eq!(int_to_text(1234), "1234");
    assert_eq!(int_to_text(-56), "-56");
    assert_eq!(int_to_text(i64::MIN), "-9223372036854775808");
    assert_eq!(int_to_text(i64::MAX), "9223372036854775807");
}

#[test]
fn key_texts() {
    assert_eq!(AssociativeArrayKey::String("nome".to_string()).to_display_string(), "nome");
    assert_eq!(AssociativeArrayKey::Number(-7).to_display_string(), "-7");
}

#[test]
fn value_type_names() {
    assert_eq!(ValueType::AssociativeArray.to_display_string(), "dicionário");
    assert_eq!(ValueType::Nil.to_display_string(), "Nada");
    assert_eq!(OldValueType::Range.to_display_string(), "intervalo");
    assert_eq!(OldValueType::Boolean.to_display_string(), "lógico");
}

#[test]
fn parameter_from_syntax() {
    let mut p = FunctionParam::new("x".to_string(), 3, SourceSpan::new(0, 1, IdentifiedSource::dummy()));
    p.captured = true;
    let v: ValueParam = ValueParam::from(p);
    assert_eq!(v.name, "x");
    assert!(v.is_captured);
}

#[test]
fn cycle_text() {
    assert_eq!(Cycle(vec![]).to_display_string(), "");
    assert_eq!(Cycle(vec!["a.tenda".to_string()]).to_display_string(), "a.tenda");
    assert_eq!(
        Cycle(vec!["a".to_string(), "b".to_string(), "a".to_string()]).to_display_string(),
        "a → b → a"
    );
}

#[test]
fn span_extracts_characters() {
    let s = SourceSpan::new(2, 5, IdentifiedSource::dummy());
    assert_eq!(Span::extract(&s, "seja x"), "ja ");
    let wide = SourceSpan::new(1, 5, IdentifiedSource::dummy());
    assert_eq!(Span::extract(&wide, "ação!"), "çã");
    assert_eq!(Span::start(&s), 2);
    assert_eq!(Span::end(&s), 5);
    let l = s.clone().with_label("aqui".to_string());
    assert_eq!(l.label, Some("aqui".to_string()));
    assert_eq!((l.start, l.end), (2, 5));
}

#[test]
fn escapes_special_characters() {
    assert_eq!(escape_special_chars("a\"b\\c\n\t"), "a\\\"b\\\\c\\n\\t");
    assert_eq!(escape_special_chars("\u{1}"), "\\x01");
    assert_eq!(escape_special_chars("é"), "é");
}

#[test]
fn escaped_text_scans_back() {
    let text = "linha\n\"citação\"\t\\fim\u{7}";
    let source = format!("\"{}\"", escape_special_chars(text));
    let mut s = Scanner::new(&source, IdentifiedSource::dummy());
    let toks = s.scan().unwrap();
    assert_eq!(toks.len(), 2);
    assert_eq!(toks[0].kind, TokenKind::String);
    assert_eq!(toks[0].literal, Some(Literal::String(text.to_string())));
    assert_eq!(toks[1].kind, TokenKind::Eof);
}

#[test]
fn frozen_values_refuse_changes() {
    let mut v = DynamicValue::new(1);
    assert!(!v.is_frozen());
    *v.borrow_mut_checked().unwrap() = 2;
    assert_eq!(*v.borrow(), 2);
    v.freeze();
    assert!(v.is_frozen());
    assert!(matches!(v.borrow_mut_checked(), Err(DynamicValueError::Frozen)));
    let f = DynamicValue::new_frozen("x");
    assert!(f.is_frozen());
}

#[test]
fn scope_tracker_guards() {
    let mut t = ScopeTracker::new();
    assert!(t.at_toplevel());
    assert_eq!(t.depth(), 1);
    let g = t.guard(BlockScope::Function);
    let h = ScopeGuard::new(&mut t, BlockScope::Loop);
    assert!(t.has_scope(BlockScope::Loop));
    assert!(!t.at_toplevel());
    assert_eq!(t.depth(), 3);
    t.release(h);
    assert!(!t.has_scope(BlockScope::Loop));
    t.release(g);
    assert!(t.at_toplevel());
}

#[test]
fn identifiers_count_up() {
    let mut c = IdCounter::new();
    let a = UniqueId::new(&mut c);
    let b = UniqueId::new(&mut c);
    assert_eq!(a, UniqueId(1));
    assert_eq!(b, UniqueId(2));
    let mut s = IdentifiedSource::new(&mut c);
    assert_eq!(s.id(), UniqueId(3));
    assert!(s.name().is_none());
    s.set_name("main.tenda");
    assert_eq!(s.name(), Some("main.tenda"));
    assert_eq!(IdentifiedSource::dummy().id(), UniqueId(0));
    assert!(s.same_as(&s.clone()));
    assert!(!s.same_as(&IdentifiedSource::dummy()));
}

#[test]
fn scope_tracker_starts_global() {
    let mut t = ScopeTracker::default();
    assert!(t.at_toplevel());
    assert!(t.has_scope(BlockScope::Global));
    assert_eq!(t.get().clone(), vec![BlockScope::Global]);
}

#[test]
fn sources_show_their_name_or_number() {
    assert_eq!(IdentifiedSource::dummy().to_display_string(), "<anônimo 0>");
    let mut c = IdCounter::new();
    let mut s = IdentifiedSource::new(&mut c);
    assert_eq!(s.to_display_string(), "<anônimo 1>");
    let mut later = IdentifiedSource::new(&mut c);
    for _ in 0..10 {
        later = IdentifiedSource::new(&mut c);
    }
    assert_eq!(later.to_display_string(), "<anônimo 12>");
    s.set_name("main.tenda");
    assert_eq!(s.to_display_string(), "main.tenda");
}

#[test]
fn imports_load_before_their_importers() {
    let g = vec![vec![1, 2], vec![2], vec![]];
    assert_eq!(import_order(&g, 0), Ok(vec![2, 1, 0]));
    let partial = vec![vec![1], vec![], vec![0]];
    assert_eq!(import_order(&partial, 0), Ok(vec![1, 0]));
    assert_eq!(import_order(&partial, 2), Ok(vec![1, 0, 2]));
}

#[test]
fn import_cycles_are_reported() {
    let g = vec![vec![1], vec![2], vec![0]];
    assert_eq!(import_order(&g, 0), Err(vec![0, 1, 2, 0]));
    let selfish = vec![vec![0]];
    assert_eq!(import_order(&selfish, 0), Err(vec![0, 0]));
    let tail = vec![vec![1], vec![2], vec![1]];
    assert_eq!(import_order(&tail, 0), Err(vec![1, 2, 1]));
}

#[test]
fn cycles_out_of_reach_do_not_stop_loading() {
    let g = vec![vec![1], vec![], vec![2, 0]];
    assert_eq!(import_order(&g, 0), Ok(vec![1, 0]));
    assert_eq!(import_order(&g, 2), Err(vec![2, 2]));
    let diamond = vec![vec![1, 2], vec![3], vec![3], vec![]];
    assert_eq!(import_order(&diamond, 0), Ok(vec![3, 1, 2, 0]));
}
