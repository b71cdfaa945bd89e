use std::rc::Rc;
use tenda::store::Store;
use tenda::environment::{Environment, Frame, Stack, ValueCell};
use tenda::runtime::{
    EnvironmentSealError, EnvironmentSetError, FunctionName, StackAssignmentError, StackDefinitionError,
    StackFrame,
};

fn owned(c: Option<&ValueCell<i64>>) -> Option<i64> {
    match c {
        Some(ValueCell::Owned(v)) => Some(*v),
        Some(other) => Some(other.extract()),
        None => None,
    }
}

#[test]
fn environment_set_get_and_seal() {
    let mut env: Environment<i64> = Environment::new();
    assert!(!env.has("x"));
    assert_eq!(env.set("x".to_string(), ValueCell::new(1)), Ok(()));
    assert_eq!(owned(env.get("x")), Some(1));
    assert_eq!(env.seal("y".to_string()), Err(EnvironmentSealError::VariableNotFound("y".to_string())));
    assert_eq!(env.seal("x".to_string()), Ok(()));
    assert_eq!(
        env.set("x".to_string(), ValueCell::new(2)),
        Err(EnvironmentSetError::SealedVariable("x".to_string()))
    );
    assert_eq!(owned(env.get("x")), Some(1));
}

#[test]
fn writing_a_shared_cell_writes_through() {
    let mut env: Environment<i64> = Environment::new();
    env.set_or_replace("x".to_string(), ValueCell::new_shared(1));
    let handle = match env.get("x") {
        Some(c) => c.duplicate(),
        None => panic!("bound"),
    };
    env.set_or_replace("x".to_string(), ValueCell::new(5));
    assert!(matches!(env.get("x"), Some(ValueCell::Shared(_))));
    assert_eq!(handle.extract(), 5);
}

#[test]
fn external_keeps_only_external_cells() {
    let mut env: Environment<i64> = Environment::new();
    env.set_or_replace("a".to_string(), ValueCell::new(1));
    env.set_or_replace("b".to_string(), ValueCell::new_external(2));
    let ext = env.external();
    assert!(!ext.has("a"));
    assert!(ext.has("b"));
    assert_eq!(ext.get("b").map(|c| c.extract()), Some(2));
}

#[test]
fn define_then_lookup() {
    let mut stack: Stack<i64> = Stack::new();
    assert_eq!(stack.define("x".to_string(), ValueCell::new(1)), Ok(()));
    assert_eq!(owned(stack.lookup("x")), Some(1));
    assert_eq!(stack.define("x".to_string(), ValueCell::new(2)), Err(StackDefinitionError::AlreadyDeclared));
    stack.push(Frame::new());
    assert!(!stack.is_name_in_local_scope("x"));
    assert_eq!(stack.define("x".to_string(), ValueCell::new(3)), Ok(()));
    assert_eq!(owned(stack.lookup("x")), Some(3));
    stack.pop();
    assert_eq!(owned(stack.lookup("x")), Some(1));
}

#[test]
fn assign_reaches_the_innermost_binding() {
    let mut stack: Stack<i64> = Stack::new();
    stack.define("x".to_string(), ValueCell::new(1)).unwrap();
    stack.push(Frame::new());
    assert_eq!(stack.assign("x".to_string(), ValueCell::new(7)), Ok(()));
    stack.pop();
    assert_eq!(owned(stack.lookup("x")), Some(7));
    assert_eq!(
        stack.assign("y".to_string(), ValueCell::new(1)),
        Err(StackAssignmentError::AssignToUndefined("y".to_string()))
    );
}

#[test]
fn assign_refuses_base_and_sealed_names() {
    let mut base: Environment<i64> = Environment::new();
    base.set_or_replace("pi".to_string(), ValueCell::new(3));
    let mut stack = Stack::with_base(Rc::new(base));
    assert_eq!(owned(stack.lookup("pi")), Some(3));
    assert!(stack.is_in_base_env("pi"));
    assert_eq!(
        stack.assign("pi".to_string(), ValueCell::new(4)),
        Err(StackAssignmentError::AssignToBaseEnvironment)
    );
    stack.define("k".to_string(), ValueCell::new(1)).unwrap();
    stack.global_mut().seal("k".to_string()).unwrap();
    assert_eq!(
        stack.assign("k".to_string(), ValueCell::new(2)),
        Err(StackAssignmentError::Unreassignable("k".to_string()))
    );
}

#[test]
fn pop_hands_the_return_value_down() {
    let mut stack: Stack<i64> = Stack::new();
    stack.push(Frame::new());
    stack.push(Frame::new());
    stack.set_return_value(ValueCell::new(42));
    assert!(stack.has_return_value());
    stack.pop();
    assert!(stack.has_return_value());
    assert_eq!(stack.consume_return_value().map(|c| c.extract()), Some(42));
    assert!(!stack.has_return_value());
    stack.set_loop_break_flag(true);
    assert!(stack.has_loop_break_flag());
    stack.pop();
    assert!(stack.has_loop_break_flag());
    assert!(!stack.has_loop_continue_flag());
}

#[test]
fn error_texts() {
    assert_eq!(
        EnvironmentSetError::SealedVariable("x".to_string()).message(),
        "cannot modify a sealed variable: 'x'"
    );
    assert_eq!(FunctionName::Anonymous.display_name(), "<anônimo>");
    assert_eq!(FunctionName::TopLevel.display_name(), "<raiz>");
    assert_eq!(FunctionName::Named("f".to_string()).display_name(), "f");
    let frame = StackFrame::new(FunctionName::TopLevel, None);
    assert!(frame.location.is_none());
    assert_eq!(
        StackAssignmentError::from_set_error(EnvironmentSetError::SealedVariable("v".to_string())),
        StackAssignmentError::Unreassignable("v".to_string())
    );
}

#[test]
fn store_switches_between_modules() {
    let mut builtins: Environment<i64> = Environment::new();
    builtins.set_or_replace("pi".to_string(), ValueCell::new(3));
    let mut store: Store<i64, String> = Store::with_builtins(builtins);
    store.get_current_mut().define("x".to_string(), ValueCell::new(1)).unwrap();
    assert!(store.find_module("m").is_none());
    store.switch_to_module("m".to_string());
    store.add_import_to_current("n".to_string());
    assert!(store.find_module("m").is_some());
    assert!(store.get_current().lookup("x").is_none());
    assert_eq!(owned(store.get_current().lookup("pi")), Some(3));
    store.get_current_mut().define("y".to_string(), ValueCell::new(2)).unwrap();
    store.switch_to_main();
    assert_eq!(owned(store.get_current().lookup("x")), Some(1));
    assert!(store.get_current().lookup("y").is_none());
    store.create_module("m".to_string());
    assert_eq!(owned(store.find_module("m").unwrap().lookup("y")), Some(2));
    let plain: Store<i64, String> = Store::new();
    assert!(plain.get_current().lookup("pi").is_none());
}
