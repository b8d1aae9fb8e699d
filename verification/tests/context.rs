use llm_json::{ContextValues, JsonContext};

#[test]
fn new_context_is_empty() {
    let context = JsonContext::new();
    assert!(context.context.is_empty());
    assert_eq!(context.current, None);
    assert!(context.empty);
    assert_eq!(context.depth(), 0);
}

#[test]
fn set_pushes_a_role() {
    let mut context = JsonContext::new();
    context.set(ContextValues::ObjectKey);
    assert_eq!(context.context, vec![ContextValues::ObjectKey]);
    assert_eq!(context.current, Some(ContextValues::ObjectKey));
    assert!(!context.empty);
    context.set(ContextValues::Array);
    assert_eq!(context.context, vec![ContextValues::ObjectKey, ContextValues::Array]);
    assert_eq!(context.current, Some(ContextValues::Array));
    assert_eq!(context.depth(), 2);
}

#[test]
fn reset_returns_to_the_role_below() {
    let mut context = JsonContext::new();
    context.set(ContextValues::ObjectValue);
    context.set(ContextValues::Array);
    context.reset();
    assert_eq!(context.context, vec![ContextValues::ObjectValue]);
    assert_eq!(context.current, Some(ContextValues::ObjectValue));
    assert!(!context.empty);
    context.reset();
    assert!(context.context.is_empty());
    assert_eq!(context.current, None);
    assert!(context.empty);
}

#[test]
fn reset_on_the_empty_stack_changes_nothing() {
    let mut context = JsonContext::new();
    context.reset();
    assert!(context.context.is_empty());
    assert_eq!(context.current, None);
    assert!(context.empty);
}
