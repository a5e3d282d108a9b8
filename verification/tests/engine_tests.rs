use anpai::engine::Engine;

#[test]
fn a_bound_name_resolves_to_its_value() {
    let mut eng: Engine<i64> = Engine::new();
    assert!(!eng.has_name("a"));
    eng.bind_var("a".to_string(), 5);
    assert_eq!(eng.resolve("a"), Some(&5));
    assert!(eng.has_name("a"));
    assert_eq!(eng.resolve("b"), None);
}

#[test]
fn set_var_writes_to_the_frame_that_binds_the_name() {
    let mut eng: Engine<i64> = Engine::new();
    eng.bind_var("a".to_string(), 1);
    eng.push_frame();
    eng.set_var("a".to_string(), 2);
    eng.set_var("b".to_string(), 3);
    assert_eq!(eng.resolve("a"), Some(&2));
    eng.pop_frame();
    assert_eq!(eng.resolve("a"), Some(&2));
    assert_eq!(eng.resolve("b"), None);
}

#[test]
fn an_inner_binding_shadows_until_its_frame_closes() {
    let mut eng: Engine<i64> = Engine::new();
    eng.bind_var("x".to_string(), 1);
    eng.push_frame();
    eng.bind_var("x".to_string(), 10);
    assert_eq!(eng.resolve("x"), Some(&10));
    eng.pop_frame();
    assert_eq!(eng.resolve("x"), Some(&1));
}

#[test]
fn binding_again_replaces_the_value() {
    let mut eng: Engine<i64> = Engine::new();
    eng.bind_var("x".to_string(), 1);
    eng.bind_var("x".to_string(), 2);
    assert_eq!(eng.resolve("x"), Some(&2));
    assert_eq!(eng.scopes[0].vars.len(), 1);
}

#[test]
fn an_empty_stack_gets_a_frame_on_write() {
    let mut eng: Engine<i64> = Engine::new();
    eng.pop_frame();
    assert_eq!(eng.scopes.len(), 0);
    eng.set_var("y".to_string(), 7);
    assert_eq!(eng.scopes.len(), 1);
    assert_eq!(eng.resolve("y"), Some(&7));
}
