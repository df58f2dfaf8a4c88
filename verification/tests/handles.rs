use wasm_decode::arc_identity::ArcIdentity;

#[test]
fn handle_hands_out_the_wrapped_value() {
    let a = ArcIdentity::new(7u32);
    assert_eq!(*a.get(), 7);
    assert_eq!(*a.0, 7);
}
