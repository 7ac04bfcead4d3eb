use shared_ownership::lambda;

#[test]
fn lambda_always_succeeds() {
    assert!(lambda().is_ok());
}
