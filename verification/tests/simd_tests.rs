use kira_nuclearqc::simd::backend_name;
use kira_nuclearqc::simd::scalar;

#[test]
fn mod_test_backend_name() {
    let name = backend_name();
    assert_eq!(name, "scalar");
}

#[test]
fn test_backend_name() {
    let name = backend_name();
    assert_eq!(name, "scalar");
}

#[test]
fn test_scalar_backend_name() {
    assert_eq!(scalar::backend_name(), "scalar");
}
