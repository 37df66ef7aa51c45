use homectrl::colors;
use homectrl::error;

#[test]
fn test_module_structure() {
    // Verify all modules are accessible
    let _ = colors::RED;
    let _ = error::Error::LockPoisoned;
}
