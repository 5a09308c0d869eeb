//! The targeted version.

use rukkit::protocol::version::{is_supported, PROTOCOL_VERSION};

#[test]
fn only_the_targeted_protocol_is_accepted() {
    assert!(is_supported(PROTOCOL_VERSION));
    assert!(!is_supported(PROTOCOL_VERSION - 1));
    assert!(!is_supported(PROTOCOL_VERSION + 1));
    assert!(!is_supported(0));
}
