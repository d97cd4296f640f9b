//! Metadata describing on-device test functions, as collected by the test
//! registry and handed across the JNI boundary by the driver.

use vstd::prelude::*;

verus! {

/// Metadata about a test function.
#[derive(Clone, Copy, Debug)]
pub struct TestMetadata {
    pub name: &'static str,
    pub is_async: bool,
    pub should_panic: bool,
}

} // verus!
