//! Device classification over system property values. Reading the
//! properties themselves is the driver's JNI work; the classification is
//! verified here.

use vstd::prelude::*;

use crate::strutil;

verus! {

/// Whether the property values identify an emulator: a generic or unknown
/// build fingerprint, or an emulator-style model name.
pub open spec fn spec_is_emulator(fingerprint: Seq<char>, model: Seq<char>) -> bool {
    strutil::spec_contains_sub(fingerprint, "generic"@) || strutil::spec_contains_sub(
        fingerprint,
        "unknown"@,
    ) || strutil::spec_contains_sub(model, "Emulator"@) || strutil::spec_contains_sub(
        model,
        "Android SDK"@,
    )
}

/// Classify a device from its build fingerprint and model properties.
pub fn is_emulator(fingerprint: &str, model: &str) -> (r: bool)
    ensures
        r == spec_is_emulator(fingerprint@, model@),
{
    strutil::contains_sub(fingerprint, "generic") || strutil::contains_sub(fingerprint, "unknown")
        || strutil::contains_sub(model, "Emulator") || strutil::contains_sub(model, "Android SDK")
}

} // verus!
