//! The Android SDK layout: where the build tools and platform jar live
//! under a discovered SDK root. Discovering the root itself is the
//! driver's filesystem work; the path arithmetic is verified here.

use vstd::prelude::*;

use crate::strutil;

verus! {

/// A discovered Android SDK: its root and the chosen build-tools version.
pub struct AndroidSdk {
    pub sdk_path: String,
    pub build_tools_version: String,
}

/// `{sdk}/build-tools/{version}/{tool}`.
pub open spec fn spec_tool_path(sdk: Seq<char>, version: Seq<char>, tool: Seq<char>)
    -> Seq<char> {
    sdk + seq!['/'] + "build-tools"@ + seq!['/'] + version + seq!['/'] + tool
}

/// `{sdk}/platforms/android-{api}/android.jar`.
pub open spec fn spec_android_jar(sdk: Seq<char>, api_level: int) -> Seq<char> {
    sdk + seq!['/'] + "platforms"@ + seq!['/'] + "android-"@ + strutil::spec_u32_digits(api_level)
        + seq!['/'] + "android.jar"@
}

impl AndroidSdk {
    /// The path of a named build tool under this SDK.
    pub fn tool_path(&self, tool: &str) -> (r: String)
        ensures
            r@ == spec_tool_path(self.sdk_path@, self.build_tools_version@, tool@),
    {
        let mut out = self.sdk_path.clone();
        strutil::push_char(&mut out, '/');
        strutil::append_str(&mut out, "build-tools");
        strutil::push_char(&mut out, '/');
        strutil::append_str(&mut out, self.build_tools_version.as_str());
        strutil::push_char(&mut out, '/');
        strutil::append_str(&mut out, tool);
        proof {
            assert(out@ =~= spec_tool_path(self.sdk_path@, self.build_tools_version@, tool@));
        }
        out
    }

    /// The platform `android.jar` for an API level under this SDK.
    pub fn android_jar(&self, api_level: u32) -> (r: String)
        ensures
            r@ == spec_android_jar(self.sdk_path@, api_level as int),
    {
        let mut out = self.sdk_path.clone();
        strutil::push_char(&mut out, '/');
        strutil::append_str(&mut out, "platforms");
        strutil::push_char(&mut out, '/');
        strutil::append_str(&mut out, "android-");
        let digits = strutil::u32_to_string(api_level);
        strutil::append_str(&mut out, digits.as_str());
        strutil::push_char(&mut out, '/');
        strutil::append_str(&mut out, "android.jar");
        proof {
            assert(out@ =~= spec_android_jar(self.sdk_path@, api_level as int));
        }
        out
    }
}

} // verus!
