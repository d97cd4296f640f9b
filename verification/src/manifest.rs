//! The host Android manifest: generated text over the configured
//! permissions, services and receivers, with an exact character-level
//! specification.

use vstd::prelude::*;

use crate::strutil;

verus! {

/// One declared manifest component: its class name and its extra
/// attributes, in declaration order.
pub struct ManifestComponent {
    pub name: String,
    pub attributes: Vec<(String, String)>,
}

/// The mathematical value of a component.
pub ghost struct ManifestComponentView {
    pub name: Seq<char>,
    pub attributes: Seq<(Seq<char>, Seq<char>)>,
}

impl View for ManifestComponent {
    type V = ManifestComponentView;

    open spec fn view(&self) -> ManifestComponentView {
        ManifestComponentView {
            name: self.name@,
            attributes: Seq::new(
                self.attributes@.len(),
                |i: int| (self.attributes@[i].0@, self.attributes@[i].1@),
            ),
        }
    }
}

impl DeepView for ManifestComponent {
    type V = ManifestComponentView;

    open spec fn deep_view(&self) -> ManifestComponentView {
        self.view()
    }
}

/// The services and receivers declared for the host manifest.
#[derive(Default)]
pub struct ManifestComponents {
    pub services: Vec<ManifestComponent>,
    pub receivers: Vec<ManifestComponent>,
}

/// One extra attribute: ` android:{key}="{value}"`.
pub open spec fn spec_attr_text(k: Seq<char>, v: Seq<char>) -> Seq<char> {
    " android:"@ + k + "=\""@ + v + "\""@
}

/// All of a component's extra attributes, in order.
pub open spec fn spec_attrs_text(attrs: Seq<(Seq<char>, Seq<char>)>) -> Seq<char>
    decreases attrs.len(),
{
    if attrs.len() == 0 {
        Seq::<char>::empty()
    } else {
        spec_attrs_text(attrs.drop_last()) + spec_attr_text(attrs.last().0, attrs.last().1)
    }
}

/// One component element: the opening text, the name, the attributes and
/// the closing ` />`.
pub open spec fn spec_component_text(open_text: Seq<char>, c: ManifestComponentView)
    -> Seq<char> {
    open_text + c.name + "\""@ + spec_attrs_text(c.attributes) + " />\n"@
}

/// A run of component elements.
pub open spec fn spec_components_text(open_text: Seq<char>, cs: Seq<ManifestComponentView>)
    -> Seq<char>
    decreases cs.len(),
{
    if cs.len() == 0 {
        Seq::<char>::empty()
    } else {
        spec_components_text(open_text, cs.drop_last()) + spec_component_text(
            open_text,
            cs.last(),
        )
    }
}

/// One permission line.
pub open spec fn spec_perm_text(p: Seq<char>) -> Seq<char> {
    "    <uses-permission android:name=\""@ + p + "\" />\n"@
}

/// All permission lines, in order.
pub open spec fn spec_perms_text(ps: Seq<Seq<char>>) -> Seq<char>
    decreases ps.len(),
{
    if ps.len() == 0 {
        Seq::<char>::empty()
    } else {
        spec_perms_text(ps.drop_last()) + spec_perm_text(ps.last())
    }
}

/// The whole host manifest: fixed head, permission lines, fixed
/// application opening, service and receiver elements, fixed tail.
pub open spec fn spec_android_manifest(
    perms: Seq<Seq<char>>,
    services: Seq<ManifestComponentView>,
    receivers: Seq<ManifestComponentView>,
) -> Seq<char> {
    "<?xml version=\"1.0\" encoding=\"utf-8\"?>\n<manifest xmlns:android=\"http://schemas.android.com/apk/res/android\"\n    package=\"com.vampire.host\">\n\n    <uses-sdk android:minSdkVersion=\"24\" android:targetSdkVersion=\"30\" />\n"@
        + spec_perms_text(perms)
        + "\n    <application android:label=\"Vampire Host\" android:debuggable=\"true\">\n        <!-- Minimal instrumentation for running tests -->\n        <uses-library android:name=\"android.test.runner\" />\n"@
        + spec_components_text("        <service android:name=\""@, services)
        + spec_components_text("        <receiver android:name=\""@, receivers)
        + "    </application>\n\n    <instrumentation\n        android:name=\".VampireInstrumentation\"\n        android:targetPackage=\"com.vampire.host\"\n        android:label=\"Vampire Test Runner\" />\n\n</manifest>\n"@
}

/// Append one component element to the output.
fn append_component(out: &mut String, open_text: &str, c: &ManifestComponent)
    ensures
        final(out)@ == old(out)@ + spec_component_text(open_text@, c@),
{
    let ghost base = out@;
    strutil::append_str(out, open_text);
    strutil::append_str(out, c.name.as_str());
    strutil::append_str(out, "\"");
    let ghost attrs = c@.attributes;
    let mut i: usize = 0;
    proof {
        assert(attrs.subrange(0, 0) =~= Seq::<(Seq<char>, Seq<char>)>::empty());
        assert(out@ =~= base + open_text@ + c@.name + "\""@ + spec_attrs_text(
            attrs.subrange(0, 0),
        ));
    }
    while i < c.attributes.len()
        invariant
            i <= c.attributes.len(),
            attrs == c@.attributes,
            attrs.len() == c.attributes@.len(),
            forall|k: int|
                0 <= k < attrs.len() ==> attrs[k] == ((#[trigger] c.attributes@[k]).0@,
                c.attributes@[k].1@),
            out@ == base + open_text@ + c@.name + "\""@ + spec_attrs_text(
                attrs.subrange(0, i as int),
            ),
        decreases c.attributes.len() - i,
    {
        let ghost pre = attrs.subrange(0, i as int);
        let ghost post = attrs.subrange(0, i + 1 as int);
        proof {
            assert(post.drop_last() =~= pre);
            assert(post.last() == attrs[i as int]);
        }
        strutil::append_str(out, " android:");
        strutil::append_str(out, c.attributes[i].0.as_str());
        strutil::append_str(out, "=\"");
        strutil::append_str(out, c.attributes[i].1.as_str());
        strutil::append_str(out, "\"");
        proof {
            assert(out@ =~= base + open_text@ + c@.name + "\""@ + spec_attrs_text(post));
        }
        i += 1;
    }
    proof {
        assert(attrs.subrange(0, c.attributes@.len() as int) =~= attrs);
    }
    strutil::append_str(out, " />\n");
    proof {
        assert(out@ =~= old(out)@ + spec_component_text(open_text@, c@));
    }
}

/// Append a run of component elements to the output.
fn append_components(out: &mut String, open_text: &str, cs: &[ManifestComponent])
    ensures
        final(out)@ == old(out)@ + spec_components_text(open_text@, cs.deep_view()),
{
    let ghost views = cs.deep_view();
    let ghost base = out@;
    let mut i: usize = 0;
    proof {
        assert(views.subrange(0, 0) =~= Seq::<ManifestComponentView>::empty());
        assert(out@ =~= base + spec_components_text(open_text@, views.subrange(0, 0)));
    }
    while i < cs.len()
        invariant
            i <= cs@.len(),
            views == cs.deep_view(),
            views.len() == cs@.len(),
            forall|k: int| 0 <= k < views.len() ==> views[k] == (#[trigger] cs@[k])@,
            out@ == base + spec_components_text(open_text@, views.subrange(0, i as int)),
        decreases cs@.len() - i,
    {
        let ghost pre = views.subrange(0, i as int);
        let ghost post = views.subrange(0, i + 1 as int);
        proof {
            assert(post.drop_last() =~= pre);
            assert(post.last() == views[i as int]);
        }
        append_component(out, open_text, &cs[i]);
        proof {
            assert(out@ =~= base + spec_components_text(open_text@, post));
        }
        i += 1;
    }
    proof {
        assert(views.subrange(0, cs@.len() as int) =~= views);
    }
}

/// Generate the host `AndroidManifest.xml` over the given permissions,
/// services and receivers, exactly as `spec_android_manifest` describes.
pub fn generate_android_manifest(
    permissions: &[String],
    services: &[ManifestComponent],
    receivers: &[ManifestComponent],
) -> (r: String)
    ensures
        r@ == spec_android_manifest(
            permissions.deep_view(),
            services.deep_view(),
            receivers.deep_view(),
        ),
{
    let ghost perms = permissions.deep_view();
    let mut out = String::new();
    strutil::append_str(
        &mut out,
        "<?xml version=\"1.0\" encoding=\"utf-8\"?>\n<manifest xmlns:android=\"http://schemas.android.com/apk/res/android\"\n    package=\"com.vampire.host\">\n\n    <uses-sdk android:minSdkVersion=\"24\" android:targetSdkVersion=\"30\" />\n",
    );
    let ghost head = out@;
    let mut i: usize = 0;
    proof {
        assert(perms.subrange(0, 0) =~= Seq::<Seq<char>>::empty());
        assert(out@ =~= head + spec_perms_text(perms.subrange(0, 0)));
    }
    while i < permissions.len()
        invariant
            i <= permissions@.len(),
            perms == permissions.deep_view(),
            perms.len() == permissions@.len(),
            forall|k: int| 0 <= k < perms.len() ==> perms[k] == (#[trigger] permissions@[k])@,
            out@ == head + spec_perms_text(perms.subrange(0, i as int)),
        decreases permissions@.len() - i,
    {
        let ghost pre = perms.subrange(0, i as int);
        let ghost post = perms.subrange(0, i + 1 as int);
        proof {
            assert(post.drop_last() =~= pre);
            assert(post.last() == perms[i as int]);
        }
        strutil::append_str(&mut out, "    <uses-permission android:name=\"");
        strutil::append_str(&mut out, permissions[i].as_str());
        strutil::append_str(&mut out, "\" />\n");
        proof {
            assert(out@ =~= head + spec_perms_text(post));
        }
        i += 1;
    }
    proof {
        assert(perms.subrange(0, permissions@.len() as int) =~= perms);
    }
    strutil::append_str(
        &mut out,
        "\n    <application android:label=\"Vampire Host\" android:debuggable=\"true\">\n        <!-- Minimal instrumentation for running tests -->\n        <uses-library android:name=\"android.test.runner\" />\n",
    );
    append_components(&mut out, "        <service android:name=\"", services);
    append_components(&mut out, "        <receiver android:name=\"", receivers);
    strutil::append_str(
        &mut out,
        "    </application>\n\n    <instrumentation\n        android:name=\".VampireInstrumentation\"\n        android:targetPackage=\"com.vampire.host\"\n        android:label=\"Vampire Test Runner\" />\n\n</manifest>\n",
    );
    proof {
        assert(out@ =~= spec_android_manifest(
            perms,
            services.deep_view(),
            receivers.deep_view(),
        ));
    }
    out
}

} // verus!
