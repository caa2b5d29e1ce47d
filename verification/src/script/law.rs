//! What locators find and what assertions ask, in terms of the widgets of a page.

use vstd::prelude::*;

use crate::model::node::all_nodes;
use crate::model::node::HierarchyView;
use crate::model::node::NodeView;
use crate::monitor::collect::Incident;
use crate::outside::regex_start;
use crate::script::check::activity_outcome_of;
use crate::script::check::first_showing;
use crate::script::check::no_crash_of;
use crate::script::check::page_outcome_of;
use crate::script::check::page_verdict;
use crate::script::check::some_equals;
use crate::script::check::status_of;
use crate::script::check::AssertStatus;
use crate::script::ir::Assertion;
use crate::script::ir::ElementDef;
use crate::script::ir::LocatorDef;
use crate::script::ir::Registry;
use crate::script::locate::feature_of;
use crate::script::locate::first_with;
use crate::script::locate::found_by;
use crate::script::locate::found_from;
use crate::script::locate::has_feature;
use crate::script::locate::located;
use crate::script::locate::place_at;
use crate::script::locate::Feature;
use crate::single::Single;
use crate::text::search::has;

verus! {

/// The words for the kinds of locators are all different.
proof fn lemma_kinds_differ()
    ensures
        "resource_id"@ != "content_desc_regex"@,
        "resource_id"@ != "text_regex"@,
        "resource_id"@ != "content_desc"@,
        "resource_id"@ != "text"@,
        "resource_id"@ != "bounds_center"@,
        "resource_id"@ != "class_index"@,
        "content_desc_regex"@ != "text_regex"@,
        "content_desc_regex"@ != "content_desc"@,
        "content_desc_regex"@ != "text"@,
        "content_desc_regex"@ != "bounds_center"@,
        "content_desc_regex"@ != "class_index"@,
        "text_regex"@ != "content_desc"@,
        "text_regex"@ != "text"@,
        "text_regex"@ != "bounds_center"@,
        "text_regex"@ != "class_index"@,
        "content_desc"@ != "text"@,
        "content_desc"@ != "bounds_center"@,
        "content_desc"@ != "class_index"@,
        "text"@ != "bounds_center"@,
        "text"@ != "class_index"@,
        "bounds_center"@ != "class_index"@,
{
    reveal_strlit("resource_id");
    reveal_strlit("content_desc_regex");
    reveal_strlit("text_regex");
    reveal_strlit("content_desc");
    reveal_strlit("text");
    reveal_strlit("bounds_center");
    reveal_strlit("class_index");
    assert("resource_id"@[0] == 'r' && "class_index"@[0] == 'c');
    assert("resource_id"@.len() == 11 && "class_index"@.len() == 11);
    assert("content_desc_regex"@.len() == 18 && "text_regex"@.len() == 10);
    assert("content_desc"@.len() == 12 && "text"@.len() == 4 && "bounds_center"@.len() == 13);
}

proof fn lemma_first_with_is_first(nodes: Seq<NodeView>, f: Feature, v: Seq<char>, i: int)
    requires
        0 <= i,
    ensures
        match first_with(nodes, f, v, i) {
            Some(k) => i <= k < nodes.len() && has_feature(nodes[k], f, v) && forall|j: int|
                i <= j < k ==> !has_feature(#[trigger] nodes[j], f, v),
            None => forall|j: int|
                i <= j < nodes.len() ==> !has_feature(#[trigger] nodes[j], f, v),
        },
    decreases nodes.len() - i,
{
    if i < nodes.len() && !has_feature(nodes[i], f, v) {
        lemma_first_with_is_first(nodes, f, v, i + 1);
    }
}

proof fn lemma_only_locator(
    e: ElementDef,
    h: HierarchyView,
    positional: bool,
    by_index: bool,
    places: Seq<Option<(Single, Single)>>,
)
    requires
        e.locators@.len() == 1,
        all_nodes(h).len() > 0,
    ensures
        located(e, h, positional, by_index, places) == match found_by(
            e.locators@[0],
            h,
            positional,
            by_index,
            place_at(places, 0),
        ) {
            Some(hit) => Some((hit, 0int)),
            None => None,
        },
{
    assert(found_from(e, h, positional, by_index, places, 1) is None);
}

/// What a single locator by resource id finds: the first widget of the page with that very
/// resource id; nothing where there is none, and nothing for an empty one.
pub proof fn lemma_found_by_resource_id(
    e: ElementDef,
    h: HierarchyView,
    positional: bool,
    by_index: bool,
    places: Seq<Option<(Single, Single)>>,
)
    requires
        e.locators@.len() == 1,
        e.locators@[0].kind@ == "resource_id"@,
    ensures
        match located(e, h, positional, by_index, places) {
            Some((hit, k)) => k == 0 && hit is Node && e.locators@[0].value@.len() > 0 && exists|
                i: int,
            |
                0 <= i < all_nodes(h).len() && #[trigger] all_nodes(h)[i] == hit->Node_0
                    && all_nodes(h)[i].resource_id == e.locators@[0].value@ && forall|j: int|
                    0 <= j < i ==> (#[trigger] all_nodes(h)[j]).resource_id
                        != e.locators@[0].value@,
            None => e.locators@[0].value@.len() > 0 ==> forall|j: int|
                0 <= j < all_nodes(h).len() ==> (#[trigger] all_nodes(h)[j]).resource_id
                    != e.locators@[0].value@,
        },
{
    let nodes = all_nodes(h);
    let v = e.locators@[0].value@;
    if nodes.len() > 0 {
        lemma_only_locator(e, h, positional, by_index, places);
        lemma_kinds_differ();
        assert(feature_of("resource_id"@) == Some(Feature::ResourceId));
        lemma_first_with_is_first(nodes, Feature::ResourceId, v, 0);
        if let Some(i) = first_with(nodes, Feature::ResourceId, v, 0) {
            assert(nodes[i].resource_id == v);
            assert forall|j: int| 0 <= j < i implies (#[trigger] nodes[j]).resource_id != v by {
                assert(!has_feature(nodes[j], Feature::ResourceId, v));
            }
        } else if v.len() > 0 {
            assert forall|j: int| 0 <= j < nodes.len() implies (#[trigger] nodes[j]).resource_id
                != v by {
                assert(!has_feature(nodes[j], Feature::ResourceId, v));
            }
        }
    }
}

/// What a single locator by description finds: the first widget of the page with that very
/// description; nothing where there is none, and nothing for an empty one.
pub proof fn lemma_found_by_content_desc(
    e: ElementDef,
    h: HierarchyView,
    positional: bool,
    by_index: bool,
    places: Seq<Option<(Single, Single)>>,
)
    requires
        e.locators@.len() == 1,
        e.locators@[0].kind@ == "content_desc"@,
    ensures
        match located(e, h, positional, by_index, places) {
            Some((hit, k)) => k == 0 && hit is Node && e.locators@[0].value@.len() > 0 && exists|
                i: int,
            |
                0 <= i < all_nodes(h).len() && #[trigger] all_nodes(h)[i] == hit->Node_0
                    && all_nodes(h)[i].content_desc == e.locators@[0].value@ && forall|j: int|
                    0 <= j < i ==> (#[trigger] all_nodes(h)[j]).content_desc
                        != e.locators@[0].value@,
            None => e.locators@[0].value@.len() > 0 ==> forall|j: int|
                0 <= j < all_nodes(h).len() ==> (#[trigger] all_nodes(h)[j]).content_desc
                    != e.locators@[0].value@,
        },
{
    let nodes = all_nodes(h);
    let v = e.locators@[0].value@;
    if nodes.len() > 0 {
        lemma_only_locator(e, h, positional, by_index, places);
        lemma_kinds_differ();
        assert(feature_of("content_desc"@) == Some(Feature::Desc));
        lemma_first_with_is_first(nodes, Feature::Desc, v, 0);
        if let Some(i) = first_with(nodes, Feature::Desc, v, 0) {
            assert(nodes[i].content_desc == v);
            assert forall|j: int| 0 <= j < i implies (#[trigger] nodes[j]).content_desc != v by {
                assert(!has_feature(nodes[j], Feature::Desc, v));
            }
        } else if v.len() > 0 {
            assert forall|j: int| 0 <= j < nodes.len() implies (#[trigger] nodes[j]).content_desc
                != v by {
                assert(!has_feature(nodes[j], Feature::Desc, v));
            }
        }
    }
}

/// What a single locator by text finds: the first widget of the page with that very text; nothing
/// where there is none, and nothing for an empty one.
pub proof fn lemma_found_by_text(
    e: ElementDef,
    h: HierarchyView,
    positional: bool,
    by_index: bool,
    places: Seq<Option<(Single, Single)>>,
)
    requires
        e.locators@.len() == 1,
        e.locators@[0].kind@ == "text"@,
    ensures
        match located(e, h, positional, by_index, places) {
            Some((hit, k)) => k == 0 && hit is Node && e.locators@[0].value@.len() > 0 && exists|
                i: int,
            |
                0 <= i < all_nodes(h).len() && #[trigger] all_nodes(h)[i] == hit->Node_0
                    && all_nodes(h)[i].text == e.locators@[0].value@ && forall|j: int|
                    0 <= j < i ==> (#[trigger] all_nodes(h)[j]).text != e.locators@[0].value@,
            None => e.locators@[0].value@.len() > 0 ==> forall|j: int|
                0 <= j < all_nodes(h).len() ==> (#[trigger] all_nodes(h)[j]).text
                    != e.locators@[0].value@,
        },
{
    let nodes = all_nodes(h);
    let v = e.locators@[0].value@;
    if nodes.len() > 0 {
        lemma_only_locator(e, h, positional, by_index, places);
        lemma_kinds_differ();
        assert(feature_of("text"@) == Some(Feature::Text));
        lemma_first_with_is_first(nodes, Feature::Text, v, 0);
        if let Some(i) = first_with(nodes, Feature::Text, v, 0) {
            assert(nodes[i].text == v);
            assert forall|j: int| 0 <= j < i implies (#[trigger] nodes[j]).text != v by {
                assert(!has_feature(nodes[j], Feature::Text, v));
            }
        } else if v.len() > 0 {
            assert forall|j: int| 0 <= j < nodes.len() implies (#[trigger] nodes[j]).text != v by {
                assert(!has_feature(nodes[j], Feature::Text, v));
            }
        }
    }
}

/// What a single locator by an expression for the description finds: the first widget that has a
/// description at the very front of which the expression matches.
pub proof fn lemma_found_by_content_desc_regex(
    e: ElementDef,
    h: HierarchyView,
    positional: bool,
    by_index: bool,
    places: Seq<Option<(Single, Single)>>,
)
    requires
        e.locators@.len() == 1,
        e.locators@[0].kind@ == "content_desc_regex"@,
    ensures
        match located(e, h, positional, by_index, places) {
            Some((hit, k)) => k == 0 && hit is Node && exists|i: int|
                0 <= i < all_nodes(h).len() && #[trigger] all_nodes(h)[i] == hit->Node_0
                    && all_nodes(h)[i].content_desc.len() > 0 && regex_start(
                    e.locators@[0].value@,
                    all_nodes(h)[i].content_desc,
                ) == Some(Some(0usize)) && forall|j: int|
                    0 <= j < i && (#[trigger] all_nodes(h)[j]).content_desc.len() > 0
                        ==> regex_start(e.locators@[0].value@, all_nodes(h)[j].content_desc)
                        != Some(Some(0usize)),
            None => forall|j: int|
                0 <= j < all_nodes(h).len() && (#[trigger] all_nodes(h)[j]).content_desc.len() > 0
                    ==> regex_start(e.locators@[0].value@, all_nodes(h)[j].content_desc) != Some(
                    Some(0usize),
                ),
        },
{
    let nodes = all_nodes(h);
    let v = e.locators@[0].value@;
    if nodes.len() > 0 {
        lemma_only_locator(e, h, positional, by_index, places);
        lemma_kinds_differ();
        assert(feature_of("content_desc_regex"@) == Some(Feature::DescRegex));
        lemma_first_with_is_first(nodes, Feature::DescRegex, v, 0);
        let found = first_with(nodes, Feature::DescRegex, v, 0);
        let end = if found is Some {
            found->0
        } else {
            nodes.len() as int
        };
        assert forall|j: int|
            0 <= j < end && (#[trigger] nodes[j]).content_desc.len() > 0 implies regex_start(
            v,
            nodes[j].content_desc,
        ) != Some(Some(0usize)) by {
            assert(!has_feature(nodes[j], Feature::DescRegex, v));
        }
    }
}

/// What a single locator by an expression for the text finds: the first widget that has a text at
/// the very front of which the expression matches.
pub proof fn lemma_found_by_text_regex(
    e: ElementDef,
    h: HierarchyView,
    positional: bool,
    by_index: bool,
    places: Seq<Option<(Single, Single)>>,
)
    requires
        e.locators@.len() == 1,
        e.locators@[0].kind@ == "text_regex"@,
    ensures
        match located(e, h, positional, by_index, places) {
            Some((hit, k)) => k == 0 && hit is Node && exists|i: int|
                0 <= i < all_nodes(h).len() && #[trigger] all_nodes(h)[i] == hit->Node_0
                    && all_nodes(h)[i].text.len() > 0 && regex_start(
                    e.locators@[0].value@,
                    all_nodes(h)[i].text,
                ) == Some(Some(0usize)) && forall|j: int|
                    0 <= j < i && (#[trigger] all_nodes(h)[j]).text.len() > 0 ==> regex_start(
                        e.locators@[0].value@,
                        all_nodes(h)[j].text,
                    ) != Some(Some(0usize)),
            None => forall|j: int|
                0 <= j < all_nodes(h).len() && (#[trigger] all_nodes(h)[j]).text.len() > 0
                    ==> regex_start(e.locators@[0].value@, all_nodes(h)[j].text) != Some(
                    Some(0usize),
                ),
        },
{
    let nodes = all_nodes(h);
    let v = e.locators@[0].value@;
    if nodes.len() > 0 {
        lemma_only_locator(e, h, positional, by_index, places);
        lemma_kinds_differ();
        assert(feature_of("text_regex"@) == Some(Feature::TextRegex));
        lemma_first_with_is_first(nodes, Feature::TextRegex, v, 0);
        let found = first_with(nodes, Feature::TextRegex, v, 0);
        let end = if found is Some {
            found->0
        } else {
            nodes.len() as int
        };
        assert forall|j: int|
            0 <= j < end && (#[trigger] nodes[j]).text.len() > 0 implies regex_start(
            v,
            nodes[j].text,
        ) != Some(Some(0usize)) by {
            assert(!has_feature(nodes[j], Feature::TextRegex, v));
        }
    }
}

/// A widget is one that a locator asks for by what the widget shows or is called.
pub open spec fn answers_locator(n: NodeView, l: LocatorDef) -> bool {
    let k = l.kind@;
    let v = l.value@;
    ||| k == "resource_id"@ && v.len() > 0 && n.resource_id == v
    ||| k == "content_desc"@ && v.len() > 0 && n.content_desc == v
    ||| k == "text"@ && v.len() > 0 && n.text == v
    ||| k == "content_desc_regex"@ && n.content_desc.len() > 0 && regex_start(v, n.content_desc)
        == Some(Some(0usize))
    ||| k == "text_regex"@ && n.text.len() > 0 && regex_start(v, n.text) == Some(Some(0usize))
}

proof fn lemma_semantic_finds(
    l: LocatorDef,
    h: HierarchyView,
    place: Option<(Single, Single)>,
)
    ensures
        found_by(l, h, false, false, place) is Some <==> exists|i: int|
            0 <= i < all_nodes(h).len() && answers_locator(#[trigger] all_nodes(h)[i], l),
{
    lemma_kinds_differ();
    let nodes = all_nodes(h);
    match feature_of(l.kind@) {
        Some(f) => {
            lemma_first_with_is_first(nodes, f, l.value@, 0);
            assert forall|i: int| 0 <= i < nodes.len() implies (answers_locator(
                #[trigger] nodes[i],
                l,
            ) <==> has_feature(nodes[i], f, l.value@)) by {}
        },
        None => {},
    }
}

proof fn lemma_present_from(
    e: ElementDef,
    h: HierarchyView,
    places: Seq<Option<(Single, Single)>>,
    from: int,
)
    requires
        0 <= from,
    ensures
        found_from(e, h, false, false, places, from) is Some <==> exists|k: int, i: int|
            from <= k < e.locators@.len() && 0 <= i < all_nodes(h).len() && #[trigger]
                answers_locator(all_nodes(h)[i], e.locators@[k]),
    decreases e.locators@.len() - from,
{
    if from < e.locators@.len() {
        lemma_semantic_finds(e.locators@[from], h, place_at(places, from));
        lemma_present_from(e, h, places, from + 1);
        if found_by(e.locators@[from], h, false, false, place_at(places, from)) is Some {
            let i = choose|i: int|
                0 <= i < all_nodes(h).len() && answers_locator(
                    #[trigger] all_nodes(h)[i],
                    e.locators@[from],
                );
            assert(answers_locator(all_nodes(h)[i], e.locators@[from]));
        }
    }
}

/// An element is there if and only if some widget of the page is one that some locator of the
/// element asks for by what the widget shows or is called. Places and numbers do not tell.
pub proof fn lemma_presence_is_a_widget(
    e: ElementDef,
    h: HierarchyView,
    places: Seq<Option<(Single, Single)>>,
)
    ensures
        located(e, h, false, false, places) is Some <==> exists|k: int, i: int|
            0 <= k < e.locators@.len() && 0 <= i < all_nodes(h).len() && #[trigger]
                answers_locator(all_nodes(h)[i], e.locators@[k]),
{
    lemma_present_from(e, h, places, 0);
}

/// The words for the kinds of assertions are all different.
proof fn lemma_asserts_differ()
    ensures
        "element_exists"@ != "element_absent"@,
        "element_exists"@ != "text_visible"@,
        "element_exists"@ != "text_contains"@,
        "element_exists"@ != "text_equals"@,
        "element_absent"@ != "text_visible"@,
        "element_absent"@ != "text_contains"@,
        "element_absent"@ != "text_equals"@,
        "text_visible"@ != "text_equals"@,
        "text_contains"@ != "text_equals"@,
{
    reveal_strlit("element_exists");
    reveal_strlit("element_absent");
    reveal_strlit("text_visible");
    reveal_strlit("text_contains");
    reveal_strlit("text_equals");
    assert("element_exists"@[8] == 'e' && "element_absent"@[8] == 'a');
    assert("element_exists"@.len() == 14 && "element_absent"@.len() == 14);
    assert("text_visible"@.len() == 12 && "text_contains"@.len() == 13);
    assert("text_equals"@.len() == 11);
}

/// For an element of the registry `element_exists` holds on a page if and only if the element is
/// found there by what a widget shows or is called, and `element_absent` holds if and only if
/// `element_exists` does not.
pub proof fn lemma_absent_is_not_exists(
    exists_one: Assertion,
    absent: Assertion,
    reg: Registry,
    h: HierarchyView,
    places: Seq<Option<(Single, Single)>>,
)
    requires
        exists_one.kind@ == "element_exists"@,
        absent.kind@ == "element_absent"@,
        exists_one.locator is Some,
        absent.locator is Some,
        (exists_one.locator->0).id is Some,
        (absent.locator->0).id is Some,
        ((exists_one.locator->0).id->0)@ == ((absent.locator->0).id->0)@,
        reg.lookup(((absent.locator->0).id->0)@) is Some,
    ensures
        ({
            let e = reg.lookup(((absent.locator->0).id->0)@)->0;
            &&& page_verdict(exists_one, reg, h).0 <==> located(e, h, false, false, places) is Some
            &&& page_verdict(exists_one, reg, h).0 <==> exists|k: int, i: int|
                0 <= k < e.locators@.len() && 0 <= i < all_nodes(h).len() && #[trigger]
                    answers_locator(all_nodes(h)[i], e.locators@[k])
            &&& page_verdict(absent, reg, h).0 <==> !page_verdict(exists_one, reg, h).0
        }),
{
    let e = reg.lookup(((absent.locator->0).id->0)@)->0;
    lemma_asserts_differ();
    lemma_presence_is_a_widget(e, h, places);
    lemma_presence_is_a_widget(e, h, seq![]);
}

/// Nothing is claimed of an element that is not in the registry: neither that it is there nor that
/// it is not.
pub proof fn lemma_unknown_element_fails(a: Assertion, reg: Registry, h: HierarchyView)
    requires
        a.kind@ == "element_exists"@ || a.kind@ == "element_absent"@,
        match a.locator {
            None => true,
            Some(r) => match r.id {
                None => true,
                Some(id) => reg.lookup(id@) is None,
            },
        },
    ensures
        !page_verdict(a, reg, h).0,
{
    lemma_asserts_differ();
}

proof fn lemma_showing(nodes: Seq<NodeView>, expect: Seq<char>, i: int)
    requires
        0 <= i,
    ensures
        first_showing(nodes, expect, i) is Some <==> exists|j: int|
            i <= j < nodes.len() && (((#[trigger] nodes[j]).text.len() > 0 && has(
                nodes[j].text,
                expect,
            )) || (nodes[j].content_desc.len() > 0 && has(nodes[j].content_desc, expect))),
    decreases nodes.len() - i,
{
    if i < nodes.len() {
        lemma_showing(nodes, expect, i + 1);
    }
}

/// `text_visible` and `text_contains` hold on a page if and only if the text or the description of
/// some widget contains what is expected; `text_equals` holds if and only if one of them is just
/// that.
pub proof fn lemma_text_assertions(a: Assertion, reg: Registry, h: HierarchyView)
    requires
        a.expect is Some,
    ensures
        a.kind@ == "text_visible"@ || a.kind@ == "text_contains"@ ==> (page_verdict(a, reg, h).0
            <==> exists|j: int|
            0 <= j < all_nodes(h).len() && (((#[trigger] all_nodes(h)[j]).text.len() > 0 && has(
                all_nodes(h)[j].text,
                (a.expect->0)@,
            )) || (all_nodes(h)[j].content_desc.len() > 0 && has(
                all_nodes(h)[j].content_desc,
                (a.expect->0)@,
            )))),
        a.kind@ == "text_equals"@ ==> (page_verdict(a, reg, h).0 <==> exists|j: int|
            0 <= j < all_nodes(h).len() && ((#[trigger] all_nodes(h)[j]).text == (a.expect->0)@
                || all_nodes(h)[j].content_desc == (a.expect->0)@)),
{
    lemma_asserts_differ();
    let nodes = all_nodes(h);
    let x = (a.expect->0)@;
    lemma_showing(nodes, x, 0);
    if a.kind@ == "text_equals"@ {
        if exists|j: int|
            0 <= j < nodes.len() && ((#[trigger] nodes[j]).text == x || nodes[j].content_desc
                == x) {
            let j = choose|j: int|
                0 <= j < nodes.len() && ((#[trigger] nodes[j]).text == x || nodes[j].content_desc
                    == x);
            assert(crate::script::check::equals(nodes[j], x));
        }
        if some_equals(nodes, x) {
            let j = choose|j: int|
                0 <= j < nodes.len() && crate::script::check::equals(#[trigger] nodes[j], x);
            assert(nodes[j].text == x || nodes[j].content_desc == x);
        }
    }
}

/// Where a text that equals what is expected is shown, a text that contains it is too.
pub proof fn lemma_equal_is_visible(
    equal: Assertion,
    visible: Assertion,
    reg: Registry,
    h: HierarchyView,
)
    requires
        equal.kind@ == "text_equals"@,
        visible.kind@ == "text_visible"@ || visible.kind@ == "text_contains"@,
        equal.expect is Some,
        visible.expect is Some,
        (equal.expect->0)@ == (visible.expect->0)@,
        (equal.expect->0)@.len() > 0,
        page_verdict(equal, reg, h).0,
    ensures
        page_verdict(visible, reg, h).0,
{
    let x = (equal.expect->0)@;
    lemma_text_assertions(equal, reg, h);
    lemma_text_assertions(visible, reg, h);
    let nodes = all_nodes(h);
    let j = choose|j: int|
        0 <= j < nodes.len() && ((#[trigger] nodes[j]).text == x || nodes[j].content_desc == x);
    assert(crate::text::search::occurs_at(x, x, 0));
    assert(has(x, x));
}

/// On a page that could not be seen no assertion holds; on one that could be seen a try passes if
/// and only if the assertion holds, and is never skipped.
pub proof fn lemma_try_on_page(
    a: Assertion,
    reg: Registry,
    page: Result<crate::model::node::Hierarchy, String>,
)
    ensures
        page is Err ==> status_of(page_outcome_of(a, reg, page)) == AssertStatus::Fail,
        page is Ok && page_verdict(a, reg, page->Ok_0@).0 ==> status_of(
            page_outcome_of(a, reg, page),
        ) == AssertStatus::Pass,
        page is Ok && !page_verdict(a, reg, page->Ok_0@).0 ==> status_of(
            page_outcome_of(a, reg, page),
        ) == AssertStatus::Fail,
{
}

/// `activity_is` passes if and only if the activity in the foreground is known and its name
/// contains what is expected; else it fails.
pub proof fn lemma_activity_assertion(expect: Seq<char>, act: Result<String, String>)
    ensures
        status_of(activity_outcome_of(expect, act)) == AssertStatus::Pass <==> (act is Ok && has(
            act->Ok_0@,
            expect,
        )),
        status_of(activity_outcome_of(expect, act)) == AssertStatus::Fail <==> !(act is Ok && has(
            act->Ok_0@,
            expect,
        )),
{
}

/// `no_crash` is skipped if and only if nobody watches; else it passes if and only if nothing was
/// noticed while the case ran.
pub proof fn lemma_no_crash_assertion(monitored: bool, during: Seq<Incident>)
    ensures
        status_of(no_crash_of(monitored, during)) == AssertStatus::Skip <==> !monitored,
        status_of(no_crash_of(monitored, during)) == AssertStatus::Pass <==> monitored
            && during.len() == 0,
        status_of(no_crash_of(monitored, during)) == AssertStatus::Fail <==> monitored
            && during.len() > 0,
{
}

} // verus!
