//! Finding an element on a screen.

use vstd::prelude::*;

use crate::model::node::all_nodes;
use crate::model::node::is_empty;
use crate::model::node::screen_of;
use crate::model::node::short_class_of;
use crate::model::node::views_of;
use crate::model::node::Hierarchy;
use crate::model::node::HierarchyView;
use crate::model::node::NodeView;
use crate::model::node::UiNode;
use crate::model::rect::cut;
use crate::model::rect::height;
use crate::model::rect::width;
use crate::model::rect::Rect;
use crate::outside::find_regex;
use crate::outside::regex_start;
use crate::script::ir::semantic;
use crate::script::ir::ElementDef;
use crate::script::ir::LocatorDef;
use crate::text::basic::chars_of;
use crate::text::basic::same;
use crate::text::basic::slice_text;
use crate::text::number::parse_usize;
use crate::text::number::usize_of;
use crate::single::rounded_product;
use crate::single::scale_rounded;
use crate::single::Single;
use crate::text::search::char_from;
use crate::text::search::find_char;
use crate::text::search::trim;
use crate::text::search::trimmed;

verus! {

/// What an element was found as: a widget, or just a point.
pub enum Hit<'a> {
    Node(&'a UiNode),
    Point(i32, i32),
}

/// What an element was found as, as a mathematical value.
pub enum HitView {
    Node(NodeView),
    Point(i32, i32),
}

impl<'a> View for Hit<'a> {
    type V = HitView;

    open spec fn view(&self) -> HitView {
        match *self {
            Hit::Node(n) => HitView::Node(n@),
            Hit::Point(x, y) => HitView::Point(x, y),
        }
    }
}

/// The middle of what was found.
pub open spec fn center_of(h: HitView) -> (i32, i32) {
    match h {
        HitView::Node(n) => (
            cut(n.bounds.x1 + n.bounds.x2, 2) as i32,
            cut(n.bounds.y1 + n.bounds.y2, 2) as i32,
        ),
        HitView::Point(x, y) => (x, y),
    }
}

impl<'a> Hit<'a> {
    /// The middle of what was found.
    pub fn center(&self) -> (r: (i32, i32))
        ensures
            r == center_of(self@),
    {
        match self {
            Hit::Node(n) => (n.bounds.cx(), n.bounds.cy()),
            Hit::Point(x, y) => (*x, *y),
        }
    }
}

/// The expression matches at the very front of the text. What is no expression matches nothing.
pub open spec fn matches_front(pat: Seq<char>, hay: Seq<char>) -> bool {
    regex_start(pat, hay) == Some(Some(0usize))
}

/// What a search for an expression in a text gives, as an answer to whether it matches at the
/// very front.
pub fn starts_at_front(found: Option<Option<usize>>) -> (r: bool)
    ensures
        r == (found == Some(Some(0usize))),
{
    match found {
        Some(Some(at)) => at == 0,
        _ => false,
    }
}

/// The expression matches at the very front of the text.
pub fn re_match(pat: &str, hay: &str) -> (r: bool)
    ensures
        r == matches_front(pat@, hay@),
{
    starts_at_front(find_regex(pat, hay))
}

/// What a widget has to have.
#[derive(Clone, Copy)]
pub enum Feature {
    ResourceId,
    DescRegex,
    TextRegex,
    Desc,
    Text,
}

/// The feature that a kind of locator asks for.
pub open spec fn feature_of(kind: Seq<char>) -> Option<Feature> {
    if kind == "resource_id"@ {
        Some(Feature::ResourceId)
    } else if kind == "content_desc_regex"@ {
        Some(Feature::DescRegex)
    } else if kind == "text_regex"@ {
        Some(Feature::TextRegex)
    } else if kind == "content_desc"@ {
        Some(Feature::Desc)
    } else if kind == "text"@ {
        Some(Feature::Text)
    } else {
        None
    }
}

/// The widget has the feature. Where texts have to be equal, an empty one fits nothing.
pub open spec fn has_feature(n: NodeView, f: Feature, v: Seq<char>) -> bool {
    match f {
        Feature::ResourceId => v.len() > 0 && n.resource_id == v,
        Feature::DescRegex => n.content_desc.len() > 0 && matches_front(v, n.content_desc),
        Feature::TextRegex => n.text.len() > 0 && matches_front(v, n.text),
        Feature::Desc => v.len() > 0 && n.content_desc == v,
        Feature::Text => v.len() > 0 && n.text == v,
    }
}

/// The place of the first widget, from the `i`th on, with the feature.
pub open spec fn first_with(nodes: Seq<NodeView>, f: Feature, v: Seq<char>, i: int) -> Option<int>
    decreases nodes.len() - i,
{
    if i < 0 || i >= nodes.len() {
        None
    } else if has_feature(nodes[i], f, v) {
        Some(i)
    } else {
        first_with(nodes, f, v, i + 1)
    }
}

/// The place of the widget that has `k` of the class before it, from the `i`th on.
pub open spec fn nth_of_class(nodes: Seq<NodeView>, class: Seq<char>, k: int, i: int) -> Option<int>
    decreases nodes.len() - i,
{
    if i < 0 || i >= nodes.len() {
        None
    } else if short_class_of(nodes[i]) == class {
        if k <= 0 {
            Some(i)
        } else {
            nth_of_class(nodes, class, k - 1, i + 1)
        }
    } else {
        nth_of_class(nodes, class, k, i + 1)
    }
}

/// The point of a screen that parts of its width and of its height lead to.
pub open spec fn point_at(place: (Single, Single), screen: Rect) -> (int, int) {
    (
        rounded_product(width(screen), place.0),
        rounded_product(height(screen), place.1),
    )
}

/// What one locator finds. `place` is what the value of a locator by place writes: a part of the
/// width and a part of the height.
pub open spec fn found_by(
    l: LocatorDef,
    h: HierarchyView,
    positional: bool,
    by_index: bool,
    place: Option<(Single, Single)>,
) -> Option<HitView> {
    let nodes = all_nodes(h);
    let screen = screen_of(h);
    match feature_of(l.kind@) {
        Some(f) => match first_with(nodes, f, l.value@, 0) {
            Some(i) => Some(HitView::Node(nodes[i])),
            None => None,
        },
        None => if l.kind@ == "bounds_center"@ {
            match place {
                Some(part) => {
                    let (x, y) = point_at(part, screen);
                    if positional && 0 <= x <= screen.x2 && 0 <= y <= screen.y2 {
                        Some(HitView::Point(x as i32, y as i32))
                    } else {
                        None
                    }
                },
                None => None,
            }
        } else if l.kind@ == "class_index"@ && by_index {
            match char_from(l.value@, '#', 0) {
                Some(k) => match usize_of(trimmed(l.value@.skip(k + 1))) {
                    Some(n) => match nth_of_class(nodes, l.value@.take(k), n, 0) {
                        Some(i) => Some(HitView::Node(nodes[i])),
                        None => None,
                    },
                    None => None,
                },
                None => None,
            }
        } else {
            None
        },
    }
}

pub open spec fn place_at(places: Seq<Option<(Single, Single)>>, i: int) -> Option<(Single, Single)> {
    if 0 <= i < places.len() {
        places[i]
    } else {
        None
    }
}

/// What the locators of an element find, from the `i`th on: the first that finds something
/// counts.
pub open spec fn found_from(
    e: ElementDef,
    h: HierarchyView,
    positional: bool,
    by_index: bool,
    places: Seq<Option<(Single, Single)>>,
    i: int,
) -> Option<(HitView, int)>
    decreases e.locators@.len() - i,
{
    if i < 0 || i >= e.locators@.len() {
        None
    } else {
        match found_by(e.locators@[i], h, positional, by_index, place_at(places, i)) {
            Some(hit) => Some((hit, i)),
            None => found_from(e, h, positional, by_index, places, i + 1),
        }
    }
}

/// What an element is found as on a screen, and the place of the locator that finds it. Nothing
/// is found on a screen without widgets.
pub open spec fn located(
    e: ElementDef,
    h: HierarchyView,
    positional: bool,
    by_index: bool,
    places: Seq<Option<(Single, Single)>>,
) -> Option<(HitView, int)> {
    if all_nodes(h).len() == 0 {
        None
    } else {
        found_from(e, h, positional, by_index, places, 0)
    }
}

fn feature(kind: &str) -> (r: Option<Feature>)
    ensures
        r == feature_of(kind@),
{
    if same(kind, "resource_id") {
        Some(Feature::ResourceId)
    } else if same(kind, "content_desc_regex") {
        Some(Feature::DescRegex)
    } else if same(kind, "text_regex") {
        Some(Feature::TextRegex)
    } else if same(kind, "content_desc") {
        Some(Feature::Desc)
    } else if same(kind, "text") {
        Some(Feature::Text)
    } else {
        None
    }
}

fn node_has(n: &UiNode, f: Feature, v: &String) -> (r: bool)
    ensures
        r == has_feature(n@, f, v@),
{
    match f {
        Feature::ResourceId => !is_empty(v) && same(n.resource_id.as_str(), v.as_str()),
        Feature::DescRegex => !is_empty(&n.content_desc) && re_match(
            v.as_str(),
            n.content_desc.as_str(),
        ),
        Feature::TextRegex => !is_empty(&n.text) && re_match(v.as_str(), n.text.as_str()),
        Feature::Desc => !is_empty(v) && same(n.content_desc.as_str(), v.as_str()),
        Feature::Text => !is_empty(v) && same(n.text.as_str(), v.as_str()),
    }
}

fn find_with<'a>(nodes: &Vec<&'a UiNode>, f: Feature, v: &String) -> (r: Option<&'a UiNode>)
    ensures
        match first_with(views_of(nodes@), f, v@, 0) {
            Some(i) => r is Some && r->0@ == views_of(nodes@)[i],
            None => r is None,
        },
{
    let ghost all = views_of(nodes@);
    let mut i: usize = 0;
    while i < nodes.len()
        invariant
            i <= nodes@.len(),
            all == views_of(nodes@),
            first_with(all, f, v@, i as int) == first_with(all, f, v@, 0),
        decreases nodes@.len() - i,
    {
        assert(all[i as int] == nodes@[i as int]@);
        if node_has(nodes[i], f, v) {
            return Some(nodes[i]);
        }
        i = i + 1;
    }
    None
}

fn find_nth<'a>(nodes: &Vec<&'a UiNode>, class: &str, n: usize) -> (r: Option<&'a UiNode>)
    ensures
        match nth_of_class(views_of(nodes@), class@, n as int, 0) {
            Some(i) => r is Some && r->0@ == views_of(nodes@)[i],
            None => r is None,
        },
{
    let ghost all = views_of(nodes@);
    let mut i: usize = 0;
    let mut left: usize = n;
    while i < nodes.len()
        invariant
            i <= nodes@.len(),
            all == views_of(nodes@),
            nth_of_class(all, class@, left as int, i as int) == nth_of_class(
                all,
                class@,
                n as int,
                0,
            ),
        decreases nodes@.len() - i,
    {
        assert(all[i as int] == nodes@[i as int]@);
        let c = nodes[i].short_class();
        if same(c.as_str(), class) {
            if left == 0 {
                return Some(nodes[i]);
            }
            left = left - 1;
        }
        i = i + 1;
    }
    None
}

fn find_by<'a>(
    l: &LocatorDef,
    hier: &'a Hierarchy,
    nodes: &Vec<&'a UiNode>,
    positional: bool,
    by_index: bool,
    place: Option<(Single, Single)>,
) -> (r: Option<Hit<'a>>)
    requires
        views_of(nodes@) == all_nodes(hier@),
    ensures
        match found_by(*l, hier@, positional, by_index, place) {
            Some(hit) => r is Some && r->0@ == hit,
            None => r is None,
        },
{
    match feature(l.kind.as_str()) {
        Some(f) => match find_with(nodes, f, &l.value) {
            Some(n) => Some(Hit::Node(n)),
            None => None,
        },
        None => {
            if same(l.kind.as_str(), "bounds_center") {
                let screen = hier.screen();
                match place {
                    Some((px, py)) => {
                        let x = scale_rounded(screen.w(), px);
                        let y = scale_rounded(screen.h(), py);
                        if positional && 0 <= x && x <= screen.x2 && 0 <= y && y <= screen.y2 {
                            Some(Hit::Point(x, y))
                        } else {
                            None
                        }
                    },
                    None => None,
                }
            } else if same(l.kind.as_str(), "class_index") && by_index {
                let v = chars_of(l.value.as_str());
                match find_char(v.as_slice(), '#', 0) {
                    Some(k) => {
                        let class = slice_text(v.as_slice(), 0, k);
                        let rest = slice_text(v.as_slice(), k + 1, v.len());
                        assert(class@ =~= v@.take(k as int));
                        assert(rest@ =~= v@.skip(k + 1));
                        let digits = chars_of(trim(rest.as_str()).as_str());
                        match parse_usize(digits.as_slice()) {
                            Some(n) => match find_nth(nodes, class.as_str(), n) {
                                Some(node) => Some(Hit::Node(node)),
                                None => None,
                            },
                            None => None,
                        }
                    },
                    None => None,
                }
            } else {
                None
            }
        },
    }
}

/// The two numbers that the value of a locator by place writes, as texts: what stands before the
/// first comma, and what stands behind it.
pub open spec fn place_text(l: LocatorDef) -> Option<(Seq<char>, Seq<char>)> {
    if l.kind@ == "bounds_center"@ {
        match char_from(l.value@, ',', 0) {
            Some(k) => Some((trimmed(l.value@.take(k)), trimmed(l.value@.skip(k + 1)))),
            None => None,
        }
    } else {
        None
    }
}

fn write_place(l: &LocatorDef) -> (r: Option<(String, String)>)
    ensures
        match place_text(*l) {
            Some((x, y)) => r is Some && (r->0).0@ == x && (r->0).1@ == y,
            None => r is None,
        },
{
    if !same(l.kind.as_str(), "bounds_center") {
        return None;
    }
    let v = chars_of(l.value.as_str());
    match find_char(v.as_slice(), ',', 0) {
        Some(k) => {
            let x = slice_text(v.as_slice(), 0, k);
            let y = slice_text(v.as_slice(), k + 1, v.len());
            assert(x@ =~= v@.take(k as int));
            assert(y@ =~= v@.skip(k + 1));
            Some((trim(x.as_str()), trim(y.as_str())))
        },
        None => None,
    }
}

/// The numbers that the locators by place of an element write, as texts: one entry for each
/// locator.
pub fn place_texts(elem: &ElementDef) -> (r: Vec<Option<(String, String)>>)
    ensures
        r@.len() == elem.locators@.len(),
        forall|i: int|
            0 <= i < r@.len() ==> match place_text(elem.locators@[i]) {
                Some((x, y)) => #[trigger] r@[i] is Some && (r@[i]->0).0@ == x && (r@[i]->0).1@
                    == y,
                None => r@[i] is None,
            },
{
    let mut out: Vec<Option<(String, String)>> = Vec::new();
    let mut i: usize = 0;
    while i < elem.locators.len()
        invariant
            i <= elem.locators@.len(),
            out@.len() == i,
            forall|j: int|
                0 <= j < i ==> match place_text(elem.locators@[j]) {
                    Some((x, y)) => #[trigger] out@[j] is Some && (out@[j]->0).0@ == x && (out@[
                        j
                    ]->0).1@ == y,
                    None => out@[j] is None,
                },
        decreases elem.locators@.len() - i,
    {
        out.push(write_place(&elem.locators[i]));
        i = i + 1;
    }
    out
}

/// Finds an element on a screen: the first of its locators that finds something counts. For the
/// question whether the element is there, neither places nor numbers may be allowed. `places`
/// are the parts of the width and of the height that locators by place write, one for each
/// locator.
pub fn locate<'a>(
    elem: &'a ElementDef,
    hier: &'a Hierarchy,
    allow_positional: bool,
    allow_index: bool,
    places: &Vec<Option<(Single, Single)>>,
) -> (r: Option<(Hit<'a>, &'a LocatorDef)>)
    ensures
        match located(*elem, hier@, allow_positional, allow_index, places@) {
            Some((hit, i)) => r is Some && (r->0).0@ == hit && 0 <= i < elem.locators@.len() && *(
            r->0).1 == elem.locators@[i],
            None => r is None,
        },
{
    let nodes = hier.nodes();
    assert(views_of(nodes@).len() == nodes@.len());
    if nodes.len() == 0 {
        return None;
    }
    let mut i: usize = 0;
    while i < elem.locators.len()
        invariant
            i <= elem.locators@.len(),
            views_of(nodes@) == all_nodes(hier@),
            found_from(*elem, hier@, allow_positional, allow_index, places@, i as int)
                == found_from(*elem, hier@, allow_positional, allow_index, places@, 0),
            located(*elem, hier@, allow_positional, allow_index, places@) == found_from(
                *elem,
                hier@,
                allow_positional,
                allow_index,
                places@,
                0,
            ),
        decreases elem.locators@.len() - i,
    {
        let l = &elem.locators[i];
        let place: Option<(Single, Single)> = if i < places.len() {
            places[i]
        } else {
            None
        };
        match find_by(l, hier, &nodes, allow_positional, allow_index, place) {
            Some(hit) => {
                return Some((hit, l));
            },
            None => {},
        }
        i = i + 1;
    }
    None
}

// ---------------------------------------------------------------- laws

proof fn lemma_found_from(
    e: ElementDef,
    h: HierarchyView,
    positional: bool,
    by_index: bool,
    places: Seq<Option<(Single, Single)>>,
    i: int,
)
    requires
        0 <= i,
    ensures
        match found_from(e, h, positional, by_index, places, i) {
            Some((hit, k)) => i <= k < e.locators@.len() && found_by(
                e.locators@[k],
                h,
                positional,
                by_index,
                place_at(places, k),
            ) == Some(hit) && forall|j: int|
                i <= j < k ==> found_by(
                    #[trigger] e.locators@[j],
                    h,
                    positional,
                    by_index,
                    place_at(places, j),
                ) is None,
            None => forall|j: int|
                i <= j < e.locators@.len() ==> found_by(
                    #[trigger] e.locators@[j],
                    h,
                    positional,
                    by_index,
                    place_at(places, j),
                ) is None,
        },
    decreases e.locators@.len() - i,
{
    if i < e.locators@.len() && found_by(
        e.locators@[i],
        h,
        positional,
        by_index,
        place_at(places, i),
    ) is None {
        lemma_found_from(e, h, positional, by_index, places, i + 1);
    }
}

/// The locators are tried in their order: what is found is found by the first of them that finds
/// anything.
pub proof fn lemma_first_locator_wins(
    e: ElementDef,
    h: HierarchyView,
    positional: bool,
    by_index: bool,
    places: Seq<Option<(Single, Single)>>,
)
    ensures
        match located(e, h, positional, by_index, places) {
            Some((hit, k)) => 0 <= k < e.locators@.len() && found_by(
                e.locators@[k],
                h,
                positional,
                by_index,
                place_at(places, k),
            ) == Some(hit) && forall|j: int|
                0 <= j < k ==> found_by(
                    #[trigger] e.locators@[j],
                    h,
                    positional,
                    by_index,
                    place_at(places, j),
                ) is None,
            None => true,
        },
{
    lemma_found_from(e, h, positional, by_index, places, 0);
}

proof fn lemma_positional_finds_nothing(
    l: LocatorDef,
    h: HierarchyView,
    place: Option<(Single, Single)>,
)
    requires
        !semantic(l),
    ensures
        found_by(l, h, false, false, place) is None,
{
    reveal_strlit("bounds_center");
    reveal_strlit("class_index");
    reveal_strlit("resource_id");
    reveal_strlit("content_desc_regex");
    reveal_strlit("text_regex");
    reveal_strlit("content_desc");
    reveal_strlit("text");
    let k = l.kind@;
    assert("resource_id"@[0] == 'r');
    assert("class_index"@[0] == 'c');
    assert("bounds_center"@.len() == 13 && "class_index"@.len() == 11);
    assert("content_desc_regex"@.len() == 18 && "text_regex"@.len() == 10);
    assert("content_desc"@.len() == 12 && "text"@.len() == 4 && "resource_id"@.len() == 11);
    assert(k.len() == 13 || (k.len() == 11 && k[0] == 'c'));
    assert(k != "resource_id"@);
    assert(feature_of(k) is None);
}

proof fn lemma_first_with(nodes: Seq<NodeView>, f: Feature, v: Seq<char>, i: int)
    requires
        0 <= i,
    ensures
        match first_with(nodes, f, v, i) {
            Some(k) => i <= k < nodes.len() && has_feature(nodes[k], f, v),
            None => true,
        },
    decreases nodes.len() - i,
{
    if i < nodes.len() && !has_feature(nodes[i], f, v) {
        lemma_first_with(nodes, f, v, i + 1);
    }
}

/// Where neither places nor numbers are allowed, what is found is a widget of the screen, found
/// by a locator that can tell; and what locators by place write does not matter.
pub proof fn lemma_existence_is_semantic(
    e: ElementDef,
    h: HierarchyView,
    places: Seq<Option<(Single, Single)>>,
)
    ensures
        match located(e, h, false, false, places) {
            Some((hit, k)) => 0 <= k < e.locators@.len() && semantic(e.locators@[k]) && hit is Node
                && all_nodes(h).contains(hit->Node_0),
            None => true,
        },
{
    lemma_found_from(e, h, false, false, places, 0);
    if let Some((hit, k)) = located(e, h, false, false, places) {
        let l = e.locators@[k];
        if !semantic(l) {
            lemma_positional_finds_nothing(l, h, place_at(places, k));
        }
        if let Some(f) = feature_of(l.kind@) {
            lemma_first_with(all_nodes(h), f, l.value@, 0);
        }
    }
}

/// An element with nothing but places and numbers is never found to be there.
pub proof fn lemma_position_is_no_existence(
    e: ElementDef,
    h: HierarchyView,
    places: Seq<Option<(Single, Single)>>,
)
    requires
        forall|i: int| 0 <= i < e.locators@.len() ==> !semantic(#[trigger] e.locators@[i]),
    ensures
        located(e, h, false, false, places) is None,
{
    lemma_existence_is_semantic(e, h, places);
}

} // verus!
