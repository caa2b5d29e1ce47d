//! What holds of rectangles, of trees of widgets, and of the words for actions.

use vstd::prelude::*;

use crate::model::action::dir_text;
use crate::model::action::label_of;
use crate::model::action::point_text;
use crate::model::action::ActionView;
use crate::model::action::SwipeDir;
use crate::model::action::TargetView;
use crate::model::node::all_nodes;
use crate::model::node::display_of;
use crate::model::node::forest_of;
use crate::model::node::screen_of;
use crate::model::node::tap_point;
use crate::model::node::tree_of;
use crate::model::node::HierarchyView;
use crate::model::node::NodeView;
use crate::model::rect::area_of;
use crate::model::rect::clamped_into;
use crate::model::rect::common;
use crate::model::rect::cut;
use crate::model::rect::height;
use crate::model::rect::inside;
use crate::model::rect::solid;
use crate::model::rect::width;
use crate::model::rect::Rect;
use crate::runner::rules::lemma_within;
use crate::text::number::dec_signed;
use crate::text::search::has;

verus! {

/// What is left of a column of a rectangle, and what is right of it, have no place in common, make
/// up the whole of it, and add up to its area.
pub proof fn lemma_columns_part_a_rectangle(r: Rect, m: i32, x: int, y: int)
    requires
        r.x1 <= m <= r.x2,
    ensures
        ({
            let a = Rect { x2: m, ..r };
            let b = Rect { x1: m, ..r };
            &&& inside(r, x, y) <==> inside(a, x, y) || inside(b, x, y)
            &&& !(inside(a, x, y) && inside(b, x, y))
            &&& area_of(r) == area_of(a) + area_of(b)
            &&& width(r) == width(a) + width(b)
        }),
{
    let a = Rect { x2: m, ..r };
    let b = Rect { x1: m, ..r };
    assert((width(a) + width(b)) * height(r) == width(a) * height(r) + width(b) * height(r))
        by (nonlinear_arith);
}

/// What is above a row of a rectangle, and what is below it, have no place in common, make up the
/// whole of it, and add up to its area.
pub proof fn lemma_rows_part_a_rectangle(r: Rect, m: i32, x: int, y: int)
    requires
        r.y1 <= m <= r.y2,
    ensures
        ({
            let a = Rect { y2: m, ..r };
            let b = Rect { y1: m, ..r };
            &&& inside(r, x, y) <==> inside(a, x, y) || inside(b, x, y)
            &&& !(inside(a, x, y) && inside(b, x, y))
            &&& area_of(r) == area_of(a) + area_of(b)
            &&& height(r) == height(a) + height(b)
        }),
{
    let a = Rect { y2: m, ..r };
    let b = Rect { y1: m, ..r };
    assert(width(r) * (height(a) + height(b)) == width(r) * height(a) + width(r) * height(b))
        by (nonlinear_arith);
}

/// A rectangle of one place holds that place alone and has the area one. A rectangle has an area
/// if and only if it holds a place.
pub proof fn lemma_single_places(p: (i32, i32), r: Rect, x: int, y: int)
    requires
        p.0 < i32::MAX,
        p.1 < i32::MAX,
    ensures
        ({
            let one = Rect { x1: p.0, y1: p.1, x2: (p.0 + 1) as i32, y2: (p.1 + 1) as i32 };
            &&& inside(one, x, y) <==> x == p.0 && y == p.1
            &&& area_of(one) == 1
            &&& solid(one)
        }),
        solid(r) <==> inside(r, r.x1 as int, r.y1 as int),
        inside(r, x, y) ==> solid(r),
        area_of(r) == 0 <==> !solid(r),
{
    let w = width(r);
    let h = height(r);
    assert(w * h == 0 <==> w == 0 || h == 0) by (nonlinear_arith);
    let one = Rect { x1: p.0, y1: p.1, x2: (p.0 + 1) as i32, y2: (p.1 + 1) as i32 };
    assert(width(one) == 1 && height(one) == 1);
    assert(1int * 1 == 1);
}

/// Two rectangles have in common the places that are in both.
pub proof fn lemma_what_is_in_common(a: Rect, b: Rect, x: int, y: int)
    ensures
        inside(common(a, b), x, y) <==> inside(a, x, y) && inside(b, x, y),
        common(a, a) == a,
        common(a, b) == common(b, a),
        a.x1 <= x < a.x2 && a.y1 <= y < a.y2 <==> inside(a, x, y),
{
}

/// Edges that are in range stay, and others go to the end of the range that is next to them.
pub proof fn lemma_edges_moved_in(r: Rect, o: Rect)
    requires
        o.x1 <= o.x2,
        o.y1 <= o.y2,
    ensures
        ({
            let c = clamped_into(r, o);
            &&& o.x1 <= c.x1 <= o.x2 && o.x1 <= c.x2 <= o.x2
            &&& o.y1 <= c.y1 <= o.y2 && o.y1 <= c.y2 <= o.y2
            &&& o.x1 <= r.x1 <= o.x2 ==> c.x1 == r.x1
            &&& o.x1 <= r.x2 <= o.x2 ==> c.x2 == r.x2
            &&& o.y1 <= r.y1 <= o.y2 ==> c.y1 == r.y1
            &&& o.y1 <= r.y2 <= o.y2 ==> c.y2 == r.y2
            &&& r.x1 < o.x1 ==> c.x1 == o.x1
            &&& r.x1 > o.x2 ==> c.x1 == o.x2
            &&& r.x2 < o.x1 ==> c.x2 == o.x1
            &&& r.x2 > o.x2 ==> c.x2 == o.x2
            &&& r.y1 < o.y1 ==> c.y1 == o.y1
            &&& r.y1 > o.y2 ==> c.y1 == o.y2
            &&& r.y2 < o.y1 ==> c.y2 == o.y1
            &&& r.y2 > o.y2 ==> c.y2 == o.y2
        }),
{
}

/// Half of a number, cut towards zero: twice of it is off by less than two, and never farther from
/// zero.
pub proof fn lemma_halves(n: int)
    ensures
        n >= 0 ==> 2 * cut(n, 2) <= n < 2 * cut(n, 2) + 2,
        n <= 0 ==> 2 * cut(n, 2) - 2 < n <= 2 * cut(n, 2),
{
}

/// A widget can be tapped if and only if the screen shows a place of it. On a screen that begins at
/// zero the tap goes to the middle of what the screen shows.
pub proof fn lemma_taps_go_to_the_middle(n: NodeView, w: i32, h: i32)
    requires
        w > 0,
        h > 0,
    ensures
        ({
            let screen = Rect { x1: 0, y1: 0, x2: w, y2: h };
            let b = n.bounds;
            let left = if b.x1 > 0 {
                b.x1 as int
            } else {
                0
            };
            let top = if b.y1 > 0 {
                b.y1 as int
            } else {
                0
            };
            let right = if b.x2 < w {
                b.x2
            } else {
                w
            };
            let bottom = if b.y2 < h {
                b.y2
            } else {
                h
            };
            &&& tap_point(n, screen) is Some <==> left < right && top < bottom
            &&& tap_point(n, screen) is Some ==> {
                let p = tap_point(n, screen)->0;
                &&& 2 * p.0 <= left + right <= 2 * p.0 + 1
                &&& 2 * p.1 <= top + bottom <= 2 * p.1 + 1
                &&& left <= p.0 < right && top <= p.1 < bottom
            }
        }),
{
}

/// The screen begins at zero and has the size of the dump, and at least one place.
pub proof fn lemma_size_of_the_screen(h: HierarchyView)
    ensures
        screen_of(h).x1 == 0 && screen_of(h).y1 == 0,
        h.width >= 1 ==> screen_of(h).x2 == h.width,
        h.height >= 1 ==> screen_of(h).y2 == h.height,
        h.width < 1 ==> screen_of(h).x2 == 1,
        h.height < 1 ==> screen_of(h).y2 == 1,
{
}

// ---------------------------------------------------------------- trees

/// The widgets of several trees are those of each of them, in their order.
pub proof fn lemma_trees_in_order(a: Seq<NodeView>, b: Seq<NodeView>)
    ensures
        forest_of(a + b) == forest_of(a) + forest_of(b),
    decreases b.len(),
{
    if b.len() == 0 {
        assert(a + b =~= a);
        assert(forest_of(a) + forest_of(b) =~= forest_of(a));
    } else {
        assert((a + b).drop_last() =~= a + b.drop_last());
        assert((a + b).last() == b.last());
        lemma_trees_in_order(a, b.drop_last());
        assert(forest_of(a + b) =~= forest_of(a) + forest_of(b));
    }
}

/// A widget comes before those inside it, and those inside it come child by child; a screen has the
/// widgets below its outermost one, and none without it.
pub proof fn lemma_widget_comes_first(
    n: NodeView,
    a: Seq<NodeView>,
    c: NodeView,
    b: Seq<NodeView>,
    h: HierarchyView,
)
    requires
        n.children == a + seq![c] + b,
    ensures
        tree_of(n)[0] == n,
        tree_of(n).skip(1) == forest_of(a) + tree_of(c) + forest_of(b),
        h.root == Some(n) ==> all_nodes(h) == tree_of(n),
        h.root is None ==> all_nodes(h).len() == 0,
{
    lemma_trees_in_order(a + seq![c], b);
    lemma_trees_in_order(a, seq![c]);
    assert(seq![c].drop_last() =~= seq![]);
    assert(seq![c].last() == c);
    assert(forest_of(seq![c]) =~= tree_of(c)) by {
        assert(forest_of(seq![c]) == forest_of(seq![]) + tree_of(c));
        assert(forest_of(seq![]) =~= seq![]);
    }
    assert(tree_of(n).skip(1) =~= forest_of(n.children));
}

/// A widget without others inside it is alone in its tree.
pub proof fn lemma_leaf_is_alone(n: NodeView)
    requires
        n.children.len() == 0,
    ensures
        tree_of(n) == seq![n],
{
    assert(forest_of(n.children) =~= seq![]);
}

/// A widget is called by its text; else by its description; else by the end of its id; else by the
/// end of its class.
pub proof fn lemma_what_a_widget_is_shown_as(n: NodeView, front: Seq<char>, name: Seq<char>)
    requires
        0 < name.len() <= 24,
        !name.contains('/'),
        !name.contains('.'),
    ensures
        n.text == name ==> display_of(n) == name,
        n.text.len() == 0 && n.content_desc == name ==> display_of(n) == name,
        n.text.len() == 0 && n.content_desc.len() == 0 && n.resource_id == front + seq!['/'] + name
            ==> display_of(n) == name,
        n.text.len() == 0 && n.content_desc.len() == 0 && n.resource_id.len() == 0 && n.class
            == front + seq!['.'] + name ==> display_of(n) == name,
{
    lemma_behind_last(front, '/', name);
    lemma_behind_last(front, '.', name);
    assert((front + seq!['/'] + name).len() > 0);
}

/// What stands behind the last of the characters.
pub proof fn lemma_behind_last(front: Seq<char>, c: char, name: Seq<char>)
    requires
        !name.contains(c),
    ensures
        crate::text::split::behind_last(front + seq![c] + name, c) == name,
    decreases name.len(),
{
    let s = front + seq![c] + name;
    if name.len() == 0 {
        assert(s.last() == c);
        assert(crate::text::split::behind_last(s, c) =~= name);
    } else {
        let d = name.drop_last();
        assert(s.drop_last() =~= front + seq![c] + d);
        assert(s.last() == name[name.len() - 1]);
        assert(name.contains(name[name.len() - 1]));
        assert(!d.contains(c)) by {
            if d.contains(c) {
                let i = choose|i: int| 0 <= i < d.len() && d[i] == c;
                assert(name[i] == c);
            }
        }
        lemma_behind_last(front, c, d);
        assert(name =~= d.push(name.last()));
    }
}

// ---------------------------------------------------------------- words

/// The words for an action name the widget that it is aimed at, and the places.
pub proof fn lemma_words_for_actions(
    p: (i32, i32),
    q: (i32, i32),
    t: TargetView,
    text: Seq<char>,
    dir: SwipeDir,
    ms: u32,
)
    ensures
        ({
            let l = label_of(ActionView::Click { target: t, point: p });
            has(l, "点击 "@ + t.label) && has(l, point_text(p))
        }),
        ({
            let l = label_of(ActionView::LongClick { target: t, point: p });
            has(l, "长按 "@ + t.label) && has(l, point_text(p))
        }),
        ({
            let l = label_of(ActionView::Input { target: t, point: p, text });
            has(l, t.label) && has(l, text)
        }),
        ({
            let l = label_of(
                ActionView::Swipe { target: Some(t), from: p, to: q, dir, duration_ms: ms },
            );
            has(l, t.label) && has(l, point_text(p) + "->"@ + point_text(q))
        }),
        ({
            let l = label_of(
                ActionView::Swipe { target: None, from: p, to: q, dir, duration_ms: ms },
            );
            has(l, "屏幕"@) && has(l, point_text(p) + "->"@ + point_text(q))
        }),
        point_text(p) == "("@ + dec_signed(p.0 as int) + ","@ + dec_signed(p.1 as int) + ")"@,
        dir_text(SwipeDir::Up) == "up"@ && dir_text(SwipeDir::Down) == "down"@,
        dir_text(SwipeDir::Left) == "left"@ && dir_text(SwipeDir::Right) == "right"@,
{
    lemma_three_and_point("点击 "@, t.label, " @"@, point_text(p));
    lemma_three_and_point("长按 "@, t.label, " @"@, point_text(p));
    lemma_five("向 "@, t.label, " 输入 “"@, text, "”"@);
    let a = point_text(p);
    let b = point_text(q);
    let front = crate::model::action::dir_cn(dir);
    lemma_way(front, t.label, a, b);
    lemma_way(front, "屏幕"@, a, b);
}

proof fn lemma_three_and_point(a: Seq<char>, b: Seq<char>, c: Seq<char>, d: Seq<char>)
    ensures
        has(a + b + c + d, a + b),
        has(a + b + c + d, d),
{
    lemma_within(a + b + c + d, seq![], a + b, c + d);
    lemma_within(a + b + c + d, a + b + c, d, seq![]);
}

proof fn lemma_five(a: Seq<char>, b: Seq<char>, c: Seq<char>, d: Seq<char>, e: Seq<char>)
    ensures
        has(a + b + c + d + e, b),
        has(a + b + c + d + e, d),
{
    lemma_within(a + b + c + d + e, a, b, c + d + e);
    lemma_within(a + b + c + d + e, a + b + c, d, e);
}

proof fn lemma_way(front: Seq<char>, name: Seq<char>, a: Seq<char>, b: Seq<char>)
    ensures
        has(front + " "@ + name + " "@ + a + "->"@ + b, name),
        has(front + " "@ + name + " "@ + a + "->"@ + b, a + "->"@ + b),
{
    let t = front + " "@ + name + " "@ + a + "->"@ + b;
    lemma_within(t, front + " "@, name, " "@ + a + "->"@ + b);
    lemma_within(t, front + " "@ + name + " "@, a + "->"@ + b, seq![]);
}

} // verus!
