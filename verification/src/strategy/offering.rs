//! What is offered on a widget and on a screen, in terms of the widgets and the settings.

use vstd::arithmetic::power2::lemma2_to64;
use vstd::prelude::*;

use crate::model::action::target_of;
use crate::model::action::ActionView;
use crate::model::action::SwipeDir;
use crate::model::node::key_of;
use crate::model::node::lemma_nodes_view;
use crate::model::node::lemma_tap_is_inside;
use crate::model::node::on_screen;
use crate::model::node::screen_of;
use crate::model::node::shown;
use crate::model::node::tap_point;
use crate::model::node::visible_of;
use crate::model::node::HierarchyView;
use crate::model::node::NodeView;
use crate::model::node::UiNode;
use crate::model::rect::area_of;
use crate::model::rect::clamped_into;
use crate::model::rect::common;
use crate::model::rect::lemma_area;
use crate::model::rect::solid;
use crate::model::rect::Rect;
use crate::quotient::bits_of;
use crate::quotient::lemma_quotient_against;
use crate::quotient::lemma_rounding_is_small;
use crate::single::lemma_round24_near;
use crate::single::lemma_round24_twice;
use crate::single::round24;
use crate::strategy::candidate::click_actions;
use crate::strategy::candidate::eligible;
use crate::strategy::candidate::foreign;
use crate::strategy::candidate::input_actions;
use crate::strategy::candidate::lemma_swipe_direction;
use crate::strategy::candidate::lemma_swipe_inside;
use crate::strategy::candidate::long_click_actions;
use crate::strategy::candidate::node_actions;
use crate::strategy::candidate::swipe_actions;
use crate::strategy::candidate::swipe_of;
use crate::strategy::candidate::whole;
use crate::strategy::candidate::CandidateView;
use crate::strategy::config::ExplorerConfig;
use crate::strategy::explorer::offered;
use crate::strategy::explorer::widgets_offer;
use crate::strategy::explorer::ExplorerView;
use crate::strategy::record::touched_of;
use crate::strategy::weight::action_weight;
use crate::strategy::weight::base_weight;
use crate::text::search::has;

verus! {

/// The action is a swipe in the direction.
pub open spec fn is_swipe(a: ActionView, d: SwipeDir) -> bool {
    a matches ActionView::Swipe { dir, .. } && dir == d
}

/// There is a swipe in the direction.
pub open spec fn some_swipe(acts: Seq<CandidateView>, d: SwipeDir) -> bool {
    exists|i: int| 0 <= i < acts.len() && is_swipe((#[trigger] acts[i]).action, d)
}

/// There is a tap.
pub open spec fn some_click(acts: Seq<CandidateView>) -> bool {
    exists|i: int| 0 <= i < acts.len() && (#[trigger] acts[i]).action is Click
}

/// There is a long tap.
pub open spec fn some_long_click(acts: Seq<CandidateView>) -> bool {
    exists|i: int| 0 <= i < acts.len() && (#[trigger] acts[i]).action is LongClick
}

/// There is a text to type.
pub open spec fn some_input(acts: Seq<CandidateView>) -> bool {
    exists|i: int| 0 <= i < acts.len() && (#[trigger] acts[i]).action is Input
}

/// The two actions are of the same kind, and of the same direction where they are swipes.
pub open spec fn alike(a: ActionView, b: ActionView) -> bool {
    match (a, b) {
        (ActionView::Click { .. }, ActionView::Click { .. }) => true,
        (ActionView::LongClick { .. }, ActionView::LongClick { .. }) => true,
        (ActionView::Input { .. }, ActionView::Input { .. }) => true,
        (ActionView::Swipe { dir: x, .. }, ActionView::Swipe { dir: y, .. }) => x == y,
        _ => false,
    }
}

/// Which kinds of actions a widget offers follows from its flags and the settings: a tap where it
/// can be tapped, checked or typed into, or is a leaf with content; a long tap where it answers to
/// one and that is allowed; a text where it takes one, that is allowed and there is one; a swipe up
/// and one down where it scrolls, and to the left and to the right too where that is allowed.
/// Nothing else is offered, and nothing twice.
pub proof fn lemma_kinds_offered(
    cfg: ExplorerConfig,
    n: UiNode,
    screen: Rect,
    touched: int,
    text: Seq<char>,
)
    ensures
        ({
            let acts = node_actions(cfg@, n@, screen, touched, text);
            let able = eligible(n@, screen);
            let typed = has(n.class@, "EditText"@) || has(n.class@, "AutoCompleteTextView"@);
            let leaf = n.children@.len() == 0 && (n.text@.len() > 0 || n.content_desc@.len() > 0);
            &&& some_swipe(acts, SwipeDir::Up) <==> able && n.scrollable
            &&& some_swipe(acts, SwipeDir::Down) <==> able && n.scrollable
            &&& some_swipe(acts, SwipeDir::Left) <==> able && n.scrollable
                && cfg.enable_horizontal_swipe
            &&& some_swipe(acts, SwipeDir::Right) <==> able && n.scrollable
                && cfg.enable_horizontal_swipe
            &&& some_click(acts) <==> able && (n.clickable || n.checkable || typed || leaf)
            &&& some_long_click(acts) <==> able && n.long_clickable && cfg.enable_long_click
            &&& some_input(acts) <==> able && typed && cfg.enable_input && cfg.text_pool@.len() > 0
            &&& forall|i: int|
                0 <= i < acts.len() ==> (#[trigger] acts[i]).action is Click || acts[i].action
                    is LongClick || acts[i].action is Input || acts[i].action is Swipe
            &&& forall|i: int, j: int|
                0 <= i < j < acts.len() ==> !alike(
                    (#[trigger] acts[i]).action,
                    (#[trigger] acts[j]).action,
                )
        }),
{
    let acts = node_actions(cfg@, n@, screen, touched, text);
    let (a, b, d) = lemma_layout(cfg, n, screen, touched, text);
    lemma_by_layout(acts, a, b, d);
}

/// In which order the actions on a widget stand: taps before `a`, long taps before `b`, texts
/// before `d`, swipes from there on.
pub open spec fn laid_out(acts: Seq<CandidateView>, a: int, b: int, d: int) -> bool {
    &&& 0 <= a <= 1
    &&& a <= b <= a + 1
    &&& b <= d <= b + 1
    &&& d <= acts.len()
    &&& acts.len() == d || acts.len() == d + 2 || acts.len() == d + 4
    &&& a > 0 ==> acts[0].action is Click
    &&& b > a ==> acts[a].action is LongClick
    &&& d > b ==> acts[b].action is Input
    &&& acts.len() > d ==> is_swipe(acts[d].action, SwipeDir::Down) && is_swipe(
        acts[d + 1].action,
        SwipeDir::Up,
    )
    &&& acts.len() > d + 2 ==> is_swipe(acts[d + 2].action, SwipeDir::Left) && is_swipe(
        acts[d + 3].action,
        SwipeDir::Right,
    )
}

proof fn lemma_layout(
    cfg: ExplorerConfig,
    n: UiNode,
    screen: Rect,
    touched: int,
    text: Seq<char>,
) -> (r: (int, int, int))
    ensures
        ({
            let acts = node_actions(cfg@, n@, screen, touched, text);
            let able = eligible(n@, screen);
            let typed = has(n.class@, "EditText"@) || has(n.class@, "AutoCompleteTextView"@);
            let leaf = n.children@.len() == 0 && (n.text@.len() > 0 || n.content_desc@.len() > 0);
            &&& laid_out(acts, r.0, r.1, r.2)
            &&& r.0 > 0 <==> able && (n.clickable || n.checkable || typed || leaf)
            &&& r.1 > r.0 <==> able && n.long_clickable && cfg.enable_long_click
            &&& r.2 > r.1 <==> able && typed && cfg.enable_input && cfg.text_pool@.len() > 0
            &&& acts.len() > r.2 <==> able && n.scrollable
            &&& acts.len() > r.2 + 2 <==> able && n.scrollable && cfg.enable_horizontal_swipe
        }),
{
    lemma_nodes_view(n.children@);
    let v = n@;
    let acts = node_actions(cfg@, v, screen, touched, text);
    if eligible(v, screen) {
        let p = tap_point(v, screen)->0;
        let c = click_actions(cfg@, v, p, touched);
        let l = long_click_actions(cfg@, v, p, touched);
        let t = input_actions(cfg@, v, p, touched, text);
        let s = swipe_actions(cfg@, v, screen, touched);
        let a = c.len() as int;
        let b = a + l.len();
        let d = b + t.len();
        assert(acts == c + l + t + s);
        assert(a > 0 ==> acts[0] == c[0]);
        assert(b > a ==> acts[a] == l[0]);
        assert(d > b ==> acts[b] == t[0]);
        assert(forall|i: int| d <= i < acts.len() ==> #[trigger] acts[i] == s[i - d]);
        (a, b, d)
    } else {
        (0, 0, 0)
    }
}

proof fn lemma_by_layout(acts: Seq<CandidateView>, a: int, b: int, d: int)
    requires
        laid_out(acts, a, b, d),
    ensures
        some_swipe(acts, SwipeDir::Up) <==> acts.len() > d,
        some_swipe(acts, SwipeDir::Down) <==> acts.len() > d,
        some_swipe(acts, SwipeDir::Left) <==> acts.len() > d + 2,
        some_swipe(acts, SwipeDir::Right) <==> acts.len() > d + 2,
        some_click(acts) <==> a > 0,
        some_long_click(acts) <==> b > a,
        some_input(acts) <==> d > b,
        forall|i: int|
            0 <= i < acts.len() ==> (#[trigger] acts[i]).action is Click || acts[i].action
                is LongClick || acts[i].action is Input || acts[i].action is Swipe,
        forall|i: int, j: int|
            0 <= i < j < acts.len() ==> !alike(
                (#[trigger] acts[i]).action,
                (#[trigger] acts[j]).action,
            ),
{
    assert forall|i: int| 0 <= i < acts.len() implies #[trigger] acts[i] == acts[i] && (i < a
        ==> acts[i].action is Click) && (a <= i < b ==> acts[i].action is LongClick) && (b <= i < d
        ==> acts[i].action is Input) && (i == d ==> is_swipe(acts[i].action, SwipeDir::Down)) && (i
        == d + 1 ==> is_swipe(acts[i].action, SwipeDir::Up)) && (i == d + 2 ==> is_swipe(
        acts[i].action,
        SwipeDir::Left,
    )) && (i == d + 3 ==> is_swipe(acts[i].action, SwipeDir::Right)) by {}
    if acts.len() > d {
        assert(is_swipe(acts[d].action, SwipeDir::Down));
        assert(is_swipe(acts[d + 1].action, SwipeDir::Up));
    }
    if acts.len() > d + 2 {
        assert(is_swipe(acts[d + 2].action, SwipeDir::Left));
        assert(is_swipe(acts[d + 3].action, SwipeDir::Right));
    }
}

/// The action is aimed at the widget: what is kept of its target is what the widget is.
pub open spec fn aimed_at(target: crate::model::action::TargetView, n: UiNode) -> bool {
    &&& target.key == key_of(n@)
    &&& target.resource_id == n.resource_id@
    &&& target.bounds == n.bounds
}

/// The point is in the rectangle.
pub open spec fn at_point(r: Rect, p: (i32, i32)) -> bool {
    r.x1 <= p.0 < r.x2 && r.y1 <= p.1 < r.y2
}

/// Where an action on a widget goes: at the widget itself, to a place in it that is on the screen;
/// a text is the one that was drawn for the widget; a swipe goes its way within what the screen
/// shows of the widget, and takes 320 milliseconds.
pub proof fn lemma_actions_are_aimed(
    cfg: ExplorerConfig,
    n: UiNode,
    screen: Rect,
    touched: int,
    text: Seq<char>,
    i: int,
)
    requires
        whole(screen),
        0 <= i < node_actions(cfg@, n@, screen, touched, text).len(),
    ensures
        match node_actions(cfg@, n@, screen, touched, text)[i].action {
            ActionView::Click { target, point } => aimed_at(target, n) && at_point(n.bounds, point)
                && at_point(screen, point),
            ActionView::LongClick { target, point } => aimed_at(target, n) && at_point(
                n.bounds,
                point,
            ) && at_point(screen, point),
            ActionView::Input { target, point, text: typed } => aimed_at(target, n) && at_point(
                n.bounds,
                point,
            ) && at_point(screen, point) && typed == text,
            ActionView::Swipe { target, from, to, dir, duration_ms } => target is Some
                && aimed_at(target->0, n) && at_point(n.bounds, from) && at_point(n.bounds, to)
                && at_point(screen, from) && at_point(screen, to) && duration_ms == 320,
            _ => false,
        },
{
    let v = n@;
    lemma_tap_is_inside(v, screen);
    assert(eligible(v, screen));
    lemma_swipe_stays(v, screen, SwipeDir::Up);
    lemma_swipe_stays(v, screen, SwipeDir::Down);
    lemma_swipe_stays(v, screen, SwipeDir::Left);
    lemma_swipe_stays(v, screen, SwipeDir::Right);
    lemma_pieces(cfg, n, screen, touched, text, i);
    let a = node_actions(cfg@, v, screen, touched, text)[i].action;
    assert(target_of(v).key == key_of(v) && target_of(v).bounds == n.bounds);
}

/// Each action on a widget is of one of the kinds, and is built as that kind is.
proof fn lemma_pieces(
    cfg: ExplorerConfig,
    n: UiNode,
    screen: Rect,
    touched: int,
    text: Seq<char>,
    i: int,
)
    requires
        0 <= i < node_actions(cfg@, n@, screen, touched, text).len(),
    ensures
        eligible(n@, screen),
        ({
            let v = n@;
            let p = tap_point(v, screen)->0;
            match node_actions(cfg@, v, screen, touched, text)[i].action {
                ActionView::Click { target, point } => target == target_of(v) && point == p,
                ActionView::LongClick { target, point } => target == target_of(v) && point == p,
                ActionView::Input { target, point, text: typed } => target == target_of(v) && point
                    == p && typed == text,
                ActionView::Swipe { target, from, to, dir, duration_ms } => target == Some(
                    target_of(v),
                ) && (from, to) == swipe_of(clamped_into(v.bounds, screen), dir) && duration_ms
                    == 320,
                _ => false,
            }
        }),
{
    let v = n@;
    let p = tap_point(v, screen)->0;
    let c = click_actions(cfg@, v, p, touched);
    let l = long_click_actions(cfg@, v, p, touched);
    let t = input_actions(cfg@, v, p, touched, text);
    let s = swipe_actions(cfg@, v, screen, touched);
    let acts = node_actions(cfg@, v, screen, touched, text);
    assert(acts == c + l + t + s);
    let a = c.len() as int;
    let b = a + l.len();
    let d = b + t.len();
    if i < a {
        assert(acts[i] == c[i]);
    } else if i < b {
        assert(acts[i] == l[i - a]);
    } else if i < d {
        assert(acts[i] == t[i - b]);
    } else {
        assert(acts[i] == s[i - d]);
    }
}

proof fn lemma_swipe_stays(v: NodeView, screen: Rect, dir: SwipeDir)
    requires
        whole(screen),
        solid(common(v.bounds, screen)),
    ensures
        ({
            let (f, t) = swipe_of(clamped_into(v.bounds, screen), dir);
            at_point(v.bounds, f) && at_point(v.bounds, t) && at_point(screen, f) && at_point(
                screen,
                t,
            )
        }),
{
    let area = clamped_into(v.bounds, screen);
    lemma_swipe_inside(area, dir);
}

/// A swipe on a widget goes the way that it is called, where the screen shows enough of the
/// widget.
pub proof fn lemma_swipes_go_their_way(
    cfg: ExplorerConfig,
    n: UiNode,
    screen: Rect,
    touched: int,
    text: Seq<char>,
    i: int,
)
    requires
        whole(screen),
        0 <= i < node_actions(cfg@, n@, screen, touched, text).len(),
        n.bounds.x1 >= 0,
        n.bounds.y1 >= 0,
        n.bounds.x1 + 2 <= screen.x2,
        n.bounds.y1 + 2 <= screen.y2,
    ensures
        match node_actions(cfg@, n@, screen, touched, text)[i].action {
            ActionView::Swipe { from, to, dir, .. } => match dir {
                SwipeDir::Up => from.0 == to.0 && from.1 > to.1,
                SwipeDir::Down => from.0 == to.0 && from.1 < to.1,
                SwipeDir::Left => from.1 == to.1 && from.0 > to.0,
                SwipeDir::Right => from.1 == to.1 && from.0 < to.0,
            },
            _ => true,
        },
{
    let v = n@;
    let area = clamped_into(v.bounds, screen);
    assert(eligible(v, screen));
    lemma_swipe_direction(area, SwipeDir::Up);
    lemma_swipe_direction(area, SwipeDir::Down);
    lemma_swipe_direction(area, SwipeDir::Left);
    lemma_swipe_direction(area, SwipeDir::Right);
    lemma_pieces(cfg, n, screen, touched, text, i);
}

/// The weight is the importance times 1, or 0.4 for a widget of another app, times 3 for a widget
/// that nothing was done with, 1.4 for one that was used at most twice and 0.6 for any other; it
/// is off by less than a thousandth. A weight of one is `2^48`.
pub open spec fn near_weight(w: int, importance: int, far: bool, touched: int) -> bool {
    let ideal = importance * (if far {
        4int
    } else {
        10
    }) * (if touched == 0 {
        30int
    } else if touched <= 2 {
        14
    } else {
        6
    });
    &&& 1000 * (100 * w - ideal * 0x1_0000_0000_0000) <= ideal * 0x1_0000_0000_0000
    &&& 1000 * (ideal * 0x1_0000_0000_0000 - 100 * w) <= ideal * 0x1_0000_0000_0000
}

/// The weight of an action is its importance, less for widgets of other apps, and less the more
/// often the widget was used.
pub proof fn lemma_weight_is_near(importance: int, far: bool, touched: int)
    requires
        1 <= importance <= 10,
        0 <= touched,
    ensures
        near_weight(action_weight(importance, far, touched), importance, far, touched),
{
    let b = if far {
        13_421_773int * 0x80_0000int
    } else {
        0x1_0000_0000_0000int
    };
    lemma_rounding_is_small(3 * b);
    lemma_rounding_is_small(11_744_051 * b);
    lemma_rounding_is_small(5_033_165 * b);
    let w = base_weight(far, touched);
    let share = (if far {
        4int
    } else {
        10
    }) * (if touched == 0 {
        30int
    } else if touched <= 2 {
        14
    } else {
        6
    });
    assert(10000 * (100 * w - share * 0x1_0000_0000_0000) <= share * 0x1_0000_0000_0000);
    assert(10000 * (share * 0x1_0000_0000_0000 - 100 * w) <= share * 0x1_0000_0000_0000);
    let x = importance * w;
    let ideal = importance * (if far {
        4int
    } else {
        10
    }) * (if touched == 0 {
        30int
    } else if touched <= 2 {
        14
    } else {
        6
    });
    assert(ideal == importance * share) by (nonlinear_arith)
        requires
            ideal == importance * (if far {
                4int
            } else {
                10
            }) * (if touched == 0 {
                30int
            } else if touched <= 2 {
                14
            } else {
                6
            }),
            share == (if far {
                4int
            } else {
                10
            }) * (if touched == 0 {
                30int
            } else if touched <= 2 {
                14
            } else {
                6
            }),
    ;
    let unit = 0x1_0000_0000_0000int;
    assert(10000 * (100 * x - ideal * unit) <= ideal * unit && 10000 * (ideal * unit - 100 * x)
        <= ideal * unit && x >= 0) by (nonlinear_arith)
        requires
            x == importance * w,
            ideal == importance * share,
            importance >= 1,
            10000 * (100 * w - share * unit) <= share * unit,
            10000 * (share * unit - 100 * w) <= share * unit,
            share >= 1,
            unit >= 1,
    ;
    lemma_rounding_is_small(x);
}

/// How much the actions on a widget weigh: a tap on one that answers to it 10, on a leaf with
/// content 4; a swipe up or down 6, to the left or to the right 2; a text 5; a long tap 3; all of
/// it times what the widget weighs.
pub proof fn lemma_weights_offered(
    cfg: ExplorerConfig,
    n: UiNode,
    screen: Rect,
    touched: int,
    text: Seq<char>,
    i: int,
)
    requires
        0 <= touched,
        0 <= i < node_actions(cfg@, n@, screen, touched, text).len(),
    ensures
        ({
            let c = node_actions(cfg@, n@, screen, touched, text)[i];
            let typed = has(n.class@, "EditText"@) || has(n.class@, "AutoCompleteTextView"@);
            let far = cfg.package@.len() > 0 && n.package@.len() > 0 && n.package@ != cfg.package@;
            let importance: int = match c.action {
                ActionView::Click { .. } => if n.clickable || n.checkable || typed {
                    10
                } else {
                    4
                },
                ActionView::LongClick { .. } => 3,
                ActionView::Input { .. } => 5,
                ActionView::Swipe { dir, .. } => if dir == SwipeDir::Up || dir == SwipeDir::Down {
                    6
                } else {
                    2
                },
                _ => 1,
            };
            near_weight(c.weight as int, importance, far, touched)
        }),
{
    let v = n@;
    let far = foreign(cfg@.package, v);
    crate::strategy::weight::lemma_action_weight(10, far, touched);
    crate::strategy::weight::lemma_action_weight(6, far, touched);
    crate::strategy::weight::lemma_action_weight(5, far, touched);
    crate::strategy::weight::lemma_action_weight(4, far, touched);
    crate::strategy::weight::lemma_action_weight(3, far, touched);
    crate::strategy::weight::lemma_action_weight(2, far, touched);
    lemma_weight_is_near(10, far, touched);
    lemma_weight_is_near(6, far, touched);
    lemma_weight_is_near(5, far, touched);
    lemma_weight_is_near(4, far, touched);
    lemma_weight_is_near(3, far, touched);
    lemma_weight_is_near(2, far, touched);
    assert(eligible(v, screen));
    let p = tap_point(v, screen)->0;
    let c = click_actions(cfg@, v, p, touched);
    let l = long_click_actions(cfg@, v, p, touched);
    let t = input_actions(cfg@, v, p, touched, text);
    let s = swipe_actions(cfg@, v, screen, touched);
    assert(node_actions(cfg@, v, screen, touched, text) == c + l + t + s);
}

/// Something can be done with a widget that is enabled, at least four wide and high, in part on the
/// screen, and at most 91 hundredths as large as the screen. Nothing can be done with one that is
/// not enabled, or smaller, or beside the screen, or at least 93 hundredths as large.
pub proof fn lemma_who_can_act(n: UiNode, screen: Rect)
    requires
        whole(screen),
        area_of(n.bounds) < area_of(screen) * 0x80_0000,
    ensures
        ({
            let b = n.bounds;
            let shown = b.x1 < screen.x2 && b.x2 > 0 && b.y1 < screen.y2 && b.y2 > 0;
            let size = (b.x2 - b.x1) * (b.y2 - b.y1);
            let all = screen.x2 * screen.y2;
            let large_enough = b.x2 - b.x1 >= 4 && b.y2 - b.y1 >= 4;
            &&& n.enabled && large_enough && shown && 100 * size <= 91 * all ==> eligible(
                n@,
                screen,
            )
            &&& !n.enabled || !large_enough || !shown || 100 * size >= 93 * all ==> !eligible(
                n@,
                screen,
            )
        }),
{
    let b = n.bounds;
    lemma_area(b);
    lemma_area(screen);
    let all = area_of(screen);
    assert(all >= 1) by (nonlinear_arith)
        requires
            all == screen.x2 * screen.y2,
            screen.x2 >= 1,
            screen.y2 >= 1,
    ;
    if b.x2 - b.x1 >= 4 && b.y2 - b.y1 >= 4 {
        let size = area_of(b);
        assert(size >= 16) by (nonlinear_arith)
            requires
                size == (b.x2 - b.x1) * (b.y2 - b.y1),
                b.x2 - b.x1 >= 4,
                b.y2 - b.y1 >= 4,
        ;
        let x = round24(size);
        let y = round24(all);
        lemma_round24_near(size);
        lemma_round24_near(all);
        lemma_round24_twice(size);
        lemma_round24_twice(all);
        lemma_rounding_is_small(size);
        lemma_rounding_is_small(all);
        lemma2_to64();
        assert(x < y * 0x100_0000);
        lemma_quotient_against(x, y, 15_435_039, 24);
        assert(bits_of(15_435_039, 24) == 0x3f6b_851f);
        assert(crate::single::quotient(size, all) == crate::single::quotient(x, y));
    }
}

/// A widget is on the screen where more than a fifth of it is: surely at 21 hundredths, and surely
/// not at 19.
pub proof fn lemma_who_is_on_screen(n: NodeView, screen: Rect)
    requires
        whole(screen),
    ensures
        ({
            let b = n.bounds;
            let c = common(b, screen);
            let size = (b.x2 - b.x1) * (b.y2 - b.y1);
            let part = (c.x2 - c.x1) * (c.y2 - c.y1);
            let solid_one = b.x1 < b.x2 && b.y1 < b.y2;
            let meets = c.x1 < c.x2 && c.y1 < c.y2;
            &&& solid_one && meets && 100 * part >= 21 * size ==> on_screen(n, screen)
            &&& !solid_one || !meets || 100 * part <= 19 * size ==> !on_screen(n, screen)
        }),
{
    let b = n.bounds;
    let c = common(b, screen);
    lemma_area(b);
    lemma_area(c);
    let size = area_of(b);
    let part = area_of(c);
    if b.x1 < b.x2 && b.y1 < b.y2 {
        assert(size >= 1) by (nonlinear_arith)
            requires
                size == (b.x2 - b.x1) * (b.y2 - b.y1),
                b.x2 - b.x1 >= 1,
                b.y2 - b.y1 >= 1,
        ;
        if c.x1 < c.x2 && c.y1 < c.y2 {
            assert(1 <= part <= size) by (nonlinear_arith)
                requires
                    part == (c.x2 - c.x1) * (c.y2 - c.y1),
                    size == (b.x2 - b.x1) * (b.y2 - b.y1),
                    1 <= c.x2 - c.x1 <= b.x2 - b.x1,
                    1 <= c.y2 - c.y1 <= b.y2 - b.y1,
            ;
            let x = round24(part);
            let y = round24(size);
            lemma_round24_near(part);
            lemma_round24_near(size);
            lemma_round24_twice(part);
            lemma_round24_twice(size);
            lemma_rounding_is_small(part);
            lemma_rounding_is_small(size);
            lemma2_to64();
            lemma_quotient_against(x, y, 13_421_773, 26);
            assert(bits_of(13_421_773, 26) == 0x3e4c_cccd);
            assert(crate::single::quotient(part, size) == crate::single::quotient(x, y));
        } else {
            assert(part == 0) by (nonlinear_arith)
                requires
                    part == crate::model::rect::width(c) * crate::model::rect::height(c),
                    crate::model::rect::width(c) == 0 || crate::model::rect::height(c) == 0,
            ;
            crate::single::lemma_round24_exact(0);
            assert(crate::single::quotient(part, size) == 0);
        }
    }
}

/// The widgets that a screen shows are those of its widgets that are on it, and no others.
pub proof fn lemma_what_is_visible(s: Seq<NodeView>, screen: Rect, n: NodeView)
    ensures
        shown(s, screen).contains(n) <==> s.contains(n) && on_screen(n, screen),
    decreases s.len(),
{
    if s.len() > 0 {
        let d = s.drop_last();
        lemma_what_is_visible(d, screen, n);
        let r = shown(s, screen);
        let q = shown(d, screen);
        if s.contains(n) {
            let i = choose|i: int| 0 <= i < s.len() && s[i] == n;
            if i < d.len() {
                assert(d[i] == n);
            }
        }
        if d.contains(n) {
            let i = choose|i: int| 0 <= i < d.len() && d[i] == n;
            assert(s[i] == n);
        }
        assert(s[s.len() - 1] == s.last());
        if q.contains(n) {
            let i = choose|i: int| 0 <= i < q.len() && q[i] == n;
            assert(r[i] == n);
        }
        if r.contains(n) {
            let i = choose|i: int| 0 <= i < r.len() && r[i] == n;
            if i < q.len() {
                assert(q[i] == n);
            }
        }
        if on_screen(s.last(), screen) {
            assert(r[q.len() as int] == s.last());
        }
    }
}

/// The action is one of those on the widget at the place.
pub open spec fn offered_on(
    v: ExplorerView,
    vis: Seq<NodeView>,
    screen: Rect,
    drawn: Seq<Seq<char>>,
    k: int,
    c: CandidateView,
) -> bool {
    node_actions(v.cfg, vis[k], screen, touched_of(v.nodes, key_of(vis[k])), drawn[k]).contains(c)
}

proof fn lemma_widgets_offer(
    v: ExplorerView,
    vis: Seq<NodeView>,
    screen: Rect,
    drawn: Seq<Seq<char>>,
    c: CandidateView,
)
    ensures
        widgets_offer(v, vis, screen, drawn).contains(c) <==> exists|k: int|
            0 <= k < vis.len() && #[trigger] offered_on(v, vis, screen, drawn, k, c),
    decreases vis.len(),
{
    if vis.len() > 0 {
        let d = vis.drop_last();
        lemma_widgets_offer(v, d, screen, drawn, c);
        let last = vis.len() - 1;
        let x = widgets_offer(v, d, screen, drawn);
        let y = node_actions(
            v.cfg,
            vis[last],
            screen,
            touched_of(v.nodes, key_of(vis[last])),
            drawn[last],
        );
        let all = widgets_offer(v, vis, screen, drawn);
        assert(all == x + y);
        assert forall|k: int| 0 <= k < d.len() implies (#[trigger] offered_on(
            v,
            d,
            screen,
            drawn,
            k,
            c,
        ) <==> offered_on(v, vis, screen, drawn, k, c)) by {
            assert(d[k] == vis[k]);
        }
        lemma_sum_contains(x, y, c);
        if x.contains(c) {
            let k = choose|k: int|
                0 <= k < d.len() && #[trigger] offered_on(v, d, screen, drawn, k, c);
            assert(offered_on(v, vis, screen, drawn, k, c));
        }
        assert(offered_on(v, vis, screen, drawn, last, c) <==> y.contains(c));
        if exists|k: int|
            0 <= k < vis.len() && #[trigger] offered_on(v, vis, screen, drawn, k, c) {
            let k = choose|k: int|
                0 <= k < vis.len() && #[trigger] offered_on(v, vis, screen, drawn, k, c);
            if k < d.len() {
                assert(offered_on(v, d, screen, drawn, k, c));
            }
        }
    }
}

proof fn lemma_sum_contains(x: Seq<CandidateView>, y: Seq<CandidateView>, c: CandidateView)
    ensures
        (x + y).contains(c) <==> x.contains(c) || y.contains(c),
{
    let all = x + y;
    if all.contains(c) {
        let i = choose|i: int| 0 <= i < all.len() && all[i] == c;
        if i < x.len() {
            assert(x[i] == c);
        } else {
            assert(y[i - x.len()] == c);
        }
    }
    if x.contains(c) {
        let i = choose|i: int| 0 <= i < x.len() && x[i] == c;
        assert(all[i] == c);
    }
    if y.contains(c) {
        let i = choose|i: int| 0 <= i < y.len() && y[i] == c;
        assert(all[x.len() + i] == c);
    }
}

/// A screen offers what its visible widgets do, each with the text that was drawn for it and by how
/// often it was used, and nothing else. Where they offer nothing, it offers one swipe up over the
/// screen itself.
pub proof fn lemma_what_a_screen_offers(
    v: ExplorerView,
    h: HierarchyView,
    drawn: Seq<Seq<char>>,
    c: CandidateView,
)
    ensures
        ({
            let vis = visible_of(h);
            let screen = screen_of(h);
            let some = exists|k: int, x: CandidateView|
                0 <= k < vis.len() && #[trigger] offered_on(v, vis, screen, drawn, k, x);
            &&& some ==> (offered(v, h, drawn).contains(c) <==> exists|k: int|
                0 <= k < vis.len() && #[trigger] offered_on(v, vis, screen, drawn, k, c))
            &&& !some ==> offered(v, h, drawn).len() == 1
            &&& !some ==> match offered(v, h, drawn)[0].action {
                ActionView::Swipe { target, from, to, dir, duration_ms } => target is None && dir
                    == SwipeDir::Up && duration_ms == 320 && from.0 == to.0 && from.1 >= to.1
                    && 0 <= from.0 < screen.x2 && 0 <= to.1 && from.1 < screen.y2 && (screen.y2
                    >= 4 ==> from.1 > to.1),
                _ => false,
            }
        }),
{
    let vis = visible_of(h);
    let screen = screen_of(h);
    let w = widgets_offer(v, vis, screen, drawn);
    lemma_widgets_offer(v, vis, screen, drawn, c);
    if exists|k: int, x: CandidateView|
        0 <= k < vis.len() && #[trigger] offered_on(v, vis, screen, drawn, k, x) {
        let (k, x) = choose|k: int, x: CandidateView|
            0 <= k < vis.len() && #[trigger] offered_on(v, vis, screen, drawn, k, x);
        lemma_widgets_offer(v, vis, screen, drawn, x);
        assert(w.contains(x));
    } else {
        if w.len() > 0 {
            lemma_widgets_offer(v, vis, screen, drawn, w[0]);
            assert(w.contains(w[0]));
            let k = choose|k: int|
                0 <= k < vis.len() && #[trigger] offered_on(v, vis, screen, drawn, k, w[0]);
            assert(offered_on(v, vis, screen, drawn, k, w[0]));
        }
        crate::strategy::candidate::lemma_screen_swipe(screen);
    }
}

} // verus!
