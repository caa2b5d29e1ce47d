//! The actions that a screen offers.

use vstd::arithmetic::power2::lemma2_to64;
use vstd::prelude::*;

use crate::model::action::target_of;
use crate::model::action::Action;
use crate::model::action::ActionView;
use crate::model::action::SwipeDir;
use crate::model::action::TargetInfo;
use crate::model::node::content_leaf;
use crate::model::node::is_empty;
use crate::model::node::takes_text;
use crate::model::node::tap_point;
use crate::model::node::NodeView;
use crate::model::node::UiNode;
use crate::model::rect::area_of;
use crate::model::rect::clamped_into;
use crate::model::rect::cut;
use crate::model::rect::divide_cut;
use crate::model::rect::height;
use crate::model::rect::inside;
use crate::model::rect::shrunk;
use crate::model::rect::solid;
use crate::model::rect::width;
use crate::model::rect::Rect;
use crate::single::divide;
use crate::single::half_of;
use crate::single::lemma_round24_near;
use crate::single::lemma_ulp24;
use crate::single::quotient;
use crate::single::round24;
use crate::single::Single;
use crate::strategy::config::ConfigView;
use crate::strategy::config::ExplorerConfig;
use crate::strategy::weight::action_weight;
use crate::strategy::weight::fair;
use crate::strategy::weight::lemma_action_weight;
use crate::strategy::weight::weigh;
use crate::strategy::weight::ONE;
use crate::text::basic::same_string;

verus! {

/// The bits of 0.15, the part of a rectangle that a swipe keeps clear of its edges.
pub const SWIPE_MARGIN: u32 = 0x3e19_999a;

/// The bits of 0.2, the margin of a swipe over a whole screen.
pub const SCREEN_MARGIN: u32 = 0x3e4c_cccd;

/// The bits of 0.92, the part of the screen beyond which a widget is as good as all of it.
pub const WHOLE_SCREEN: u32 = 0x3f6b_851f;

/// How long a swipe takes.
pub const SWIPE_MS: u32 = 320;

/// An action with its weight.
pub struct Candidate {
    pub action: Action,
    pub weight: u64,
}

/// An action with its weight as a mathematical value.
pub struct CandidateView {
    pub action: ActionView,
    pub weight: u64,
}

impl View for Candidate {
    type V = CandidateView;

    open spec fn view(&self) -> CandidateView {
        CandidateView { action: self.action@, weight: self.weight }
    }
}

pub open spec fn candidate_views(s: Seq<Candidate>) -> Seq<CandidateView> {
    Seq::new(s.len(), |i: int| s[i]@)
}

/// Where a swipe in a rectangle starts and ends: on the middle line, at a quarter and at three
/// quarters of what is left of the rectangle without its margin.
pub open spec fn swipe_of(r: Rect, dir: SwipeDir) -> ((i32, i32), (i32, i32)) {
    let m = Single { bits: SWIPE_MARGIN };
    let i = shrunk(r, m, m);
    let cx = cut(i.x1 + i.x2, 2) as i32;
    let cy = cut(i.y1 + i.y2, 2) as i32;
    let left = cut(i.x1 * 3 + i.x2, 4) as i32;
    let right = cut(i.x2 * 3 + i.x1, 4) as i32;
    let top = cut(i.y1 * 3 + i.y2, 4) as i32;
    let bottom = cut(i.y2 * 3 + i.y1, 4) as i32;
    match dir {
        SwipeDir::Up => ((cx, bottom), (cx, top)),
        SwipeDir::Down => ((cx, top), (cx, bottom)),
        SwipeDir::Left => ((right, cy), (left, cy)),
        SwipeDir::Right => ((left, cy), (right, cy)),
    }
}

/// A margin takes at most a tenth of a width away on each side.
proof fn lemma_margin(w: int, bits: u32)
    requires
        0 <= w <= i32::MAX,
        bits == SWIPE_MARGIN || bits == SCREEN_MARGIN,
    ensures
        0 <= half_of(w, Single { bits }),
        4 * half_of(w, Single { bits }) <= w,
{
    lemma2_to64();
    let f = Single { bits };
    let m = crate::single::mantissa(f);
    assert(crate::single::exponent(f) == 124);
    assert(m == 10_066_330 || m == 13_421_773);
    let r = round24(w);
    lemma_round24_near(w);
    lemma_ulp24(w);
    assert(2 * r <= 3 * w);
    assert(0 <= r * m <= r * 13_421_773) by (nonlinear_arith)
        requires
            0 <= m <= 13_421_773,
            0 <= r,
    ;
    lemma_round24_near(r * m);
    let p = round24(r * m);
    assert(p <= 2 * (r * 13_421_773));
    assert(crate::single::half_size(w, f) == p / 0x800_0000);
}

/// Where a swipe in a rectangle starts and ends.
pub fn swipe_points(r: &Rect, dir: SwipeDir) -> (p: ((i32, i32), (i32, i32)))
    requires
        i32::MIN <= r.x2 - r.x1 <= i32::MAX,
        i32::MIN <= r.y2 - r.y1 <= i32::MAX,
    ensures
        p == swipe_of(*r, dir),
{
    proof {
        lemma_margin(width(*r), SWIPE_MARGIN);
        lemma_margin(height(*r), SWIPE_MARGIN);
    }
    let m = Single { bits: SWIPE_MARGIN };
    let i = r.shrink(m, m);
    let cx = i.cx();
    let cy = i.cy();
    let left = divide_cut(i.x1 as i64 * 3 + i.x2 as i64, 4) as i32;
    let right = divide_cut(i.x2 as i64 * 3 + i.x1 as i64, 4) as i32;
    let top = divide_cut(i.y1 as i64 * 3 + i.y2 as i64, 4) as i32;
    let bottom = divide_cut(i.y2 as i64 * 3 + i.y1 as i64, 4) as i32;
    match dir {
        SwipeDir::Up => ((cx, bottom), (cx, top)),
        SwipeDir::Down => ((cx, top), (cx, bottom)),
        SwipeDir::Left => ((right, cy), (left, cy)),
        SwipeDir::Right => ((left, cy), (right, cy)),
    }
}

/// A swipe stays in its rectangle.
pub proof fn lemma_swipe_inside(r: Rect, dir: SwipeDir)
    requires
        solid(r),
        r.x1 >= 0,
        r.y1 >= 0,
    ensures
        ({
            let (f, t) = swipe_of(r, dir);
            inside(r, f.0 as int, f.1 as int) && inside(r, t.0 as int, t.1 as int)
        }),
{
    lemma_margin(width(r), SWIPE_MARGIN);
    lemma_margin(height(r), SWIPE_MARGIN);
}

/// A swipe goes where its direction says, in a rectangle that is at least two wide or high along
/// it.
pub proof fn lemma_swipe_direction(r: Rect, dir: SwipeDir)
    requires
        r.x1 >= 0,
        r.y1 >= 0,
        match dir {
            SwipeDir::Up | SwipeDir::Down => height(r) >= 2,
            SwipeDir::Left | SwipeDir::Right => width(r) >= 2,
        },
    ensures
        ({
            let (f, t) = swipe_of(r, dir);
            match dir {
                SwipeDir::Up => f.0 == t.0 && f.1 > t.1,
                SwipeDir::Down => f.0 == t.0 && f.1 < t.1,
                SwipeDir::Left => f.1 == t.1 && f.0 > t.0,
                SwipeDir::Right => f.1 == t.1 && f.0 < t.0,
            }
        }),
{
    lemma_margin(width(r), SWIPE_MARGIN);
    lemma_margin(height(r), SWIPE_MARGIN);
}

/// The widget belongs to another app than the one under test.
pub open spec fn foreign(package: Seq<char>, n: NodeView) -> bool {
    package.len() > 0 && n.package.len() > 0 && n.package != package
}

/// The widget belongs to another app than the one under test.
pub fn is_foreign(package: &String, n: &UiNode) -> (r: bool)
    ensures
        r == foreign(package@, n@),
{
    !is_empty(package) && !is_empty(&n.package) && !same_string(&n.package, package.as_str())
}

/// Something can be done with the widget: it is enabled, not as good as the whole screen, not
/// too small, and on the screen.
pub open spec fn eligible(n: NodeView, screen: Rect) -> bool {
    &&& n.enabled
    &&& quotient(
        area_of(n.bounds),
        if area_of(screen) > 1 {
            area_of(screen)
        } else {
            1
        },
    ) <= WHOLE_SCREEN
    &&& width(n.bounds) >= 4
    &&& height(n.bounds) >= 4
    &&& tap_point(n, screen) is Some
}

fn is_eligible(n: &UiNode, screen: &Rect) -> (r: Option<(i32, i32)>)
    ensures
        r == if eligible(n@, *screen) {
            tap_point(n@, *screen)
        } else {
            None
        },
{
    if !n.enabled {
        return None;
    }
    let mut all = screen.area_wide();
    if all < 1 {
        all = 1;
    }
    if divide(n.bounds.area_wide(), all).bits > WHOLE_SCREEN {
        return None;
    }
    if n.bounds.width_wide() < 4 || n.bounds.height_wide() < 4 {
        return None;
    }
    n.click_point(screen)
}

/// A text has to be drawn for the widget.
pub open spec fn wants_text(cfg: ConfigView, n: NodeView, screen: Rect) -> bool {
    eligible(n, screen) && cfg.input && takes_text(n) && cfg.pool.len() > 0
}

/// A swipe on a widget.
pub open spec fn widget_swipe(n: NodeView, screen: Rect, dir: SwipeDir, w: u64) -> CandidateView {
    let (from, to) = swipe_of(clamped_into(n.bounds, screen), dir);
    CandidateView {
        action: ActionView::Swipe {
            target: Some(target_of(n)),
            from,
            to,
            dir,
            duration_ms: SWIPE_MS,
        },
        weight: w,
    }
}

/// The swipes on a widget that scrolls.
pub open spec fn swipe_actions(
    cfg: ConfigView,
    n: NodeView,
    screen: Rect,
    touched: int,
) -> Seq<CandidateView> {
    let far = foreign(cfg.package, n);
    let major = action_weight(6, far, touched) as u64;
    let minor = action_weight(2, far, touched) as u64;
    if !n.scrollable {
        seq![]
    } else if cfg.horizontal {
        seq![
            widget_swipe(n, screen, SwipeDir::Down, major),
            widget_swipe(n, screen, SwipeDir::Up, major),
            widget_swipe(n, screen, SwipeDir::Left, minor),
            widget_swipe(n, screen, SwipeDir::Right, minor),
        ]
    } else {
        seq![
            widget_swipe(n, screen, SwipeDir::Down, major),
            widget_swipe(n, screen, SwipeDir::Up, major),
        ]
    }
}

/// The tap on a widget: one that answers to it weighs more than a leaf with content, on which
/// it reaches what the leaf stands in.
pub open spec fn click_actions(
    cfg: ConfigView,
    n: NodeView,
    point: (i32, i32),
    touched: int,
) -> Seq<CandidateView> {
    let far = foreign(cfg.package, n);
    let action = ActionView::Click { target: target_of(n), point };
    if n.clickable || n.checkable || takes_text(n) {
        seq![CandidateView { action, weight: action_weight(10, far, touched) as u64 }]
    } else if content_leaf(n) {
        seq![CandidateView { action, weight: action_weight(4, far, touched) as u64 }]
    } else {
        seq![]
    }
}

pub open spec fn long_click_actions(
    cfg: ConfigView,
    n: NodeView,
    point: (i32, i32),
    touched: int,
) -> Seq<CandidateView> {
    let far = foreign(cfg.package, n);
    if cfg.long_click && n.long_clickable {
        seq![
            CandidateView {
                action: ActionView::LongClick { target: target_of(n), point },
                weight: action_weight(3, far, touched) as u64,
            },
        ]
    } else {
        seq![]
    }
}

pub open spec fn input_actions(
    cfg: ConfigView,
    n: NodeView,
    point: (i32, i32),
    touched: int,
    text: Seq<char>,
) -> Seq<CandidateView> {
    let far = foreign(cfg.package, n);
    if cfg.input && takes_text(n) && cfg.pool.len() > 0 {
        seq![
            CandidateView {
                action: ActionView::Input { target: target_of(n), point, text },
                weight: action_weight(5, far, touched) as u64,
            },
        ]
    } else {
        seq![]
    }
}

/// What can be done with one widget, where the text to type is the given one.
pub open spec fn node_actions(
    cfg: ConfigView,
    n: NodeView,
    screen: Rect,
    touched: int,
    text: Seq<char>,
) -> Seq<CandidateView> {
    if !eligible(n, screen) {
        seq![]
    } else {
        let p = tap_point(n, screen)->0;
        click_actions(cfg, n, p, touched) + long_click_actions(cfg, n, p, touched) + input_actions(
            cfg,
            n,
            p,
            touched,
            text,
        ) + swipe_actions(cfg, n, screen, touched)
    }
}

/// A swipe up in the middle of the screen, for a screen that offers nothing else.
pub open spec fn screen_swipe(screen: Rect) -> CandidateView {
    let m = Single { bits: SCREEN_MARGIN };
    let (from, to) = swipe_of(shrunk(screen, m, m), SwipeDir::Up);
    CandidateView {
        action: ActionView::Swipe {
            target: None,
            from,
            to,
            dir: SwipeDir::Up,
            duration_ms: SWIPE_MS,
        },
        weight: ONE,
    }
}

/// A screen as a dump describes it.
pub open spec fn whole(screen: Rect) -> bool {
    screen.x1 == 0 && screen.y1 == 0 && screen.x2 >= 1 && screen.y2 >= 1
}

fn push_candidate(out: &mut Vec<Candidate>, action: Action, weight: u64)
    ensures
        candidate_views(final(out)@) == candidate_views(old(out)@) + seq![
            CandidateView { action: action@, weight },
        ],
{
    let ghost c = CandidateView { action: action@, weight };
    out.push(Candidate { action, weight });
    assert(candidate_views(out@) =~= candidate_views(old(out)@) + seq![c]);
}

fn push_swipe(out: &mut Vec<Candidate>, n: &UiNode, screen: &Rect, dir: SwipeDir, w: u64)
    requires
        whole(*screen),
    ensures
        candidate_views(final(out)@) == candidate_views(old(out)@) + seq![
            widget_swipe(n@, *screen, dir, w),
        ],
{
    let area = n.bounds.clamp_inside(screen);
    let (from, to) = swipe_points(&area, dir);
    push_candidate(
        out,
        Action::Swipe {
            target: Some(TargetInfo::from_node(n)),
            from,
            to,
            dir,
            duration_ms: SWIPE_MS,
        },
        w,
    );
}

fn push_swipes(
    cfg: &ExplorerConfig,
    n: &UiNode,
    screen: &Rect,
    touched: u32,
    out: &mut Vec<Candidate>,
)
    requires
        whole(*screen),
    ensures
        candidate_views(final(out)@) == candidate_views(old(out)@) + swipe_actions(
            cfg@,
            n@,
            *screen,
            touched as int,
        ),
{
    let ghost before = candidate_views(out@);
    let ghost goal = swipe_actions(cfg@, n@, *screen, touched as int);
    if !n.scrollable {
        assert(before + goal =~= before);
        return ;
    }
    let far = is_foreign(&cfg.package, n);
    let major = weigh(6, far, touched);
    let minor = weigh(2, far, touched);
    push_swipe(out, n, screen, SwipeDir::Down, major);
    push_swipe(out, n, screen, SwipeDir::Up, major);
    if cfg.enable_horizontal_swipe {
        push_swipe(out, n, screen, SwipeDir::Left, minor);
        push_swipe(out, n, screen, SwipeDir::Right, minor);
    }
    assert(candidate_views(out@) =~= before + goal);
}

fn push_taps(
    cfg: &ExplorerConfig,
    n: &UiNode,
    point: (i32, i32),
    touched: u32,
    text: &str,
    out: &mut Vec<Candidate>,
)
    ensures
        candidate_views(final(out)@) == candidate_views(old(out)@) + (click_actions(
            cfg@,
            n@,
            point,
            touched as int,
        ) + long_click_actions(cfg@, n@, point, touched as int) + input_actions(
            cfg@,
            n@,
            point,
            touched as int,
            text@,
        )),
{
    let ghost before = candidate_views(out@);
    let ghost clicks = click_actions(cfg@, n@, point, touched as int);
    let ghost longs = long_click_actions(cfg@, n@, point, touched as int);
    let ghost inputs = input_actions(cfg@, n@, point, touched as int, text@);
    let far = is_foreign(&cfg.package, n);
    let target = TargetInfo::from_node(n);
    if n.clickable || n.checkable || n.is_edit_text() {
        let w = weigh(10, far, touched);
        push_candidate(out, Action::Click { target: target.clone(), point }, w);
    } else if n.is_leaf_with_content() {
        let w = weigh(4, far, touched);
        push_candidate(out, Action::Click { target: target.clone(), point }, w);
    }
    assert(candidate_views(out@) =~= before + clicks);
    if cfg.enable_long_click && n.long_clickable {
        let w = weigh(3, far, touched);
        push_candidate(out, Action::LongClick { target: target.clone(), point }, w);
    }
    assert(candidate_views(out@) =~= before + clicks + longs);
    if cfg.enable_input && n.is_edit_text() && cfg.text_pool.len() > 0 {
        let w = weigh(5, far, touched);
        push_candidate(out, Action::Input { target: target.clone(), point, text: text.to_string() }, w);
    }
    assert(candidate_views(out@) =~= before + (clicks + longs + inputs));
}

/// Adds what can be done with one widget that was used `touched` times, where the text to type
/// is the given one.
pub fn add_actions(
    cfg: &ExplorerConfig,
    n: &UiNode,
    screen: &Rect,
    touched: u32,
    text: &str,
    out: &mut Vec<Candidate>,
)
    requires
        whole(*screen),
    ensures
        candidate_views(final(out)@) == candidate_views(old(out)@) + node_actions(
            cfg@,
            n@,
            *screen,
            touched as int,
            text@,
        ),
{
    let ghost before = candidate_views(out@);
    let ghost goal = node_actions(cfg@, n@, *screen, touched as int, text@);
    match is_eligible(n, screen) {
        None => {
            assert(before + goal =~= before);
        },
        Some(point) => {
            push_taps(cfg, n, point, touched, text, out);
            push_swipes(cfg, n, screen, touched, out);
            assert(candidate_views(out@) =~= before + goal);
        },
    }
}

/// A text has to be drawn for the widget.
pub fn needs_text(cfg: &ExplorerConfig, n: &UiNode, screen: &Rect) -> (r: bool)
    ensures
        r == wants_text(cfg@, n@, *screen),
{
    match is_eligible(n, screen) {
        None => false,
        Some(_) => cfg.enable_input && n.is_edit_text() && cfg.text_pool.len() > 0,
    }
}

/// Adds a swipe up in the middle of the screen.
pub fn add_screen_swipe(screen: &Rect, out: &mut Vec<Candidate>)
    requires
        whole(*screen),
    ensures
        candidate_views(final(out)@) == candidate_views(old(out)@) + seq![screen_swipe(*screen)],
{
    proof {
        lemma_margin(width(*screen), SCREEN_MARGIN);
        lemma_margin(height(*screen), SCREEN_MARGIN);
    }
    let m = Single { bits: SCREEN_MARGIN };
    let (from, to) = swipe_points(&screen.shrink(m, m), SwipeDir::Up);
    push_candidate(
        out,
        Action::Swipe { target: None, from, to, dir: SwipeDir::Up, duration_ms: SWIPE_MS },
        ONE,
    );
}

/// The swipe over a screen goes up on the middle line, within the screen.
pub proof fn lemma_screen_swipe(screen: Rect)
    requires
        whole(screen),
    ensures
        match screen_swipe(screen).action {
            ActionView::Swipe { target, from, to, dir, duration_ms } => target is None && dir
                == SwipeDir::Up && duration_ms == 320 && from.0 == to.0 && from.1 >= to.1 && 0
                <= from.0 < screen.x2 && 0 <= to.1 && from.1 < screen.y2 && (screen.y2 >= 4
                ==> from.1 > to.1),
            _ => false,
        },
{
    lemma_margin(width(screen), SCREEN_MARGIN);
    lemma_margin(height(screen), SCREEN_MARGIN);
    let m = Single { bits: SCREEN_MARGIN };
    let r = shrunk(screen, m, m);
    assert(2 * height(r) >= height(screen));
    lemma_swipe_inside(r, SwipeDir::Up);
    if screen.y2 >= 4 {
        lemma_swipe_direction(r, SwipeDir::Up);
    }
    lemma_margin(width(r), SWIPE_MARGIN);
    lemma_margin(height(r), SWIPE_MARGIN);
}

/// The weights of candidates.
pub open spec fn weights_of(s: Seq<CandidateView>) -> Seq<u64> {
    Seq::new(s.len(), |i: int| s[i].weight)
}

pub proof fn lemma_node_actions_fair(
    cfg: ConfigView,
    n: NodeView,
    screen: Rect,
    touched: int,
    text: Seq<char>,
)
    ensures
        fair(weights_of(node_actions(cfg, n, screen, touched, text))),
{
    let far = foreign(cfg.package, n);
    lemma_action_weight(10, far, touched);
    lemma_action_weight(6, far, touched);
    lemma_action_weight(5, far, touched);
    lemma_action_weight(4, far, touched);
    lemma_action_weight(3, far, touched);
    lemma_action_weight(2, far, touched);
}

/// Nothing is offered on a widget that is not enabled.
pub proof fn lemma_disabled_offers_nothing(
    cfg: ConfigView,
    n: NodeView,
    screen: Rect,
    touched: int,
    text: Seq<char>,
)
    requires
        !n.enabled,
    ensures
        node_actions(cfg, n, screen, touched, text).len() == 0,
{
}

} // verus!
