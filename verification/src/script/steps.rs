//! Running the steps of a case.

use vstd::prelude::*;

use crate::model::action::dir_cn;
use crate::model::action::target_of;
use crate::model::action::Action;
use crate::model::action::ActionView;
use crate::model::action::SwipeDir;
use crate::model::action::TargetInfo;
use crate::model::action::TargetView;
use crate::model::node::is_empty;
use crate::model::node::screen_of;
use crate::model::node::Hierarchy;
use crate::model::node::HierarchyView;
use crate::model::rect::cut;
use crate::model::rect::height;
use crate::model::rect::width;
use crate::model::rect::Rect;
use crate::monitor::line::option_text;
use crate::outside::debug_of;
use crate::outside::debug_text;
use crate::script::check::element_of;
use crate::script::gate::glue;
use crate::script::ir::copy_option;
use crate::script::ir::label_of_element;
use crate::script::ir::number_of;
use crate::script::ir::number_or_place;
use crate::script::ir::or_empty;
use crate::script::ir::text_or_empty;
use crate::script::ir::ElementDef;
use crate::script::ir::LocatorDef;
use crate::script::ir::Registry;
use crate::script::ir::Step;
use crate::script::locate::center_of;
use crate::script::locate::locate;
use crate::script::locate::located;
use crate::script::locate::Hit;
use crate::script::locate::HitView;
use crate::single::Single;
use crate::text::basic::chars_of;
use crate::text::basic::same;
use crate::text::number::dec;
use crate::text::number::dec_signed;
use crate::text::number::dec_signed_text;
use crate::text::number::dec_text;
use crate::text::number::i32_of;
use crate::text::number::parse_i32;
use crate::text::number::parse_u64;
use crate::text::number::u64_of;
use crate::text::search::trim;
use crate::text::search::trimmed;

verus! {

/// How long a swipe takes, in milliseconds.
pub const SWIPE_MS: u32 = 400;

/// What became of a step.
#[derive(Debug)]
pub struct StepResult {
    pub n: u32,
    pub action: String,
    pub element: Option<String>,
    pub label: Option<String>,
    pub role: Option<String>,
    /// The kind of the locator that found the element.
    pub locator: Option<String>,
    pub confidence: Option<Single>,
    pub point: Option<(i32, i32)>,
    /// What the author of the case wrote about it.
    pub note: Option<String>,
    pub stage: String,
    pub ok: bool,
    pub detail: String,
}

/// What became of a step, as a mathematical value.
pub struct StepResultView {
    pub n: u32,
    pub action: Seq<char>,
    pub element: Option<Seq<char>>,
    pub label: Option<Seq<char>>,
    pub role: Option<Seq<char>>,
    pub locator: Option<Seq<char>>,
    pub confidence: Option<Single>,
    pub point: Option<(i32, i32)>,
    pub note: Option<Seq<char>>,
    pub stage: Seq<char>,
    pub ok: bool,
    pub detail: Seq<char>,
}

impl View for StepResult {
    type V = StepResultView;

    open spec fn view(&self) -> StepResultView {
        StepResultView {
            n: self.n,
            action: self.action@,
            element: option_text(self.element),
            label: option_text(self.label),
            role: option_text(self.role),
            locator: option_text(self.locator),
            confidence: self.confidence,
            point: self.point,
            note: option_text(self.note),
            stage: self.stage@,
            ok: self.ok,
            detail: self.detail@,
        }
    }
}

pub open spec fn step_views(s: Seq<StepResult>) -> Seq<StepResultView> {
    Seq::new(s.len(), |i: int| s[i]@)
}

// ---------------------------------------------------------------- what a step does

/// The direction that a step names; up where it names none.
pub open spec fn direction_of(d: Option<String>) -> Option<SwipeDir> {
    match d {
        None => Some(SwipeDir::Up),
        Some(s) => if s@ == "up"@ {
            Some(SwipeDir::Up)
        } else if s@ == "down"@ {
            Some(SwipeDir::Down)
        } else if s@ == "left"@ {
            Some(SwipeDir::Left)
        } else if s@ == "right"@ {
            Some(SwipeDir::Right)
        } else {
            None
        },
    }
}

/// The key that a step names: by its code, by its number, or by its name.
pub open spec fn key_code(s: Step) -> Option<i32> {
    match s.code {
        Some(c) => Some(c),
        None => {
            let v = trimmed(or_empty(s.value));
            match i32_of(v) {
                Some(n) => Some(n as i32),
                None => if v == "back"@ {
                    Some(4)
                } else if v == "home"@ {
                    Some(3)
                } else if v == "enter"@ {
                    Some(66)
                } else if v == "menu"@ {
                    Some(82)
                } else {
                    None
                },
            }
        },
    }
}

/// Where a swipe over an area starts and ends: on its middle line, at a quarter and at three
/// quarters.
pub open spec fn drag_of(r: Rect, dir: SwipeDir) -> ((i32, i32), (i32, i32)) {
    let cx = cut(r.x1 + r.x2, 2) as i32;
    let cy = cut(r.y1 + r.y2, 2) as i32;
    let w = width(r);
    let h = height(r);
    let top = (r.y1 + h / 4) as i32;
    let bottom = (r.y1 + h * 3 / 4) as i32;
    let left = (r.x1 + w / 4) as i32;
    let right = (r.x1 + w * 3 / 4) as i32;
    match dir {
        SwipeDir::Up => ((cx, bottom), (cx, top)),
        SwipeDir::Down => ((cx, top), (cx, bottom)),
        SwipeDir::Left => ((right, cy), (left, cy)),
        SwipeDir::Right => ((left, cy), (right, cy)),
    }
}

/// Where a swipe over an area starts and ends.
pub fn swipe_points(area: Rect, dir: SwipeDir) -> (r: ((i32, i32), (i32, i32)))
    ensures
        r == drag_of(area, dir),
{
    let cx = area.cx();
    let cy = area.cy();
    let w: i64 = area.width_wide() as i64;
    let h: i64 = area.height_wide() as i64;
    let top: i32 = (area.y1 as i64 + h / 4) as i32;
    let bottom: i32 = (area.y1 as i64 + h * 3 / 4) as i32;
    let left: i32 = (area.x1 as i64 + w / 4) as i32;
    let right: i32 = (area.x1 as i64 + w * 3 / 4) as i32;
    match dir {
        SwipeDir::Up => ((cx, bottom), (cx, top)),
        SwipeDir::Down => ((cx, top), (cx, bottom)),
        SwipeDir::Left => ((right, cy), (left, cy)),
        SwipeDir::Right => ((left, cy), (right, cy)),
    }
}

/// The result of a step that names no element.
pub open spec fn plain_result(s: Step, detail: Seq<char>) -> StepResultView {
    StepResultView {
        n: match s.n {
            Some(k) => k,
            None => 0,
        },
        action: s.action@,
        element: None,
        label: None,
        role: None,
        locator: None,
        confidence: None,
        point: None,
        note: option_text(s.desc),
        stage: "step"@,
        ok: true,
        detail,
    }
}

/// The result of a step on an element that a locator found.
pub open spec fn element_result(
    s: Step,
    e: ElementDef,
    l: LocatorDef,
    point: (i32, i32),
    detail: Seq<char>,
) -> StepResultView {
    StepResultView {
        element: Some(e.id@),
        label: Some(label_of_element(e)),
        role: if e.role@.len() > 0 {
            Some(e.role@)
        } else {
            None
        },
        locator: Some(l.kind@),
        confidence: Some(l.confidence),
        point: Some(point),
        ..plain_result(s, detail)
    }
}

/// A point in brackets, with a blank.
pub open spec fn pair_text(p: (i32, i32)) -> Seq<char> {
    "("@ + dec_signed(p.0 as int) + ", "@ + dec_signed(p.1 as int) + ")"@
}

/// The element that a step names by its id.
pub open spec fn step_element(s: Step, reg: Registry) -> Option<ElementDef> {
    match s.locator {
        Some(r) => element_of(r.id, reg),
        None => None,
    }
}

/// What a swipe does, or why it cannot: over the element that it names, or else over the screen.
pub open spec fn swipe_action(
    s: Step,
    reg: Registry,
    h: HierarchyView,
    places: Seq<Option<(Single, Single)>>,
) -> Result<(ActionView, StepResultView), Seq<char>> {
    match direction_of(s.direction) {
        None => Err("未知滑动方向 "@ + debug_of(s.direction->0@)),
        Some(dir) => match step_element(s, reg) {
            Some(e) => match located(e, h, true, true, places) {
                Some((HitView::Node(n), i)) => {
                    let (from, to) = drag_of(n.bounds, dir);
                    let detail = dir_cn(dir) + " "@ + pair_text(from) + "->"@ + pair_text(to);
                    Ok(
                        (
                            ActionView::Swipe {
                                target: None,
                                from,
                                to,
                                dir,
                                duration_ms: SWIPE_MS,
                            },
                            element_result(s, e, e.locators@[i], from, detail),
                        ),
                    )
                },
                _ => Err("swipe 目标 "@ + e.id@ + " 不在当前页面"@),
            },
            None => {
                let (from, to) = drag_of(screen_of(h), dir);
                let detail = dir_cn(dir) + " "@ + pair_text(from) + "->"@ + pair_text(to);
                Ok(
                    (
                        ActionView::Swipe { target: None, from, to, dir, duration_ms: SWIPE_MS },
                        StepResultView { point: Some(from), ..plain_result(s, detail) },
                    ),
                )
            },
        },
    }
}

/// What an action on an element is aimed at: the widget that was found, or just the element
/// where only a point was.
pub open spec fn aim(e: ElementDef, hit: HitView) -> TargetView {
    match hit {
        HitView::Node(n) => target_of(n),
        HitView::Point(_, _) => TargetView {
            key: e.id@,
            class: seq![],
            resource_id: seq![],
            text: seq![],
            content_desc: seq![],
            bounds: Rect { x1: 0, y1: 0, x2: 0, y2: 0 },
            label: label_of_element(e),
        },
    }
}

/// What a step on an element does, or why it cannot.
pub open spec fn element_action(
    s: Step,
    reg: Registry,
    h: HierarchyView,
    places: Seq<Option<(Single, Single)>>,
) -> Result<(ActionView, StepResultView), Seq<char>> {
    let a = s.action@;
    match s.locator {
        None => Err(a + " 缺少 locator"@),
        Some(r) => match r.id {
            None => Err(a + " 只接受注册表元素引用"@),
            Some(id) => match reg.lookup(id@) {
                None => Err("元素 "@ + id@ + " 不在注册表"@),
                Some(e) => match located(e, h, true, true, places) {
                    None => Err("元素 "@ + id@ + " 不在当前页面"@),
                    Some((hit, i)) => {
                        let p = center_of(hit);
                        let l = e.locators@[i];
                        let target = aim(e, hit);
                        let detail = label_of_element(e) + " @("@ + dec_signed(p.0 as int) + ","@
                            + dec_signed(p.1 as int) + ") ["@ + l.kind@ + "]"@;
                        let act = if a == "click"@ {
                            ActionView::Click { target, point: p }
                        } else if a == "long_click"@ {
                            ActionView::LongClick { target, point: p }
                        } else {
                            ActionView::Input { target, point: p, text: or_empty(s.value) }
                        };
                        Ok((act, element_result(s, e, l, p, detail)))
                    },
                },
            },
        },
    }
}

/// What a step does on a screen, and what is noted of it; or why it cannot be done.
pub open spec fn action_for(
    s: Step,
    reg: Registry,
    h: HierarchyView,
    places: Seq<Option<(Single, Single)>>,
) -> Result<(ActionView, StepResultView), Seq<char>> {
    let a = s.action@;
    if a == "back"@ {
        Ok((ActionView::Back, plain_result(s, "keyevent 4 (back)"@)))
    } else if a == "launch"@ {
        let component = or_empty(s.component);
        Ok((ActionView::Launch { component }, plain_result(s, component)))
    } else if a == "key"@ {
        match key_code(s) {
            Some(code) => Ok(
                (
                    ActionView::Key { code, name: seq![] },
                    plain_result(s, "keyevent "@ + dec_signed(code as int)),
                ),
            ),
            None => Err("key 动作缺少可用按键（code 或 value）"@),
        }
    } else if a == "swipe"@ {
        swipe_action(s, reg, h, places)
    } else if a == "click"@ || a == "long_click"@ || a == "input"@ {
        element_action(s, reg, h, places)
    } else {
        Err("未知动作 "@ + debug_of(a))
    }
}

/// The outcome is the expected one.
pub open spec fn built(
    r: Result<(Action, StepResult), String>,
    want: Result<(ActionView, StepResultView), Seq<char>>,
) -> bool {
    match want {
        Ok((a, sr)) => r is Ok && (r->Ok_0).0@ == a && (r->Ok_0).1@ == sr,
        Err(m) => r is Err && r->Err_0@ == m,
    }
}

fn plain(s: &Step, detail: String) -> (r: StepResult)
    ensures
        r@ == plain_result(*s, detail@),
{
    StepResult {
        n: match s.n {
            Some(k) => k,
            None => 0,
        },
        action: s.action.clone(),
        element: None,
        label: None,
        role: None,
        locator: None,
        confidence: None,
        point: None,
        note: copy_option(&s.desc),
        stage: "step".to_string(),
        ok: true,
        detail,
    }
}

fn on_element(
    s: &Step,
    e: &ElementDef,
    l: &LocatorDef,
    point: (i32, i32),
    detail: String,
) -> (r: StepResult)
    ensures
        r@ == element_result(*s, *e, *l, point, detail@),
{
    let mut r = plain(s, detail);
    r.element = Some(e.id.clone());
    r.label = Some(e.label());
    r.role = if is_empty(&e.role) {
        None
    } else {
        Some(e.role.clone())
    };
    r.locator = Some(l.kind.clone());
    r.confidence = Some(l.confidence);
    r.point = Some(point);
    r
}

fn show_pair(p: (i32, i32)) -> (r: String)
    ensures
        r@ == pair_text(p),
{
    let mut out = "(".to_string();
    out.append(dec_signed_text(p.0 as i64).as_str());
    out.append(", ");
    out.append(dec_signed_text(p.1 as i64).as_str());
    out.append(")");
    out
}

fn direction(d: &Option<String>) -> (r: Option<SwipeDir>)
    ensures
        r == direction_of(*d),
{
    match d {
        None => Some(SwipeDir::Up),
        Some(s) => {
            let t = s.as_str();
            if same(t, "up") {
                Some(SwipeDir::Up)
            } else if same(t, "down") {
                Some(SwipeDir::Down)
            } else if same(t, "left") {
                Some(SwipeDir::Left)
            } else if same(t, "right") {
                Some(SwipeDir::Right)
            } else {
                None
            }
        },
    }
}

fn code_of(s: &Step) -> (r: Option<i32>)
    ensures
        r == key_code(*s),
{
    match s.code {
        Some(c) => Some(c),
        None => {
            let v = trim(text_or_empty(&s.value).as_str());
            let digits = chars_of(v.as_str());
            match parse_i32(digits.as_slice()) {
                Some(n) => Some(n),
                None => {
                    let t = v.as_str();
                    if same(t, "back") {
                        Some(4)
                    } else if same(t, "home") {
                        Some(3)
                    } else if same(t, "enter") {
                        Some(66)
                    } else if same(t, "menu") {
                        Some(82)
                    } else {
                        None
                    }
                },
            }
        },
    }
}

/// The element that a step names by its id.
pub fn named_element<'a>(s: &Step, reg: &'a Registry) -> (r: Option<&'a ElementDef>)
    ensures
        match step_element(*s, *reg) {
            Some(e) => r == Some(&e),
            None => r is None,
        },
{
    match &s.locator {
        Some(l) => match &l.id {
            Some(id) => reg.get(id.as_str()),
            None => None,
        },
        None => None,
    }
}

fn swipe_detail(dir: SwipeDir, from: (i32, i32), to: (i32, i32)) -> (r: String)
    ensures
        r@ == dir_cn(dir) + " "@ + pair_text(from) + "->"@ + pair_text(to),
{
    let mut out = dir.cn().to_string();
    out.append(" ");
    out.append(show_pair(from).as_str());
    out.append("->");
    out.append(show_pair(to).as_str());
    out
}

fn build_swipe(
    s: &Step,
    reg: &Registry,
    hier: &Hierarchy,
    places: &Vec<Option<(Single, Single)>>,
) -> (r: Result<(Action, StepResult), String>)
    ensures
        built(r, swipe_action(*s, *reg, hier@, places@)),
{
    let dir = match direction(&s.direction) {
        Some(d) => d,
        None => {
            let named = text_or_empty(&s.direction);
            return Err(glue("未知滑动方向 ", debug_text(named.as_str()).as_str()));
        },
    };
    match named_element(s, reg) {
        Some(e) => match locate(e, hier, true, true, places) {
            Some((Hit::Node(n), l)) => {
                let (from, to) = swipe_points(n.bounds, dir);
                let sr = on_element(s, e, l, from, swipe_detail(dir, from, to));
                Ok((Action::Swipe { target: None, from, to, dir, duration_ms: SWIPE_MS }, sr))
            },
            _ => {
                let mut msg = "swipe 目标 ".to_string();
                msg.append(e.id.as_str());
                msg.append(" 不在当前页面");
                Err(msg)
            },
        },
        None => {
            let (from, to) = swipe_points(hier.screen(), dir);
            let mut sr = plain(s, swipe_detail(dir, from, to));
            sr.point = Some(from);
            Ok((Action::Swipe { target: None, from, to, dir, duration_ms: SWIPE_MS }, sr))
        },
    }
}

fn aim_at(e: &ElementDef, hit: &Hit) -> (r: TargetInfo)
    ensures
        r@ == aim(*e, hit@),
{
    match hit {
        Hit::Node(n) => TargetInfo::from_node(n),
        Hit::Point(_, _) => {
            let none = String::new();
            assert(none@ =~= seq![]);
            TargetInfo {
                key: e.id.clone(),
                class: none.clone(),
                resource_id: none.clone(),
                text: none.clone(),
                content_desc: none.clone(),
                bounds: Rect::new(0, 0, 0, 0),
                label: e.label(),
            }
        },
    }
}

fn build_on_element(
    s: &Step,
    reg: &Registry,
    hier: &Hierarchy,
    places: &Vec<Option<(Single, Single)>>,
) -> (r: Result<(Action, StepResult), String>)
    ensures
        built(r, element_action(*s, *reg, hier@, places@)),
{
    let a = s.action.as_str();
    let l = match &s.locator {
        Some(l) => l,
        None => {
            return Err(glue(a, " 缺少 locator"));
        },
    };
    let id = match &l.id {
        Some(id) => id,
        None => {
            return Err(glue(a, " 只接受注册表元素引用"));
        },
    };
    let e = match reg.get(id.as_str()) {
        Some(e) => e,
        None => {
            let mut msg = "元素 ".to_string();
            msg.append(id.as_str());
            msg.append(" 不在注册表");
            return Err(msg);
        },
    };
    match locate(e, hier, true, true, places) {
        None => {
            let mut msg = "元素 ".to_string();
            msg.append(id.as_str());
            msg.append(" 不在当前页面");
            Err(msg)
        },
        Some((hit, loc)) => {
            let point = hit.center();
            let target = aim_at(e, &hit);
            let mut detail = e.label();
            detail.append(" @(");
            detail.append(dec_signed_text(point.0 as i64).as_str());
            detail.append(",");
            detail.append(dec_signed_text(point.1 as i64).as_str());
            detail.append(") [");
            detail.append(loc.kind.as_str());
            detail.append("]");
            let sr = on_element(s, e, loc, point, detail);
            let act = if same(a, "click") {
                Action::Click { target, point }
            } else if same(a, "long_click") {
                Action::LongClick { target, point }
            } else {
                Action::Input { target, point, text: text_or_empty(&s.value) }
            };
            Ok((act, sr))
        },
    }
}

/// What a step does on a screen, and what is noted of it; or why it cannot be done. `places` are
/// what the locators of its element by place write: parts of the width and of the height.
pub fn action_of(
    s: &Step,
    reg: &Registry,
    hier: &Hierarchy,
    places: &Vec<Option<(Single, Single)>>,
) -> (r: Result<(Action, StepResult), String>)
    ensures
        built(r, action_for(*s, *reg, hier@, places@)),
{
    let a = s.action.as_str();
    if same(a, "back") {
        return Ok((Action::Back, plain(s, "keyevent 4 (back)".to_string())));
    }
    if same(a, "launch") {
        let component = text_or_empty(&s.component);
        let sr = plain(s, component.clone());
        return Ok((Action::Launch { component }, sr));
    }
    if same(a, "key") {
        return match code_of(s) {
            Some(code) => {
                let name = String::new();
                assert(name@ =~= seq![]);
                let detail = glue("keyevent ", dec_signed_text(code as i64).as_str());
                Ok((Action::Key { code, name }, plain(s, detail)))
            },
            None => Err("key 动作缺少可用按键（code 或 value）".to_string()),
        };
    }
    if same(a, "swipe") {
        return build_swipe(s, reg, hier, places);
    }
    if same(a, "click") || same(a, "long_click") || same(a, "input") {
        return build_on_element(s, reg, hier, places);
    }
    Err(glue("未知动作 ", debug_text(a).as_str()))
}

// ---------------------------------------------------------------- one after the other

/// How far the steps of a stage have come.
#[derive(Debug, Clone, Copy, PartialEq, Eq, Structural)]
pub struct StepRun {
    /// The place of the next step.
    pub at: usize,
    /// A step has failed; those behind it do not run.
    pub failed: bool,
}

/// What is to be done next for the steps of a stage.
#[derive(Debug, Clone, Copy, PartialEq, Eq, Structural)]
pub enum StepTask {
    /// Nothing more: all steps ran, or one failed.
    Finished,
    /// Wait so many milliseconds.
    Sleep(u64),
    /// Look at the screen, so that the next step can be built.
    Look,
}

/// How long a step waits: as long as it says, or else as long as things take to settle.
pub open spec fn wait_of(s: Step, settle_ms: u64) -> u64 {
    match u64_of(trimmed(or_empty(s.value))) {
        Some(ms) => ms as u64,
        None => settle_ms,
    }
}

/// What is to be done next.
pub open spec fn task_of(run: StepRun, steps: Seq<Step>, settle_ms: u64) -> StepTask {
    if run.failed || run.at >= steps.len() {
        StepTask::Finished
    } else if steps[run.at as int].action@ == "wait"@ {
        StepTask::Sleep(wait_of(steps[run.at as int], settle_ms))
    } else {
        StepTask::Look
    }
}

/// The result of a step that failed before it could be built.
pub open spec fn failed_result(s: Step, i: int, stage: Seq<char>, detail: Seq<char>) -> StepResultView {
    StepResultView {
        n: number_of(s.n, i) as u32,
        element: match s.locator {
            Some(r) => option_text(r.id),
            None => None,
        },
        stage,
        ok: false,
        ..plain_result(s, detail)
    }
}

/// The result of a step that waits.
pub open spec fn wait_result(s: Step, i: int, stage: Seq<char>, ms: u64) -> StepResultView {
    StepResultView {
        n: number_of(s.n, i) as u32,
        action: "wait"@,
        stage,
        ..plain_result(s, "等待 "@ + dec(ms as int) + "ms"@)
    }
}

fn wait_ms(s: &Step, settle_ms: u64) -> (r: u64)
    ensures
        r == wait_of(*s, settle_ms),
{
    let digits = chars_of(trim(text_or_empty(&s.value).as_str()).as_str());
    match parse_u64(digits.as_slice()) {
        Some(ms) => ms,
        None => settle_ms,
    }
}

fn push_result(out: &mut Vec<StepResult>, sr: StepResult)
    ensures
        step_views(final(out)@) == step_views(old(out)@).push(sr@),
{
    let ghost v = sr@;
    out.push(sr);
    assert(step_views(out@) =~= step_views(old(out)@).push(v));
}

impl StepRun {
    /// No step has run yet.
    pub fn begin() -> (r: Self)
        ensures
            r == (StepRun { at: 0, failed: false }),
    {
        StepRun { at: 0, failed: false }
    }

    /// What is to be done next.
    pub fn task(&self, steps: &Vec<Step>, settle_ms: u64) -> (r: StepTask)
        ensures
            r == task_of(*self, steps@, settle_ms),
    {
        if self.failed || self.at >= steps.len() {
            StepTask::Finished
        } else if same(steps[self.at].action.as_str(), "wait") {
            StepTask::Sleep(wait_ms(&steps[self.at], settle_ms))
        } else {
            StepTask::Look
        }
    }

    /// The step that waits is over.
    pub fn slept(
        &mut self,
        steps: &Vec<Step>,
        stage: &str,
        settle_ms: u64,
        out: &mut Vec<StepResult>,
    )
        requires
            old(self).at < steps@.len(),
            old(self).at < u32::MAX,
        ensures
            *final(self) == (StepRun { at: (old(self).at + 1) as usize, failed: old(self).failed }),
            step_views(final(out)@) == step_views(old(out)@).push(
                wait_result(
                    steps@[old(self).at as int],
                    old(self).at as int,
                    stage@,
                    wait_of(steps@[old(self).at as int], settle_ms),
                ),
            ),
    {
        let s = &steps[self.at];
        let mut detail = "等待 ".to_string();
        detail.append(dec_text(wait_ms(s, settle_ms)).as_str());
        detail.append("ms");
        let mut sr = plain(s, detail);
        sr.n = number_or_place(s.n, self.at);
        sr.action = "wait".to_string();
        sr.stage = stage.to_string();
        push_result(out, sr);
        self.at = self.at + 1;
    }

    /// The screen was looked at, or could not be, with the reason. Gives the action to perform;
    /// none where the step has failed.
    pub fn looked(
        &mut self,
        steps: &Vec<Step>,
        stage: &str,
        reg: &Registry,
        page: &Result<Hierarchy, String>,
        places: &Vec<Option<(Single, Single)>>,
        out: &mut Vec<StepResult>,
    ) -> (r: Option<Action>)
        requires
            old(self).at < steps@.len(),
            old(self).at < u32::MAX,
        ensures
            ({
                let i = old(self).at as int;
                let s = steps@[i];
                let before = step_views(old(out)@);
                let after = step_views(final(out)@);
                match *page {
                    Err(e) => r is None && *final(self) == (StepRun {
                        failed: true,
                        ..*old(self)
                    }) && after == before.push(failed_result(s, i, stage@, "dump 失败: "@ + e@)),
                    Ok(h) => match action_for(s, *reg, h@, places@) {
                        Err(m) => r is None && *final(self) == (StepRun {
                            failed: true,
                            ..*old(self)
                        }) && after == before.push(failed_result(s, i, stage@, m)),
                        Ok((a, sr)) => r is Some && r->0@ == a && *final(self) == *old(self)
                            && after == before.push(StepResultView { stage: stage@, ..sr }),
                    },
                }
            }),
    {
        let s = &steps[self.at];
        let refused = match page {
            Err(e) => glue("dump 失败: ", e.as_str()),
            Ok(h) => match action_of(s, reg, h, places) {
                Ok((action, sr)) => {
                    let mut done = sr;
                    done.stage = stage.to_string();
                    push_result(out, done);
                    return Some(action);
                },
                Err(m) => m,
            },
        };
        let mut sr = plain(s, refused);
        sr.n = number_or_place(s.n, self.at);
        sr.element = match &s.locator {
            Some(l) => copy_option(&l.id),
            None => None,
        };
        sr.stage = stage.to_string();
        sr.ok = false;
        push_result(out, sr);
        self.failed = true;
        None
    }

    /// The action was performed, or could not be, with the reason.
    pub fn performed(&mut self, error: Option<&str>, out: &mut Vec<StepResult>)
        requires
            old(out)@.len() > 0,
            old(self).at < usize::MAX,
        ensures
            match error {
                None => *final(self) == (StepRun {
                    at: (old(self).at + 1) as usize,
                    failed: old(self).failed,
                }) && step_views(final(out)@) == step_views(old(out)@),
                Some(e) => *final(self) == (StepRun { failed: true, ..*old(self) }) && step_views(
                    final(out)@,
                ) == step_views(old(out)@).update(
                    old(out)@.len() - 1,
                    StepResultView {
                        ok: false,
                        detail: "动作下发失败: "@ + e@,
                        ..old(out)@.last()@
                    },
                ),
            },
    {
        match error {
            None => {
                self.at = self.at + 1;
            },
            Some(e) => {
                let ghost before = out@;
                if let Some(last) = out.pop() {
                    let mut sr = last;
                    sr.ok = false;
                    sr.detail = glue("动作下发失败: ", e);
                    let ghost v = sr@;
                    out.push(sr);
                    assert(step_views(out@) =~= step_views(before).update(before.len() - 1, v));
                }
                self.failed = true;
            },
        }
    }
}

/// Once a step has failed nothing more is done for the stage: no step behind it runs.
pub proof fn lemma_failure_ends_stage(run: StepRun, steps: Seq<Step>, settle_ms: u64)
    requires
        run.failed,
    ensures
        task_of(run, steps, settle_ms) == StepTask::Finished,
{
}

} // verus!
