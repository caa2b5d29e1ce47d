//! Actions on a screen.

use vstd::prelude::*;

use crate::model::node::display_of;
use crate::model::node::key_of;
use crate::model::node::short_class_of;
use crate::model::node::NodeView;
use crate::model::node::UiNode;
use crate::model::rect::Rect;
use crate::text::number::dec_signed;
use crate::text::number::dec_signed_text;
use crate::util::truncate;
use crate::util::truncated;

verus! {

/// What is kept of the widget that an action is aimed at.
#[derive(Debug)]
pub struct TargetInfo {
    pub key: String,
    pub class: String,
    pub resource_id: String,
    pub text: String,
    pub content_desc: String,
    pub bounds: Rect,
    pub label: String,
}

/// The target of an action as a mathematical value.
pub struct TargetView {
    pub key: Seq<char>,
    pub class: Seq<char>,
    pub resource_id: Seq<char>,
    pub text: Seq<char>,
    pub content_desc: Seq<char>,
    pub bounds: Rect,
    pub label: Seq<char>,
}

impl View for TargetInfo {
    type V = TargetView;

    open spec fn view(&self) -> TargetView {
        TargetView {
            key: self.key@,
            class: self.class@,
            resource_id: self.resource_id@,
            text: self.text@,
            content_desc: self.content_desc@,
            bounds: self.bounds,
            label: self.label@,
        }
    }
}

impl Clone for TargetInfo {
    fn clone(&self) -> (r: Self)
        ensures
            r@ == self@,
    {
        TargetInfo {
            key: self.key.clone(),
            class: self.class.clone(),
            resource_id: self.resource_id.clone(),
            text: self.text.clone(),
            content_desc: self.content_desc.clone(),
            bounds: self.bounds,
            label: self.label.clone(),
        }
    }
}

/// What is kept of a widget.
pub open spec fn target_of(n: NodeView) -> TargetView {
    TargetView {
        key: key_of(n),
        class: short_class_of(n),
        resource_id: n.resource_id,
        text: truncated(n.text, 40),
        content_desc: truncated(n.content_desc, 40),
        bounds: n.bounds,
        label: display_of(n),
    }
}

impl TargetInfo {
    pub fn from_node(n: &UiNode) -> (r: Self)
        ensures
            r@ == target_of(n@),
    {
        TargetInfo {
            key: n.key(),
            class: n.short_class(),
            resource_id: n.resource_id.clone(),
            text: truncate(n.text.as_str(), 40),
            content_desc: truncate(n.content_desc.as_str(), 40),
            bounds: n.bounds,
            label: n.display(),
        }
    }
}

/// The direction in which a finger moves.
#[derive(Debug, Clone, Copy, PartialEq, Eq, Structural)]
pub enum SwipeDir {
    Up,
    Down,
    Left,
    Right,
}

pub open spec fn dir_text(d: SwipeDir) -> Seq<char> {
    match d {
        SwipeDir::Up => "up"@,
        SwipeDir::Down => "down"@,
        SwipeDir::Left => "left"@,
        SwipeDir::Right => "right"@,
    }
}

pub open spec fn dir_cn(d: SwipeDir) -> Seq<char> {
    match d {
        SwipeDir::Up => "上滑"@,
        SwipeDir::Down => "下滑"@,
        SwipeDir::Left => "左滑"@,
        SwipeDir::Right => "右滑"@,
    }
}

impl SwipeDir {
    pub fn as_str(&self) -> (r: &'static str)
        ensures
            r@ == dir_text(*self),
    {
        match self {
            SwipeDir::Up => "up",
            SwipeDir::Down => "down",
            SwipeDir::Left => "left",
            SwipeDir::Right => "right",
        }
    }

    /// The Chinese name, for reports.
    pub fn cn(&self) -> (r: &'static str)
        ensures
            r@ == dir_cn(*self),
    {
        match self {
            SwipeDir::Up => "上滑",
            SwipeDir::Down => "下滑",
            SwipeDir::Left => "左滑",
            SwipeDir::Right => "右滑",
        }
    }
}

/// One action on the screen.
#[allow(inconsistent_fields)]
#[derive(Debug)]
pub enum Action {
    Launch { component: String },
    Back,
    Key { code: i32, name: String },
    Click { target: TargetInfo, point: (i32, i32) },
    LongClick { target: TargetInfo, point: (i32, i32) },
    Swipe {
        target: Option<TargetInfo>,
        from: (i32, i32),
        to: (i32, i32),
        dir: SwipeDir,
        duration_ms: u32,
    },
    Input { target: TargetInfo, point: (i32, i32), text: String },
}

/// An action as a mathematical value.
#[allow(inconsistent_fields)]
pub enum ActionView {
    Launch { component: Seq<char> },
    Back,
    Key { code: i32, name: Seq<char> },
    Click { target: TargetView, point: (i32, i32) },
    LongClick { target: TargetView, point: (i32, i32) },
    Swipe {
        target: Option<TargetView>,
        from: (i32, i32),
        to: (i32, i32),
        dir: SwipeDir,
        duration_ms: u32,
    },
    Input { target: TargetView, point: (i32, i32), text: Seq<char> },
}

pub open spec fn option_target(t: Option<TargetInfo>) -> Option<TargetView> {
    match t {
        Some(x) => Some(x@),
        None => None,
    }
}

impl View for Action {
    type V = ActionView;

    open spec fn view(&self) -> ActionView {
        match *self {
            Action::Launch { component } => ActionView::Launch { component: component@ },
            Action::Back => ActionView::Back,
            Action::Key { code, name } => ActionView::Key { code, name: name@ },
            Action::Click { target, point } => ActionView::Click { target: target@, point },
            Action::LongClick { target, point } => ActionView::LongClick { target: target@, point },
            Action::Swipe { target, from, to, dir, duration_ms } => ActionView::Swipe {
                target: option_target(target),
                from,
                to,
                dir,
                duration_ms,
            },
            Action::Input { target, point, text } => ActionView::Input {
                target: target@,
                point,
                text: text@,
            },
        }
    }
}

impl Clone for Action {
    fn clone(&self) -> (r: Self)
        ensures
            r@ == self@,
    {
        match self {
            Action::Launch { component } => Action::Launch { component: component.clone() },
            Action::Back => Action::Back,
            Action::Key { code, name } => Action::Key { code: *code, name: name.clone() },
            Action::Click { target, point } => Action::Click {
                target: target.clone(),
                point: *point,
            },
            Action::LongClick { target, point } => Action::LongClick {
                target: target.clone(),
                point: *point,
            },
            Action::Swipe { target, from, to, dir, duration_ms } => {
                let t: Option<TargetInfo> = match target {
                    Some(x) => Some(x.clone()),
                    None => None,
                };
                Action::Swipe {
                    target: t,
                    from: *from,
                    to: *to,
                    dir: *dir,
                    duration_ms: *duration_ms,
                }
            },
            Action::Input { target, point, text } => Action::Input {
                target: target.clone(),
                point: *point,
                text: text.clone(),
            },
        }
    }
}

/// The short name of the kind of an action.
pub open spec fn kind_of(a: ActionView) -> Seq<char> {
    match a {
        ActionView::Launch { .. } => "launch"@,
        ActionView::Back => "back"@,
        ActionView::Key { .. } => "key"@,
        ActionView::Click { .. } => "click"@,
        ActionView::LongClick { .. } => "long_click"@,
        ActionView::Swipe { .. } => "swipe"@,
        ActionView::Input { .. } => "input"@,
    }
}

/// The Chinese name of the kind of an action.
pub open spec fn kind_cn_of(a: ActionView) -> Seq<char> {
    match a {
        ActionView::Launch { .. } => "启动应用"@,
        ActionView::Back => "返回键"@,
        ActionView::Key { .. } => "按键"@,
        ActionView::Click { .. } => "点击"@,
        ActionView::LongClick { .. } => "长按"@,
        ActionView::Swipe { .. } => "滑动"@,
        ActionView::Input { .. } => "输入文本"@,
    }
}

/// A point in brackets.
pub open spec fn point_text(p: (i32, i32)) -> Seq<char> {
    "("@ + dec_signed(p.0 as int) + ","@ + dec_signed(p.1 as int) + ")"@
}

/// An action in words.
pub open spec fn label_of(a: ActionView) -> Seq<char> {
    match a {
        ActionView::Launch { component } => "启动 "@ + component,
        ActionView::Back => "返回键"@,
        ActionView::Key { name, .. } => "按键 "@ + name,
        ActionView::Click { target, point } => "点击 "@ + target.label + " @"@ + point_text(point),
        ActionView::LongClick { target, point } => "长按 "@ + target.label + " @"@ + point_text(
            point,
        ),
        ActionView::Swipe { target, from, to, dir, .. } => dir_cn(dir) + " "@ + (match target {
            Some(t) => t.label,
            None => "屏幕"@,
        }) + " "@ + point_text(from) + "->"@ + point_text(to),
        ActionView::Input { target, text, .. } => "向 "@ + target.label + " 输入 “"@ + text + "”"@,
    }
}

/// What tells the actions in one state apart.
pub open spec fn action_key_of(a: ActionView) -> Seq<char> {
    match a {
        ActionView::Launch { component } => "launch#"@ + component,
        ActionView::Back => "back"@,
        ActionView::Key { code, .. } => "key#"@ + dec_signed(code as int),
        ActionView::Click { target, .. } => "click#"@ + target.key,
        ActionView::LongClick { target, .. } => "long_click#"@ + target.key,
        ActionView::Swipe { target, dir, .. } => "swipe#"@ + (match target {
            Some(t) => t.key,
            None => "screen"@,
        }) + "#"@ + dir_text(dir),
        ActionView::Input { target, text, .. } => "input#"@ + target.key + "#"@ + text,
    }
}

/// The widget that an action is aimed at.
pub open spec fn target_key_of(a: ActionView) -> Option<Seq<char>> {
    match a {
        ActionView::Click { target, .. } => Some(target.key),
        ActionView::LongClick { target, .. } => Some(target.key),
        ActionView::Input { target, .. } => Some(target.key),
        ActionView::Swipe { target: Some(t), .. } => Some(t.key),
        _ => None,
    }
}

pub fn show_point(p: (i32, i32)) -> (r: String)
    ensures
        r@ == point_text(p),
{
    let mut out = "(".to_string();
    out.append(dec_signed_text(p.0 as i64).as_str());
    out.append(",");
    out.append(dec_signed_text(p.1 as i64).as_str());
    out.append(")");
    out
}

impl Action {
    /// The short name of the kind, for file names and styles.
    pub fn kind(&self) -> (r: &'static str)
        ensures
            r@ == kind_of(self@),
    {
        match self {
            Action::Launch { .. } => "launch",
            Action::Back => "back",
            Action::Key { .. } => "key",
            Action::Click { .. } => "click",
            Action::LongClick { .. } => "long_click",
            Action::Swipe { .. } => "swipe",
            Action::Input { .. } => "input",
        }
    }

    /// The Chinese name of the kind, for reports.
    pub fn kind_cn(&self) -> (r: &'static str)
        ensures
            r@ == kind_cn_of(self@),
    {
        match self {
            Action::Launch { .. } => "启动应用",
            Action::Back => "返回键",
            Action::Key { .. } => "按键",
            Action::Click { .. } => "点击",
            Action::LongClick { .. } => "长按",
            Action::Swipe { .. } => "滑动",
            Action::Input { .. } => "输入文本",
        }
    }

    /// The action in words.
    pub fn label(&self) -> (r: String)
        ensures
            r@ == label_of(self@),
    {
        match self {
            Action::Launch { component } => {
                let mut out = "启动 ".to_string();
                out.append(component.as_str());
                out
            },
            Action::Back => "返回键".to_string(),
            Action::Key { name, .. } => {
                let mut out = "按键 ".to_string();
                out.append(name.as_str());
                out
            },
            Action::Click { target, point } => {
                let mut out = "点击 ".to_string();
                out.append(target.label.as_str());
                out.append(" @");
                out.append(show_point(*point).as_str());
                out
            },
            Action::LongClick { target, point } => {
                let mut out = "长按 ".to_string();
                out.append(target.label.as_str());
                out.append(" @");
                out.append(show_point(*point).as_str());
                out
            },
            Action::Swipe { target, from, to, dir, .. } => {
                let mut out = dir.cn().to_string();
                out.append(" ");
                match target {
                    Some(t) => {
                        out.append(t.label.as_str());
                    },
                    None => {
                        out.append("屏幕");
                    },
                }
                out.append(" ");
                out.append(show_point(*from).as_str());
                out.append("->");
                out.append(show_point(*to).as_str());
                out
            },
            Action::Input { target, text, .. } => {
                let mut out = "向 ".to_string();
                out.append(target.label.as_str());
                out.append(" 输入 “");
                out.append(text.as_str());
                out.append("”");
                out
            },
        }
    }

    /// What tells the actions in one state apart.
    pub fn action_key(&self) -> (r: String)
        ensures
            r@ == action_key_of(self@),
    {
        match self {
            Action::Launch { component } => {
                let mut out = "launch#".to_string();
                out.append(component.as_str());
                out
            },
            Action::Back => "back".to_string(),
            Action::Key { code, .. } => {
                let mut out = "key#".to_string();
                out.append(dec_signed_text(*code as i64).as_str());
                out
            },
            Action::Click { target, .. } => {
                let mut out = "click#".to_string();
                out.append(target.key.as_str());
                out
            },
            Action::LongClick { target, .. } => {
                let mut out = "long_click#".to_string();
                out.append(target.key.as_str());
                out
            },
            Action::Swipe { target, dir, .. } => {
                let mut out = "swipe#".to_string();
                match target {
                    Some(t) => {
                        out.append(t.key.as_str());
                    },
                    None => {
                        out.append("screen");
                    },
                }
                out.append("#");
                out.append(dir.as_str());
                out
            },
            Action::Input { target, text, .. } => {
                let mut out = "input#".to_string();
                out.append(target.key.as_str());
                out.append("#");
                out.append(text.as_str());
                out
            },
        }
    }

    /// The widget that the action is aimed at, for the coverage.
    pub fn target_key(&self) -> (r: Option<String>)
        ensures
            match target_key_of(self@) {
                Some(k) => r is Some && r->0@ == k,
                None => r is None,
            },
    {
        match self {
            Action::Click { target, .. } => Some(target.key.clone()),
            Action::LongClick { target, .. } => Some(target.key.clone()),
            Action::Input { target, .. } => Some(target.key.clone()),
            Action::Swipe { target: Some(t), .. } => Some(t.key.clone()),
            _ => None,
        }
    }
}

} // verus!
