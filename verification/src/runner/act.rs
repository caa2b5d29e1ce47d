//! What is done on a device for an action, and what is done about dialogs in the way.

use vstd::prelude::*;

use crate::device::command::component_of;
use crate::device::command::input_keyevent;
use crate::device::command::input_long_press;
use crate::device::command::input_swipe;
use crate::device::command::input_tap;
use crate::device::command::input_text;
use crate::device::command::keyevent_text;
use crate::device::command::launch;
use crate::device::command::press_back;
use crate::device::command::start;
use crate::device::command::start_text;
use crate::device::command::swipe_text;
use crate::device::command::tap_text;
use crate::device::command::type_text;
use crate::device::command::KEY_BACK;
use crate::model::action::Action;
use crate::model::action::ActionView;
use crate::model::node::content_leaf;
use crate::model::node::screen_of;
use crate::model::node::tap_point;
use crate::model::node::views_of;
use crate::model::node::visible_of;
use crate::model::node::Hierarchy;
use crate::model::node::NodeView;
use crate::model::node::UiNode;
use crate::model::rect::Rect;
use crate::text::basic::chars_of;
use crate::text::basic::same;
use crate::text::basic::slice_text;
use crate::text::search::char_from;
use crate::text::search::contains;
use crate::text::search::find_char;
use crate::text::search::has;
use crate::text::search::lemma_char_from;
use crate::text::search::trim;
use crate::text::search::trimmed;

verus! {

/// How long a place is held down, in milliseconds.
pub const LONG_PRESS_MS: u32 = 900;

/// How long to wait between tapping a field and typing, in milliseconds.
pub const BEFORE_TYPING_MS: u64 = 250;

/// One thing to do on a device.
#[derive(Debug)]
pub enum DeviceOp {
    /// Run a command.
    Shell(String),
    /// Wait so many milliseconds.
    Sleep(u64),
}

/// One thing to do on a device, as a mathematical value.
pub enum OpView {
    Shell(Seq<char>),
    Sleep(u64),
}

impl View for DeviceOp {
    type V = OpView;

    open spec fn view(&self) -> OpView {
        match self {
            DeviceOp::Shell(s) => OpView::Shell(s@),
            DeviceOp::Sleep(ms) => OpView::Sleep(*ms),
        }
    }
}

pub open spec fn op_views(s: Seq<DeviceOp>) -> Seq<OpView> {
    Seq::new(s.len(), |i: int| s[i]@)
}

/// What stands in front of the first slash and what behind it; the second is empty where there
/// is no slash.
pub open spec fn at_slash(s: Seq<char>) -> (Seq<char>, Seq<char>) {
    match char_from(s, '/', 0) {
        Some(i) => (s.take(i), s.skip(i + 1)),
        None => (s, seq![]),
    }
}

fn split_at_slash(s: &str) -> (r: (String, String))
    ensures
        (r.0@, r.1@) == at_slash(s@),
{
    let v = chars_of(s);
    proof {
        lemma_char_from(v@, '/', 0);
    }
    match find_char(v.as_slice(), '/', 0) {
        Some(i) => {
            let n: usize = v.len();
            let a = slice_text(v.as_slice(), 0, i);
            let b = slice_text(v.as_slice(), i + 1, n);
            assert(a@ =~= s@.take(i as int));
            assert(b@ =~= s@.skip(i + 1));
            (a, b)
        },
        None => {
            let e = String::new();
            assert(e@ =~= seq![]);
            (s.to_string(), e)
        },
    }
}

/// What is done on a device for an action, in order.
pub open spec fn ops_of(a: ActionView) -> Seq<OpView> {
    match a {
        ActionView::Click { point, .. } => seq![OpView::Shell(tap_text(point.0, point.1))],
        ActionView::LongClick { point, .. } => seq![
            OpView::Shell(swipe_text(point.0, point.1, point.0, point.1, LONG_PRESS_MS)),
        ],
        ActionView::Swipe { from, to, duration_ms, .. } => seq![
            OpView::Shell(swipe_text(from.0, from.1, to.0, to.1, duration_ms)),
        ],
        ActionView::Input { point, text, .. } => seq![
            OpView::Shell(tap_text(point.0, point.1)),
            OpView::Sleep(BEFORE_TYPING_MS),
            OpView::Shell(type_text(text)),
        ],
        ActionView::Back => seq![OpView::Shell(keyevent_text(KEY_BACK))],
        ActionView::Key { code, .. } => seq![OpView::Shell(keyevent_text(code))],
        ActionView::Launch { component } => {
            let (package, activity) = at_slash(component);
            seq![OpView::Shell(start_text(component_of(package, Some(activity), None)))]
        },
    }
}

fn one_command(cmd: String) -> (r: Vec<DeviceOp>)
    ensures
        op_views(r@) == seq![OpView::Shell(cmd@)],
{
    let ghost c = cmd@;
    let mut v: Vec<DeviceOp> = Vec::new();
    v.push(DeviceOp::Shell(cmd));
    assert(op_views(v@) =~= seq![OpView::Shell(c)]);
    v
}

/// What is done on a device for an action, in order. The first thing that fails ends it.
pub fn execute_action(action: &Action) -> (r: Vec<DeviceOp>)
    ensures
        op_views(r@) == ops_of(action@),
{
    match action {
        Action::Click { point, .. } => one_command(input_tap(point.0, point.1)),
        Action::LongClick { point, .. } => one_command(
            input_long_press(point.0, point.1, LONG_PRESS_MS),
        ),
        Action::Swipe { from, to, duration_ms, .. } => one_command(
            input_swipe(from.0, from.1, to.0, to.1, *duration_ms),
        ),
        Action::Input { point, text, .. } => {
            let mut v = one_command(input_tap(point.0, point.1));
            let typing = input_text(text.as_str());
            let ghost t = typing@;
            let ghost tap = OpView::Shell(tap_text(point.0, point.1));
            proof {
                assert(op_views(v@).len() == 1);
                assert(op_views(v@)[0] == tap);
                assert(v@[0]@ == tap);
            }
            v.push(DeviceOp::Sleep(BEFORE_TYPING_MS));
            v.push(DeviceOp::Shell(typing));
            assert(op_views(v@) =~= seq![
                tap,
                OpView::Sleep(BEFORE_TYPING_MS),
                OpView::Shell(t),
            ]);
            v
        },
        Action::Back => one_command(press_back()),
        Action::Key { code, .. } => one_command(input_keyevent(*code)),
        Action::Launch { component } => {
            let (package, activity) = split_at_slash(component.as_str());
            let c = launch(package.as_str(), Some(activity.as_str()), None);
            one_command(start(c.as_str()))
        },
    }
}

// ---------------------------------------------------------------- dialogs

/// The id of a button that allows something or closes a dialog.
pub open spec fn allowing_id(id: Seq<char>) -> bool {
    has(id, "permission_allow_button"@) || has(id, "permission_allow_foreground_only_button"@)
        || has(id, "permission_allow_one_time_button"@) || has(
        id,
        "com.android.packageinstaller:id/ok_button"@,
    ) || has(id, "android:id/button1"@)
}

/// The words on a button that allows something or closes a dialog.
pub open spec fn allowing_text(text: Seq<char>) -> bool {
    text == "允许"@ || text == "始终允许"@ || text == "仅在使用该应用时允许"@ || text == "确定"@
        || text == "ALLOW"@ || text == "Allow"@ || text == "OK"@ || text == "关闭应用"@
}

/// The widget closes a dialog when it is tapped.
pub open spec fn closes_dialog(n: NodeView) -> bool {
    (allowing_id(n.resource_id) || allowing_text(trimmed(n.text))) && (n.clickable
        || content_leaf(n))
}

/// Where to tap to close a dialog: on the first widget that closes one and can be tapped.
pub open spec fn dismissal(s: Seq<NodeView>, screen: Rect) -> Option<(i32, i32)>
    decreases s.len(),
{
    if s.len() == 0 {
        None
    } else if closes_dialog(s[0]) && tap_point(s[0], screen) is Some {
        tap_point(s[0], screen)
    } else {
        dismissal(s.skip(1), screen)
    }
}

fn is_closer(n: &UiNode) -> (r: bool)
    ensures
        r == closes_dialog(n@),
{
    let id = n.resource_id.as_str();
    let by_id = contains(id, "permission_allow_button") || contains(
        id,
        "permission_allow_foreground_only_button",
    ) || contains(id, "permission_allow_one_time_button") || contains(
        id,
        "com.android.packageinstaller:id/ok_button",
    ) || contains(id, "android:id/button1");
    let words = trim(n.text.as_str());
    let t = words.as_str();
    let by_text = same(t, "允许") || same(t, "始终允许") || same(t, "仅在使用该应用时允许") || same(
        t,
        "确定",
    ) || same(t, "ALLOW") || same(t, "Allow") || same(t, "OK") || same(t, "关闭应用");
    (by_id || by_text) && (n.clickable || n.is_leaf_with_content())
}

/// Where to tap to close a dialog; none where there is nothing to close.
pub fn dismiss_point(h: &Hierarchy) -> (r: Option<(i32, i32)>)
    ensures
        r == dismissal(visible_of(h@), screen_of(h@)),
{
    let vis = h.visible_nodes();
    let screen = h.screen();
    let ghost all = views_of(vis@);
    let mut i: usize = 0;
    assert(all.skip(0) =~= all);
    while i < vis.len()
        invariant
            i <= vis@.len(),
            all == views_of(vis@),
            screen == screen_of(h@),
            dismissal(all.skip(i as int), screen) == dismissal(visible_of(h@), screen_of(h@)),
        decreases vis@.len() - i,
    {
        let n = vis[i];
        proof {
            assert(all.skip(i as int)[0] == n@);
            assert(all.skip(i as int).skip(1) =~= all.skip(i + 1));
        }
        if is_closer(n) {
            let p = n.click_point(&screen);
            if p.is_some() {
                return p;
            }
        }
        i = i + 1;
    }
    None
}

} // verus!
