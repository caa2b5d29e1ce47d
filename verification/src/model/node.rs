//! Widgets and their tree.

use vstd::prelude::*;

use crate::model::rect::clamped;
use crate::model::rect::common;
use crate::model::rect::cut;
use crate::model::rect::height;
use crate::model::rect::inside;
use crate::model::rect::rect_text;
use crate::model::rect::solid;
use crate::model::rect::visible_bits;
use crate::model::rect::width;
use crate::model::rect::Rect;
use crate::text::basic::texts;
use crate::text::number::dec;
use crate::text::number::dec_text;
use crate::text::order::lemma_sorted_set_same;
use crate::text::order::same_members;
use crate::text::order::sort_texts;
use crate::text::order::sorted_set;
use crate::text::search::contains;
use crate::text::search::has;
use crate::text::split::after_last;
use crate::text::split::behind_last;
use crate::text::split::join;
use crate::text::split::joined;
use crate::util::truncate;
use crate::util::truncated;

verus! {

/// A widget of a screen, with those inside it.
#[derive(Debug)]
pub struct UiNode {
    pub index: i32,
    pub text: String,
    pub resource_id: String,
    pub class: String,
    pub package: String,
    pub content_desc: String,
    pub bounds: Rect,
    pub clickable: bool,
    pub long_clickable: bool,
    pub scrollable: bool,
    pub checkable: bool,
    pub checked: bool,
    pub enabled: bool,
    pub focused: bool,
    pub selected: bool,
    pub password: bool,
    pub children: Vec<UiNode>,
}

/// A widget as a mathematical value.
pub struct NodeView {
    pub index: i32,
    pub text: Seq<char>,
    pub resource_id: Seq<char>,
    pub class: Seq<char>,
    pub package: Seq<char>,
    pub content_desc: Seq<char>,
    pub bounds: Rect,
    pub clickable: bool,
    pub long_clickable: bool,
    pub scrollable: bool,
    pub checkable: bool,
    pub checked: bool,
    pub enabled: bool,
    pub focused: bool,
    pub selected: bool,
    pub password: bool,
    pub children: Seq<NodeView>,
}

pub open spec fn node_view(n: UiNode) -> NodeView
    decreases n,
{
    NodeView {
        index: n.index,
        text: n.text@,
        resource_id: n.resource_id@,
        class: n.class@,
        package: n.package@,
        content_desc: n.content_desc@,
        bounds: n.bounds,
        clickable: n.clickable,
        long_clickable: n.long_clickable,
        scrollable: n.scrollable,
        checkable: n.checkable,
        checked: n.checked,
        enabled: n.enabled,
        focused: n.focused,
        selected: n.selected,
        password: n.password,
        children: nodes_view(n.children@),
    }
}

pub open spec fn nodes_view(s: Seq<UiNode>) -> Seq<NodeView>
    decreases s,
{
    if s.len() == 0 {
        seq![]
    } else {
        nodes_view(s.drop_last()).push(node_view(s.last()))
    }
}

impl View for UiNode {
    type V = NodeView;

    open spec fn view(&self) -> NodeView {
        node_view(*self)
    }
}

pub proof fn lemma_nodes_view(s: Seq<UiNode>)
    ensures
        nodes_view(s).len() == s.len(),
        forall|i: int| 0 <= i < s.len() ==> #[trigger] nodes_view(s)[i] == s[i]@,
    decreases s.len(),
{
    if s.len() > 0 {
        lemma_nodes_view(s.drop_last());
        assert forall|i: int| 0 <= i < s.len() implies #[trigger] nodes_view(s)[i] == s[i]@ by {
            if i < s.len() - 1 {
                assert(nodes_view(s)[i] == nodes_view(s.drop_last())[i]);
                assert(s.drop_last()[i] == s[i]);
            }
        }
    }
}

fn copy_node(n: &UiNode) -> (r: UiNode)
    ensures
        r@ == n@,
    decreases *n,
{
    let mut kids: Vec<UiNode> = Vec::new();
    let mut i: usize = 0;
    assert(nodes_view(n.children@.take(0)) =~= nodes_view(kids@));
    while i < n.children.len()
        invariant
            i <= n.children@.len(),
            nodes_view(kids@) == nodes_view(n.children@.take(i as int)),
        decreases n.children@.len() - i,
    {
        let kid = copy_node(&n.children[i]);
        assert(n.children@.take(i + 1).drop_last() =~= n.children@.take(i as int));
        assert(kids@.push(kid).drop_last() =~= kids@);
        kids.push(kid);
        i = i + 1;
    }
    assert(n.children@.take(i as int) =~= n.children@);
    UiNode {
        index: n.index,
        text: n.text.clone(),
        resource_id: n.resource_id.clone(),
        class: n.class.clone(),
        package: n.package.clone(),
        content_desc: n.content_desc.clone(),
        bounds: n.bounds,
        clickable: n.clickable,
        long_clickable: n.long_clickable,
        scrollable: n.scrollable,
        checkable: n.checkable,
        checked: n.checked,
        enabled: n.enabled,
        focused: n.focused,
        selected: n.selected,
        password: n.password,
        children: kids,
    }
}

impl Clone for UiNode {
    fn clone(&self) -> (r: Self)
        ensures
            r@ == self@,
    {
        copy_node(self)
    }
}

/// The widgets behind a list of references.
pub open spec fn views_of(v: Seq<&UiNode>) -> Seq<NodeView> {
    Seq::new(v.len(), |i: int| v[i]@)
}

/// The class without its package.
pub open spec fn short_class_of(n: NodeView) -> Seq<char> {
    behind_last(n.class, '.')
}

/// A short readable name: the text, the description, the end of the resource id or the class.
pub open spec fn display_of(n: NodeView) -> Seq<char> {
    if n.text.len() > 0 {
        truncated(n.text, 24)
    } else if n.content_desc.len() > 0 {
        truncated(n.content_desc, 24)
    } else if n.resource_id.len() > 0 {
        behind_last(n.resource_id, '/')
    } else {
        short_class_of(n)
    }
}

/// The widget takes text.
pub open spec fn takes_text(n: NodeView) -> bool {
    has(n.class, "EditText"@) || has(n.class, "AutoCompleteTextView"@)
}

/// The widget itself answers to some action.
pub open spec fn answers(n: NodeView) -> bool {
    n.clickable || n.long_clickable || n.scrollable || n.checkable || takes_text(n)
}

/// A widget without others inside it that has a text or a description.
pub open spec fn content_leaf(n: NodeView) -> bool {
    n.children.len() == 0 && (n.text.len() > 0 || n.content_desc.len() > 0)
}

/// The widget counts for the coverage of interactive widgets.
pub open spec fn counts(n: NodeView) -> bool {
    answers(n) || content_leaf(n)
}

/// The identity of a widget that has no resource id: its class and its place.
pub open spec fn placed_key(n: NodeView) -> Seq<char> {
    short_class_of(n) + "#"@ + rect_text(n.bounds)
}

/// The identity of a widget without regard to its text.
pub open spec fn struct_key_of(n: NodeView) -> Seq<char> {
    if n.resource_id.len() > 0 {
        n.resource_id
    } else {
        placed_key(n)
    }
}

/// The identity of a widget: its resource id, else its class with its text or description, else
/// its class with its place.
pub open spec fn key_of(n: NodeView) -> Seq<char> {
    let label = if n.text.len() > 0 {
        n.text
    } else {
        n.content_desc
    };
    if n.resource_id.len() > 0 {
        n.resource_id
    } else if label.len() > 0 {
        short_class_of(n) + "#"@ + label
    } else {
        placed_key(n)
    }
}

pub open spec fn bool_text(b: bool) -> Seq<char> {
    if b {
        "true"@
    } else {
        "false"@
    }
}

pub fn bool_str(b: bool) -> (r: &'static str)
    ensures
        r@ == bool_text(b),
{
    if b {
        "true"
    } else {
        "false"
    }
}

/// What of a widget makes a difference where contents count.
pub open spec fn content_sig_of(n: NodeView) -> Seq<char> {
    key_of(n) + "|"@ + n.text + "|"@ + n.content_desc + "|"@ + bool_text(n.checked)
}

/// What of a widget makes a difference where only the structure counts.
pub open spec fn struct_part(n: NodeView) -> Seq<char> {
    struct_key_of(n) + "|"@ + bool_text(n.checked)
}

/// The widget and all below it, each before those inside it.
pub open spec fn tree_of(n: NodeView) -> Seq<NodeView>
    decreases n,
{
    seq![n] + forest_of(n.children)
}

/// The widgets and all below them.
pub open spec fn forest_of(s: Seq<NodeView>) -> Seq<NodeView>
    decreases s,
{
    if s.len() == 0 {
        seq![]
    } else {
        forest_of(s.drop_last()) + tree_of(s.last())
    }
}

/// Where to tap a widget: the middle of what the screen shows of it, or a place near its upper
/// edge where that middle is not in the widget.
pub open spec fn tap_point(n: NodeView, screen: Rect) -> Option<(i32, i32)> {
    let r = common(n.bounds, screen);
    let x = cut(r.x1 + r.x2, 2);
    let y = cut(r.y1 + r.y2, 2);
    if !solid(r) {
        None
    } else if inside(n.bounds, x, y) {
        Some((x as i32, y as i32))
    } else {
        Some((x as i32, clamped(r.y1 + 8, r.y1 as int, r.y2 - 1) as i32))
    }
}

fn collect<'a>(n: &'a UiNode, out: &mut Vec<&'a UiNode>)
    ensures
        views_of(final(out)@) == views_of(old(out)@) + tree_of(n@),
    decreases *n,
{
    let ghost before = views_of(out@);
    out.push(n);
    let ghost kids = nodes_view(n.children@);
    let mut i: usize = 0;
    proof {
        lemma_nodes_view(n.children@);
        assert(kids.take(0) =~= seq![]);
        assert(views_of(out@) =~= before + (seq![n@] + forest_of(kids.take(0))));
    }
    while i < n.children.len()
        invariant
            i <= n.children@.len(),
            kids == nodes_view(n.children@),
            kids.len() == n.children@.len(),
            forall|j: int| 0 <= j < n.children@.len() ==> #[trigger] kids[j] == n.children@[j]@,
            views_of(out@) == before + (seq![n@] + forest_of(kids.take(i as int))),
        decreases n.children@.len() - i,
    {
        proof {
            assert(kids.take(i + 1).drop_last() =~= kids.take(i as int));
            assert(kids.take(i + 1).last() == n.children@[i as int]@);
        }
        collect(&n.children[i], out);
        assert(views_of(out@) =~= before + (seq![n@] + forest_of(kids.take(i + 1))));
        i = i + 1;
    }
    assert(kids.take(i as int) =~= kids);
    assert(n@.children == kids);
}

impl UiNode {
    /// The class without its package.
    pub fn short_class(&self) -> (r: String)
        ensures
            r@ == short_class_of(self@),
    {
        after_last(self.class.as_str(), '.')
    }

    /// A short readable name for logs and reports.
    pub fn display(&self) -> (r: String)
        ensures
            r@ == display_of(self@),
    {
        if !is_empty(&self.text) {
            return truncate(self.text.as_str(), 24);
        }
        if !is_empty(&self.content_desc) {
            return truncate(self.content_desc.as_str(), 24);
        }
        if !is_empty(&self.resource_id) {
            return after_last(self.resource_id.as_str(), '/');
        }
        self.short_class()
    }

    /// The widget takes text.
    pub fn is_edit_text(&self) -> (r: bool)
        ensures
            r == takes_text(self@),
    {
        contains(self.class.as_str(), "EditText") || contains(
            self.class.as_str(),
            "AutoCompleteTextView",
        )
    }

    /// The widget itself answers to some action.
    pub fn interactive(&self) -> (r: bool)
        ensures
            r == answers(self@),
    {
        self.clickable || self.long_clickable || self.scrollable || self.checkable
            || self.is_edit_text()
    }

    /// The widget counts for the coverage of interactive widgets: it answers itself, or it is a
    /// leaf with content, on which a tap reaches what it stands in. Layout without content does
    /// not count: it is never tapped.
    pub fn coverage_target(&self) -> (r: bool)
        ensures
            r == counts(self@),
    {
        self.interactive() || self.is_leaf_with_content()
    }

    /// A widget without others inside it that has a text or a description.
    pub fn is_leaf_with_content(&self) -> (r: bool)
        ensures
            r == content_leaf(self@),
    {
        proof {
            lemma_nodes_view(self.children@);
        }
        self.children.len() == 0 && (!is_empty(&self.text) || !is_empty(&self.content_desc))
    }

    /// The identity of the widget without regard to its text, so that a clock or a counter is
    /// the same widget whatever it shows.
    pub fn struct_key(&self) -> (r: String)
        ensures
            r@ == struct_key_of(self@),
    {
        if !is_empty(&self.resource_id) {
            return self.resource_id.clone();
        }
        let mut out = self.short_class();
        out.append("#");
        out.append(self.bounds.text().as_str());
        out
    }

    /// The identity of the widget.
    pub fn key(&self) -> (r: String)
        ensures
            r@ == key_of(self@),
    {
        if !is_empty(&self.resource_id) {
            return self.resource_id.clone();
        }
        let label = if !is_empty(&self.text) {
            self.text.clone()
        } else {
            self.content_desc.clone()
        };
        let mut out = self.short_class();
        out.append("#");
        if !is_empty(&label) {
            out.append(label.as_str());
        } else {
            out.append(self.bounds.text().as_str());
        }
        out
    }

    /// What of the widget makes a difference where contents count.
    pub fn content_sig(&self) -> (r: String)
        ensures
            r@ == content_sig_of(self@),
    {
        let mut out = self.key();
        out.append("|");
        out.append(self.text.as_str());
        out.append("|");
        out.append(self.content_desc.as_str());
        out.append("|");
        out.append(bool_str(self.checked));
        out
    }

    /// The widget and all below it, each before those inside it.
    pub fn walk(&self) -> (r: Vec<&UiNode>)
        ensures
            views_of(r@) == tree_of(self@),
    {
        let mut out: Vec<&UiNode> = Vec::new();
        assert(views_of(out@) =~= seq![]);
        collect(self, &mut out);
        assert(views_of(out@) =~= tree_of(self@));
        out
    }

    /// Where to tap the widget; none where the screen shows nothing of it.
    pub fn click_point(&self, screen: &Rect) -> (r: Option<(i32, i32)>)
        ensures
            r == tap_point(self@, *screen),
    {
        let r = self.bounds.intersect(screen);
        if !r.valid() {
            return None;
        }
        let x = r.cx();
        let y = r.cy();
        if self.bounds.contains(x, y) {
            return Some((x, y));
        }
        let low: i64 = r.y1 as i64 + 8;
        let edge: i64 = r.y2 as i64 - 1;
        let near: i64 = if low > edge {
            edge
        } else {
            low
        };
        Some((x, near as i32))
    }
}

pub(crate) fn is_empty(s: &String) -> (r: bool)
    ensures
        r == (s@.len() == 0),
{
    let e = String::new();
    if *s == e {
        assert(s@ == e@);
        true
    } else {
        assert(s@.len() == 0 ==> s@ =~= e@);
        false
    }
}

/// A dumped screen.
#[derive(Debug)]
pub struct Hierarchy {
    pub root: Option<UiNode>,
    pub width: i32,
    pub height: i32,
    pub rotation: i32,
}

/// A dumped screen as a mathematical value.
pub struct HierarchyView {
    pub root: Option<NodeView>,
    pub width: i32,
    pub height: i32,
    pub rotation: i32,
}

impl View for Hierarchy {
    type V = HierarchyView;

    open spec fn view(&self) -> HierarchyView {
        HierarchyView {
            root: match self.root {
                Some(n) => Some(n@),
                None => None,
            },
            width: self.width,
            height: self.height,
            rotation: self.rotation,
        }
    }
}

impl Clone for Hierarchy {
    fn clone(&self) -> (r: Self)
        ensures
            r@ == self@,
    {
        let root: Option<UiNode> = match &self.root {
            Some(n) => Some(n.clone()),
            None => None,
        };
        Hierarchy { root, width: self.width, height: self.height, rotation: self.rotation }
    }
}

impl Default for Hierarchy {
    fn default() -> (r: Self)
        ensures
            r@ == (HierarchyView { root: None, width: 0, height: 0, rotation: 0 }),
    {
        Hierarchy { root: None, width: 0, height: 0, rotation: 0 }
    }
}

/// The screen, at least one point wide and high.
pub open spec fn screen_of(h: HierarchyView) -> Rect {
    Rect {
        x1: 0,
        y1: 0,
        x2: if h.width >= 1 {
            h.width
        } else {
            1
        },
        y2: if h.height >= 1 {
            h.height
        } else {
            1
        },
    }
}

/// All widgets of a screen.
pub open spec fn all_nodes(h: HierarchyView) -> Seq<NodeView> {
    match h.root {
        Some(n) => tree_of(n),
        None => seq![],
    }
}

/// More than a fifth of the area of the widget is on the screen; `0x3e4c_cccd` are the bits of
/// 0.2, and among numbers that are not negative the larger one has the larger bits.
pub open spec fn on_screen(n: NodeView, screen: Rect) -> bool {
    solid(n.bounds) && visible_bits(n.bounds, screen) > 0x3e4c_cccd
}

/// Those of the widgets that are on the screen.
pub open spec fn shown(s: Seq<NodeView>, screen: Rect) -> Seq<NodeView>
    decreases s.len(),
{
    if s.len() == 0 {
        seq![]
    } else if on_screen(s.last(), screen) {
        shown(s.drop_last(), screen).push(s.last())
    } else {
        shown(s.drop_last(), screen)
    }
}

/// The widgets of a screen that are on it.
pub open spec fn visible_of(h: HierarchyView) -> Seq<NodeView> {
    shown(all_nodes(h), screen_of(h))
}

/// The structure parts of the widgets that count.
pub open spec fn struct_parts(s: Seq<NodeView>) -> Seq<Seq<char>>
    decreases s.len(),
{
    if s.len() == 0 {
        seq![]
    } else if counts(s.last()) {
        struct_parts(s.drop_last()).push(struct_part(s.last()))
    } else {
        struct_parts(s.drop_last())
    }
}

/// The content parts of the widgets that count.
pub open spec fn content_parts(s: Seq<NodeView>) -> Seq<Seq<char>>
    decreases s.len(),
{
    if s.len() == 0 {
        seq![]
    } else if counts(s.last()) {
        content_parts(s.drop_last()).push(content_sig_of(s.last()))
    } else {
        content_parts(s.drop_last())
    }
}

/// The texts of the widgets that have one.
pub open spec fn shown_texts(s: Seq<NodeView>) -> Seq<Seq<char>>
    decreases s.len(),
{
    if s.len() == 0 {
        seq![]
    } else if s.last().text.len() > 0 {
        shown_texts(s.drop_last()).push(s.last().text)
    } else {
        shown_texts(s.drop_last())
    }
}

/// The keys of the widgets that count.
pub open spec fn counted_keys(s: Seq<NodeView>) -> Seq<Seq<char>>
    decreases s.len(),
{
    if s.len() == 0 {
        seq![]
    } else if counts(s.last()) {
        counted_keys(s.drop_last()).push(key_of(s.last()))
    } else {
        counted_keys(s.drop_last())
    }
}

/// What a signature begins with: the activity and the size of the screen.
pub open spec fn sig_head(activity: Seq<char>, screen: Rect) -> Seq<char> {
    activity + "|"@ + dec(width(screen)) + "x"@ + dec(height(screen)) + "|"@
}

/// The signature of a screen by its structure.
pub open spec fn struct_sig(activity: Seq<char>, screen: Rect, s: Seq<NodeView>) -> Seq<char> {
    sig_head(activity, screen) + joined(sorted_set(struct_parts(s)), ";"@)
}

/// The signature of a screen by its contents.
pub open spec fn state_sig(activity: Seq<char>, screen: Rect, s: Seq<NodeView>) -> Seq<char> {
    sig_head(activity, screen) + joined(sorted_set(content_parts(s)), ";"@) + "|"@ + joined(
        sorted_set(shown_texts(s)),
        ";"@,
    )
}

fn head_text(activity: &str, screen: &Rect) -> (r: String)
    ensures
        r@ == sig_head(activity@, *screen),
{
    let mut out = activity.to_string();
    out.append("|");
    out.append(dec_text(screen.width_wide()).as_str());
    out.append("x");
    out.append(dec_text(screen.height_wide()).as_str());
    out.append("|");
    out
}

/// The keys of the widgets that count, in order and each once.
pub fn target_keys(visible: &[&UiNode]) -> (r: Vec<String>)
    ensures
        texts(r@) == sorted_set(counted_keys(views_of(visible@))),
{
    let mut parts: Vec<String> = Vec::new();
    let mut i: usize = 0;
    let ghost all = views_of(visible@);
    assert(texts(parts@) =~= counted_keys(all.take(0)));
    while i < visible.len()
        invariant
            i <= visible@.len(),
            all == views_of(visible@),
            texts(parts@) == counted_keys(all.take(i as int)),
        decreases visible@.len() - i,
    {
        let n = visible[i];
        assert(all.take(i + 1).drop_last() =~= all.take(i as int));
        assert(all.take(i + 1).last() == n@);
        let ghost before = texts(parts@);
        if n.coverage_target() {
            let key = n.key();
            let ghost k = key@;
            parts.push(key);
            assert(texts(parts@) =~= before.push(k));
        }
        i = i + 1;
    }
    assert(all.take(i as int) =~= all);
    sort_texts(&parts)
}

impl Hierarchy {
    /// The screen, at least one point wide and high.
    pub fn screen(&self) -> (r: Rect)
        ensures
            r == screen_of(self@),
    {
        let w: i32 = if self.width >= 1 {
            self.width
        } else {
            1
        };
        let h: i32 = if self.height >= 1 {
            self.height
        } else {
            1
        };
        Rect::new(0, 0, w, h)
    }

    /// All widgets of the screen.
    pub fn nodes(&self) -> (r: Vec<&UiNode>)
        ensures
            views_of(r@) == all_nodes(self@),
    {
        match &self.root {
            Some(n) => n.walk(),
            None => {
                let out: Vec<&UiNode> = Vec::new();
                assert(views_of(out@) =~= seq![]);
                out
            },
        }
    }

    /// The number of widgets.
    pub fn node_count(&self) -> (r: usize)
        ensures
            r == all_nodes(self@).len(),
    {
        let all = self.nodes();
        assert(views_of(all@).len() == all@.len());
        all.len()
    }

    /// The widgets that have an area, more than a fifth of it on the screen.
    pub fn visible_nodes(&self) -> (r: Vec<&UiNode>)
        ensures
            views_of(r@) == visible_of(self@),
    {
        let screen = self.screen();
        let all = self.nodes();
        let ghost views = views_of(all@);
        let mut out: Vec<&UiNode> = Vec::new();
        let mut i: usize = 0;
        assert(views_of(out@) =~= shown(views.take(0), screen));
        while i < all.len()
            invariant
                i <= all@.len(),
                views == views_of(all@),
                views_of(out@) == shown(views.take(i as int), screen),
            decreases all@.len() - i,
        {
            let n = all[i];
            let ghost before = views_of(out@);
            assert(views.take(i + 1).drop_last() =~= views.take(i as int));
            assert(views.take(i + 1).last() == n@);
            if n.bounds.valid() && n.bounds.visible_ratio(&screen).bits > 0x3e4c_cccd {
                out.push(n);
                assert(views_of(out@) =~= before.push(n@));
            }
            i = i + 1;
        }
        assert(views.take(i as int) =~= views);
        out
    }

    /// The signature of a screen by its structure: the widgets that count, without their texts.
    /// A clock, a battery level or a feed does not change it.
    pub fn struct_sig_with(activity: &str, screen: &Rect, visible: &[&UiNode]) -> (r: String)
        ensures
            r@ == struct_sig(activity@, *screen, views_of(visible@)),
    {
        let mut parts: Vec<String> = Vec::new();
        let mut i: usize = 0;
        let ghost all = views_of(visible@);
        assert(texts(parts@) =~= struct_parts(all.take(0)));
        while i < visible.len()
            invariant
                i <= visible@.len(),
                all == views_of(visible@),
                texts(parts@) == struct_parts(all.take(i as int)),
            decreases visible@.len() - i,
        {
            let n = visible[i];
            assert(all.take(i + 1).drop_last() =~= all.take(i as int));
            assert(all.take(i + 1).last() == n@);
            let ghost before = texts(parts@);
            if n.coverage_target() {
                let mut part = n.struct_key();
                part.append("|");
                part.append(bool_str(n.checked));
                let ghost k = part@;
                parts.push(part);
                assert(texts(parts@) =~= before.push(k));
            }
            i = i + 1;
        }
        assert(all.take(i as int) =~= all);
        let sorted = sort_texts(&parts);
        let mut out = head_text(activity, screen);
        out.append(join(&sorted, ";").as_str());
        out
    }

    /// The signature of a screen by its contents: besides the widgets all texts count.
    pub fn state_sig_with(activity: &str, screen: &Rect, visible: &[&UiNode]) -> (r: String)
        ensures
            r@ == state_sig(activity@, *screen, views_of(visible@)),
    {
        let mut inter: Vec<String> = Vec::new();
        let mut shown: Vec<String> = Vec::new();
        let mut i: usize = 0;
        let ghost all = views_of(visible@);
        assert(texts(inter@) =~= content_parts(all.take(0)));
        assert(texts(shown@) =~= shown_texts(all.take(0)));
        while i < visible.len()
            invariant
                i <= visible@.len(),
                all == views_of(visible@),
                texts(inter@) == content_parts(all.take(i as int)),
                texts(shown@) == shown_texts(all.take(i as int)),
            decreases visible@.len() - i,
        {
            let n = visible[i];
            assert(all.take(i + 1).drop_last() =~= all.take(i as int));
            assert(all.take(i + 1).last() == n@);
            let ghost before = texts(inter@);
            let ghost said = texts(shown@);
            if n.interactive() || n.is_leaf_with_content() {
                let part = n.content_sig();
                let ghost k = part@;
                inter.push(part);
                assert(texts(inter@) =~= before.push(k));
            }
            if !is_empty(&n.text) {
                shown.push(n.text.clone());
                assert(texts(shown@) =~= said.push(n.text@));
            }
            i = i + 1;
        }
        assert(all.take(i as int) =~= all);
        let inter_sorted = sort_texts(&inter);
        let shown_sorted = sort_texts(&shown);
        let mut out = head_text(activity, screen);
        out.append(join(&inter_sorted, ";").as_str());
        out.append("|");
        out.append(join(&shown_sorted, ";").as_str());
        out
    }
}

/// Two widgets that differ at most in what a text shows: both have a text or neither, and all
/// else that their structure is made of is the same.
pub open spec fn same_structure(a: NodeView, b: NodeView) -> bool {
    &&& a.resource_id == b.resource_id
    &&& a.class == b.class
    &&& a.bounds == b.bounds
    &&& a.checked == b.checked
    &&& a.clickable == b.clickable
    &&& a.long_clickable == b.long_clickable
    &&& a.scrollable == b.scrollable
    &&& a.checkable == b.checkable
    &&& content_leaf(a) == content_leaf(b)
}

/// The structure signature does not depend on what texts show: widgets that differ only there
/// give the same signature.
pub proof fn lemma_struct_sig_ignores_text(
    activity: Seq<char>,
    screen: Rect,
    a: Seq<NodeView>,
    b: Seq<NodeView>,
)
    requires
        a.len() == b.len(),
        forall|i: int| 0 <= i < a.len() ==> #[trigger] same_structure(a[i], b[i]),
    ensures
        struct_sig(activity, screen, a) == struct_sig(activity, screen, b),
{
    lemma_same_struct_parts(a, b);
}

proof fn lemma_same_struct_parts(a: Seq<NodeView>, b: Seq<NodeView>)
    requires
        a.len() == b.len(),
        forall|i: int| 0 <= i < a.len() ==> #[trigger] same_structure(a[i], b[i]),
    ensures
        struct_parts(a) == struct_parts(b),
    decreases a.len(),
{
    if a.len() > 0 {
        let x = a.drop_last();
        let y = b.drop_last();
        assert forall|i: int| 0 <= i < x.len() implies #[trigger] same_structure(x[i], y[i]) by {
            assert(same_structure(a[i], b[i]));
        }
        lemma_same_struct_parts(x, y);
        assert(same_structure(a[a.len() - 1], b[b.len() - 1]));
    }
}

/// The structure signature does not depend on the order in which the widgets are listed, nor on
/// how often one is: what counts is which structure parts there are.
pub proof fn lemma_struct_sig_is_of_a_set(
    activity: Seq<char>,
    screen: Rect,
    a: Seq<NodeView>,
    b: Seq<NodeView>,
)
    requires
        same_members(struct_parts(a), struct_parts(b)),
    ensures
        struct_sig(activity, screen, a) == struct_sig(activity, screen, b),
{
    lemma_sorted_set_same(struct_parts(a), struct_parts(b));
}

/// A tap goes to a place that is in the widget and on the screen.
pub proof fn lemma_tap_is_inside(n: NodeView, screen: Rect)
    requires
        screen.x1 >= 0,
        screen.y1 >= 0,
    ensures
        match tap_point(n, screen) {
            Some(p) => inside(n.bounds, p.0 as int, p.1 as int) && inside(
                screen,
                p.0 as int,
                p.1 as int,
            ),
            None => !solid(common(n.bounds, screen)),
        },
{
}

/// The widgets that are shown are among all widgets, and each of them is on the screen.
pub proof fn lemma_shown(s: Seq<NodeView>, screen: Rect)
    ensures
        shown(s, screen).len() <= s.len(),
        forall|i: int|
            0 <= i < shown(s, screen).len() ==> on_screen(#[trigger] shown(s, screen)[i], screen)
                && s.contains(shown(s, screen)[i]),
    decreases s.len(),
{
    if s.len() > 0 {
        let d = s.drop_last();
        lemma_shown(d, screen);
        assert forall|i: int| 0 <= i < shown(s, screen).len() implies on_screen(
            #[trigger] shown(s, screen)[i],
            screen,
        ) && s.contains(shown(s, screen)[i]) by {
            if i < shown(d, screen).len() {
                let x = shown(d, screen)[i];
                assert(shown(s, screen)[i] == x);
                let k = choose|k: int| 0 <= k < d.len() && d[k] == x;
                assert(s[k] == x);
            } else {
                assert(s[s.len() - 1] == s.last());
            }
        }
    }
}

} // verus!
