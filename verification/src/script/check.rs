//! Deciding assertions.

use vstd::prelude::*;

use crate::model::node::all_nodes;
use crate::model::node::is_empty;
use crate::model::node::views_of;
use crate::model::node::Hierarchy;
use crate::model::node::HierarchyView;
use crate::model::node::NodeView;
use crate::monitor::collect::Incident;
use crate::monitor::line::kind_cn_text;
use crate::monitor::line::option_text;
use crate::script::ir::copy_option;
use crate::script::ir::number_of;
use crate::script::ir::number_or_place;
use crate::script::ir::or_empty;
use crate::script::ir::text_or_empty;
use crate::script::ir::Assertion;
use crate::script::ir::Registry;
use crate::script::locate::locate;
use crate::script::locate::located;
use crate::single::Single;
use crate::text::basic::same;
use crate::text::basic::texts;
use crate::text::number::dec;
use crate::text::number::dec_text;
use crate::text::search::contains;
use crate::text::search::has;
use crate::text::split::join;
use crate::text::split::joined;
use crate::util::truncate;
use crate::util::truncated;

verus! {

/// How long an assertion is tried where it does not say, in milliseconds.
pub const DEFAULT_ASSERT_TIMEOUT_MS: u64 = 4000;

/// How long to wait between two tries, in milliseconds.
pub const RETRY_INTERVAL_MS: u64 = 1200;

/// What became of an assertion.
#[derive(Debug, Clone, Copy, PartialEq, Eq, Structural)]
pub enum AssertStatus {
    Pass,
    Fail,
    Skip,
}

/// What became of an assertion, with all that a report shows of it.
#[derive(Debug)]
pub struct AssertResult {
    pub n: u32,
    pub kind: String,
    pub expect: Option<String>,
    /// What the author of the case wrote about it.
    pub note: Option<String>,
    pub status: AssertStatus,
    pub msg: String,
    pub attempts: u32,
}

/// What became of an assertion, as a mathematical value.
pub struct AssertResultView {
    pub n: u32,
    pub kind: Seq<char>,
    pub expect: Option<Seq<char>>,
    pub note: Option<Seq<char>>,
    pub status: AssertStatus,
    pub msg: Seq<char>,
    pub attempts: u32,
}

impl View for AssertResult {
    type V = AssertResultView;

    open spec fn view(&self) -> AssertResultView {
        AssertResultView {
            n: self.n,
            kind: self.kind@,
            expect: option_text(self.expect),
            note: option_text(self.note),
            status: self.status,
            msg: self.msg@,
            attempts: self.attempts,
        }
    }
}

pub open spec fn assert_views(s: Seq<AssertResult>) -> Seq<AssertResultView> {
    Seq::new(s.len(), |i: int| s[i]@)
}

/// What one try of an assertion gave.
#[derive(Debug)]
pub struct AttemptOutcome {
    pub pass: bool,
    pub msg: String,
    /// The assertion was not tried at all.
    pub skipped: bool,
}

/// What one try of an assertion gave, as a mathematical value.
pub struct OutcomeView {
    pub pass: bool,
    pub msg: Seq<char>,
    pub skipped: bool,
}

impl View for AttemptOutcome {
    type V = OutcomeView;

    open spec fn view(&self) -> OutcomeView {
        OutcomeView { pass: self.pass, msg: self.msg@, skipped: self.skipped }
    }
}

impl AttemptOutcome {
    pub fn pass(msg: String) -> (r: Self)
        ensures
            r@ == (OutcomeView { pass: true, msg: msg@, skipped: false }),
    {
        AttemptOutcome { pass: true, msg, skipped: false }
    }

    pub fn fail(msg: String) -> (r: Self)
        ensures
            r@ == (OutcomeView { pass: false, msg: msg@, skipped: false }),
    {
        AttemptOutcome { pass: false, msg, skipped: false }
    }

    pub fn skip(msg: String) -> (r: Self)
        ensures
            r@ == (OutcomeView { pass: false, msg: msg@, skipped: true }),
    {
        AttemptOutcome { pass: false, msg, skipped: true }
    }
}

/// What a try means for the assertion.
pub open spec fn status_of(o: OutcomeView) -> AssertStatus {
    if o.skipped {
        AssertStatus::Skip
    } else if o.pass {
        AssertStatus::Pass
    } else {
        AssertStatus::Fail
    }
}

/// What a try means for the assertion.
pub fn outcome_status(o: &AttemptOutcome) -> (r: AssertStatus)
    ensures
        r == status_of(o@),
{
    if o.skipped {
        AssertStatus::Skip
    } else if o.pass {
        AssertStatus::Pass
    } else {
        AssertStatus::Fail
    }
}

// ---------------------------------------------------------------- on a page

/// The text of a widget that contains what is expected: its text, or else its description.
pub open spec fn shows(n: NodeView, expect: Seq<char>) -> Option<Seq<char>> {
    if n.text.len() > 0 && has(n.text, expect) {
        Some(n.text)
    } else if n.content_desc.len() > 0 && has(n.content_desc, expect) {
        Some(n.content_desc)
    } else {
        None
    }
}

/// The first text among the widgets, from the `i`th on, that contains what is expected.
pub open spec fn first_showing(nodes: Seq<NodeView>, expect: Seq<char>, i: int) -> Option<Seq<char>>
    decreases nodes.len() - i,
{
    if i < 0 || i >= nodes.len() {
        None
    } else {
        match shows(nodes[i], expect) {
            Some(t) => Some(t),
            None => first_showing(nodes, expect, i + 1),
        }
    }
}

/// The text or the description of the widget is what is expected.
pub open spec fn equals(n: NodeView, expect: Seq<char>) -> bool {
    n.text == expect || n.content_desc == expect
}

pub open spec fn some_equals(nodes: Seq<NodeView>, expect: Seq<char>) -> bool {
    exists|i: int| 0 <= i < nodes.len() && equals(#[trigger] nodes[i], expect)
}

/// Whether an assertion holds on a page, and what is said about it.
pub open spec fn page_verdict(a: Assertion, reg: Registry, h: HierarchyView) -> (bool, Seq<char>) {
    let k = a.kind@;
    let expect = or_empty(a.expect);
    let nodes = all_nodes(h);
    if k == "text_visible"@ || k == "text_contains"@ {
        match first_showing(nodes, expect, 0) {
            Some(t) => (true, "命中 '"@ + truncated(t, 40) + "'"@),
            None => (
                false,
                "未找到文本 '"@ + expect + "'（已 dump "@ + dec(nodes.len() as int)
                    + " 个节点）"@,
            ),
        }
    } else if k == "text_equals"@ {
        if some_equals(nodes, expect) {
            (true, "命中 '"@ + truncated(expect, 40) + "'"@)
        } else {
            (false, "未找到文本 '"@ + truncated(expect, 40) + "'（精确匹配）"@)
        }
    } else if k == "element_exists"@ || k == "element_absent"@ {
        match a.locator {
            None => (false, "断言缺少 locator"@),
            Some(r) => match element_of(r.id, reg) {
                None => (false, "断言引用的元素不在注册表"@),
                Some(e) => match (
                    k == "element_exists"@,
                    located(e, h, false, false, seq![]),
                ) {
                    (true, Some((_, i))) => (
                        true,
                        "找到 "@ + e.id@ + "（via "@ + e.locators@[i].kind@ + "）"@,
                    ),
                    (false, None) => (true, "元素 "@ + e.id@ + " 确实不存在"@),
                    (true, None) => (false, "元素 "@ + e.id@ + " 未出现在当前页面"@),
                    (false, Some((_, i))) => (
                        false,
                        "元素 "@ + e.id@ + " 仍在，预期应消失（via "@ + e.locators@[i].kind@
                            + "）"@,
                    ),
                },
            },
        }
    } else {
        (false, "执行器不处理该断言类型: "@ + k)
    }
}

/// The element of the registry with the id, where there is an id.
pub open spec fn element_of(id: Option<String>, reg: Registry) -> Option<
    crate::script::ir::ElementDef,
> {
    match id {
        Some(x) => reg.lookup(x@),
        None => None,
    }
}

fn find_showing(hier: &Hierarchy, expect: &str) -> (r: Option<String>)
    ensures
        option_text(r) == first_showing(all_nodes(hier@), expect@, 0),
{
    let nodes = hier.nodes();
    let ghost all = views_of(nodes@);
    let mut i: usize = 0;
    while i < nodes.len()
        invariant
            i <= nodes@.len(),
            all == views_of(nodes@),
            all == all_nodes(hier@),
            first_showing(all, expect@, i as int) == first_showing(all, expect@, 0),
        decreases nodes@.len() - i,
    {
        let n = nodes[i];
        assert(all[i as int] == n@);
        if !is_empty(&n.text) && contains(n.text.as_str(), expect) {
            return Some(n.text.clone());
        }
        if !is_empty(&n.content_desc) && contains(n.content_desc.as_str(), expect) {
            return Some(n.content_desc.clone());
        }
        i = i + 1;
    }
    None
}

fn any_equals(hier: &Hierarchy, expect: &str) -> (r: bool)
    ensures
        r == some_equals(all_nodes(hier@), expect@),
{
    let nodes = hier.nodes();
    let ghost all = views_of(nodes@);
    let mut i: usize = 0;
    while i < nodes.len()
        invariant
            i <= nodes@.len(),
            all == views_of(nodes@),
            all == all_nodes(hier@),
            forall|j: int| 0 <= j < i ==> !equals(#[trigger] all[j], expect@),
        decreases nodes@.len() - i,
    {
        let n = nodes[i];
        assert(all[i as int] == n@);
        if same(n.text.as_str(), expect) || same(n.content_desc.as_str(), expect) {
            assert(equals(all[i as int], expect@));
            return true;
        }
        i = i + 1;
    }
    false
}

fn text_verdict(kind: &str, expect: &str, hier: &Hierarchy) -> (r: (bool, String))
    requires
        kind@ == "text_visible"@ || kind@ == "text_contains"@ || kind@ == "text_equals"@,
    ensures
        ({
            let nodes = all_nodes(hier@);
            if kind@ == "text_visible"@ || kind@ == "text_contains"@ {
                match first_showing(nodes, expect@, 0) {
                    Some(t) => r.0 && r.1@ == "命中 '"@ + truncated(t, 40) + "'"@,
                    None => !r.0 && r.1@ == "未找到文本 '"@ + expect@ + "'（已 dump "@ + dec(
                        nodes.len() as int,
                    ) + " 个节点）"@,
                }
            } else if some_equals(nodes, expect@) {
                r.0 && r.1@ == "命中 '"@ + truncated(expect@, 40) + "'"@
            } else {
                !r.0 && r.1@ == "未找到文本 '"@ + truncated(expect@, 40) + "'（精确匹配）"@
            }
        }),
{
    if same(kind, "text_visible") || same(kind, "text_contains") {
        match find_showing(hier, expect) {
            Some(t) => {
                let mut msg = "命中 '".to_string();
                msg.append(truncate(t.as_str(), 40).as_str());
                msg.append("'");
                (true, msg)
            },
            None => {
                let mut msg = "未找到文本 '".to_string();
                msg.append(expect);
                msg.append("'（已 dump ");
                msg.append(dec_text(hier.node_count() as u64).as_str());
                msg.append(" 个节点）");
                (false, msg)
            },
        }
    } else if any_equals(hier, expect) {
        let mut msg = "命中 '".to_string();
        msg.append(truncate(expect, 40).as_str());
        msg.append("'");
        (true, msg)
    } else {
        let mut msg = "未找到文本 '".to_string();
        msg.append(truncate(expect, 40).as_str());
        msg.append("'（精确匹配）");
        (false, msg)
    }
}

/// Whether an assertion holds on a page, and what to say about it.
pub fn eval_on_page(a: &Assertion, reg: &Registry, hier: &Hierarchy) -> (r: (bool, String))
    ensures
        r.0 == page_verdict(*a, *reg, hier@).0,
        r.1@ == page_verdict(*a, *reg, hier@).1,
{
    let k = a.kind.as_str();
    let expect = text_or_empty(&a.expect);
    if same(k, "text_visible") || same(k, "text_contains") || same(k, "text_equals") {
        return text_verdict(k, expect.as_str(), hier);
    }
    let want_present = same(k, "element_exists");
    if want_present || same(k, "element_absent") {
        let id = match &a.locator {
            None => {
                return (false, "断言缺少 locator".to_string());
            },
            Some(r) => match &r.id {
                None => {
                    return (false, "断言引用的元素不在注册表".to_string());
                },
                Some(id) => id,
            },
        };
        let e = match reg.get(id.as_str()) {
            None => {
                return (false, "断言引用的元素不在注册表".to_string());
            },
            Some(e) => e,
        };
        let places: Vec<Option<(Single, Single)>> = Vec::new();
        assert(places@ =~= seq![]);
        let found = locate(e, hier, false, false, &places);
        if want_present {
            match found {
                Some((_, l)) => {
                    let mut msg = "找到 ".to_string();
                    msg.append(e.id.as_str());
                    msg.append("（via ");
                    msg.append(l.kind.as_str());
                    msg.append("）");
                    (true, msg)
                },
                None => {
                    let mut msg = "元素 ".to_string();
                    msg.append(e.id.as_str());
                    msg.append(" 未出现在当前页面");
                    (false, msg)
                },
            }
        } else {
            match found {
                None => {
                    let mut msg = "元素 ".to_string();
                    msg.append(e.id.as_str());
                    msg.append(" 确实不存在");
                    (true, msg)
                },
                Some((_, l)) => {
                    let mut msg = "元素 ".to_string();
                    msg.append(e.id.as_str());
                    msg.append(" 仍在，预期应消失（via ");
                    msg.append(l.kind.as_str());
                    msg.append("）");
                    (false, msg)
                },
            }
        }
    } else {
        let mut msg = "执行器不处理该断言类型: ".to_string();
        msg.append(k);
        (false, msg)
    }
}

/// What a try of an assertion on a page gave; the page may be missing, with the reason.
pub open spec fn page_outcome_of(
    a: Assertion,
    reg: Registry,
    page: Result<Hierarchy, String>,
) -> OutcomeView {
    match page {
        Ok(h) => {
            let (ok, msg) = page_verdict(a, reg, h@);
            OutcomeView { pass: ok, msg, skipped: false }
        },
        Err(e) => OutcomeView {
            pass: false,
            msg: "dump 失败（"@ + truncated(e@, 120)
                + "）—— 页面可能有持续动画，等不到 UI 空闲"@,
            skipped: false,
        },
    }
}

/// Tries an assertion on a page.
pub fn page_outcome(a: &Assertion, reg: &Registry, page: &Result<Hierarchy, String>) -> (r:
    AttemptOutcome)
    ensures
        r@ == page_outcome_of(*a, *reg, *page),
{
    match page {
        Ok(h) => {
            let (ok, msg) = eval_on_page(a, reg, h);
            if ok {
                AttemptOutcome::pass(msg)
            } else {
                AttemptOutcome::fail(msg)
            }
        },
        Err(e) => {
            let mut msg = "dump 失败（".to_string();
            msg.append(truncate(e.as_str(), 120).as_str());
            msg.append("）—— 页面可能有持续动画，等不到 UI 空闲");
            AttemptOutcome::fail(msg)
        },
    }
}

/// What a try of an assertion on the activity in the foreground gave.
pub open spec fn activity_outcome_of(expect: Seq<char>, act: Result<String, String>) -> OutcomeView {
    match act {
        Ok(x) => if has(x@, expect) {
            OutcomeView { pass: true, msg: "当前 Activity = "@ + x@, skipped: false }
        } else {
            OutcomeView {
                pass: false,
                msg: "当前 Activity = "@ + (if x@.len() == 0 {
                    "(空)"@
                } else {
                    x@
                }) + "，预期含 '"@ + expect + "'"@,
                skipped: false,
            }
        },
        Err(e) => OutcomeView {
            pass: false,
            msg: "取前台 Activity 失败: "@ + e@,
            skipped: false,
        },
    }
}

/// Tries an assertion on the activity in the foreground.
pub fn activity_outcome(expect: &str, act: &Result<String, String>) -> (r: AttemptOutcome)
    ensures
        r@ == activity_outcome_of(expect@, *act),
{
    match act {
        Ok(x) => {
            let mut msg = "当前 Activity = ".to_string();
            if contains(x.as_str(), expect) {
                msg.append(x.as_str());
                AttemptOutcome::pass(msg)
            } else {
                if is_empty(x) {
                    msg.append("(空)");
                } else {
                    msg.append(x.as_str());
                }
                msg.append("，预期含 '");
                msg.append(expect);
                msg.append("'");
                AttemptOutcome::fail(msg)
            }
        },
        Err(e) => {
            let mut msg = "取前台 Activity 失败: ".to_string();
            msg.append(e.as_str());
            AttemptOutcome::fail(msg)
        },
    }
}

// ---------------------------------------------------------------- trying again

/// How long an assertion is tried, in milliseconds.
pub fn assert_timeout(a: &Assertion) -> (r: u64)
    ensures
        r == match a.timeout_ms {
            Some(ms) => ms,
            None => DEFAULT_ASSERT_TIMEOUT_MS,
        },
        a.timeout_ms is None ==> r == 4000,
{
    match a.timeout_ms {
        Some(ms) => ms,
        None => DEFAULT_ASSERT_TIMEOUT_MS,
    }
}

/// What follows from a try.
pub enum Retry {
    /// The assertion is decided.
    Settled { status: AssertStatus, msg: String },
    /// It is to be tried again after a while.
    Again,
}

/// What follows from the `n`th try: one that does not fail decides; one that fails does so only
/// where the time is up.
pub open spec fn settled_by(n: u32, o: OutcomeView, expired: bool) -> Option<
    (AssertStatus, Seq<char>),
> {
    if status_of(o) != AssertStatus::Fail {
        Some((status_of(o), o.msg))
    } else if expired {
        Some((AssertStatus::Fail, o.msg + "（重试 "@ + dec(n as int) + " 次）"@))
    } else {
        None
    }
}

/// Decides whether an assertion is tried again. Trying again changes how long it is waited for,
/// never what is asked.
pub fn after_attempt(n: u32, out: AttemptOutcome, expired: bool) -> (r: Retry)
    ensures
        match settled_by(n, out@, expired) {
            Some((s, m)) => match r {
                Retry::Settled { status, msg } => status == s && msg@ == m,
                Retry::Again => false,
            },
            None => r is Again,
        },
{
    let status = outcome_status(&out);
    if status != AssertStatus::Fail {
        return Retry::Settled { status, msg: out.msg };
    }
    if expired {
        let mut msg = out.msg;
        msg.append("（重试 ");
        msg.append(dec_text(n as u64).as_str());
        msg.append(" 次）");
        return Retry::Settled { status: AssertStatus::Fail, msg };
    }
    Retry::Again
}

/// Trying again never turns what does not hold into a pass: an assertion passes only by a try
/// that passed, and is skipped only by one that was skipped.
pub proof fn lemma_retry_is_strict(n: u32, o: OutcomeView, expired: bool)
    ensures
        match settled_by(n, o, expired) {
            Some((AssertStatus::Pass, _)) => o.pass && !o.skipped,
            Some((AssertStatus::Skip, _)) => o.skipped,
            Some((AssertStatus::Fail, _)) => !o.pass && !o.skipped && expired,
            None => !o.pass && !o.skipped && !expired,
        },
{
}

/// The result of the assertion at the given place of a case.
pub open spec fn result_of(
    a: Assertion,
    i: int,
    expect: Option<Seq<char>>,
    status: AssertStatus,
    msg: Seq<char>,
    attempts: u32,
) -> AssertResultView {
    AssertResultView {
        n: number_of(a.n, i) as u32,
        kind: a.kind@,
        expect,
        note: option_text(a.desc),
        status,
        msg,
        attempts,
    }
}

/// The result of the assertion at the given place of a case.
pub fn assert_result(
    a: &Assertion,
    i: usize,
    status: AssertStatus,
    msg: String,
    attempts: u32,
) -> (r: AssertResult)
    requires
        i < u32::MAX,
    ensures
        r@ == result_of(*a, i as int, option_text(a.expect), status, msg@, attempts),
{
    AssertResult {
        n: number_or_place(a.n, i),
        kind: a.kind.clone(),
        expect: copy_option(&a.expect),
        note: copy_option(&a.desc),
        status,
        msg,
        attempts,
    }
}

// ---------------------------------------------------------------- crashes

/// One incident in a line of its own kind.
pub open spec fn incident_phrase(i: Incident) -> Seq<char> {
    kind_cn_text(i.kind) + "("@ + truncated(i.summary@, 60) + ")"@
}

pub open spec fn incident_phrases(s: Seq<Incident>) -> Seq<Seq<char>> {
    Seq::new(s.len(), |i: int| incident_phrase(s[i]))
}

/// Whether a case ran without a crash: not known without a monitor, and else if nothing was
/// noticed while it ran.
pub open spec fn no_crash_of(monitored: bool, during: Seq<Incident>) -> OutcomeView {
    if !monitored {
        OutcomeView {
            pass: false,
            msg: "未指定 --package，无法把崩溃日志归因到被测应用（该断言已跳过）"@,
            skipped: true,
        }
    } else if during.len() == 0 {
        OutcomeView { pass: true, msg: "用例执行期间无 crash / ANR"@, skipped: false }
    } else {
        OutcomeView {
            pass: false,
            msg: "用例执行期间出现 "@ + dec(during.len() as int) + " 个异常："@ + joined(
                incident_phrases(during),
                " / "@,
            ),
            skipped: false,
        }
    }
}

/// Whether a case ran without a crash.
pub fn no_crash_outcome(monitored: bool, during: &[Incident]) -> (r: AttemptOutcome)
    ensures
        r@ == no_crash_of(monitored, during@),
{
    if !monitored {
        return AttemptOutcome::skip(
            "未指定 --package，无法把崩溃日志归因到被测应用（该断言已跳过）".to_string(),
        );
    }
    if during.len() == 0 {
        return AttemptOutcome::pass("用例执行期间无 crash / ANR".to_string());
    }
    let mut kinds: Vec<String> = Vec::new();
    let mut i: usize = 0;
    while i < during.len()
        invariant
            i <= during@.len(),
            kinds@.len() == i,
            forall|j: int| 0 <= j < i ==> #[trigger] kinds@[j]@ == incident_phrase(during@[j]),
        decreases during@.len() - i,
    {
        let mut phrase = during[i].kind.cn().to_string();
        phrase.append("(");
        phrase.append(truncate(during[i].summary.as_str(), 60).as_str());
        phrase.append(")");
        kinds.push(phrase);
        i = i + 1;
    }
    assert(texts(kinds@) =~= incident_phrases(during@));
    let mut msg = "用例执行期间出现 ".to_string();
    msg.append(dec_text(during.len() as u64).as_str());
    msg.append(" 个异常：");
    msg.append(join(&kinds, " / ").as_str());
    AttemptOutcome::fail(msg)
}

} // verus!
