//! What is checked of every case before it may run.

use vstd::prelude::*;

use crate::model::node::is_empty;
use crate::outside::debug_of;
use crate::outside::debug_text;
use crate::script::ir::number_of;
use crate::script::ir::number_or_place;
use crate::script::ir::or_empty;
use crate::script::ir::semantic;
use crate::script::ir::text_or_empty;
use crate::script::ir::Assertion;
use crate::script::ir::Case;
use crate::script::ir::ElementDef;
use crate::script::ir::Registry;
use crate::script::ir::Step;
use crate::text::basic::same;
use crate::text::number::dec;
use crate::text::number::dec_text;

verus! {

/// Why a case is blocked.
#[derive(Debug)]
pub struct GateIssue {
    /// Where in the case, such as `step 1` or `assert 2`.
    pub location: String,
    pub element: String,
    pub reason: String,
}

/// Why a case is blocked, as a mathematical value.
pub struct IssueView {
    pub location: Seq<char>,
    pub element: Seq<char>,
    pub reason: Seq<char>,
}

impl View for GateIssue {
    type V = IssueView;

    open spec fn view(&self) -> IssueView {
        IssueView { location: self.location@, element: self.element@, reason: self.reason@ }
    }
}

pub open spec fn issue_views(s: Seq<GateIssue>) -> Seq<IssueView> {
    Seq::new(s.len(), |i: int| s[i]@)
}

/// An action that a step can name.
pub open spec fn known_action(a: Seq<char>) -> bool {
    a == "click"@ || a == "long_click"@ || a == "input"@ || a == "swipe"@ || a == "back"@ || a
        == "key"@ || a == "launch"@ || a == "wait"@
}

/// An action that needs an element.
pub open spec fn located_action(a: Seq<char>) -> bool {
    a == "click"@ || a == "long_click"@ || a == "input"@ || a == "swipe"@
}

/// A kind of assertion.
pub open spec fn known_assertion(a: Seq<char>) -> bool {
    a == "text_visible"@ || a == "text_contains"@ || a == "text_equals"@ || a == "element_exists"@
        || a == "element_absent"@ || a == "activity_is"@ || a == "no_crash"@
}

/// A kind of assertion that needs an element.
pub open spec fn located_assertion(a: Seq<char>) -> bool {
    a == "element_exists"@ || a == "element_absent"@
}

/// A kind of assertion that needs a text.
pub open spec fn text_assertion(a: Seq<char>) -> bool {
    a == "text_visible"@ || a == "text_contains"@ || a == "text_equals"@ || a == "activity_is"@
}

pub open spec fn unknown_element() -> Seq<char> {
    "不在 L2 元素注册表中（定位器幻觉）"@
}

pub open spec fn no_locators() -> Seq<char> {
    "该元素没有任何定位器"@
}

pub open spec fn issue(at: Seq<char>, element: Seq<char>, reason: Seq<char>) -> Seq<IssueView> {
    seq![IssueView { location: at, element, reason }]
}

/// What is wrong with one step.
pub open spec fn step_issues(at: Seq<char>, s: Step, reg: Registry) -> Seq<IssueView> {
    let a = s.action@;
    if !known_action(a) {
        issue(at, seq![], "未知动作 "@ + debug_of(a))
    } else if a == "launch"@ {
        if or_empty(s.component).len() == 0 {
            issue(at, seq![], "launch 缺少 component"@)
        } else {
            seq![]
        }
    } else if a == "key"@ {
        if s.code is None && s.value is None {
            issue(at, seq![], "key 缺少 code / value"@)
        } else {
            seq![]
        }
    } else if !located_action(a) {
        seq![]
    } else {
        match s.locator {
            None => issue(at, seq![], a + " 缺少 locator"@),
            Some(r) => match r.id {
                Some(id) => match reg.lookup(id@) {
                    None => issue(at, id@, unknown_element()),
                    Some(e) => if e.locators@.len() == 0 {
                        issue(at, id@, no_locators())
                    } else {
                        seq![]
                    },
                },
                None => if r.kind is None || r.value is None {
                    issue(at, seq![], "内联定位器缺少 type / value"@)
                } else {
                    seq![]
                },
            },
        }
    }
}

/// The element has a locator that can tell whether it is there.
pub open spec fn tellable(e: ElementDef) -> bool {
    exists|i: int| 0 <= i < e.locators@.len() && semantic(#[trigger] e.locators@[i])
}

/// What is wrong with one assertion. Whether an element is there can only be asked of one that
/// the registry has, with a locator that can tell.
pub open spec fn assertion_issues(at: Seq<char>, a: Assertion, reg: Registry) -> Seq<IssueView> {
    let k = a.kind@;
    if !known_assertion(k) {
        issue(at, seq![], "未知断言类型 "@ + debug_of(k))
    } else if text_assertion(k) {
        if or_empty(a.expect).len() == 0 {
            issue(at, seq![], k + " 缺少 expect"@)
        } else {
            seq![]
        }
    } else if !located_assertion(k) {
        seq![]
    } else {
        match a.locator {
            None => issue(at, seq![], k + " 缺少 locator"@),
            Some(r) => match r.id {
                None => issue(
                    at,
                    seq![],
                    "存在性断言只接受注册表元素引用（不接受内联定位器）"@,
                ),
                Some(id) => match reg.lookup(id@) {
                    None => issue(at, id@, unknown_element()),
                    Some(e) => if e.locators@.len() == 0 {
                        issue(at, id@, no_locators())
                    } else if !tellable(e) {
                        issue(
                            at,
                            id@,
                            "该元素只有位置 / 序号定位器，存在性断言会假阳性（需先补 resource_id 或 content-desc）"@,
                        )
                    } else {
                        seq![]
                    },
                },
            },
        }
    }
}

/// What is wrong with some steps.
pub open spec fn steps_issues(steps: Seq<Step>, prefix: Seq<char>, reg: Registry) -> Seq<IssueView>
    decreases steps.len(),
{
    if steps.len() == 0 {
        seq![]
    } else {
        let s = steps.last();
        steps_issues(steps.drop_last(), prefix, reg) + step_issues(
            prefix + dec(number_of(s.n, steps.len() - 1)),
            s,
            reg,
        )
    }
}

/// What is wrong with some assertions.
pub open spec fn assertions_issues(asserts: Seq<Assertion>, reg: Registry) -> Seq<IssueView>
    decreases asserts.len(),
{
    if asserts.len() == 0 {
        seq![]
    } else {
        let a = asserts.last();
        assertions_issues(asserts.drop_last(), reg) + assertion_issues(
            "assert "@ + dec(number_of(a.n, asserts.len() - 1)),
            a,
            reg,
        )
    }
}

/// A case without assertions proves nothing.
pub open spec fn emptiness_issues(case: Case) -> Seq<IssueView> {
    if case.assertions@.len() == 0 {
        issue(
            "用例"@,
            seq![],
            "没有任何断言：没有判据的用例不能算测试（断言应来自 L3 规则层）"@,
        )
    } else {
        seq![]
    }
}

/// All that is wrong with a case; one that nothing is wrong with may run.
pub open spec fn case_issues(case: Case, reg: Registry) -> Seq<IssueView> {
    emptiness_issues(case) + steps_issues(case.setup@, "setup "@, reg) + steps_issues(
        case.steps@,
        "step "@,
        reg,
    ) + assertions_issues(case.assertions@, reg) + steps_issues(
        case.teardown@,
        "teardown "@,
        reg,
    )
}

/// No list of a case is too long for its items to be numbered.
pub open spec fn countable(case: Case) -> bool {
    &&& case.setup@.len() < u32::MAX
    &&& case.steps@.len() < u32::MAX
    &&& case.assertions@.len() < u32::MAX
    &&& case.teardown@.len() < u32::MAX
}

fn push_issue(out: &mut Vec<GateIssue>, at: &str, element: &str, reason: &str)
    ensures
        issue_views(final(out)@) == issue_views(old(out)@) + issue(at@, element@, reason@),
{
    out.push(
        GateIssue {
            location: at.to_string(),
            element: element.to_string(),
            reason: reason.to_string(),
        },
    );
    assert(issue_views(out@) =~= issue_views(old(out)@) + issue(at@, element@, reason@));
}

fn is_known_action(a: &str) -> (r: bool)
    ensures
        r == known_action(a@),
{
    same(a, "click") || same(a, "long_click") || same(a, "input") || same(a, "swipe") || same(
        a,
        "back",
    ) || same(a, "key") || same(a, "launch") || same(a, "wait")
}

fn is_located_action(a: &str) -> (r: bool)
    ensures
        r == located_action(a@),
{
    same(a, "click") || same(a, "long_click") || same(a, "input") || same(a, "swipe")
}

fn is_known_assertion(a: &str) -> (r: bool)
    ensures
        r == known_assertion(a@),
{
    same(a, "text_visible") || same(a, "text_contains") || same(a, "text_equals") || same(
        a,
        "element_exists",
    ) || same(a, "element_absent") || same(a, "activity_is") || same(a, "no_crash")
}

/// What two texts make together.
pub fn glue(a: &str, b: &str) -> (r: String)
    ensures
        r@ == a@ + b@,
{
    let mut out = a.to_string();
    out.append(b);
    out
}

fn check_step(at: &str, s: &Step, reg: &Registry, out: &mut Vec<GateIssue>)
    ensures
        issue_views(final(out)@) == issue_views(old(out)@) + step_issues(at@, *s, *reg),
{
    let ghost before = issue_views(out@);
    proof {
        reveal_strlit("");
        assert(""@ =~= seq![]);
        assert(before + Seq::<IssueView>::empty() =~= before);
        reveal_strlit("launch");
        reveal_strlit("key");
        reveal_strlit("click");
        reveal_strlit("long_click");
        reveal_strlit("input");
        reveal_strlit("swipe");
    }
    let a = s.action.as_str();
    if !is_known_action(a) {
        let reason = glue("未知动作 ", debug_text(a).as_str());
        push_issue(out, at, "", reason.as_str());
        return ;
    }
    if same(a, "launch") {
        let component = text_or_empty(&s.component);
        if is_empty(&component) {
            push_issue(out, at, "", "launch 缺少 component");
        }
        return ;
    }
    if same(a, "key") {
        if s.code.is_none() && s.value.is_none() {
            push_issue(out, at, "", "key 缺少 code / value");
        }
        return ;
    }
    if !is_located_action(a) {
        return ;
    }
    match &s.locator {
        None => {
            let reason = glue(a, " 缺少 locator");
            push_issue(out, at, "", reason.as_str());
        },
        Some(r) => match &r.id {
            Some(id) => match reg.get(id.as_str()) {
                None => {
                    push_issue(out, at, id.as_str(), "不在 L2 元素注册表中（定位器幻觉）");
                },
                Some(e) => {
                    if e.locators.len() == 0 {
                        push_issue(out, at, id.as_str(), "该元素没有任何定位器");
                    }
                },
            },
            None => {
                if r.kind.is_none() || r.value.is_none() {
                    push_issue(out, at, "", "内联定位器缺少 type / value");
                }
            },
        },
    }
}

fn is_tellable(e: &ElementDef) -> (r: bool)
    ensures
        r == tellable(*e),
{
    let mut i: usize = 0;
    while i < e.locators.len()
        invariant
            i <= e.locators@.len(),
            forall|j: int| 0 <= j < i ==> !semantic(#[trigger] e.locators@[j]),
        decreases e.locators@.len() - i,
    {
        if e.locators[i].is_semantic() {
            assert(semantic(e.locators@[i as int]));
            return true;
        }
        i = i + 1;
    }
    false
}

fn check_assertion(at: &str, a: &Assertion, reg: &Registry, out: &mut Vec<GateIssue>)
    ensures
        issue_views(final(out)@) == issue_views(old(out)@) + assertion_issues(at@, *a, *reg),
{
    let ghost before = issue_views(out@);
    proof {
        reveal_strlit("");
        assert(""@ =~= seq![]);
        assert(before + Seq::<IssueView>::empty() =~= before);
    }
    let k = a.kind.as_str();
    if !is_known_assertion(k) {
        let reason = glue("未知断言类型 ", debug_text(k).as_str());
        push_issue(out, at, "", reason.as_str());
        return ;
    }
    if same(k, "text_visible") || same(k, "text_contains") || same(k, "text_equals") || same(
        k,
        "activity_is",
    ) {
        let expect = text_or_empty(&a.expect);
        if is_empty(&expect) {
            let reason = glue(k, " 缺少 expect");
            push_issue(out, at, "", reason.as_str());
        }
        return ;
    }
    if !(same(k, "element_exists") || same(k, "element_absent")) {
        return ;
    }
    match &a.locator {
        None => {
            let reason = glue(k, " 缺少 locator");
            push_issue(out, at, "", reason.as_str());
        },
        Some(r) => match &r.id {
            None => {
                push_issue(
                    out,
                    at,
                    "",
                    "存在性断言只接受注册表元素引用（不接受内联定位器）",
                );
            },
            Some(id) => match reg.get(id.as_str()) {
                None => {
                    push_issue(out, at, id.as_str(), "不在 L2 元素注册表中（定位器幻觉）");
                },
                Some(e) => {
                    if e.locators.len() == 0 {
                        push_issue(out, at, id.as_str(), "该元素没有任何定位器");
                    } else if !is_tellable(e) {
                        push_issue(
                            out,
                            at,
                            id.as_str(),
                            "该元素只有位置 / 序号定位器，存在性断言会假阳性（需先补 resource_id 或 content-desc）",
                        );
                    }
                },
            },
        },
    }
}

/// Adds what is wrong with some steps.
pub fn check_gate_steps(
    steps: &Vec<Step>,
    prefix: &str,
    reg: &Registry,
    issues: &mut Vec<GateIssue>,
)
    requires
        steps@.len() < u32::MAX,
    ensures
        issue_views(final(issues)@) == issue_views(old(issues)@) + steps_issues(
            steps@,
            prefix@,
            *reg,
        ),
{
    let ghost before = issue_views(issues@);
    let mut i: usize = 0;
    assert(steps@.take(0) =~= seq![]);
    assert(before + steps_issues(steps@.take(0), prefix@, *reg) =~= before);
    while i < steps.len()
        invariant
            i <= steps@.len(),
            steps@.len() < u32::MAX,
            issue_views(issues@) == before + steps_issues(steps@.take(i as int), prefix@, *reg),
        decreases steps@.len() - i,
    {
        let s = &steps[i];
        proof {
            assert(steps@.take(i + 1).drop_last() =~= steps@.take(i as int));
            assert(steps@.take(i + 1).last() == *s);
        }
        let n = number_or_place(s.n, i);
        let at = glue(prefix, dec_text(n as u64).as_str());
        check_step(at.as_str(), s, reg, issues);
        assert(issue_views(issues@) =~= before + steps_issues(steps@.take(i + 1), prefix@, *reg));
        i = i + 1;
    }
    assert(steps@.take(i as int) =~= steps@);
}

fn check_assertions(asserts: &Vec<Assertion>, reg: &Registry, issues: &mut Vec<GateIssue>)
    requires
        asserts@.len() < u32::MAX,
    ensures
        issue_views(final(issues)@) == issue_views(old(issues)@) + assertions_issues(
            asserts@,
            *reg,
        ),
{
    let ghost before = issue_views(issues@);
    let mut i: usize = 0;
    assert(asserts@.take(0) =~= seq![]);
    assert(before + assertions_issues(asserts@.take(0), *reg) =~= before);
    while i < asserts.len()
        invariant
            i <= asserts@.len(),
            asserts@.len() < u32::MAX,
            issue_views(issues@) == before + assertions_issues(asserts@.take(i as int), *reg),
        decreases asserts@.len() - i,
    {
        let a = &asserts[i];
        proof {
            assert(asserts@.take(i + 1).drop_last() =~= asserts@.take(i as int));
            assert(asserts@.take(i + 1).last() == *a);
        }
        let n = number_or_place(a.n, i);
        let at = glue("assert ", dec_text(n as u64).as_str());
        check_assertion(at.as_str(), a, reg, issues);
        assert(issue_views(issues@) =~= before + assertions_issues(asserts@.take(i + 1), *reg));
        i = i + 1;
    }
    assert(asserts@.take(i as int) =~= asserts@);
}

/// All that is wrong with a case. It may run only where that is nothing.
pub fn gate_case(case: &Case, reg: &Registry) -> (r: Vec<GateIssue>)
    requires
        countable(*case),
    ensures
        issue_views(r@) == case_issues(*case, *reg),
{
    let mut issues: Vec<GateIssue> = Vec::new();
    proof {
        reveal_strlit("");
        assert(""@ =~= seq![]);
    }
    assert(issue_views(issues@) =~= seq![]);
    if case.assertions.len() == 0 {
        push_issue(
            &mut issues,
            "用例",
            "",
            "没有任何断言：没有判据的用例不能算测试（断言应来自 L3 规则层）",
        );
    }
    assert(issue_views(issues@) =~= emptiness_issues(*case));
    check_gate_steps(&case.setup, "setup ", reg, &mut issues);
    check_gate_steps(&case.steps, "step ", reg, &mut issues);
    check_assertions(&case.assertions, reg, &mut issues);
    check_gate_steps(&case.teardown, "teardown ", reg, &mut issues);
    issues
}

// ---------------------------------------------------------------- laws

/// A case without assertions is never admitted.
pub proof fn lemma_no_assertions_blocked(case: Case, reg: Registry)
    requires
        case.assertions@.len() == 0,
    ensures
        case_issues(case, reg).len() > 0,
{
}

proof fn lemma_steps_clean(steps: Seq<Step>, prefix: Seq<char>, reg: Registry, i: int)
    requires
        steps_issues(steps, prefix, reg).len() == 0,
        0 <= i < steps.len(),
    ensures
        step_issues(prefix + dec(number_of(steps[i].n, i)), steps[i], reg).len() == 0,
    decreases steps.len(),
{
    let d = steps.drop_last();
    if i < steps.len() - 1 {
        lemma_steps_clean(d, prefix, reg, i);
        assert(d[i] == steps[i]);
    }
}

proof fn lemma_assertions_clean(asserts: Seq<Assertion>, reg: Registry, i: int)
    requires
        assertions_issues(asserts, reg).len() == 0,
        0 <= i < asserts.len(),
    ensures
        assertion_issues("assert "@ + dec(number_of(asserts[i].n, i)), asserts[i], reg).len() == 0,
    decreases asserts.len(),
{
    let d = asserts.drop_last();
    if i < asserts.len() - 1 {
        lemma_assertions_clean(d, reg, i);
        assert(d[i] == asserts[i]);
    }
}

/// A step that may run: its action is known, and the element that it names is in the registry,
/// with some way to find it.
pub open spec fn step_admitted(s: Step, reg: Registry) -> bool {
    &&& known_action(s.action@)
    &&& located_action(s.action@) ==> s.locator is Some
    &&& located_action(s.action@) && s.locator->0.id is Some ==> {
        let e = reg.lookup(s.locator->0.id->0@);
        e is Some && e->0.locators@.len() > 0
    }
}

proof fn lemma_step_admitted(at: Seq<char>, s: Step, reg: Registry)
    requires
        step_issues(at, s, reg).len() == 0,
    ensures
        step_admitted(s, reg),
{
    reveal_strlit("launch");
    reveal_strlit("key");
    reveal_strlit("click");
    reveal_strlit("long_click");
    reveal_strlit("input");
    reveal_strlit("swipe");
}

/// In a case that is admitted every step names an action that there is, and every element
/// that a step names by its id is in the registry.
pub proof fn lemma_gate_admits_known_elements(case: Case, reg: Registry, i: int)
    requires
        case_issues(case, reg).len() == 0,
    ensures
        0 <= i < case.setup@.len() ==> step_admitted(case.setup@[i], reg),
        0 <= i < case.steps@.len() ==> step_admitted(case.steps@[i], reg),
        0 <= i < case.teardown@.len() ==> step_admitted(case.teardown@[i], reg),
{
    if 0 <= i < case.setup@.len() {
        let s = case.setup@[i];
        lemma_steps_clean(case.setup@, "setup "@, reg, i);
        lemma_step_admitted("setup "@ + dec(number_of(s.n, i)), s, reg);
    }
    if 0 <= i < case.steps@.len() {
        let s = case.steps@[i];
        lemma_steps_clean(case.steps@, "step "@, reg, i);
        lemma_step_admitted("step "@ + dec(number_of(s.n, i)), s, reg);
    }
    if 0 <= i < case.teardown@.len() {
        let s = case.teardown@[i];
        lemma_steps_clean(case.teardown@, "teardown "@, reg, i);
        lemma_step_admitted("teardown "@ + dec(number_of(s.n, i)), s, reg);
    }
}

/// In a case that is admitted, whether an element is there is only asked of an element of
/// the registry that has a locator which can tell.
pub proof fn lemma_gate_admits_tellable_elements(case: Case, reg: Registry, i: int)
    requires
        case_issues(case, reg).len() == 0,
        0 <= i < case.assertions@.len(),
        located_assertion(case.assertions@[i].kind@),
    ensures
        ({
            let a = case.assertions@[i];
            &&& a.locator is Some
            &&& a.locator->0.id is Some
            &&& reg.lookup(a.locator->0.id->0@) is Some
            &&& tellable(reg.lookup(a.locator->0.id->0@)->0)
        }),
{
    reveal_strlit("element_exists");
    reveal_strlit("element_absent");
    reveal_strlit("text_visible");
    reveal_strlit("text_contains");
    reveal_strlit("text_equals");
    reveal_strlit("activity_is");
    lemma_assertions_clean(case.assertions@, reg, i);
    let k = case.assertions@[i].kind@;
    if text_assertion(k) {
        assert(k.len() == 14 && k[0] == 'e');
    }
}

/// A case in which some step names an element that the registry does not have never passes the
/// gate.
pub proof fn lemma_unknown_element_blocked(case: Case, reg: Registry, i: int)
    requires
        0 <= i < case.steps@.len(),
        located_action(case.steps@[i].action@),
        case.steps@[i].locator is Some,
        case.steps@[i].locator->0.id is Some,
        reg.lookup(case.steps@[i].locator->0.id->0@) is None,
    ensures
        case_issues(case, reg).len() > 0,
{
    if case_issues(case, reg).len() == 0 {
        lemma_gate_admits_known_elements(case, reg, i);
    }
}

} // verus!
