//! Test cases, and the registry of the elements that they refer to.

use vstd::prelude::*;

use crate::model::node::is_empty;
use crate::single::Single;
use crate::text::basic::same;

verus! {

/// One way to find an element on a screen.
#[derive(Debug)]
pub struct LocatorDef {
    pub kind: String,
    pub value: String,
    pub confidence: Single,
}

/// The locator can tell whether the element is there. A place or a number cannot: they give a
/// point, not an identity.
pub open spec fn semantic(l: LocatorDef) -> bool {
    l.kind@ != "bounds_center"@ && l.kind@ != "class_index"@
}

impl LocatorDef {
    /// The locator can tell whether the element is there.
    pub fn is_semantic(&self) -> (r: bool)
        ensures
            r == semantic(*self),
    {
        !same(self.kind.as_str(), "bounds_center") && !same(self.kind.as_str(), "class_index")
    }
}

/// An element of the app, with the ways to find it, the most reliable first.
#[derive(Debug)]
pub struct ElementDef {
    pub id: String,
    pub role: String,
    pub semantic: String,
    pub locators: Vec<LocatorDef>,
}

/// What an element is called in reports: what it means, or else its id.
pub open spec fn label_of_element(e: ElementDef) -> Seq<char> {
    if e.semantic@.len() == 0 {
        e.id@
    } else {
        e.semantic@
    }
}

impl ElementDef {
    /// What the element is called in reports.
    pub fn label(&self) -> (r: String)
        ensures
            r@ == label_of_element(*self),
    {
        if is_empty(&self.semantic) {
            self.id.clone()
        } else {
            self.semantic.clone()
        }
    }
}

/// The elements that test cases can refer to.
#[derive(Debug)]
pub struct Registry {
    elements: Vec<ElementDef>,
    files: usize,
}

/// The place of the element with the id; the number of elements where there is none.
pub open spec fn element_at(s: Seq<ElementDef>, id: Seq<char>) -> int
    decreases s.len(),
{
    if s.len() == 0 {
        0
    } else {
        let d = element_at(s.drop_last(), id);
        if d < s.len() - 1 {
            d
        } else if s.last().id@ == id {
            s.len() - 1
        } else {
            s.len() as int
        }
    }
}

/// Elements with those of one more file. One whose id is there already is passed over.
pub open spec fn merged(s: Seq<ElementDef>, more: Seq<ElementDef>) -> Seq<ElementDef>
    decreases more.len(),
{
    if more.len() == 0 {
        s
    } else {
        let m = merged(s, more.drop_last());
        if element_at(m, more.last().id@) < m.len() {
            m
        } else {
            m.push(more.last())
        }
    }
}

pub proof fn lemma_element_at(s: Seq<ElementDef>, id: Seq<char>)
    ensures
        0 <= element_at(s, id) <= s.len(),
        forall|j: int| 0 <= j < element_at(s, id) ==> (#[trigger] s[j]).id@ != id,
        element_at(s, id) < s.len() ==> s[element_at(s, id)].id@ == id,
    decreases s.len(),
{
    if s.len() > 0 {
        let d = s.drop_last();
        lemma_element_at(d, id);
        assert forall|j: int| 0 <= j < element_at(s, id) implies (#[trigger] s[j]).id@ != id by {
            if j < s.len() - 1 {
                assert(d[j] == s[j]);
            }
        }
        if element_at(d, id) < d.len() {
            assert(d[element_at(d, id)] == s[element_at(d, id)]);
        }
    }
}

/// What comes first stays: once an id is known, further files do not change what it stands for.
pub proof fn lemma_first_definition_stays(
    s: Seq<ElementDef>,
    more: Seq<ElementDef>,
    id: Seq<char>,
)
    requires
        element_at(s, id) < s.len(),
    ensures
        element_at(merged(s, more), id) == element_at(s, id),
        s.len() <= merged(s, more).len(),
        merged(s, more)[element_at(s, id)] == s[element_at(s, id)],
    decreases more.len(),
{
    lemma_element_at(s, id);
    if more.len() > 0 {
        lemma_first_definition_stays(s, more.drop_last(), id);
        let m = merged(s, more.drop_last());
        let x = more.last();
        if element_at(m, x.id@) >= m.len() {
            assert(m.push(x).drop_last() =~= m);
        }
    }
}

impl Registry {
    /// The elements.
    pub closed spec fn elements(&self) -> Seq<ElementDef> {
        self.elements@
    }

    /// The number of files that were read.
    pub closed spec fn file_count(&self) -> int {
        self.files as int
    }

    /// The element with the id.
    pub open spec fn lookup(&self, id: Seq<char>) -> Option<ElementDef> {
        let i = element_at(self.elements(), id);
        if i < self.elements().len() {
            Some(self.elements()[i])
        } else {
            None
        }
    }

    /// A registry without elements.
    pub fn new() -> (r: Self)
        ensures
            r.elements() == Seq::<ElementDef>::empty(),
            r.file_count() == 0,
    {
        Registry { elements: Vec::new(), files: 0 }
    }

    fn find(&self, id: &str) -> (r: usize)
        ensures
            r == element_at(self.elements(), id@),
            r <= self.elements@.len(),
    {
        let mut i: usize = 0;
        proof {
            lemma_element_at(self.elements@, id@);
        }
        while i < self.elements.len() && !same(self.elements[i].id.as_str(), id)
            invariant
                i <= self.elements@.len(),
                forall|j: int| 0 <= j < i ==> (#[trigger] self.elements@[j]).id@ != id@,
            decreases self.elements@.len() - i,
        {
            i = i + 1;
        }
        proof {
            let s = element_at(self.elements@, id@);
            if s < i {
                assert(self.elements@[s].id@ == id@);
            } else if s > i {
                assert(self.elements@[i as int].id@ == id@);
            }
        }
        i
    }

    /// Adds the elements of one file. One whose id is there already is passed over.
    pub fn add_file(&mut self, more: Vec<ElementDef>)
        requires
            old(self).file_count() < usize::MAX,
        ensures
            final(self).elements() == merged(old(self).elements(), more@),
            final(self).file_count() == old(self).file_count() + 1,
    {
        self.files = self.files + 1;
        let ghost all = more@;
        let mut rest = more;
        let mut queue: Vec<ElementDef> = Vec::new();
        while rest.len() > 0
            invariant
                rest@ + queue@.reverse() =~= all,
                self.elements@ == old(self).elements@,
                self.files == old(self).files + 1,
            decreases rest@.len(),
        {
            let ghost r = rest@;
            let ghost q = queue@;
            if let Some(e) = rest.pop() {
                queue.push(e);
                assert(r =~= rest@.push(e));
                assert(queue@.reverse() =~= seq![e] + q.reverse());
            }
        }
        assert(queue@.reverse() =~= all);
        assert(all.take(0) =~= seq![]);
        let ghost total = queue@.len();
        let ghost mut done: int = 0;
        while queue.len() > 0
            invariant
                0 <= done <= all.len(),
                queue@.len() == all.len() - done,
                queue@.reverse() =~= all.skip(done),
                self.elements@ == merged(old(self).elements@, all.take(done)),
                self.files == old(self).files + 1,
            decreases queue@.len(),
        {
            let ghost q = queue@;
            if let Some(e) = queue.pop() {
                proof {
                    assert(q.reverse()[0] == q.last());
                    assert(all.skip(done)[0] == all[done]);
                    assert(e == all[done]);
                    assert(all.take(done + 1).drop_last() =~= all.take(done));
                    assert(all.take(done + 1).last() == e);
                    assert(queue@.reverse() =~= all.skip(done + 1)) by {
                        assert(q =~= queue@.push(e));
                        assert(q.reverse() =~= seq![e] + queue@.reverse());
                        assert(all.skip(done) =~= seq![e] + all.skip(done + 1));
                        assert(q.reverse().skip(1) =~= queue@.reverse());
                        assert(all.skip(done).skip(1) =~= all.skip(done + 1));
                    }
                    done = done + 1;
                }
                let i = self.find(e.id.as_str());
                if i >= self.elements.len() {
                    self.elements.push(e);
                }
            }
        }
        assert(all.take(done) =~= all);
    }

    /// The element with the id.
    pub fn get(&self, id: &str) -> (r: Option<&ElementDef>)
        ensures
            match self.lookup(id@) {
                Some(e) => r == Some(&e),
                None => r is None,
            },
    {
        let i = self.find(id);
        if i < self.elements.len() {
            Some(&self.elements[i])
        } else {
            None
        }
    }

    pub fn len(&self) -> (r: usize)
        ensures
            r == self.elements().len(),
    {
        self.elements.len()
    }

    pub fn is_empty(&self) -> (r: bool)
        ensures
            r == (self.elements().len() == 0),
    {
        self.elements.len() == 0
    }

    /// The number of files that were read.
    pub fn files(&self) -> (r: usize)
        ensures
            r == self.file_count(),
    {
        self.files
    }
}

/// How a case refers to an element: by its id in the registry, or by a locator of its own.
#[derive(Debug)]
pub struct ElemRef {
    pub id: Option<String>,
    pub kind: Option<String>,
    pub value: Option<String>,
}

/// One step of a case.
#[derive(Debug)]
pub struct Step {
    pub n: Option<u32>,
    pub action: String,
    pub locator: Option<ElemRef>,
    pub value: Option<String>,
    pub component: Option<String>,
    pub code: Option<i32>,
    pub direction: Option<String>,
    pub desc: Option<String>,
}

/// One thing that a case expects.
#[derive(Debug)]
pub struct Assertion {
    pub n: Option<u32>,
    pub kind: String,
    pub expect: Option<String>,
    pub locator: Option<ElemRef>,
    pub timeout_ms: Option<u64>,
    pub desc: Option<String>,
}

/// Where a case comes from.
#[derive(Debug)]
pub struct Trace {
    pub requirement: String,
    pub pattern: String,
    pub dimension: String,
}

/// Where a case comes from, as a mathematical value.
pub struct TraceView {
    pub requirement: Seq<char>,
    pub pattern: Seq<char>,
    pub dimension: Seq<char>,
}

impl View for Trace {
    type V = TraceView;

    open spec fn view(&self) -> TraceView {
        TraceView {
            requirement: self.requirement@,
            pattern: self.pattern@,
            dimension: self.dimension@,
        }
    }
}

impl Clone for Trace {
    fn clone(&self) -> (r: Self)
        ensures
            r@ == self@,
    {
        Trace {
            requirement: self.requirement.clone(),
            pattern: self.pattern.clone(),
            dimension: self.dimension.clone(),
        }
    }
}

/// A test case.
#[derive(Debug)]
pub struct Case {
    pub id: String,
    pub title: String,
    pub priority: String,
    pub tags: Vec<String>,
    pub trace: Trace,
    /// Steps to warm up with, before the others.
    pub setup: Vec<Step>,
    pub steps: Vec<Step>,
    pub assertions: Vec<Assertion>,
    /// Steps to clean up with, whatever came before.
    pub teardown: Vec<Step>,
}

/// The text that there may be; an empty one where there is none.
pub open spec fn or_empty(o: Option<String>) -> Seq<char> {
    match o {
        Some(s) => s@,
        None => seq![],
    }
}

/// The text that there may be; an empty one where there is none.
pub fn text_or_empty(o: &Option<String>) -> (r: String)
    ensures
        r@ == or_empty(*o),
{
    match o {
        Some(s) => s.clone(),
        None => {
            let e = String::new();
            assert(e@ =~= seq![]);
            e
        },
    }
}

/// A copy of a text that there may be.
pub fn copy_option(o: &Option<String>) -> (r: Option<String>)
    ensures
        crate::monitor::line::option_text(r) == crate::monitor::line::option_text(*o),
{
    match o {
        Some(s) => Some(s.clone()),
        None => None,
    }
}

/// The number of a step or of an assertion: the one it has, or else its place.
pub open spec fn number_of(n: Option<u32>, i: int) -> int {
    match n {
        Some(k) => k as int,
        None => i + 1,
    }
}

/// The number of a step or of an assertion.
pub fn number_or_place(n: Option<u32>, i: usize) -> (r: u32)
    requires
        i < u32::MAX,
    ensures
        r == number_of(n, i as int),
{
    match n {
        Some(k) => k,
        None => i as u32 + 1,
    }
}

} // verus!
