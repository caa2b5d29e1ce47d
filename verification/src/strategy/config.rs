//! Settings of an exploration.

use vstd::prelude::*;

use crate::text::basic::chars_of;
use crate::text::basic::same;
use crate::text::basic::slice_text;
use crate::text::basic::texts;
use crate::text::search::trim;
use crate::text::search::trimmed;

verus! {

/// How a state is told.
#[derive(Debug, Clone, Copy, PartialEq, Eq, Structural)]
pub enum StateMode {
    /// By the identities of the interactive widgets; what texts show does not matter.
    Structure,
    /// By all texts as well. Where texts change by themselves each look gives a new state.
    Exact,
}

impl Default for StateMode {
    fn default() -> (r: Self)
        ensures
            r == StateMode::Structure,
    {
        StateMode::Structure
    }
}

pub open spec fn mode_text(m: StateMode) -> Seq<char> {
    match m {
        StateMode::Structure => "structural"@,
        StateMode::Exact => "exact"@,
    }
}

/// An ASCII capital becomes the small letter.
pub open spec fn lower_char(c: char) -> char {
    if 65 <= c as int <= 90 {
        (c as int + 32) as char
    } else {
        c
    }
}

pub open spec fn lowered(s: Seq<char>) -> Seq<char> {
    Seq::new(s.len(), |i: int| lower_char(s[i]))
}

/// The mode that a word names, in whatever case and with white space around it or not.
pub open spec fn mode_of(s: Seq<char>) -> Option<StateMode> {
    let t = lowered(trimmed(s));
    if t == "structural"@ || t == "struct"@ || t == "s"@ {
        Some(StateMode::Structure)
    } else if t == "exact"@ || t == "content"@ || t == "e"@ {
        Some(StateMode::Exact)
    } else {
        None
    }
}

fn lower_of(c: char) -> (r: char)
    ensures
        r == lower_char(c),
{
    let n: u32 = c as u32;
    if 65 <= n && n <= 90 {
        let m: u8 = (n + 32) as u8;
        m as char
    } else {
        c
    }
}

/// `s` with its ASCII capitals in small letters.
pub fn to_lower(s: &str) -> (r: String)
    ensures
        r@ == lowered(s@),
{
    let v = chars_of(s);
    let mut out: Vec<char> = Vec::new();
    let mut i: usize = 0;
    while i < v.len()
        invariant
            i <= v@.len(),
            out@ == lowered(v@).take(i as int),
        decreases v@.len() - i,
    {
        out.push(lower_of(v[i]));
        i = i + 1;
        assert(lowered(v@).take(i as int) =~= lowered(v@).take(i - 1).push(lower_char(v@[i - 1])));
    }
    let r = slice_text(out.as_slice(), 0, out.len());
    assert(r@ =~= lowered(s@));
    r
}

impl StateMode {
    pub fn as_str(self) -> (r: &'static str)
        ensures
            r@ == mode_text(self),
    {
        match self {
            StateMode::Structure => "structural",
            StateMode::Exact => "exact",
        }
    }

    pub fn parse(s: &str) -> (r: Option<Self>)
        ensures
            r == mode_of(s@),
    {
        let low = to_lower(trim(s).as_str());
        let t = low.as_str();
        if same(t, "structural") || same(t, "struct") || same(t, "s") {
            Some(StateMode::Structure)
        } else if same(t, "exact") || same(t, "content") || same(t, "e") {
            Some(StateMode::Exact)
        } else {
            None
        }
    }
}

/// The name of a mode names that mode.
pub proof fn lemma_mode_text_is_read(m: StateMode)
    ensures
        mode_of(mode_text(m)) == Some(m),
{
    reveal_strlit("structural");
    reveal_strlit("exact");
    reveal_strlit("struct");
    reveal_strlit("s");
    let t = mode_text(m);
    assert(crate::text::search::trim_front(t) == t);
    assert(crate::text::search::trim_back(t) == t);
    assert(lowered(t) =~= t);
}

/// The texts to type where no others are given.
pub open spec fn pool_texts() -> Seq<Seq<char>> {
    seq![
        "test"@,
        "123456"@,
        "hello"@,
        "abc123"@,
        "user01"@,
        "2026"@,
        "a"@,
        "android"@,
        "password"@,
        "10086"@,
    ]
}

/// The texts to type where no others are given.
pub fn default_text_pool() -> (r: Vec<String>)
    ensures
        texts(r@) == pool_texts(),
{
    let mut out: Vec<String> = Vec::new();
    out.push("test".to_string());
    out.push("123456".to_string());
    out.push("hello".to_string());
    out.push("abc123".to_string());
    out.push("user01".to_string());
    out.push("2026".to_string());
    out.push("a".to_string());
    out.push("android".to_string());
    out.push("password".to_string());
    out.push("10086".to_string());
    assert(texts(out@) =~= pool_texts());
    out
}

/// Settings of an exploration.
#[derive(Debug)]
pub struct ExplorerConfig {
    /// The app under test; an empty name means any.
    pub package: String,
    /// The texts to type.
    pub text_pool: Vec<String>,
    /// After so many looks at the same state in a row the exploration is stuck.
    pub max_same_state: usize,
    pub enable_long_click: bool,
    pub enable_input: bool,
    pub enable_horizontal_swipe: bool,
    pub state_mode: StateMode,
}

/// Settings as a mathematical value.
pub struct ConfigView {
    pub package: Seq<char>,
    pub pool: Seq<Seq<char>>,
    pub max_same_state: int,
    pub long_click: bool,
    pub input: bool,
    pub horizontal: bool,
    pub mode: StateMode,
}

impl View for ExplorerConfig {
    type V = ConfigView;

    open spec fn view(&self) -> ConfigView {
        ConfigView {
            package: self.package@,
            pool: texts(self.text_pool@),
            max_same_state: self.max_same_state as int,
            long_click: self.enable_long_click,
            input: self.enable_input,
            horizontal: self.enable_horizontal_swipe,
            mode: self.state_mode,
        }
    }
}

impl Default for ExplorerConfig {
    fn default() -> (r: Self)
        ensures
            r@ == (ConfigView {
                package: seq![],
                pool: pool_texts(),
                max_same_state: 8,
                long_click: true,
                input: true,
                horizontal: true,
                mode: StateMode::Structure,
            }),
    {
        let package = String::new();
        assert(package@ =~= seq![]);
        ExplorerConfig {
            package,
            text_pool: default_text_pool(),
            max_same_state: 8,
            enable_long_click: true,
            enable_input: true,
            enable_horizontal_swipe: true,
            state_mode: StateMode::Structure,
        }
    }
}

} // verus!
