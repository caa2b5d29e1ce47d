//! A made-up device with a made-up app, to try things out without a phone.
//!
//! The app has a list and a page of details. Tapping an item of the list opens the details,
//! tapping the button there or going back leads to the list, and each swipe changes the items.

use vstd::prelude::*;

use crate::text::basic::chars_of;
use crate::text::basic::same;
use crate::text::basic::texts;
use crate::text::number::dec;
use crate::text::number::dec_text;
use crate::text::number::i32_of;
use crate::text::number::parse_i32;
use crate::text::split::split_words;
use crate::text::split::words_of;

verus! {

/// A made-up device.
#[derive(Debug)]
pub struct MockDevice {
    /// Zero for the list, one for the details.
    pub screen: u32,
    /// How often was swiped.
    pub scroll: u32,
    /// The commands that were given.
    pub cmds: Vec<String>,
    /// What its log holds.
    pub log_lines: Vec<String>,
}

/// A made-up device as a mathematical value.
pub struct MockView {
    pub screen: u32,
    pub scroll: u32,
    pub cmds: Seq<Seq<char>>,
    pub log_lines: Seq<Seq<char>>,
}

impl View for MockDevice {
    type V = MockView;

    open spec fn view(&self) -> MockView {
        MockView {
            screen: self.screen,
            scroll: self.scroll,
            cmds: texts(self.cmds@),
            log_lines: texts(self.log_lines@),
        }
    }
}

/// The words are the given ones, and maybe more.
pub open spec fn leads(words: Seq<Seq<char>>, first: Seq<char>) -> bool {
    words.len() >= 1 && words[0] == first
}

/// The words start with the given two.
pub open spec fn leads_two(words: Seq<Seq<char>>, first: Seq<char>, second: Seq<char>) -> bool {
    words.len() >= 2 && words[0] == first && words[1] == second
}

/// The activity in front.
pub open spec fn mock_activity(screen: u32) -> Seq<char> {
    if screen == 0 {
        "com.demo/.Main"@
    } else {
        "com.demo/.Detail"@
    }
}

/// What the screen shows.
pub open spec fn mock_xml(screen: u32, scroll: u32) -> Seq<char> {
    if screen == 0 {
        "<hierarchy rotation=\"0\" width=\"540\" height=\"1200\">\n\
<node index=\"0\" text=\"\" resource-id=\"\" class=\"android.widget.FrameLayout\" package=\"com.demo\" bounds=\"[0,0][540,1200]\">\n\
<node index=\"0\" text=\"\" resource-id=\"com.demo:id/list\" class=\"android.widget.ListView\" package=\"com.demo\" scrollable=\"true\" bounds=\"[0,100][540,1100]\">\n\
<node index=\"0\" text=\"条目A"@
            + dec(scroll as int)
            + "\" resource-id=\"com.demo:id/item_title\" class=\"android.widget.TextView\" package=\"com.demo\" clickable=\"true\" long-clickable=\"true\" bounds=\"[0,100][540,200]\"/>\n\
<node index=\"1\" text=\"条目B"@
            + dec(scroll as int)
            + "\" resource-id=\"com.demo:id/item_title\" class=\"android.widget.TextView\" package=\"com.demo\" clickable=\"true\" bounds=\"[0,210][540,310]\"/>\n\
</node>\n\
<node index=\"1\" text=\"\" resource-id=\"com.demo:id/et\" class=\"android.widget.EditText\" package=\"com.demo\" content-desc=\"搜索框\" clickable=\"true\" long-clickable=\"true\" bounds=\"[20,1120][520,1180]\"/>\n\
</node>\n\
</hierarchy>"@
    } else {
        "<hierarchy rotation=\"0\" width=\"540\" height=\"1200\">\n\
<node index=\"0\" text=\"\" resource-id=\"\" class=\"android.widget.FrameLayout\" package=\"com.demo\" bounds=\"[0,0][540,1200]\">\n\
<node index=\"0\" text=\"详情标题\" resource-id=\"com.demo:id/detail_title\" class=\"android.widget.TextView\" package=\"com.demo\" clickable=\"true\" bounds=\"[0,100][540,200]\"/>\n\
<node index=\"1\" text=\"返回\" resource-id=\"com.demo:id/back\" class=\"android.widget.Button\" package=\"com.demo\" clickable=\"true\" bounds=\"[0,1000][540,1100]\"/>\n\
</node>\n\
</hierarchy>"@
    }
}

/// The properties of the device.
pub open spec fn mock_property(key: Seq<char>) -> Seq<char> {
    if key == "ro.product.model"@ {
        "MockPhone"@
    } else if key == "ro.product.manufacturer"@ {
        "Mock"@
    } else if key == "ro.build.version.release"@ {
        "13"@
    } else if key == "ro.build.version.sdk"@ {
        "33"@
    } else if key == "ro.product.cpu.abi"@ {
        "arm64-v8a"@
    } else {
        seq![]
    }
}

/// What the device replies to a command.
pub open spec fn mock_reply(m: MockView, words: Seq<Seq<char>>) -> Seq<char> {
    if words.len() == 2 && words[0] == "getprop"@ {
        mock_property(words[1])
    } else if words.len() == 2 && leads_two(words, "wm"@, "size"@) {
        "Physical size: 540x1200"@
    } else if leads_two(words, "dumpsys"@, "activity"@) {
        "topResumedActivity=ActivityRecord{1 u0 "@ + mock_activity(m.screen) + " t1}"@
    } else if leads_two(words, "am"@, "start"@) {
        "Status: ok"@
    } else if leads(words, "pidof"@) {
        "1234"@
    } else if leads(words, "ps"@) {
        "com.demo"@
    } else if leads_two(words, "dumpsys"@, "dropbox"@) {
        "dropbox: mock entry"@
    } else if words.len() >= 3 && leads_two(words, "cmd"@, "package"@) && words[2]
        == "resolve-activity"@ {
        "com.demo/.Main"@
    } else {
        seq![]
    }
}

/// The number that a word writes; zero where it writes none.
pub open spec fn word_number(w: Seq<char>) -> int {
    match i32_of(w) {
        Some(n) => n,
        None => 0,
    }
}

/// The screen after a tap at the given height.
pub open spec fn tapped(screen: u32, y: int) -> u32 {
    if screen == 0 && 100 <= y < 320 {
        1
    } else if screen == 1 && y > 950 {
        0
    } else {
        screen
    }
}

/// The screen after a command.
pub open spec fn mock_screen(screen: u32, words: Seq<Seq<char>>) -> u32 {
    if words.len() == 4 && leads_two(words, "input"@, "tap"@) {
        tapped(screen, word_number(words[3]))
    } else if words.len() == 3 && leads_two(words, "input"@, "keyevent"@) && words[2] == "4"@ {
        0
    } else if leads_two(words, "am"@, "start"@) {
        0
    } else {
        screen
    }
}

/// The device after a command.
pub open spec fn mock_after(m: MockView, cmd: Seq<char>) -> MockView {
    let words = words_of(cmd);
    MockView {
        screen: mock_screen(m.screen, words),
        scroll: if leads_two(words, "input"@, "swipe"@) {
            (m.scroll + 1) as u32
        } else {
            m.scroll
        },
        cmds: m.cmds.push(cmd),
        ..m
    }
}

fn word_is(words: &Vec<String>, i: usize, w: &str) -> (r: bool)
    ensures
        r == (i < words@.len() && texts(words@)[i as int] == w@),
{
    i < words.len() && same(words[i].as_str(), w)
}

fn two(words: &Vec<String>, first: &str, second: &str) -> (r: bool)
    ensures
        r == leads_two(texts(words@), first@, second@),
{
    word_is(words, 0, first) && word_is(words, 1, second)
}

fn property(key: &str) -> (r: &'static str)
    ensures
        r@ == mock_property(key@),
{
    proof {
        reveal_strlit("");
        assert(""@ =~= seq![]);
    }
    if same(key, "ro.product.model") {
        "MockPhone"
    } else if same(key, "ro.product.manufacturer") {
        "Mock"
    } else if same(key, "ro.build.version.release") {
        "13"
    } else if same(key, "ro.build.version.sdk") {
        "33"
    } else if same(key, "ro.product.cpu.abi") {
        "arm64-v8a"
    } else {
        ""
    }
}

fn read_number(w: &str) -> (r: i32)
    ensures
        r == word_number(w@),
{
    match parse_i32(chars_of(w).as_slice()) {
        Some(n) => n,
        None => 0,
    }
}

impl MockDevice {
    /// A device that shows the list and logs nothing.
    pub fn new() -> (r: Self)
        ensures
            r@ == (MockView { screen: 0, scroll: 0, cmds: seq![], log_lines: seq![] }),
    {
        let r = MockDevice { screen: 0, scroll: 0, cmds: Vec::new(), log_lines: Vec::new() };
        assert(r@.cmds =~= seq![]);
        assert(r@.log_lines =~= seq![]);
        r
    }

    /// A device that shows the list and has the given log.
    pub fn with_log(lines: Vec<String>) -> (r: Self)
        ensures
            r@ == (MockView { screen: 0, scroll: 0, cmds: seq![], log_lines: texts(lines@) }),
    {
        let mut m = MockDevice::new();
        m.log_lines = lines;
        m
    }

    /// The activity in front.
    pub fn activity(&self) -> (r: &'static str)
        ensures
            r@ == mock_activity(self.screen),
    {
        if self.screen == 0 {
            "com.demo/.Main"
        } else {
            "com.demo/.Detail"
        }
    }

    /// What the screen shows, as `uiautomator dump` writes it.
    pub fn xml(&self) -> (r: String)
        ensures
            r@ == mock_xml(self.screen, self.scroll),
    {
        if self.screen == 0 {
            let mut h = "<hierarchy rotation=\"0\" width=\"540\" height=\"1200\">\n\
<node index=\"0\" text=\"\" resource-id=\"\" class=\"android.widget.FrameLayout\" package=\"com.demo\" bounds=\"[0,0][540,1200]\">\n\
<node index=\"0\" text=\"\" resource-id=\"com.demo:id/list\" class=\"android.widget.ListView\" package=\"com.demo\" scrollable=\"true\" bounds=\"[0,100][540,1100]\">\n\
<node index=\"0\" text=\"条目A".to_string();
            h.append(dec_text(self.scroll as u64).as_str());
            h.append("\" resource-id=\"com.demo:id/item_title\" class=\"android.widget.TextView\" package=\"com.demo\" clickable=\"true\" long-clickable=\"true\" bounds=\"[0,100][540,200]\"/>\n\
<node index=\"1\" text=\"条目B");
            h.append(dec_text(self.scroll as u64).as_str());
            h.append("\" resource-id=\"com.demo:id/item_title\" class=\"android.widget.TextView\" package=\"com.demo\" clickable=\"true\" bounds=\"[0,210][540,310]\"/>\n\
</node>\n\
<node index=\"1\" text=\"\" resource-id=\"com.demo:id/et\" class=\"android.widget.EditText\" package=\"com.demo\" content-desc=\"搜索框\" clickable=\"true\" long-clickable=\"true\" bounds=\"[20,1120][520,1180]\"/>\n\
</node>\n\
</hierarchy>");
            h
        } else {
            "<hierarchy rotation=\"0\" width=\"540\" height=\"1200\">\n\
<node index=\"0\" text=\"\" resource-id=\"\" class=\"android.widget.FrameLayout\" package=\"com.demo\" bounds=\"[0,0][540,1200]\">\n\
<node index=\"0\" text=\"详情标题\" resource-id=\"com.demo:id/detail_title\" class=\"android.widget.TextView\" package=\"com.demo\" clickable=\"true\" bounds=\"[0,100][540,200]\"/>\n\
<node index=\"1\" text=\"返回\" resource-id=\"com.demo:id/back\" class=\"android.widget.Button\" package=\"com.demo\" clickable=\"true\" bounds=\"[0,1000][540,1100]\"/>\n\
</node>\n\
</hierarchy>".to_string()
        }
    }

    fn reply(&self, words: &Vec<String>) -> (r: String)
        ensures
            r@ == mock_reply(self@, texts(words@)),
    {
        let n: usize = words.len();
        assert(texts(words@).len() == n);
        if n == 2 && word_is(words, 0, "getprop") {
            property(words[1].as_str()).to_string()
        } else if n == 2 && two(words, "wm", "size") {
            "Physical size: 540x1200".to_string()
        } else if two(words, "dumpsys", "activity") {
            let mut h = "topResumedActivity=ActivityRecord{1 u0 ".to_string();
            h.append(self.activity());
            h.append(" t1}");
            h
        } else if two(words, "am", "start") {
            "Status: ok".to_string()
        } else if word_is(words, 0, "pidof") {
            "1234".to_string()
        } else if word_is(words, 0, "ps") {
            "com.demo".to_string()
        } else if two(words, "dumpsys", "dropbox") {
            "dropbox: mock entry".to_string()
        } else if two(words, "cmd", "package") && word_is(words, 2, "resolve-activity") {
            "com.demo/.Main".to_string()
        } else {
            let e = String::new();
            assert(e@ =~= seq![]);
            e
        }
    }

    /// Takes a command and replies to it.
    pub fn sh(&mut self, cmd: &str) -> (r: String)
        requires
            old(self).scroll < u32::MAX,
        ensures
            final(self)@ == mock_after(old(self)@, cmd@),
            r@ == mock_reply(old(self)@, words_of(cmd@)),
    {
        let words = split_words(cmd);
        let r = self.reply(&words);
        let ghost before = texts(self.cmds@);
        self.cmds.push(cmd.to_string());
        assert(texts(self.cmds@) =~= before.push(cmd@));
        let n: usize = words.len();
        assert(texts(words@).len() == n);
        if n == 4 && two(&words, "input", "tap") {
            let y = read_number(words[3].as_str());
            if self.screen == 0 && 100 <= y && y < 320 {
                self.screen = 1;
            } else if self.screen == 1 && y > 950 {
                self.screen = 0;
            }
        } else if n == 3 && two(&words, "input", "keyevent") && word_is(&words, 2, "4") {
            self.screen = 0;
        } else if two(&words, "am", "start") {
            self.screen = 0;
        }
        if two(&words, "input", "swipe") {
            self.scroll = self.scroll + 1;
        }
        r
    }
}

// ---------------------------------------------------------------- laws

/// Going back leads to the list from wherever the app is.
pub proof fn lemma_back_leads_to_list(m: MockView, cmd: Seq<char>)
    requires
        words_of(cmd) == seq!["input"@, "keyevent"@, "4"@],
    ensures
        mock_after(m, cmd).screen == 0,
{
    reveal_strlit("tap");
    reveal_strlit("keyevent");
    assert("tap"@.len() != "keyevent"@.len());
}

} // verus!
