//! What a device reads in the commands that it is given, and what its replies say.

use vstd::prelude::*;

use crate::device::adb::behind_first;
use crate::device::adb::dump_result;
use crate::device::adb::is_picture;
use crate::device::adb::ready_in;
use crate::device::animation::restore_text;
use crate::device::command::component_of;
use crate::device::command::force_stop_text;
use crate::device::command::keyevent_text;
use crate::device::command::pidof_text;
use crate::device::command::start_text;
use crate::device::command::swipe_text;
use crate::device::command::tap_text;
use crate::device::command::type_text;
use crate::device::local::next_number;
use crate::device::local::nth_dump;
use crate::device::local::shell_reply;
use crate::device::reply::component_in;
use crate::device::reply::gives_pid;
use crate::device::reply::launcher_in;
use crate::device::reply::running_by;
use crate::device::reply::size_of;
use crate::model::action::ActionView;
use crate::runner::act::OpView;
use crate::runner::act::ops_of;
use crate::text::law::is_word;
use crate::text::law::lemma_fields_are_read_back;
use crate::text::law::lemma_lines_are_read_back;
use crate::text::law::lemma_numbers_are_read_back;
use crate::text::law::lemma_numbers_are_words;
use crate::text::law::lemma_words_are_read_back;
use crate::text::number::dec;
use crate::text::number::dec_signed;
use crate::text::number::i32_of;
use crate::text::search::has;
use crate::text::search::space;
use crate::text::search::trimmed;
use crate::text::split::char_replaced;
use crate::text::split::joined;
use crate::text::split::lines_of;
use crate::text::split::split_on;
use crate::text::split::words_of;
use crate::util::lemma_shell_reads_quoted;
use crate::util::shell_word;

verus! {

proof fn lemma_joined_words(ws: Seq<Seq<char>>, s: Seq<char>)
    requires
        s == joined(ws, " "@),
        forall|i: int| 0 <= i < ws.len() ==> is_word(#[trigger] ws[i]),
    ensures
        words_of(s) == ws,
{
    lemma_words_are_read_back(ws);
}

/// A tap is read as one at its point.
pub proof fn lemma_tap_is_read(x: i32, y: i32)
    ensures
        ({
            let ws = words_of(tap_text(x, y));
            &&& ws.len() == 4
            &&& ws[0] == "input"@ && ws[1] == "tap"@
            &&& i32_of(ws[2]) == Some(x as int) && i32_of(ws[3]) == Some(y as int)
        }),
{
    reveal_strlit("input tap ");
    reveal_strlit("input");
    reveal_strlit("tap");
    reveal_strlit(" ");
    let a = dec_signed(x as int);
    let b = dec_signed(y as int);
    let ws = seq!["input"@, "tap"@, a, b];
    lemma_numbers_are_words(x as int);
    lemma_numbers_are_words(y as int);
    lemma_numbers_are_read_back(x as int);
    lemma_numbers_are_read_back(y as int);
    reveal_with_fuel(joined, 5);
    assert(ws.drop_last() =~= seq!["input"@, "tap"@, a]);
    assert(ws.drop_last().drop_last() =~= seq!["input"@, "tap"@]);
    assert(ws.drop_last().drop_last().drop_last() =~= seq!["input"@]);
    assert(tap_text(x, y) =~= joined(ws, " "@));
    lemma_joined_words(ws, tap_text(x, y));
}

/// A swipe is read as one from its first point to its second, over the time.
pub proof fn lemma_swipe_is_read(x1: i32, y1: i32, x2: i32, y2: i32, ms: u32)
    requires
        ms <= i32::MAX,
    ensures
        ({
            let ws = words_of(swipe_text(x1, y1, x2, y2, ms));
            &&& ws.len() == 7
            &&& ws[0] == "input"@ && ws[1] == "swipe"@
            &&& i32_of(ws[2]) == Some(x1 as int) && i32_of(ws[3]) == Some(y1 as int)
            &&& i32_of(ws[4]) == Some(x2 as int) && i32_of(ws[5]) == Some(y2 as int)
            &&& i32_of(ws[6]) == Some(ms as int)
        }),
{
    reveal_strlit("input swipe ");
    reveal_strlit("input");
    reveal_strlit("swipe");
    reveal_strlit(" ");
    let a = dec_signed(x1 as int);
    let b = dec_signed(y1 as int);
    let c = dec_signed(x2 as int);
    let d = dec_signed(y2 as int);
    let e = dec(ms as int);
    lemma_numbers_are_words(x1 as int);
    lemma_numbers_are_words(y1 as int);
    lemma_numbers_are_words(x2 as int);
    lemma_numbers_are_words(y2 as int);
    lemma_numbers_are_words(ms as int);
    lemma_numbers_are_read_back(x1 as int);
    lemma_numbers_are_read_back(y1 as int);
    lemma_numbers_are_read_back(x2 as int);
    lemma_numbers_are_read_back(y2 as int);
    lemma_numbers_are_read_back(ms as int);
    let w7 = seq!["input"@, "swipe"@, a, b, c, d, e];
    let w6 = seq!["input"@, "swipe"@, a, b, c, d];
    let w5 = seq!["input"@, "swipe"@, a, b, c];
    let w4 = seq!["input"@, "swipe"@, a, b];
    let w3 = seq!["input"@, "swipe"@, a];
    let w2 = seq!["input"@, "swipe"@];
    let w1 = seq!["input"@];
    assert(w7.drop_last() =~= w6 && w6.drop_last() =~= w5 && w5.drop_last() =~= w4
        && w4.drop_last() =~= w3 && w3.drop_last() =~= w2 && w2.drop_last() =~= w1);
    assert(joined(w1, " "@) == "input"@);
    assert(joined(w2, " "@) == "input"@ + " "@ + "swipe"@);
    assert(joined(w3, " "@) == joined(w2, " "@) + " "@ + a);
    assert(joined(w4, " "@) == joined(w3, " "@) + " "@ + b);
    assert(joined(w5, " "@) == joined(w4, " "@) + " "@ + c);
    assert(joined(w6, " "@) == joined(w5, " "@) + " "@ + d);
    assert(joined(w7, " "@) == joined(w6, " "@) + " "@ + e);
    assert("input swipe "@ =~= "input"@ + " "@ + "swipe"@ + " "@);
    assert(swipe_text(x1, y1, x2, y2, ms) =~= joined(w7, " "@));
    lemma_joined_words(w7, swipe_text(x1, y1, x2, y2, ms));
}

/// A key is read as the one with its code.
pub proof fn lemma_key_is_read(code: i32)
    ensures
        ({
            let ws = words_of(keyevent_text(code));
            &&& ws.len() == 3
            &&& ws[2] == dec_signed(code as int)
            &&& ws[0] == "input"@ && ws[1] == "keyevent"@
            &&& i32_of(ws[2]) == Some(code as int)
        }),
{
    reveal_strlit("input keyevent ");
    reveal_strlit("input");
    reveal_strlit("keyevent");
    reveal_strlit(" ");
    let a = dec_signed(code as int);
    lemma_numbers_are_words(code as int);
    lemma_numbers_are_read_back(code as int);
    let w3 = seq!["input"@, "keyevent"@, a];
    let w2 = seq!["input"@, "keyevent"@];
    let w1 = seq!["input"@];
    assert(w3.drop_last() =~= w2 && w2.drop_last() =~= w1);
    assert(joined(w1, " "@) == "input"@);
    assert(joined(w2, " "@) == "input"@ + " "@ + "keyevent"@);
    assert(joined(w3, " "@) == joined(w2, " "@) + " "@ + a);
    assert(keyevent_text(code) =~= joined(w3, " "@));
    lemma_joined_words(w3, keyevent_text(code));
}

/// Starting an app, stopping it and asking for its process name just that app.
pub proof fn lemma_app_commands_are_read(app: Seq<char>)
    requires
        is_word(app),
    ensures
        words_of(start_text(app)) == seq!["am"@, "start"@, "-n"@, app, "-W"@],
        words_of(force_stop_text(app)) == seq!["am"@, "force-stop"@, app],
        words_of(pidof_text(app)) == seq!["pidof"@, app],
{
    reveal_strlit("am start -n ");
    reveal_strlit("am");
    reveal_strlit("start");
    reveal_strlit("-n");
    reveal_strlit(" -W");
    reveal_strlit("-W");
    reveal_strlit("am force-stop ");
    reveal_strlit("force-stop");
    reveal_strlit("pidof ");
    reveal_strlit("pidof");
    reveal_strlit(" ");
    let w5 = seq!["am"@, "start"@, "-n"@, app, "-W"@];
    let w4 = seq!["am"@, "start"@, "-n"@, app];
    let w3 = seq!["am"@, "start"@, "-n"@];
    let w2 = seq!["am"@, "start"@];
    let w1 = seq!["am"@];
    assert(w5.drop_last() =~= w4 && w4.drop_last() =~= w3 && w3.drop_last() =~= w2
        && w2.drop_last() =~= w1);
    assert(joined(w1, " "@) == "am"@);
    assert(joined(w2, " "@) == "am"@ + " "@ + "start"@);
    assert(joined(w3, " "@) == joined(w2, " "@) + " "@ + "-n"@);
    assert(joined(w4, " "@) == joined(w3, " "@) + " "@ + app);
    assert(joined(w5, " "@) == joined(w4, " "@) + " "@ + "-W"@);
    assert("am start -n "@ =~= "am"@ + " "@ + "start"@ + " "@ + "-n"@ + " "@);
    assert(start_text(app) =~= joined(w5, " "@));
    lemma_joined_words(w5, start_text(app));
    let f3 = seq!["am"@, "force-stop"@, app];
    let f2 = seq!["am"@, "force-stop"@];
    assert(f3.drop_last() =~= f2 && f2.drop_last() =~= w1);
    assert(joined(f2, " "@) == "am"@ + " "@ + "force-stop"@);
    assert(joined(f3, " "@) == joined(f2, " "@) + " "@ + app);
    assert(force_stop_text(app) =~= joined(f3, " "@));
    lemma_joined_words(f3, force_stop_text(app));
    let p2 = seq!["pidof"@, app];
    let p1 = seq!["pidof"@];
    assert(p2.drop_last() =~= p1);
    assert(joined(p1, " "@) == "pidof"@);
    assert(joined(p2, " "@) == "pidof"@ + " "@ + app);
    assert(pidof_text(app) =~= joined(p2, " "@));
    lemma_joined_words(p2, pidof_text(app));
}

/// What is typed is one word for the shell: the text itself, with `%s` for its blanks.
pub proof fn lemma_typed_text_is_read(text: Seq<char>)
    ensures
        type_text(text).len() >= 11,
        type_text(text).take(11) == "input text "@,
        shell_word(type_text(text).skip(11), false) == Some(char_replaced(text, ' ', "%s"@)),
        !text.contains(' ') ==> shell_word(type_text(text).skip(11), false) == Some(text),
{
    reveal_strlit("input text ");
    let w = char_replaced(text, ' ', "%s"@);
    let t = type_text(text);
    lemma_shell_reads_quoted(w);
    assert(t.take(11) =~= "input text "@);
    assert(t.skip(11) =~= crate::util::quoted(w));
    if !text.contains(' ') {
        lemma_nothing_replaced(text, ' ', "%s"@);
    }
}

proof fn lemma_nothing_replaced(s: Seq<char>, c: char, by: Seq<char>)
    requires
        !s.contains(c),
    ensures
        char_replaced(s, c, by) == s,
    decreases s.len(),
{
    if s.len() > 0 {
        let d = s.drop_last();
        assert(!d.contains(c)) by {
            if d.contains(c) {
                let i = choose|i: int| 0 <= i < d.len() && d[i] == c;
                assert(s[i] == c);
            }
        }
        lemma_nothing_replaced(d, c, by);
        assert(s[s.len() - 1] == s.last());
        assert(s =~= d + seq![s.last()]);
    } else {
        assert(s =~= seq![]);
    }
}

/// What is done on a device for an action: a tap where it goes; for a long tap a swipe that stays
/// there for 900 milliseconds; a swipe from its first point to its second; for a text a tap, a
/// quarter of a second, and the text; the key; and the start of the app.
pub proof fn lemma_what_is_done_for_an_action(a: ActionView)
    ensures
        ({
            let ops = ops_of(a);
            match a {
                ActionView::Click { point, .. } => ops.len() == 1 && ops[0] == OpView::Shell(
                    tap_text(point.0, point.1),
                ),
                ActionView::LongClick { point, .. } => ops.len() == 1 && ops[0] == OpView::Shell(
                    swipe_text(point.0, point.1, point.0, point.1, 900),
                ),
                ActionView::Swipe { from, to, duration_ms, .. } => ops.len() == 1 && ops[0]
                    == OpView::Shell(swipe_text(from.0, from.1, to.0, to.1, duration_ms)),
                ActionView::Input { point, text, .. } => ops.len() == 3 && ops[0] == OpView::Shell(
                    tap_text(point.0, point.1),
                ) && ops[1] == OpView::Sleep(250) && ops[2] == OpView::Shell(type_text(text)),
                ActionView::Back => ops.len() == 1 && ops[0] == OpView::Shell(keyevent_text(4)),
                ActionView::Key { code, .. } => ops.len() == 1 && ops[0] == OpView::Shell(
                    keyevent_text(code),
                ),
                ActionView::Launch { component } => ops.len() == 1 && ops[0] is Shell,
            }
        }),
{
}

/// An app is started by the component that was asked for, with the app in front where it names only
/// the activity; else by the one that the system names; else by its main activity.
pub proof fn lemma_which_component_starts(
    package: Seq<char>,
    asked: Option<Seq<char>>,
    resolved: Option<Seq<char>>,
)
    ensures
        asked is Some && (asked->0).contains('/') ==> component_of(package, asked, resolved)
            == asked->0,
        asked is Some && !(asked->0).contains('/') ==> component_of(package, asked, resolved)
            == package + "/"@ + asked->0,
        asked is None && resolved is Some && (resolved->0).contains('/') ==> component_of(
            package,
            asked,
            resolved,
        ) == resolved->0,
        asked is None && resolved is None ==> component_of(package, asked, resolved) == package
            + "/.MainActivity"@,
{
    reveal_strlit("/.MainActivity");
    let c = package + "/.MainActivity"@;
    assert(c[package.len() as int] == '/');
    assert(c.contains('/'));
}

/// A component that an action names is started as it is named.
pub proof fn lemma_launch_starts_component(package: Seq<char>, activity: Seq<char>)
    requires
        !package.contains('/'),
        !activity.contains('/'),
    ensures
        ops_of(ActionView::Launch { component: package + "/"@ + activity }) == seq![
            OpView::Shell(start_text(package + "/"@ + activity)),
        ],
{
    reveal_strlit("/");
    let c = package + "/"@ + activity;
    let n = package.len() as int;
    crate::text::search::lemma_char_from(c, '/', 0);
    assert(c[n] == '/');
    assert forall|i: int| 0 <= i < n implies c[i] != '/' by {
        assert(c[i] == package[i]);
        assert(package.contains(package[i]));
    }
    assert(c.take(n) =~= package);
    assert(c.skip(n + 1) =~= activity);
}

// ---------------------------------------------------------------- settings

/// A setting is put back to what it was: the value that was read, or none where there was none.
pub proof fn lemma_settings_are_restored(name: Seq<char>, value: Seq<char>, blanks: Seq<char>)
    requires
        is_word(value),
        value != "null"@,
        forall|i: int| 0 <= i < blanks.len() ==> space(#[trigger] blanks[i]),
    ensures
        restore_text(name, value + blanks) == "settings put global "@ + name + " "@ + value,
        restore_text(name, blanks) == "settings delete global "@ + name,
        restore_text(name, "null"@ + blanks) == "settings delete global "@ + name,
{
    reveal_strlit("null");
    lemma_blanks_off(value, blanks);
    lemma_blanks_off("null"@, blanks);
    lemma_all_blank(blanks);
}

proof fn lemma_all_blank(s: Seq<char>)
    requires
        forall|i: int| 0 <= i < s.len() ==> space(#[trigger] s[i]),
    ensures
        crate::text::search::trim_front(s).len() == 0,
        trimmed(s).len() == 0,
{
    crate::text::search::lemma_trim_front(s);
    let t = crate::text::search::trim_front(s);
    if t.len() > 0 {
        assert(t[0] == s[s.len() - t.len()]);
    }
    crate::text::search::lemma_trim_back(t);
}

proof fn lemma_blanks_off(w: Seq<char>, blanks: Seq<char>)
    requires
        is_word(w),
        forall|i: int| 0 <= i < blanks.len() ==> space(#[trigger] blanks[i]),
    ensures
        trimmed(w + blanks) == w,
{
    let s = w + blanks;
    assert(s[0] == w[0]);
    assert(crate::text::search::trim_front(s) == s);
    crate::text::search::lemma_trim_back(s);
    let t = crate::text::search::trim_back(s);
    let n = w.len() as int;
    if t.len() < n {
        assert(space(s[n - 1]));
        assert(s[n - 1] == w[n - 1]);
    }
    if t.len() > n {
        assert(t.last() == s[t.len() - 1]);
        assert(s[t.len() - 1] == blanks[t.len() - 1 - n]);
    }
    assert(s.take(n) =~= w);
}

// ---------------------------------------------------------------- replies

/// The size of the screen is read from the last line of the reply.
pub proof fn lemma_size_is_read(before: Seq<Seq<char>>, w: i32, h: i32)
    requires
        w > 0,
        h > 0,
        forall|i: int|
            0 <= i < before.len() ==> !(#[trigger] before[i]).contains('\n') && (before[i].len() > 0
                ==> before[i].last() != '\r'),
    ensures
        size_of(
            joined(
                before.push("Physical size: "@ + dec(w as int) + "x"@ + dec(h as int)),
                "\n"@,
            ),
        ) == Some((w, h)),
{
    reveal_strlit("Physical size: ");
    reveal_strlit("Physical size");
    reveal_strlit("x");
    reveal_strlit(" ");
    let a = dec(w as int);
    let b = dec(h as int);
    let last = "Physical size: "@ + a + "x"@ + b;
    let ls = before.push(last);
    crate::text::number::lemma_value_of_dec(w as int);
    crate::text::number::lemma_value_of_dec(h as int);
    lemma_numbers_are_words(w as int);
    lemma_numbers_are_words(h as int);
    lemma_numbers_are_read_back(w as int);
    lemma_numbers_are_read_back(h as int);
    lemma_digits_only(w as int);
    lemma_digits_only(h as int);
    let n = last.len() as int;
    assert forall|i: int| 0 <= i < n implies last[i] != '\n' && last[i] != '\r' by {
        if i < 15 {
            assert(last[i] == "Physical size: "@[i]);
        } else if i < 15 + a.len() {
            assert(last[i] == a[i - 15]);
        } else if i > 15 + a.len() {
            assert(last[i] == b[i - 16 - a.len()]);
        }
    }
    assert forall|i: int| 0 <= i < ls.len() implies !(#[trigger] ls[i]).contains('\n') && (
    ls[i].len() > 0 ==> ls[i].last() != '\r') by {
        if i < before.len() {
            assert(ls[i] == before[i]);
        }
    }
    lemma_lines_are_read_back(ls);
    let size = " "@ + a + "x"@ + b;
    let fs = seq!["Physical size"@, size];
    assert(fs.drop_last() =~= seq!["Physical size"@]);
    assert(joined(fs.drop_last(), seq![':']) == "Physical size"@);
    assert(joined(fs, seq![':']) == "Physical size"@ + seq![':'] + size);
    assert(last =~= joined(fs, seq![':']));
    assert(!size.contains(':')) by {
        if size.contains(':') {
            let i = choose|i: int| 0 <= i < size.len() && size[i] == ':';
            if 1 <= i < 1 + a.len() {
                assert(size[i] == a[i - 1]);
            } else if i > 1 + a.len() {
                assert(size[i] == b[i - 2 - a.len()]);
            }
        }
    }
    assert(!"Physical size"@.contains(':'));
    lemma_fields_are_read_back(fs, ':');
    assert(split_on(last, ':').last() == size);
    let dim = a + "x"@ + b;
    assert(size =~= " "@ + dim);
    assert(trimmed(size) == dim) by {
        assert(size[0] == ' ');
        assert(size.drop_first() =~= dim);
        assert(dim[0] == a[0]);
        assert(crate::text::search::trim_front(size) == crate::text::search::trim_front(dim));
        assert(crate::text::search::trim_front(dim) == dim);
        assert(dim.last() == b.last());
        assert(b.last() == b[b.len() - 1]);
        assert(crate::text::search::trim_back(dim) == dim);
    }
    let ds = seq![a, b];
    assert(ds.drop_last() =~= seq![a]);
    assert(joined(ds.drop_last(), seq!['x']) == a);
    assert(joined(ds, seq!['x']) == a + seq!['x'] + b);
    assert(dim =~= joined(ds, seq!['x']));
    lemma_fields_are_read_back(ds, 'x');
    assert(split_on(dim, 'x') == ds);
}

proof fn lemma_digits_only(n: int)
    requires
        n >= 0,
    ensures
        !dec(n).contains(':'),
        !dec(n).contains('x'),
        forall|i: int| 0 <= i < dec(n).len() ==> 48 <= #[trigger] dec(n)[i] as int <= 57,
{
    crate::text::number::lemma_value_of_dec(n);
    let d = dec(n);
    assert forall|i: int| 0 <= i < d.len() implies 48 <= #[trigger] d[i] as int <= 57 by {
        assert(crate::text::number::digit_of(d[i], 10) is Some);
    }
    if d.contains(':') {
        let i = choose|i: int| 0 <= i < d.len() && d[i] == ':';
        assert(48 <= d[i] as int <= 57);
    }
    if d.contains('x') {
        let i = choose|i: int| 0 <= i < d.len() && d[i] == 'x';
        assert(48 <= d[i] as int <= 57);
    }
}

/// The activity in the foreground is the first word with a point and a slash in it, up to the brace
/// that closes the record.
pub proof fn lemma_activity_is_read(ws: Seq<Seq<char>>, k: int, rest: Seq<char>)
    requires
        0 <= k < ws.len(),
        forall|i: int| 0 <= i < ws.len() ==> is_word(#[trigger] ws[i]) && !ws[i].contains('}'),
        ws[k].contains('/'),
        ws[k].contains('.'),
        forall|i: int|
            0 <= i < k ==> !((#[trigger] ws[i]).contains('/') && ws[i].contains('.')),
    ensures
        component_in(joined(ws, " "@) + seq!['}'] + rest) == Some(ws[k]),
{
    let s = joined(ws, " "@);
    let seg = s + seq!['}'] + rest;
    lemma_words_are_read_back(ws);
    lemma_no_char(ws, '}');
    crate::text::search::lemma_char_from(seg, '}', 0);
    let n = s.len() as int;
    assert(seg[n] == '}');
    assert forall|i: int| 0 <= i < n implies seg[i] != '}' by {
        assert(seg[i] == s[i]);
        assert(s.contains(s[i]));
    }
    assert(seg.take(n) =~= s);
    lemma_first_activity(ws, k);
}

proof fn lemma_no_char(ws: Seq<Seq<char>>, c: char)
    requires
        c != ' ',
        forall|i: int| 0 <= i < ws.len() ==> !(#[trigger] ws[i]).contains(c),
    ensures
        !joined(ws, " "@).contains(c),
    decreases ws.len(),
{
    reveal_strlit(" ");
    if ws.len() > 1 {
        let d = ws.drop_last();
        assert forall|i: int| 0 <= i < d.len() implies !(#[trigger] d[i]).contains(c) by {
            assert(d[i] == ws[i]);
        }
        lemma_no_char(d, c);
        let a = joined(d, " "@);
        let b = ws.last();
        let s = a + " "@ + b;
        assert(!ws[ws.len() - 1].contains(c));
        if s.contains(c) {
            let i = choose|i: int| 0 <= i < s.len() && s[i] == c;
            if i < a.len() {
                assert(a[i] == c);
            } else if i > a.len() {
                assert(b[i - a.len() - 1] == c);
            }
        }
    }
}

proof fn lemma_first_activity(ws: Seq<Seq<char>>, k: int)
    requires
        0 <= k < ws.len(),
        ws[k].contains('/'),
        ws[k].contains('.'),
        forall|i: int|
            0 <= i < k ==> !((#[trigger] ws[i]).contains('/') && ws[i].contains('.')),
    ensures
        crate::device::reply::first_activity(ws) == Some(ws[k]),
    decreases ws.len(),
{
    if k > 0 {
        let t = ws.skip(1);
        assert(!(ws[0].contains('/') && ws[0].contains('.')));
        assert(t[k - 1] == ws[k]);
        assert forall|i: int| 0 <= i < k - 1 implies !((#[trigger] t[i]).contains('/')
            && t[i].contains('.')) by {
            assert(t[i] == ws[i + 1]);
        }
        lemma_first_activity(t, k - 1);
    }
}

/// An app runs where its process has a number; else where the list of names has a line with its
/// name, if there is a list; else where its name occurs among all processes.
pub proof fn lemma_when_an_app_runs(
    pid: int,
    names: Seq<char>,
    all: Seq<char>,
    package: Seq<char>,
)
    requires
        pid >= 0,
    ensures
        running_by(dec(pid), names, all, package),
        names.len() > 0 ==> (running_by(seq![], names, all, package) <==> exists|i: int|
            0 <= i < lines_of(names).len() && trimmed(#[trigger] lines_of(names)[i]) == package),
        running_by(seq![], seq![], all, package) <==> has(all, package),
{
    lemma_numbers_are_words(pid);
    lemma_digits_only(pid);
    let d = dec(pid);
    assert forall|i: int| 0 <= i < d.len() implies ('0' <= #[trigger] d[i] && d[i] <= '9') || space(
        d[i],
    ) by {
        assert(48 <= d[i] as int <= 57);
    }
    assert(gives_pid(d));
    let e: Seq<char> = seq![];
    assert(trimmed(e).len() == 0);
    assert(!gives_pid(e));
}

/// What opens an app is the last line of the reply that holds a slash, without white space around
/// it.
pub proof fn lemma_what_opens_an_app(lines: Seq<Seq<char>>)
    ensures
        match launcher_in(lines) {
            Some(c) => exists|i: int|
                0 <= i < lines.len() && (#[trigger] lines[i]).contains('/') && c == trimmed(
                    lines[i],
                ) && forall|j: int| i < j < lines.len() ==> !(#[trigger] lines[j]).contains('/'),
            None => forall|j: int| 0 <= j < lines.len() ==> !(#[trigger] lines[j]).contains('/'),
        },
    decreases lines.len(),
{
    if lines.len() > 0 {
        let d = lines.drop_last();
        let last = lines.len() - 1;
        assert(lines[last] == lines.last());
        lemma_what_opens_an_app(d);
        assert forall|j: int| 0 <= j < d.len() implies d[j] == #[trigger] lines[j] by {}
        if !lines.last().contains('/') {
            if let Some(c) = launcher_in(d) {
                let i = choose|i: int|
                    0 <= i < d.len() && (#[trigger] d[i]).contains('/') && c == trimmed(d[i])
                        && forall|j: int| i < j < d.len() ==> !(#[trigger] d[j]).contains('/');
                assert(lines[i].contains('/'));
                assert forall|j: int| i < j < lines.len() implies !(
                #[trigger] lines[j]).contains('/') by {
                    if j < d.len() {
                        assert(!d[j].contains('/'));
                    }
                }
            } else {
                assert forall|j: int| 0 <= j < lines.len() implies !(
                #[trigger] lines[j]).contains('/') by {
                    if j < d.len() {
                        assert(!d[j].contains('/'));
                    }
                }
            }
        }
    }
}

// ---------------------------------------------------------------- ready devices

/// The devices that are ready are read line by line; the first line does not count.
pub proof fn lemma_ready_devices(a: Seq<Seq<char>>, b: Seq<Seq<char>>, head: Seq<char>)
    ensures
        ready_in(a + b) == ready_in(a) + ready_in(b),
        behind_first(seq![head] + a) == a,
        behind_first(seq![]).len() == 0,
    decreases b.len(),
{
    assert((seq![head] + a).skip(1) =~= a);
    if b.len() == 0 {
        assert(a + b =~= a);
        assert(ready_in(a) + ready_in(b) =~= ready_in(a));
    } else {
        assert((a + b).drop_last() =~= a + b.drop_last());
        assert((a + b).last() == b.last());
        lemma_ready_devices(a, b.drop_last(), head);
        assert(ready_in(a + b) =~= ready_in(a) + ready_in(b));
    }
}

/// A line with an id and the word `device` behind it is one of a device that is ready; with another
/// word it is not.
pub proof fn lemma_ready_device(id: Seq<char>, state: Seq<char>)
    requires
        is_word(id),
        is_word(state),
    ensures
        ready_in(seq![id + " "@ + state]) == if state == "device"@ {
            seq![id]
        } else {
            seq![]
        },
{
    let line = id + " "@ + state;
    let ws = seq![id, state];
    assert(ws.drop_last() =~= seq![id]);
    assert(joined(seq![id], " "@) == id);
    assert(joined(ws, " "@) == line);
    lemma_joined_words(ws, line);
    assert(seq![line].drop_last() =~= seq![]);
    assert(seq![line].last() == line);
    assert(ready_in(seq![]) =~= seq![]);
    assert(ready_in(seq![line]) =~= if state == "device"@ {
        seq![id]
    } else {
        seq![]
    });
}

/// A dump that holds a hierarchy is taken as it is; another is refused with why and its front.
pub proof fn lemma_which_dumps_are_taken(out: Seq<char>, why: Seq<char>)
    ensures
        dump_result(out, why) is Ok <==> has(out, "<hierarchy"@),
        dump_result(out, why) is Ok ==> dump_result(out, why)->Ok_0 == out,
        dump_result(out, why) is Err && out.len() <= 80 ==> dump_result(out, why)->Err_0 == why
            + out,
        dump_result(out, why) is Err && out.len() > 80 ==> dump_result(out, why)->Err_0 == why
            + out.take(80) + seq!['…'],
{
    assert((why + out.take(80)) + seq!['…'] =~= why + out.take(80).push('…'));
}

/// A picture is what begins like a PNG file and has a kilobyte.
pub proof fn lemma_which_bytes_are_pictures(rest: Seq<u8>)
    ensures
        is_picture(seq![0x89u8, 0x50u8, 0x4eu8, 0x47u8] + rest) <==> rest.len() >= 1020,
{
}

/// A command fails on the phone if and only if it said nothing but that something is missing.
pub proof fn lemma_when_a_command_fails(cmd: Seq<char>, out: Seq<char>, err: Seq<char>)
    ensures
        shell_reply(cmd, out, err) is Err <==> out.len() == 0 && (has(err, "not found"@) || has(
            err,
            "No such file"@,
        )),
        shell_reply(cmd, out, err) is Ok ==> shell_reply(cmd, out, err)->Ok_0 == out,
        shell_reply(cmd, out, err) is Err ==> has(shell_reply(cmd, out, err)->Err_0, cmd),
{
    if shell_reply(cmd, out, err) is Err {
        let e = shell_reply(cmd, out, err)->Err_0;
        crate::runner::rules::lemma_within(
            e,
            "命令执行失败: "@,
            cmd,
            " -> "@ + crate::text::search::trimmed(err),
        );
    }
}

/// Each dump but the first goes to a file of its own.
pub proof fn lemma_dumps_are_kept_apart(path: Seq<char>, n: u32, m: u32)
    requires
        0 < n < m,
    ensures
        nth_dump(path, n) != nth_dump(path, m),
        nth_dump(path, 1) == path,
        n < u32::MAX ==> next_number(n) == n + 1,
        next_number(u32::MAX) == 0,
{
    let a = nth_dump(path, n);
    let b = nth_dump(path, m);
    lemma_numbers_are_read_back(n as int);
    lemma_numbers_are_read_back(m as int);
    reveal_strlit(".");
    if a == b {
        let k = path.len() as int + 1;
        if n == 1 {
            assert(b.len() > path.len());
        } else {
            assert(a.skip(k) =~= dec(n as int));
            assert(b.skip(k) =~= dec(m as int));
        }
    }
}

} // verus!
