//! How the device for tests answers the commands of the library.

use vstd::prelude::*;

use crate::device::command::force_stop_text;
use crate::device::command::keyevent_text;
use crate::device::command::start_text;
use crate::device::command::swipe_text;
use crate::device::command::tap_text;
use crate::device::law::lemma_app_commands_are_read;
use crate::device::law::lemma_key_is_read;
use crate::device::law::lemma_swipe_is_read;
use crate::device::law::lemma_tap_is_read;
use crate::device::mock::mock_activity;
use crate::device::mock::mock_after;
use crate::device::mock::mock_reply;
use crate::device::mock::MockView;
use crate::text::law::is_word;
use crate::text::number::dec;
use crate::text::number::dec_signed;

verus! {

/// A tap on the list opens the details, one on the button below them leads back, and one elsewhere
/// does nothing. Every command is noted, and the log stays.
pub proof fn lemma_taps_lead_on(m: MockView, x: i32, y: i32)
    ensures
        ({
            let after = mock_after(m, tap_text(x, y));
            &&& m.screen == 0 && 100 <= y < 320 ==> after.screen == 1
            &&& m.screen == 0 && !(100 <= y < 320) ==> after.screen == 0
            &&& m.screen == 1 && y > 950 ==> after.screen == 0
            &&& m.screen == 1 && y <= 950 ==> after.screen == 1
            &&& after.scroll == m.scroll
            &&& after.cmds == m.cmds.push(tap_text(x, y))
            &&& after.log_lines == m.log_lines
        }),
{
    lemma_tap_is_read(x, y);
    reveal_strlit("tap");
    reveal_strlit("swipe");
    assert("tap"@.len() != "swipe"@.len());
}

/// The key that leads back leads to the list, and no other key leads anywhere.
pub proof fn lemma_keys_lead_back(m: MockView, code: i32)
    ensures
        ({
            let after = mock_after(m, keyevent_text(code));
            &&& code == 4 ==> after.screen == 0
            &&& code != 4 ==> after.screen == m.screen
            &&& after.scroll == m.scroll
            &&& after.cmds == m.cmds.push(keyevent_text(code))
        }),
{
    lemma_key_is_read(code);
    crate::text::law::lemma_numbers_are_read_back(code as int);
    crate::text::law::lemma_numbers_are_read_back(4);
    reveal_strlit("tap");
    reveal_strlit("swipe");
    reveal_strlit("keyevent");
    reveal_strlit("input");
    reveal_strlit("am");
    reveal_strlit("4");
    assert("keyevent"@.len() == 8 && "swipe"@.len() == 5 && "tap"@.len() == 3);
    assert("input"@.len() == 5 && "am"@.len() == 2);
    assert(dec_signed(4) =~= "4"@) by {
        assert(dec(4) =~= "4"@);
    }
}

/// A swipe moves the list on by one and leaves the screen.
pub proof fn lemma_swipes_move_the_list(m: MockView, p: (i32, i32), q: (i32, i32), ms: u32)
    requires
        m.scroll < u32::MAX,
        ms <= i32::MAX,
    ensures
        ({
            let after = mock_after(m, swipe_text(p.0, p.1, q.0, q.1, ms));
            &&& after.scroll == m.scroll + 1
            &&& after.screen == m.screen
        }),
{
    lemma_swipe_is_read(p.0, p.1, q.0, q.1, ms);
    reveal_strlit("tap");
    reveal_strlit("swipe");
    reveal_strlit("keyevent");
    reveal_strlit("input");
    reveal_strlit("am");
    assert("keyevent"@.len() == 8 && "swipe"@.len() == 5 && "tap"@.len() == 3);
    assert("input"@.len() == 5 && "am"@.len() == 2);
}

/// Starting the app leads to the list; stopping it changes nothing.
pub proof fn lemma_app_starts_with_the_list(m: MockView, app: Seq<char>)
    requires
        is_word(app),
    ensures
        mock_after(m, start_text(app)).screen == 0,
        mock_after(m, start_text(app)).scroll == m.scroll,
        mock_after(m, force_stop_text(app)).screen == m.screen,
{
    lemma_app_commands_are_read(app);
    reveal_strlit("input");
    reveal_strlit("am");
    reveal_strlit("start");
    reveal_strlit("force-stop");
    assert("input"@.len() == 5 && "am"@.len() == 2);
    assert("start"@.len() == 5 && "force-stop"@.len() == 10);
}

/// The list and the details are two activities of one app, and the device says which is in front.
pub proof fn lemma_activity_is_told(m: MockView)
    ensures
        m.screen == 0 ==> mock_activity(m.screen) == "com.demo/.Main"@,
        m.screen != 0 ==> mock_activity(m.screen) == "com.demo/.Detail"@,
        mock_reply(m, seq!["dumpsys"@, "activity"@, "activities"@])
            == "topResumedActivity=ActivityRecord{1 u0 "@ + mock_activity(m.screen) + " t1}"@,
        mock_reply(m, seq!["wm"@, "size"@]) == "Physical size: 540x1200"@,
{
    reveal_strlit("dumpsys");
    reveal_strlit("activity");
    reveal_strlit("getprop");
    reveal_strlit("wm");
    assert("wm"@.len() == 2 && "getprop"@.len() == 7 && "dumpsys"@.len() == 7);
    assert("dumpsys"@[0] == 'd' && "getprop"@[0] == 'g');
}

} // verus!
