//! The commands that a device is given.

use vstd::prelude::*;

use crate::text::number::dec;
use crate::text::number::dec_signed;
use crate::text::number::dec_signed_text;
use crate::text::number::dec_text;
use crate::text::search::has_char;
use crate::text::split::char_replaced;
use crate::text::split::replace_char;
use crate::util::quoted;
use crate::util::shell_quote;

verus! {

/// The key that goes back.
pub const KEY_BACK: i32 = 4;

/// Asks for a property of the system.
pub open spec fn getprop_text(key: Seq<char>) -> Seq<char> {
    "getprop "@ + key
}

/// Asks for a property of the system.
pub fn getprop(key: &str) -> (r: String)
    ensures
        r@ == getprop_text(key@),
{
    let mut h = "getprop ".to_string();
    h.append(key);
    h
}

/// Asks for the activity that opens an app.
pub open spec fn resolve_text(package: Seq<char>) -> Seq<char> {
    "cmd package resolve-activity --brief "@ + package
}

/// Asks for the activity that opens an app.
pub fn resolve_launcher(package: &str) -> (r: String)
    ensures
        r@ == resolve_text(package@),
{
    let mut h = "cmd package resolve-activity --brief ".to_string();
    h.append(package);
    h
}

/// Stops an app.
pub open spec fn force_stop_text(package: Seq<char>) -> Seq<char> {
    "am force-stop "@ + package
}

/// Stops an app.
pub fn force_stop(package: &str) -> (r: String)
    ensures
        r@ == force_stop_text(package@),
{
    let mut h = "am force-stop ".to_string();
    h.append(package);
    h
}

/// Asks for the process of an app.
pub open spec fn pidof_text(package: Seq<char>) -> Seq<char> {
    "pidof "@ + package
}

/// Asks for the process of an app.
pub fn pidof(package: &str) -> (r: String)
    ensures
        r@ == pidof_text(package@),
{
    let mut h = "pidof ".to_string();
    h.append(package);
    h
}

/// Opens an activity and waits for it.
pub open spec fn start_text(component: Seq<char>) -> Seq<char> {
    "am start -n "@ + component + " -W"@
}

/// Opens an activity and waits for it.
pub fn start(component: &str) -> (r: String)
    ensures
        r@ == start_text(component@),
{
    let mut h = "am start -n ".to_string();
    h.append(component);
    h.append(" -W");
    h
}

/// Taps a place.
pub open spec fn tap_text(x: i32, y: i32) -> Seq<char> {
    "input tap "@ + dec_signed(x as int) + " "@ + dec_signed(y as int)
}

/// Taps a place.
pub fn input_tap(x: i32, y: i32) -> (r: String)
    ensures
        r@ == tap_text(x, y),
{
    let mut h = "input tap ".to_string();
    h.append(dec_signed_text(x as i64).as_str());
    h.append(" ");
    h.append(dec_signed_text(y as i64).as_str());
    h
}

/// Swipes from one place to another.
pub open spec fn swipe_text(x1: i32, y1: i32, x2: i32, y2: i32, ms: u32) -> Seq<char> {
    "input swipe "@ + dec_signed(x1 as int) + " "@ + dec_signed(y1 as int) + " "@
        + dec_signed(x2 as int) + " "@ + dec_signed(y2 as int) + " "@ + dec(ms as int)
}

/// Swipes from one place to another.
pub fn input_swipe(x1: i32, y1: i32, x2: i32, y2: i32, ms: u32) -> (r: String)
    ensures
        r@ == swipe_text(x1, y1, x2, y2, ms),
{
    let mut h = "input swipe ".to_string();
    h.append(dec_signed_text(x1 as i64).as_str());
    h.append(" ");
    h.append(dec_signed_text(y1 as i64).as_str());
    h.append(" ");
    h.append(dec_signed_text(x2 as i64).as_str());
    h.append(" ");
    h.append(dec_signed_text(y2 as i64).as_str());
    h.append(" ");
    h.append(dec_text(ms as u64).as_str());
    h
}

/// Holds a place down: a swipe that stays where it is.
pub fn input_long_press(x: i32, y: i32, ms: u32) -> (r: String)
    ensures
        r@ == swipe_text(x, y, x, y, ms),
{
    input_swipe(x, y, x, y, ms)
}

/// Types a text. The device reads `%s` as a blank.
pub open spec fn type_text(text: Seq<char>) -> Seq<char> {
    "input text "@ + quoted(char_replaced(text, ' ', "%s"@))
}

/// Types a text. The device reads `%s` as a blank.
pub fn input_text(text: &str) -> (r: String)
    ensures
        r@ == type_text(text@),
{
    let mut h = "input text ".to_string();
    h.append(shell_quote(replace_char(text, ' ', "%s").as_str()).as_str());
    h
}

/// Presses a key.
pub open spec fn keyevent_text(code: i32) -> Seq<char> {
    "input keyevent "@ + dec_signed(code as int)
}

/// Presses a key.
pub fn input_keyevent(code: i32) -> (r: String)
    ensures
        r@ == keyevent_text(code),
{
    let mut h = "input keyevent ".to_string();
    h.append(dec_signed_text(code as i64).as_str());
    h
}

/// Goes back.
pub fn press_back() -> (r: String)
    ensures
        r@ == keyevent_text(KEY_BACK),
{
    input_keyevent(KEY_BACK)
}

/// Forgets the log.
pub fn logcat_clear() -> (r: &'static str)
    ensures
        r@ == "logcat -c"@,
{
    "logcat -c"
}

/// The activity to open: the one that was asked for, else the one that opens the app, else
/// `.MainActivity`; with the name of the app in front where it is not there.
pub open spec fn component_of(
    package: Seq<char>,
    asked: Option<Seq<char>>,
    resolved: Option<Seq<char>>,
) -> Seq<char> {
    let c = match asked {
        Some(a) => a,
        None => match resolved {
            Some(l) => l,
            None => package + "/.MainActivity"@,
        },
    };
    if c.contains('/') {
        c
    } else {
        package + "/"@ + c
    }
}

/// The activity to open.
pub fn launch(package: &str, asked: Option<&str>, resolved: Option<&str>) -> (r: String)
    ensures
        r@ == component_of(
            package@,
            match asked {
                Some(a) => Some(a@),
                None => None,
            },
            match resolved {
                Some(l) => Some(l@),
                None => None,
            },
        ),
{
    let c = match asked {
        Some(a) => a.to_string(),
        None => match resolved {
            Some(l) => l.to_string(),
            None => {
                let mut h = package.to_string();
                h.append("/.MainActivity");
                h
            },
        },
    };
    if has_char(c.as_str(), '/') {
        c
    } else {
        let mut h = package.to_string();
        h.append("/");
        h.append(c.as_str());
        h
    }
}

} // verus!
