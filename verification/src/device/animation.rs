//! The animations of a device. While they run the screen is never at rest and cannot be dumped,
//! so they are switched off for a run and put back as they were behind it.

use vstd::prelude::*;

use crate::model::node::is_empty;
use crate::text::basic::same;
use crate::text::basic::texts;
use crate::text::search::trim;
use crate::text::search::trimmed;

verus! {

/// The settings of animations.
pub open spec fn setting_names() -> Seq<Seq<char>> {
    seq![
        "window_animation_scale"@,
        "transition_animation_scale"@,
        "animator_duration_scale"@,
    ]
}

/// The settings of animations.
pub fn animation_settings() -> (r: Vec<String>)
    ensures
        texts(r@) == setting_names(),
{
    let mut v: Vec<String> = Vec::new();
    v.push("window_animation_scale".to_string());
    v.push("transition_animation_scale".to_string());
    v.push("animator_duration_scale".to_string());
    assert(texts(v@) =~= setting_names());
    v
}

/// Asks for a setting.
pub fn read_setting(name: &str) -> (r: String)
    ensures
        r@ == "settings get global "@ + name@,
{
    let mut h = "settings get global ".to_string();
    h.append(name);
    h
}

/// The command that gives a setting a value.
pub open spec fn put_text(name: Seq<char>, value: Seq<char>) -> Seq<char> {
    "settings put global "@ + name + " "@ + value
}

fn put(name: &str, value: &str) -> (r: String)
    ensures
        r@ == put_text(name@, value@),
{
    let mut h = "settings put global ".to_string();
    h.append(name);
    h.append(" ");
    h.append(value);
    h
}

/// Switches an animation off.
pub fn switch_off(name: &str) -> (r: String)
    ensures
        r@ == put_text(name@, "0"@),
{
    put(name, "0")
}

/// The command that puts a setting back, by the reply to the question for it before: a setting
/// that had no value loses it again.
pub open spec fn restore_text(name: Seq<char>, before: Seq<char>) -> Seq<char> {
    let value = trimmed(before);
    if value.len() == 0 || value == "null"@ {
        "settings delete global "@ + name
    } else {
        put_text(name, value)
    }
}

/// Puts a setting back as it was.
pub fn restore(name: &str, before: &str) -> (r: String)
    ensures
        r@ == restore_text(name@, before@),
{
    let value = trim(before);
    if is_empty(&value) || same(value.as_str(), "null") {
        let mut h = "settings delete global ".to_string();
        h.append(name);
        h
    } else {
        put(name, value.as_str())
    }
}

} // verus!
