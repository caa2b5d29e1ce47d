//! What is known of a device.

use vstd::prelude::*;

use crate::device::reply::number_or_zero;
use crate::device::reply::sdk_int;
use crate::device::reply::screen_size;
use crate::device::reply::size_of;
use crate::model::node::is_empty;
use crate::text::number::dec_signed;
use crate::text::number::dec_signed_text;
use crate::text::search::contains;
use crate::text::search::has;
use crate::text::search::trim;
use crate::text::search::trimmed;

verus! {

/// What is known of a device.
#[derive(Debug)]
pub struct DeviceInfo {
    /// `device` on the phone itself, `host` from a computer.
    pub mode: String,
    pub serial: String,
    pub model: String,
    pub manufacturer: String,
    pub release: String,
    pub sdk: i32,
    pub abi: String,
    pub width: i32,
    pub height: i32,
}

/// What is known of a device, as a mathematical value.
pub struct InfoView {
    pub mode: Seq<char>,
    pub serial: Seq<char>,
    pub model: Seq<char>,
    pub manufacturer: Seq<char>,
    pub release: Seq<char>,
    pub sdk: i32,
    pub abi: Seq<char>,
    pub width: i32,
    pub height: i32,
}

impl View for DeviceInfo {
    type V = InfoView;

    open spec fn view(&self) -> InfoView {
        InfoView {
            mode: self.mode@,
            serial: self.serial@,
            model: self.model@,
            manufacturer: self.manufacturer@,
            release: self.release@,
            sdk: self.sdk,
            abi: self.abi@,
            width: self.width,
            height: self.height,
        }
    }
}

impl Default for DeviceInfo {
    fn default() -> (r: Self)
        ensures
            r@ == (InfoView {
                mode: seq![],
                serial: seq![],
                model: seq![],
                manufacturer: seq![],
                release: seq![],
                sdk: 0,
                abi: seq![],
                width: 0,
                height: 0,
            }),
    {
        let r = DeviceInfo {
            mode: String::new(),
            serial: String::new(),
            model: String::new(),
            manufacturer: String::new(),
            release: String::new(),
            sdk: 0,
            abi: String::new(),
            width: 0,
            height: 0,
        };
        assert(r.mode@ =~= seq![]);
        assert(r.serial@ =~= seq![]);
        assert(r.model@ =~= seq![]);
        assert(r.manufacturer@ =~= seq![]);
        assert(r.release@ =~= seq![]);
        assert(r.abi@ =~= seq![]);
        r
    }
}

/// The device in one line.
pub open spec fn info_text(d: InfoView) -> Seq<char> {
    d.manufacturer + " "@ + d.model + " (Android "@ + d.release + " / API "@ + dec_signed(
        d.sdk as int,
    ) + " / "@ + dec_signed(d.width as int) + "x"@ + dec_signed(d.height as int) + " / "@ + d.abi
        + " / "@ + (if d.serial.len() == 0 {
        "本机"@
    } else {
        d.serial
    }) + ")"@
}

impl DeviceInfo {
    /// What is known of a device, by its replies to `wm size` and to the questions for its
    /// properties. A size that cannot be read is zero by zero.
    pub fn fetch(
        mode: &str,
        serial: &str,
        size: &str,
        model: &str,
        manufacturer: &str,
        release: &str,
        sdk: &str,
        abi: &str,
    ) -> (r: Self)
        ensures
            r@ == (InfoView {
                mode: mode@,
                serial: serial@,
                model: trimmed(model@),
                manufacturer: trimmed(manufacturer@),
                release: trimmed(release@),
                sdk: number_or_zero(sdk@),
                abi: trimmed(abi@),
                width: match size_of(size@) {
                    Some((w, _)) => w,
                    None => 0,
                },
                height: match size_of(size@) {
                    Some((_, h)) => h,
                    None => 0,
                },
            }),
    {
        let (width, height) = match screen_size(size) {
            Some((w, h)) => (w, h),
            None => (0, 0),
        };
        DeviceInfo {
            mode: mode.to_string(),
            serial: serial.to_string(),
            model: trim(model),
            manufacturer: trim(manufacturer),
            release: trim(release),
            sdk: sdk_int(sdk),
            abi: trim(abi),
            width,
            height,
        }
    }

    /// The device in one line.
    pub fn display(&self) -> (r: String)
        ensures
            r@ == info_text(self@),
    {
        let mut h = self.manufacturer.clone();
        h.append(" ");
        h.append(self.model.as_str());
        h.append(" (Android ");
        h.append(self.release.as_str());
        h.append(" / API ");
        h.append(dec_signed_text(self.sdk as i64).as_str());
        h.append(" / ");
        h.append(dec_signed_text(self.width as i64).as_str());
        h.append("x");
        h.append(dec_signed_text(self.height as i64).as_str());
        h.append(" / ");
        h.append(self.abi.as_str());
        h.append(" / ");
        if is_empty(&self.serial) {
            h.append("本机");
        } else {
            h.append(self.serial.as_str());
        }
        h.append(")");
        h
    }
}

/// The target to build for, by the kind of the processor.
pub open spec fn target_of_abi(abi: Seq<char>) -> Seq<char> {
    if has(abi, "arm64"@) || has(abi, "aarch64"@) {
        "aarch64-linux-android"@
    } else if has(abi, "x86_64"@) {
        "x86_64-linux-android"@
    } else {
        "armv7-linux-androideabi"@
    }
}

/// The target to build for, by the kind of the processor.
pub fn target_for_abi(abi: &str) -> (r: &'static str)
    ensures
        r@ == target_of_abi(abi@),
{
    if contains(abi, "arm64") || contains(abi, "aarch64") {
        "aarch64-linux-android"
    } else if contains(abi, "x86_64") {
        "x86_64-linux-android"
    } else {
        "armv7-linux-androideabi"
    }
}

} // verus!
