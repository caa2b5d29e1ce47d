//! The device that the program itself runs on.

use vstd::prelude::*;

use crate::device::adb::dump_file;
use crate::device::adb::dump_path;
use crate::device::adb::result_texts;
use crate::model::node::is_empty;
use crate::text::number::dec;
use crate::text::number::dec_text;
use crate::text::search::contains;
use crate::text::search::has;
use crate::text::search::trim;
use crate::text::search::trimmed;
use crate::util::truncate;
use crate::util::truncated;

verus! {

/// The device that the program runs on.
#[derive(Debug)]
pub struct LocalDevice {
    /// The first file that the screen is dumped to.
    pub dump_path: String,
    /// How often was dumped.
    pub seq: u32,
}

/// The number behind `n`, from the start again where there is none.
pub open spec fn next_number(n: u32) -> u32 {
    if n == u32::MAX {
        0
    } else {
        (n + 1) as u32
    }
}

/// The file that the screen is dumped to the `n`th time.
pub open spec fn nth_dump(path: Seq<char>, n: u32) -> Seq<char> {
    if n == 1 {
        path
    } else {
        path + "."@ + dec(n as int)
    }
}

/// The reply to a command, or an error where nothing came but word that something is missing.
pub open spec fn shell_reply(cmd: Seq<char>, out: Seq<char>, err: Seq<char>) -> Result<
    Seq<char>,
    Seq<char>,
> {
    if out.len() == 0 && (has(err, "not found"@) || has(err, "No such file"@)) {
        Err("命令执行失败: "@ + cmd + " -> "@ + trimmed(err))
    } else {
        Ok(out)
    }
}

impl LocalDevice {
    /// The device, for the process with the number.
    pub fn new(pid: u32) -> (r: Self)
        ensures
            r.dump_path@ == dump_file(pid),
            r.seq == 0,
    {
        LocalDevice { dump_path: dump_path(pid), seq: 0 }
    }

    /// The file that the screen is dumped to this time.
    pub fn next_dump(&mut self) -> (r: String)
        ensures
            final(self).seq == next_number(old(self).seq),
            final(self).dump_path == old(self).dump_path,
            r@ == nth_dump(old(self).dump_path@, final(self).seq),
    {
        if self.seq == u32::MAX {
            self.seq = 0;
        } else {
            self.seq = self.seq + 1;
        }
        let mut h = self.dump_path.clone();
        if self.seq != 1 {
            h.append(".");
            h.append(dec_text(self.seq as u64).as_str());
        }
        h
    }

    /// The reply to a command.
    pub fn reply(cmd: &str, out: String, err: &str) -> (r: Result<String, String>)
        ensures
            result_texts(r) == shell_reply(cmd@, out@, err@),
    {
        if is_empty(&out) && (contains(err, "not found") || contains(err, "No such file")) {
            let mut h = "命令执行失败: ".to_string();
            h.append(cmd);
            h.append(" -> ");
            h.append(trim(err).as_str());
            return Err(h);
        }
        Ok(out)
    }

    /// What came from a dump.
    pub fn check_dump(&self, xml: String) -> (r: Result<String, String>)
        ensures
            result_texts(r) == if has(xml@, "<hierarchy"@) {
                Ok::<Seq<char>, Seq<char>>(xml@)
            } else {
                Err("uiautomator dump 内容异常: "@ + truncated(self.dump_path@, 80))
            },
    {
        if contains(xml.as_str(), "<hierarchy") {
            return Ok(xml);
        }
        let mut h = "uiautomator dump 内容异常: ".to_string();
        h.append(truncate(self.dump_path.as_str(), 80).as_str());
        Err(h)
    }
}

} // verus!
