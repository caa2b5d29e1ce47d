//! A device that is reached from a computer through `adb`.

use vstd::prelude::*;

use crate::text::basic::same;
use crate::text::basic::texts;
use crate::text::number::dec;
use crate::text::number::dec_text;
use crate::text::search::contains;
use crate::text::search::has;
use crate::text::split::lines_of;
use crate::text::split::split_lines;
use crate::text::split::split_words;
use crate::text::split::words_of;
use crate::util::truncate;
use crate::util::truncated;

verus! {

/// How the screen is dumped.
#[derive(Debug, Clone, Copy, PartialEq, Eq, Structural)]
pub enum DumpMode {
    /// To the terminal, without a file. Newer systems do not give it.
    Tty,
    /// To a file on the device that is read back.
    File,
}

/// A device that is reached through `adb`.
#[derive(Debug)]
pub struct AdbDevice {
    pub serial: Option<String>,
    /// The way that worked the first time; it is kept from then on.
    pub dump_mode: Option<DumpMode>,
}

/// What follows from the first try to dump the screen.
#[derive(Debug)]
pub enum DumpStep {
    /// This is the result.
    Finished(Result<String, String>),
    /// The other way is to be tried; why the first did not work.
    TryFile(String),
}

/// The ids of the devices that are ready, by lines of the reply to `adb devices`.
pub open spec fn ready_in(lines: Seq<Seq<char>>) -> Seq<Seq<char>>
    decreases lines.len(),
{
    if lines.len() == 0 {
        seq![]
    } else {
        let before = ready_in(lines.drop_last());
        let words = words_of(lines.last());
        if words.len() >= 2 && words[1] == "device"@ {
            before.push(words[0])
        } else {
            before
        }
    }
}

/// The lines behind the first.
pub open spec fn behind_first(lines: Seq<Seq<char>>) -> Seq<Seq<char>> {
    if lines.len() == 0 {
        lines
    } else {
        lines.skip(1)
    }
}

/// A dump that shows a screen is the result; another is an error.
pub open spec fn dump_result(out: Seq<char>, error: Seq<char>) -> Result<Seq<char>, Seq<char>> {
    if has(out, "<hierarchy"@) {
        Ok(out)
    } else {
        Err(error + truncated(out, 80))
    }
}

/// The texts of a result.
pub open spec fn result_texts(r: Result<String, String>) -> Result<Seq<char>, Seq<char>> {
    match r {
        Ok(s) => Ok(s@),
        Err(e) => Err(e@),
    }
}

/// The file that the screen is dumped to, on the device. The number of the process keeps two
/// programs apart.
pub open spec fn dump_file(pid: u32) -> Seq<char> {
    "/data/local/tmp/.atraverse_dump_"@ + dec(pid as int) + ".xml"@
}

/// The file that the screen is dumped to, on the device.
pub fn dump_path(pid: u32) -> (r: String)
    ensures
        r@ == dump_file(pid),
{
    let mut h = "/data/local/tmp/.atraverse_dump_".to_string();
    h.append(dec_text(pid as u64).as_str());
    h.append(".xml");
    h
}

/// The bytes are those of a picture: not too few, and with the mark of a PNG file in front.
pub open spec fn is_picture(b: Seq<u8>) -> bool {
    b.len() >= 1024 && b[0] == 0x89 && b[1] == 0x50 && b[2] == 0x4e && b[3] == 0x47
}

/// The bytes of a picture; an error where they are none.
pub fn check_picture(bytes: Vec<u8>) -> (r: Result<Vec<u8>, String>)
    ensures
        match r {
            Ok(b) => is_picture(bytes@) && b@ == bytes@,
            Err(e) => !is_picture(bytes@) && e@ == "screencap 返回数据异常 ("@ + dec(
                bytes@.len() as int,
            ) + " 字节)"@,
        },
{
    if bytes.len() >= 1024 && bytes[0] == 0x89 && bytes[1] == 0x50 && bytes[2] == 0x4e && bytes[3]
        == 0x47 {
        return Ok(bytes);
    }
    let mut h = "screencap 返回数据异常 (".to_string();
    h.append(dec_text(bytes.len() as u64).as_str());
    h.append(" 字节)");
    Err(h)
}

impl AdbDevice {
    /// A device with the id; the only one where there is none.
    pub fn new(serial: Option<String>) -> (r: Self)
        ensures
            r.serial == serial,
            r.dump_mode is None,
    {
        AdbDevice { serial, dump_mode: None }
    }

    /// What is handed to `adb`: the id of the device in front of the rest.
    pub fn args(&self, rest: Vec<String>) -> (r: Vec<String>)
        ensures
            texts(r@) == match self.serial {
                Some(s) => seq!["-s"@, s@] + texts(rest@),
                None => texts(rest@),
            },
    {
        match &self.serial {
            Some(s) => {
                let mut out: Vec<String> = Vec::new();
                out.push("-s".to_string());
                out.push(s.clone());
                let ghost front = texts(out@);
                assert(front =~= seq!["-s"@, s@]);
                let mut i: usize = 0;
                while i < rest.len()
                    invariant
                        i <= rest@.len(),
                        front.len() == 2,
                        texts(out@) == front + texts(rest@).take(i as int),
                    decreases rest@.len() - i,
                {
                    let ghost before = texts(out@);
                    out.push(rest[i].clone());
                    assert(texts(out@) =~= before.push(rest@[i as int]@));
                    assert(front + texts(rest@).take(i + 1) =~= before.push(rest@[i as int]@));
                    i = i + 1;
                }
                assert(texts(rest@).take(i as int) =~= texts(rest@));
                out
            },
            None => rest,
        }
    }

    /// The ids of the devices that are ready, by the reply to `adb devices`.
    pub fn devices(out: &str) -> (r: Vec<String>)
        ensures
            texts(r@) == ready_in(behind_first(lines_of(out@))),
    {
        let lines = split_lines(out);
        let ghost all = behind_first(texts(lines@));
        let mut v: Vec<String> = Vec::new();
        assert(texts(v@) =~= seq![]);
        if lines.len() == 0 {
            return v;
        }
        let mut i: usize = 1;
        assert(all.take(0) =~= seq![]);
        while i < lines.len()
            invariant
                1 <= i <= lines@.len(),
                all == texts(lines@).skip(1),
                texts(v@) == ready_in(all.take(i - 1)),
            decreases lines@.len() - i,
        {
            let words = split_words(lines[i].as_str());
            proof {
                assert(all.take(i as int).drop_last() =~= all.take(i - 1));
                assert(all.take(i as int).last() == lines@[i as int]@);
                assert(texts(words@).len() == words@.len());
            }
            let ghost before = texts(v@);
            if words.len() >= 2 && same(words[1].as_str(), "device") {
                v.push(words[0].clone());
                assert(texts(v@) =~= before.push(words@[0]@));
            }
            i = i + 1;
        }
        assert(all.take(i - 1) =~= all);
        v
    }

    /// The device is among those that are ready; any of them does where it has no id.
    pub fn is_ready(&self, devs: &Vec<String>) -> (r: bool)
        ensures
            r == match self.serial {
                Some(s) => texts(devs@).contains(s@),
                None => devs@.len() > 0,
            },
    {
        match &self.serial {
            Some(s) => {
                let mut i: usize = 0;
                while i < devs.len()
                    invariant
                        i <= devs@.len(),
                        self.serial == Some(*s),
                        forall|j: int| 0 <= j < i ==> #[trigger] texts(devs@)[j] != s@,
                    decreases devs@.len() - i,
                {
                    if same(devs[i].as_str(), s.as_str()) {
                        assert(texts(devs@)[i as int] == s@);
                        return true;
                    }
                    i = i + 1;
                }
                false
            },
            None => devs.len() > 0,
        }
    }

    /// What came from a dump to the terminal.
    pub fn dump_to_tty(out: String) -> (r: Result<String, String>)
        ensures
            result_texts(r) == dump_result(out@, "/dev/tty 未返回控件树: "@),
    {
        if contains(out.as_str(), "<hierarchy") {
            return Ok(out);
        }
        let mut h = "/dev/tty 未返回控件树: ".to_string();
        h.append(truncate(out.as_str(), 80).as_str());
        Err(h)
    }

    /// What came from a dump to a file.
    pub fn dump_to_file(out: String) -> (r: Result<String, String>)
        ensures
            result_texts(r) == dump_result(out@, "文件方式未返回控件树: "@),
    {
        if contains(out.as_str(), "<hierarchy") {
            return Ok(out);
        }
        let mut h = "文件方式未返回控件树: ".to_string();
        h.append(truncate(out.as_str(), 80).as_str());
        Err(h)
    }

    /// The way to try first: the one that has worked, else the terminal.
    pub fn first_way(&self) -> (r: DumpMode)
        ensures
            r == match self.dump_mode {
                Some(m) => m,
                None => DumpMode::Tty,
            },
    {
        match self.dump_mode {
            Some(m) => m,
            None => DumpMode::Tty,
        }
    }

    /// The first way was tried.
    pub fn tried_first(&mut self, tried: Result<String, String>) -> (r: DumpStep)
        ensures
            final(self).serial == old(self).serial,
            match old(self).dump_mode {
                Some(m) => r == DumpStep::Finished(tried) && final(self).dump_mode == Some(m),
                None => match tried {
                    Ok(_) => r == DumpStep::Finished(tried) && final(self).dump_mode == Some(
                        DumpMode::Tty,
                    ),
                    Err(e) => r == DumpStep::TryFile(e) && final(self).dump_mode is None,
                },
            },
    {
        if self.dump_mode.is_some() {
            return DumpStep::Finished(tried);
        }
        match tried {
            Ok(xml) => {
                self.dump_mode = Some(DumpMode::Tty);
                DumpStep::Finished(Ok(xml))
            },
            Err(e) => DumpStep::TryFile(e),
        }
    }

    /// The file was tried, after the terminal did not work for the given reason.
    pub fn tried_file(&mut self, first: String, tried: Result<String, String>) -> (r: Result<
        String,
        String,
    >)
        ensures
            final(self).serial == old(self).serial,
            match tried {
                Ok(xml) => r == tried && final(self).dump_mode == Some(DumpMode::File),
                Err(e) => final(self).dump_mode == old(self).dump_mode && result_texts(r) == Err::<
                    Seq<char>,
                    Seq<char>,
                >("uiautomator dump 失败：/dev/tty -> "@ + first@ + "；文件方式 -> "@ + e@),
            },
    {
        match tried {
            Ok(xml) => {
                self.dump_mode = Some(DumpMode::File);
                Ok(xml)
            },
            Err(e) => {
                let mut h = "uiautomator dump 失败：/dev/tty -> ".to_string();
                h.append(first.as_str());
                h.append("；文件方式 -> ");
                h.append(e.as_str());
                Err(h)
            },
        }
    }
}

} // verus!
