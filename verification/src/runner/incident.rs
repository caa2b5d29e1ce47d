//! What is kept of an incident: a file with all that could be found out, and a picture of the
//! scene.

use vstd::prelude::*;

use crate::monitor::collect::Incident;
use crate::monitor::collect::IncidentView;
use crate::monitor::line::kind_cn_text;
use crate::monitor::line::kind_text;
use crate::monitor::line::IncidentKind;
use crate::text::number::dec;
use crate::text::number::dec_text;
use crate::text::number::padded_dec;
use crate::text::number::zero_padded;
use crate::text::search::blank;
use crate::text::search::is_blank;

verus! {

/// Pictures are taken of so many incidents at most, so that a storm of them does not hold the run
/// up.
pub const MAX_INCIDENT_SHOTS: usize = 20;

/// More is found out about so many incidents at most.
pub const MAX_EVIDENCE: usize = 3;

/// A picture of the scene is taken.
pub fn wants_shot(screenshot: bool, seq: usize) -> (r: bool)
    ensures
        r == (screenshot && seq <= MAX_INCIDENT_SHOTS),
        r == (screenshot && seq <= 20),
{
    screenshot && seq <= MAX_INCIDENT_SHOTS
}

/// The kind of an incident and its number, in two digits at least.
pub open spec fn stem_of(kind: IncidentKind, seq: usize) -> Seq<char> {
    kind_text(kind) + "_"@ + zero_padded(dec(seq as int), 2)
}

fn stem(kind: IncidentKind, seq: usize) -> (r: String)
    ensures
        r@ == stem_of(kind, seq),
{
    let mut h = kind.as_str().to_string();
    h.append("_");
    h.append(padded_dec(seq as u64, 2).as_str());
    h
}

/// The file about an incident, seen from the directory of the run.
pub open spec fn file_of(kind: IncidentKind, seq: usize, stamp: Seq<char>) -> Seq<char> {
    "incidents/"@ + stem_of(kind, seq) + "_"@ + stamp + ".txt"@
}

/// The file about an incident, seen from the directory of the run.
pub fn incident_file(kind: IncidentKind, seq: usize, stamp: &str) -> (r: String)
    ensures
        r@ == file_of(kind, seq, stamp@),
{
    let mut h = "incidents/".to_string();
    h.append(stem(kind, seq).as_str());
    h.append("_");
    h.append(stamp);
    h.append(".txt");
    h
}

/// The picture of the scene, seen from the directory of the run.
pub open spec fn shot_of(kind: IncidentKind, seq: usize) -> Seq<char> {
    "incidents/"@ + stem_of(kind, seq) + ".png"@
}

/// The picture of the scene, seen from the directory of the run.
pub fn incident_shot(kind: IncidentKind, seq: usize) -> (r: String)
    ensures
        r@ == shot_of(kind, seq),
{
    let mut h = "incidents/".to_string();
    h.append(stem(kind, seq).as_str());
    h.append(".png");
    h
}

/// The small picture of the scene, seen from the directory of the run.
pub open spec fn thumb_of(kind: IncidentKind, seq: usize) -> Seq<char> {
    "thumbs/"@ + stem_of(kind, seq) + ".png"@
}

/// The small picture of the scene, seen from the directory of the run.
pub fn incident_thumb(kind: IncidentKind, seq: usize) -> (r: String)
    ensures
        r@ == thumb_of(kind, seq),
{
    let mut h = "thumbs/".to_string();
    h.append(stem(kind, seq).as_str());
    h.append(".png");
    h
}

/// Where more is found out.
#[derive(Debug, Clone, Copy, PartialEq, Eq, Structural)]
pub enum Evidence {
    AnrTraces,
    AnrRecords,
    CrashRecords,
    NativeRecords,
    Tombstones,
}

/// What the records of a source are called on the device.
pub open spec fn tag_of(e: Evidence) -> Seq<char> {
    match e {
        Evidence::AnrRecords => "data_app_anr"@,
        Evidence::CrashRecords => "data_app_crash"@,
        Evidence::NativeRecords => "system_app_native_crash"@,
        _ => ""@,
    }
}

/// What stands above the findings from a source.
pub open spec fn heading_of(e: Evidence) -> Seq<char> {
    match e {
        Evidence::AnrTraces => "\n---- /data/anr/traces.txt ----\n"@,
        Evidence::AnrRecords => "\n---- dropbox data_app_anr ----\n"@,
        Evidence::CrashRecords => "\n---- dropbox data_app_crash ----\n"@,
        Evidence::NativeRecords => "\n---- dropbox native ----\n"@,
        Evidence::Tombstones => "\n---- tombstone ----\n"@,
    }
}

impl Evidence {
    /// What the records of the source are called on the device.
    pub fn tag(&self) -> (r: &'static str)
        ensures
            r@ == tag_of(*self),
    {
        match self {
            Evidence::AnrRecords => "data_app_anr",
            Evidence::CrashRecords => "data_app_crash",
            Evidence::NativeRecords => "system_app_native_crash",
            _ => "",
        }
    }

    /// What stands above the findings from the source.
    pub fn heading(&self) -> (r: &'static str)
        ensures
            r@ == heading_of(*self),
    {
        match self {
            Evidence::AnrTraces => "\n---- /data/anr/traces.txt ----\n",
            Evidence::AnrRecords => "\n---- dropbox data_app_anr ----\n",
            Evidence::CrashRecords => "\n---- dropbox data_app_crash ----\n",
            Evidence::NativeRecords => "\n---- dropbox native ----\n",
            Evidence::Tombstones => "\n---- tombstone ----\n",
        }
    }
}

/// Where more is found out about an incident, in order: nowhere after the first few.
pub open spec fn evidence_for(kind: IncidentKind, seq: usize) -> Seq<Evidence> {
    if seq > MAX_EVIDENCE {
        seq![]
    } else {
        match kind {
            IncidentKind::Anr => seq![Evidence::AnrTraces, Evidence::AnrRecords],
            IncidentKind::Crash => seq![Evidence::CrashRecords],
            IncidentKind::NativeCrash => seq![Evidence::NativeRecords, Evidence::Tombstones],
        }
    }
}

/// Where more is found out about an incident.
pub fn evidence_plan(kind: IncidentKind, seq: usize) -> (r: Vec<Evidence>)
    ensures
        r@ == evidence_for(kind, seq),
{
    let mut v: Vec<Evidence> = Vec::new();
    if seq <= MAX_EVIDENCE {
        match kind {
            IncidentKind::Anr => {
                v.push(Evidence::AnrTraces);
                v.push(Evidence::AnrRecords);
            },
            IncidentKind::Crash => {
                v.push(Evidence::CrashRecords);
            },
            IncidentKind::NativeCrash => {
                v.push(Evidence::NativeRecords);
                v.push(Evidence::Tombstones);
            },
        }
    }
    assert(v@ =~= evidence_for(kind, seq));
    v
}

/// What was found out, from where.
pub struct Finding {
    pub source: Evidence,
    pub text: String,
}

/// The findings, each under its heading; those that say nothing are left out.
pub open spec fn findings_text(s: Seq<Finding>) -> Seq<char>
    decreases s.len(),
{
    if s.len() == 0 {
        seq![]
    } else {
        let before = findings_text(s.drop_last());
        if blank(s.last().text@) {
            before
        } else {
            before + heading_of(s.last().source) + s.last().text@
        }
    }
}

/// The step in which an incident happened.
pub open spec fn step_line(step: Option<usize>) -> Seq<char> {
    match step {
        Some(n) => "步骤: #"@ + dec(n as int) + "\n"@,
        None => seq![],
    }
}

/// Where the picture of the scene is.
pub open spec fn shot_line(shot: Option<Seq<char>>) -> Seq<char> {
    match shot {
        Some(p) => "\n---- 现场截图 ----\n"@ + p + "\n"@,
        None => seq![],
    }
}

/// The file about an incident.
pub open spec fn body_of(i: IncidentView, found: Seq<Finding>, shot: Option<Seq<char>>) -> Seq<
    char,
> {
    "类型: "@ + kind_cn_text(i.kind) + "\n时间: "@ + i.time + "\n包名: "@ + i.package + "\n"@
        + step_line(i.step) + "摘要: "@ + i.summary + "\n\n---- logcat ----\n"@ + i.detail + "\n"@
        + findings_text(found) + shot_line(shot)
}

fn show_findings(found: &Vec<Finding>) -> (r: String)
    ensures
        r@ == findings_text(found@),
{
    let mut out = String::new();
    let mut i: usize = 0;
    assert(out@ =~= findings_text(found@.take(0)));
    while i < found.len()
        invariant
            i <= found@.len(),
            out@ == findings_text(found@.take(i as int)),
        decreases found@.len() - i,
    {
        proof {
            assert(found@.take(i + 1).drop_last() =~= found@.take(i as int));
            assert(found@.take(i + 1).last() == found@[i as int]);
        }
        if !is_blank(found[i].text.as_str()) {
            out.append(found[i].source.heading());
            out.append(found[i].text.as_str());
        }
        i = i + 1;
    }
    assert(found@.take(i as int) =~= found@);
    out
}

fn show_step_line(step: Option<usize>) -> (r: String)
    ensures
        r@ == step_line(step),
{
    match step {
        Some(n) => {
            let mut h = "步骤: #".to_string();
            h.append(dec_text(n as u64).as_str());
            h.append("\n");
            h
        },
        None => {
            let e = String::new();
            assert(e@ =~= seq![]);
            e
        },
    }
}

fn show_shot_line(shot: Option<&str>) -> (r: String)
    ensures
        r@ == shot_line(
            match shot {
                Some(p) => Some(p@),
                None => None,
            },
        ),
{
    match shot {
        Some(p) => {
            let mut h = "\n---- 现场截图 ----\n".to_string();
            h.append(p);
            h.append("\n");
            h
        },
        None => {
            let e = String::new();
            assert(e@ =~= seq![]);
            e
        },
    }
}

/// The file about an incident, with what was found out and where the picture of the scene is.
pub fn incident_body(inc: &Incident, found: &Vec<Finding>, shot: Option<&str>) -> (r: String)
    ensures
        r@ == body_of(
            inc@,
            found@,
            match shot {
                Some(p) => Some(p@),
                None => None,
            },
        ),
{
    let mut h = "类型: ".to_string();
    h.append(inc.kind.cn());
    h.append("\n时间: ");
    h.append(inc.time.as_str());
    h.append("\n包名: ");
    h.append(inc.package.as_str());
    h.append("\n");
    h.append(show_step_line(inc.step).as_str());
    h.append("摘要: ");
    h.append(inc.summary.as_str());
    h.append("\n\n---- logcat ----\n");
    h.append(inc.detail.as_str());
    h.append("\n");
    h.append(show_findings(found).as_str());
    h.append(show_shot_line(shot).as_str());
    h
}

} // verus!
