//! The decisions of the analysis service's two endpoints: which analyses a
//! request asks for, where a beatmap file comes from, and which error each
//! failure is answered with.

use vstd::prelude::*;

use crate::okf::canonical::{json_string, push_json_string};
use crate::okf::hash::{chart_key, hex, md5};
use crate::okf::views::{to_lowercase, unicode_lowercase};
use crate::text::{concat2, push_str_chars, str_eq, string_from_chars};

verus! {

/// One analysis of a beatmap.
#[derive(Clone, Copy, Debug, PartialEq, Eq, Structural)]
pub enum AnalysisKind {
    Jump,
    Stream,
    Slider,
    FingerControl,
    AimControl,
    Reading,
}

/// The name an analysis is reported under.
pub open spec fn kind_name(k: AnalysisKind) -> Seq<char> {
    match k {
        AnalysisKind::Jump => "jump"@,
        AnalysisKind::Stream => "stream"@,
        AnalysisKind::Slider => "slider"@,
        AnalysisKind::FingerControl => "fingercontrol"@,
        AnalysisKind::AimControl => "aimcontrol"@,
        AnalysisKind::Reading => "reading"@,
    }
}

/// The name an analysis is reported under.
pub fn analysis_name(k: AnalysisKind) -> (s: &'static str)
    ensures
        s@ == kind_name(k),
{
    match k {
        AnalysisKind::Jump => "jump",
        AnalysisKind::Stream => "stream",
        AnalysisKind::Slider => "slider",
        AnalysisKind::FingerControl => "fingercontrol",
        AnalysisKind::AimControl => "aimcontrol",
        AnalysisKind::Reading => "reading",
    }
}

/// Every analysis, in the order `all` reports them.
pub open spec fn all_kinds() -> Seq<AnalysisKind> {
    seq![
        AnalysisKind::Jump,
        AnalysisKind::Stream,
        AnalysisKind::Slider,
        AnalysisKind::FingerControl,
        AnalysisKind::AimControl,
        AnalysisKind::Reading,
    ]
}

/// The analyses a lower-cased analysis type names: `all` names every one,
/// an analysis's own name names it; anything else names none.
pub open spec fn plan_for(t: Seq<char>) -> Option<Seq<AnalysisKind>> {
    if t == "all"@ {
        Some(all_kinds())
    } else if t == "aimcontrol"@ {
        Some(seq![AnalysisKind::AimControl])
    } else if t == "fingercontrol"@ {
        Some(seq![AnalysisKind::FingerControl])
    } else if t == "reading"@ {
        Some(seq![AnalysisKind::Reading])
    } else if t == "jump"@ {
        Some(seq![AnalysisKind::Jump])
    } else if t == "stream"@ {
        Some(seq![AnalysisKind::Stream])
    } else if t == "slider"@ {
        Some(seq![AnalysisKind::Slider])
    } else {
        None
    }
}

/// The message a request for an unknown analysis type is refused with.
pub open spec fn bad_type_message() -> Seq<char> {
    "Bad request: analyze_type must be all, jump, stream, slider, fingercontrol, aimcontrol, or reading"@
}

fn one_kind(k: AnalysisKind) -> (v: Vec<AnalysisKind>)
    ensures
        v@ == seq![k],
{
    let mut v: Vec<AnalysisKind> = Vec::new();
    v.push(k);
    assert(v@ =~= seq![k]);
    v
}

/// The analyses an analysis type asks for, compared case-insensitively.
pub fn analysis_plan(analyze_type: &str) -> (r: Option<Vec<AnalysisKind>>)
    ensures
        match r {
            Some(v) => plan_for(unicode_lowercase(analyze_type@)) == Some(v@),
            None => plan_for(unicode_lowercase(analyze_type@)) is None,
        },
{
    let lowered = to_lowercase(analyze_type);
    let t = lowered.as_str();
    if str_eq(t, "all") {
        let mut v: Vec<AnalysisKind> = Vec::new();
        v.push(AnalysisKind::Jump);
        v.push(AnalysisKind::Stream);
        v.push(AnalysisKind::Slider);
        v.push(AnalysisKind::FingerControl);
        v.push(AnalysisKind::AimControl);
        v.push(AnalysisKind::Reading);
        assert(v@ =~= all_kinds());
        Some(v)
    } else if str_eq(t, "aimcontrol") {
        Some(one_kind(AnalysisKind::AimControl))
    } else if str_eq(t, "fingercontrol") {
        Some(one_kind(AnalysisKind::FingerControl))
    } else if str_eq(t, "reading") {
        Some(one_kind(AnalysisKind::Reading))
    } else if str_eq(t, "jump") {
        Some(one_kind(AnalysisKind::Jump))
    } else if str_eq(t, "stream") {
        Some(one_kind(AnalysisKind::Stream))
    } else if str_eq(t, "slider") {
        Some(one_kind(AnalysisKind::Slider))
    } else {
        None
    }
}

/// The body of an error response: `{"error": message}`.
pub open spec fn error_body_text(message: Seq<char>) -> Seq<char> {
    "{\"error\":"@ + json_string(message) + "}"@
}

/// The body of an error response.
pub fn error_body(message: &str) -> (s: String)
    ensures
        s@ == error_body_text(message@),
{
    let mut out: Vec<char> = Vec::new();
    push_str_chars(&mut out, "{\"error\":");
    push_json_string(&mut out, message);
    push_str_chars(&mut out, "}");
    assert(out@ =~= error_body_text(message@));
    string_from_chars(&out)
}

/// What the analysis endpoint does next.
pub enum AnalyzeReply {
    /// Download the beatmap file into the map store.
    Download,
    /// Read the stored file and parse it.
    Load,
    /// Answer with this status and error message.
    Fail(u16, String),
    /// Run these analyses and answer with their results.
    Analyze(Vec<AnalysisKind>),
}

/// What happened while serving an analysis request.
pub enum AnalyzeEvent {
    /// The request came in; whether the beatmap file is already stored.
    Requested(bool),
    /// The download finished, or failed with this message.
    Downloaded(Result<(), String>),
    /// The file was parsed as a map (or failed with this message) and as a
    /// map for difficulty calculation (or not).
    Parsed(Result<(), String>, bool),
}

/// The next step of an analysis request for `analyze_type`.
pub fn analyze_step(analyze_type: &str, event: AnalyzeEvent) -> (r: AnalyzeReply)
    ensures
        match event {
            AnalyzeEvent::Requested(stored) => if stored {
                r is Load
            } else {
                r is Download
            },
            AnalyzeEvent::Downloaded(Err(e)) => r matches AnalyzeReply::Fail(status, m) && status == 500 && m@
                == "Failed to download beatmap: "@ + e@,
            AnalyzeEvent::Downloaded(Ok(())) => r is Load,
            AnalyzeEvent::Parsed(Err(e), _) => r matches AnalyzeReply::Fail(status, m) && status == 500 && m@
                == "Failed to parse map: "@ + e@,
            AnalyzeEvent::Parsed(Ok(()), false) => r matches AnalyzeReply::Fail(status, m) && status == 500 && m@
                == "Failed to parse PP map"@,
            AnalyzeEvent::Parsed(Ok(()), true) => match plan_for(unicode_lowercase(analyze_type@)) {
                Some(kinds) => r matches AnalyzeReply::Analyze(v) && v@ == kinds,
                None => r matches AnalyzeReply::Fail(status, m) && status == 400 && m@ == bad_type_message(),
            },
        },
{
    match event {
        AnalyzeEvent::Requested(stored) => if stored {
            AnalyzeReply::Load
        } else {
            AnalyzeReply::Download
        },
        AnalyzeEvent::Downloaded(Err(e)) => AnalyzeReply::Fail(500, concat2("Failed to download beatmap: ", e.as_str())),
        AnalyzeEvent::Downloaded(Ok(())) => AnalyzeReply::Load,
        AnalyzeEvent::Parsed(Err(e), _) => AnalyzeReply::Fail(500, concat2("Failed to parse map: ", e.as_str())),
        AnalyzeEvent::Parsed(Ok(()), false) => AnalyzeReply::Fail(500, "Failed to parse PP map".to_owned()),
        AnalyzeEvent::Parsed(Ok(()), true) => match analysis_plan(analyze_type) {
            Some(v) => AnalyzeReply::Analyze(v),
            None => AnalyzeReply::Fail(
                400,
                "Bad request: analyze_type must be all, jump, stream, slider, fingercontrol, aimcontrol, or reading".to_owned(),
            ),
        },
    }
}

/// The chart key of a stored beatmap file: the hex MD5 of its bytes, or
/// `unknown-md5` when it could not be read.
pub fn chart_key_or_unknown(read: Result<Vec<u8>, String>) -> (s: String)
    ensures
        match read {
            Ok(bytes) => s@ == hex(md5(bytes@)),
            Err(_) => s@ == "unknown-md5"@,
        },
{
    match read {
        Ok(bytes) => chart_key(bytes.as_slice()),
        Err(_) => "unknown-md5".to_owned(),
    }
}

/// The ranked status of a beatmap on the osu! website.
#[derive(Clone, Copy, Debug, PartialEq, Eq, Structural)]
pub enum RankStatus {
    Graveyard,
    Wip,
    Pending,
    Ranked,
    Approved,
    Qualified,
    Loved,
}

/// Maps that can still change are downloaded afresh rather than read from
/// the map store.
pub open spec fn downloads_afresh(status: RankStatus) -> bool {
    status is Graveyard || status is Wip || status is Pending
}

/// Whether a map of this status is downloaded afresh.
pub fn should_download(status: RankStatus) -> (b: bool)
    ensures
        b == downloads_afresh(status),
{
    match status {
        RankStatus::Graveyard | RankStatus::Wip | RankStatus::Pending => true,
        _ => false,
    }
}

/// How reading a stored beatmap file went.
pub enum LocalRead {
    /// The file's text.
    Text(String),
    /// The file opened but could not be read.
    ReadFailed(String),
    /// There is no such file.
    NotFound,
    /// The file could not be opened for another reason.
    OpenFailed(String),
}

/// What happened while serving a details request.
pub enum DetailsEvent {
    /// The beatmap's metadata: its status and whether its set came with it,
    /// or why it could not be fetched.
    Fetched(Result<(RankStatus, bool), String>),
    /// The downloaded file's text, or why it is not text, or why the
    /// download failed.
    Downloaded(Result<Result<String, String>, String>),
    /// How reading the stored file went.
    Read(LocalRead),
    /// Whether the file parsed, or why not.
    Parsed(Result<(), String>),
}

/// What the details endpoint does next.
pub enum DetailsReply {
    /// Download the beatmap file.
    Download,
    /// Read the stored beatmap file.
    ReadLocal,
    /// Parse this beatmap text.
    Parse(String),
    /// Answer with an internal error and this message.
    Fail(String),
    /// Compute the statistics and answer with the details.
    Respond,
}

/// The next step of a details request.
pub fn details_step(event: DetailsEvent) -> (r: DetailsReply)
    ensures
        match event {
            DetailsEvent::Fetched(Err(e)) => r matches DetailsReply::Fail(m) && m@ == "Error while fetching beatmap: "@ + e@,
            DetailsEvent::Fetched(Ok((status, has_set))) => if !has_set {
                r matches DetailsReply::Fail(m) && m@ == "Couldn't get beatmapset from beatmap (wtf?)"@
            } else if downloads_afresh(status) {
                r is Download
            } else {
                r is ReadLocal
            },
            DetailsEvent::Downloaded(Err(e)) => r matches DetailsReply::Fail(m) && m@ == "Error while downloading beatmap: "@
                + e@,
            DetailsEvent::Downloaded(Ok(Err(e))) => r matches DetailsReply::Fail(m) && m@
                == "Error while converting bytes to string: "@ + e@,
            DetailsEvent::Downloaded(Ok(Ok(text))) => r matches DetailsReply::Parse(t) && t@ == text@,
            DetailsEvent::Read(LocalRead::Text(text)) => r matches DetailsReply::Parse(t) && t@ == text@,
            DetailsEvent::Read(LocalRead::ReadFailed(e)) => r matches DetailsReply::Fail(m) && m@ == "Error while reading file: "@
                + e@,
            DetailsEvent::Read(LocalRead::NotFound) => r is Download,
            DetailsEvent::Read(LocalRead::OpenFailed(e)) => r matches DetailsReply::Fail(m) && m@ == "Internal server error: "@
                + e@,
            DetailsEvent::Parsed(Err(e)) => r matches DetailsReply::Fail(m) && m@ == "Error parsing beatmap: "@ + e@,
            DetailsEvent::Parsed(Ok(())) => r is Respond,
        },
{
    match event {
        DetailsEvent::Fetched(Err(e)) => DetailsReply::Fail(concat2("Error while fetching beatmap: ", e.as_str())),
        DetailsEvent::Fetched(Ok((status, has_set))) => if !has_set {
            DetailsReply::Fail("Couldn't get beatmapset from beatmap (wtf?)".to_owned())
        } else if should_download(status) {
            DetailsReply::Download
        } else {
            DetailsReply::ReadLocal
        },
        DetailsEvent::Downloaded(Err(e)) => DetailsReply::Fail(concat2("Error while downloading beatmap: ", e.as_str())),
        DetailsEvent::Downloaded(Ok(Err(e))) => DetailsReply::Fail(
            concat2("Error while converting bytes to string: ", e.as_str()),
        ),
        DetailsEvent::Downloaded(Ok(Ok(text))) => DetailsReply::Parse(text),
        DetailsEvent::Read(LocalRead::Text(text)) => DetailsReply::Parse(text),
        DetailsEvent::Read(LocalRead::ReadFailed(e)) => DetailsReply::Fail(concat2("Error while reading file: ", e.as_str())),
        DetailsEvent::Read(LocalRead::NotFound) => DetailsReply::Download,
        DetailsEvent::Read(LocalRead::OpenFailed(e)) => DetailsReply::Fail(concat2("Internal server error: ", e.as_str())),
        DetailsEvent::Parsed(Err(e)) => DetailsReply::Fail(concat2("Error parsing beatmap: ", e.as_str())),
        DetailsEvent::Parsed(Ok(())) => DetailsReply::Respond,
    }
}

} // verus!
