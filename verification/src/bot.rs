//! Input handling and result types of the chat-bot front end.

use vstd::prelude::*;

use crate::text::{
    concat2, find_chars, first_occurrence, lemma_first_occurrence_occurs, occurs_at, parse_u32, parse_u32_spec, str_chars,
    str_eq,
};

verus! {

/// A character that ends a beatmap id inside a URL.
pub open spec fn is_id_delimiter(c: char) -> bool {
    c == '/' || c == '?' || c == ' '
}

/// The characters of `s` up to (not including) the first delimiter.
pub open spec fn until_delimiter(s: Seq<char>) -> Seq<char>
    decreases s.len(),
{
    if s.len() == 0 || is_id_delimiter(s[0]) {
        Seq::empty()
    } else {
        seq![s[0]] + until_delimiter(s.drop_first())
    }
}

/// The beatmap id that follows the first occurrence of `marker` in `input`.
pub open spec fn id_after(input: Seq<char>, marker: Seq<char>, at: int) -> Option<u32> {
    parse_u32_spec(until_delimiter(input.skip(at + marker.len())))
}

/// The beatmap id named by a chat input: the input itself when it is a
/// number, else the number after the first `/b/`, else the number after the
/// first `#osu/`.
pub open spec fn beatmap_id_spec(input: Seq<char>) -> Option<u32> {
    if parse_u32_spec(input) is Some {
        parse_u32_spec(input)
    } else if first_occurrence(input, "/b/"@) is Some {
        id_after(input, "/b/"@, first_occurrence(input, "/b/"@)->0)
    } else if first_occurrence(input, "#osu/"@) is Some {
        id_after(input, "#osu/"@, first_occurrence(input, "#osu/"@)->0)
    } else {
        None
    }
}

fn id_segment(chars: &[char], from: usize) -> (seg: Vec<char>)
    requires
        from <= chars.len(),
    ensures
        seg@ == until_delimiter(chars@.skip(from as int)),
{
    let mut seg: Vec<char> = Vec::new();
    let mut i = from;
    while i < chars.len() && !(chars[i] == '/' || chars[i] == '?' || chars[i] == ' ')
        invariant
            from <= i <= chars.len(),
            seg@ + until_delimiter(chars@.skip(i as int)) == until_delimiter(chars@.skip(from as int)),
        decreases chars.len() - i,
    {
        assert(chars@.skip(i as int).drop_first() == chars@.skip(i + 1));
        seg.push(chars[i]);
        i = i + 1;
    }
    if i < chars.len() {
        assert(is_id_delimiter(chars@.skip(i as int)[0]));
    }
    assert(seg@ + Seq::<char>::empty() == seg@);
    seg
}

/// Extracts a beatmap id from a number or a beatmap URL.
pub fn parse_beatmap_id(input: &str) -> (r: Option<u32>)
    ensures
        r == beatmap_id_spec(input@),
{
    let chars = str_chars(input);
    if let Some(id) = parse_u32(chars.as_slice()) {
        return Some(id);
    }
    let marker_b = str_chars("/b/");
    if let Some(pos) = find_chars(chars.as_slice(), marker_b.as_slice()) {
        proof {
            lemma_first_occurrence_occurs(chars@, marker_b@);
            assert(occurs_at(chars@, marker_b@, pos as int));
            assert(pos + marker_b@.len() <= chars@.len());
            assert(chars@.len() == chars.len());
        }
        let seg = id_segment(chars.as_slice(), pos + marker_b.len());
        return parse_u32(seg.as_slice());
    }
    let marker_osu = str_chars("#osu/");
    if let Some(pos) = find_chars(chars.as_slice(), marker_osu.as_slice()) {
        proof {
            lemma_first_occurrence_occurs(chars@, marker_osu@);
            assert(occurs_at(chars@, marker_osu@, pos as int));
            assert(pos + marker_osu@.len() <= chars@.len());
            assert(chars@.len() == chars.len());
        }
        let seg = id_segment(chars.as_slice(), pos + marker_osu.len());
        return parse_u32(seg.as_slice());
    }
    None
}

/// Counts of transitions between consecutive patterns, as reported.
#[derive(Clone, Copy, PartialEq, Eq, Debug, Structural)]
pub struct CategoryCounts {
    pub odd_to_odd: i32,
    pub even_to_even: i32,
    pub odd_to_even: i32,
    pub rhythmic_resets: i32,
}

/// Movement counts by spacing class.
#[derive(Clone, Copy, PartialEq, Eq, Debug, Structural)]
pub struct SpacingDistribution {
    pub stacked: i32,
    pub micro: i32,
    pub flow: i32,
    pub standard: i32,
    pub large: i32,
}

/// Movement counts by deflection-angle class.
#[derive(Clone, Copy, PartialEq, Eq, Debug, Structural)]
pub struct AngleDistribution {
    pub snap_backs: i32,
    pub acute: i32,
    pub wide: i32,
    pub linear: i32,
}

/// Movement counts by relative velocity class.
#[derive(Clone, Copy, PartialEq, Eq, Debug, Structural)]
pub struct VelocityDistribution {
    pub significantly_slower: i32,
    pub slower: i32,
    pub mean: i32,
    pub faster: i32,
    pub significantly_faster: i32,
}

/// Alignment counts of movements two steps apart.
#[derive(Clone, Copy, PartialEq, Eq, Debug, Structural)]
pub struct AlignmentData {
    pub parallel: i32,
    pub orthogonal: i32,
    pub anti_symmetric: i32,
}

/// Directional mechanics, as reported.
#[derive(Clone, Copy, PartialEq, Eq, Debug, Structural)]
pub struct VectorsData {
    pub directional_flips: i32,
    pub directional_chirps: i32,
    pub alignment: AlignmentData,
}

/// A slash command of the bot.
#[derive(Clone, Copy, Debug, PartialEq, Eq, Structural)]
pub enum BotCommand {
    All,
    Jump,
    Stream,
    Slider,
    FingerCtrl,
    AimCtrl,
    Reading,
}

/// The command registered under a name.
pub open spec fn command_named(name: Seq<char>) -> Option<BotCommand> {
    if name == "analyze-all"@ {
        Some(BotCommand::All)
    } else if name == "analyze-jump"@ {
        Some(BotCommand::Jump)
    } else if name == "analyze-stream"@ {
        Some(BotCommand::Stream)
    } else if name == "analyze-slider"@ {
        Some(BotCommand::Slider)
    } else if name == "analyze-finger_ctrl"@ {
        Some(BotCommand::FingerCtrl)
    } else if name == "analyze-aim_ctrl"@ {
        Some(BotCommand::AimCtrl)
    } else if name == "analyze-reading"@ {
        Some(BotCommand::Reading)
    } else {
        None
    }
}

/// The command registered under a name, if any.
pub fn command_of(name: &str) -> (r: Option<BotCommand>)
    ensures
        r == command_named(name@),
{
    if str_eq(name, "analyze-all") {
        Some(BotCommand::All)
    } else if str_eq(name, "analyze-jump") {
        Some(BotCommand::Jump)
    } else if str_eq(name, "analyze-stream") {
        Some(BotCommand::Stream)
    } else if str_eq(name, "analyze-slider") {
        Some(BotCommand::Slider)
    } else if str_eq(name, "analyze-finger_ctrl") {
        Some(BotCommand::FingerCtrl)
    } else if str_eq(name, "analyze-aim_ctrl") {
        Some(BotCommand::AimCtrl)
    } else if str_eq(name, "analyze-reading") {
        Some(BotCommand::Reading)
    } else {
        None
    }
}

/// The analysis a command asks the backend for, and the sections it shows:
/// the overview first, then the analysis (every one for `analyze-all`).
pub open spec fn command_plan_spec(c: BotCommand) -> (Seq<char>, Seq<Seq<char>>) {
    match c {
        BotCommand::All => (
            "all"@,
            seq!["overview"@, "jump"@, "stream"@, "slider"@, "fingerctrl"@, "aimctrl"@, "reading"@],
        ),
        BotCommand::Jump => ("jump"@, seq!["overview"@, "jump"@]),
        BotCommand::Stream => ("stream"@, seq!["overview"@, "stream"@]),
        BotCommand::Slider => ("slider"@, seq!["overview"@, "slider"@]),
        BotCommand::FingerCtrl => ("fingercontrol"@, seq!["overview"@, "fingerctrl"@]),
        BotCommand::AimCtrl => ("aimcontrol"@, seq!["overview"@, "aimctrl"@]),
        BotCommand::Reading => ("reading"@, seq!["overview"@, "reading"@]),
    }
}

/// The analysis type a command asks for and the sections it shows.
pub fn command_plan(c: BotCommand) -> (r: (&'static str, Vec<&'static str>))
    ensures
        r.0@ == command_plan_spec(c).0,
        r.1@.map_values(|s: &str| s@) == command_plan_spec(c).1,
{
    let mut sections: Vec<&'static str> = Vec::new();
    sections.push("overview");
    let t = match c {
        BotCommand::All => {
            sections.push("jump");
            sections.push("stream");
            sections.push("slider");
            sections.push("fingerctrl");
            sections.push("aimctrl");
            sections.push("reading");
            "all"
        },
        BotCommand::Jump => {
            sections.push("jump");
            "jump"
        },
        BotCommand::Stream => {
            sections.push("stream");
            "stream"
        },
        BotCommand::Slider => {
            sections.push("slider");
            "slider"
        },
        BotCommand::FingerCtrl => {
            sections.push("fingerctrl");
            "fingercontrol"
        },
        BotCommand::AimCtrl => {
            sections.push("aimctrl");
            "aimcontrol"
        },
        BotCommand::Reading => {
            sections.push("reading");
            "reading"
        },
    };
    assert(sections@.map_values(|s: &str| s@) =~= command_plan_spec(c).1);
    (t, sections)
}

/// The reply to a beatmap argument that names no beatmap.
pub open spec fn invalid_beatmap_message() -> Seq<char> {
    "Invalid beatmap. Please provide a beatmap ID or URL (e.g. `https://osu.ppy.sh/b/123456`)."@
}

/// What happened while serving a command.
pub enum BotEvent {
    /// The response was deferred, or deferring failed.
    Deferred(Result<(), String>),
    /// The command's beatmap argument (empty when absent).
    Argument(String),
    /// The details and the analysis were fetched, or failed with these
    /// messages.
    Fetched(Result<(), String>, Result<(), String>),
}

/// What the bot does next for a command.
pub enum BotReply {
    /// Give up silently.
    Stop,
    /// Read the beatmap argument.
    ReadArgument,
    /// Fetch the details and the analysis of this beatmap.
    Fetch(u32),
    /// Edit the response to this text.
    Say(String),
    /// Build the embeds of the sections from what was fetched.
    Render,
}

/// The next step of a command.
pub fn command_step(event: BotEvent) -> (r: BotReply)
    ensures
        match event {
            BotEvent::Deferred(Err(_)) => r is Stop,
            BotEvent::Deferred(Ok(())) => r is ReadArgument,
            BotEvent::Argument(a) => match beatmap_id_spec(a@) {
                Some(id) => r == BotReply::Fetch(id),
                None => r matches BotReply::Say(m) && m@ == invalid_beatmap_message(),
            },
            BotEvent::Fetched(Err(e), _) => r matches BotReply::Say(m) && m@ == "Error fetching beatmap details: "@ + e@,
            BotEvent::Fetched(Ok(()), Err(e)) => r matches BotReply::Say(m) && m@ == "Error analyzing beatmap: "@ + e@,
            BotEvent::Fetched(Ok(()), Ok(())) => r is Render,
        },
{
    match event {
        BotEvent::Deferred(Err(_)) => BotReply::Stop,
        BotEvent::Deferred(Ok(())) => BotReply::ReadArgument,
        BotEvent::Argument(a) => match parse_beatmap_id(a.as_str()) {
            Some(id) => BotReply::Fetch(id),
            None => BotReply::Say(
                "Invalid beatmap. Please provide a beatmap ID or URL (e.g. `https://osu.ppy.sh/b/123456`).".to_owned(),
            ),
        },
        BotEvent::Fetched(Err(e), _) => BotReply::Say(concat2("Error fetching beatmap details: ", e.as_str())),
        BotEvent::Fetched(Ok(()), Err(e)) => BotReply::Say(concat2("Error analyzing beatmap: ", e.as_str())),
        BotEvent::Fetched(Ok(()), Ok(())) => BotReply::Render,
    }
}

/// The fields of a stored analysis that only the graphs use, as paths of
/// keys, which the chat embeds leave out.
pub open spec fn graph_only_fields(analysis_type: Seq<char>) -> Seq<Seq<Seq<char>>> {
    if analysis_type == "fingercontrol"@ {
        seq![seq!["timeline"@]]
    } else if analysis_type == "reading"@ {
        seq![seq!["trajectoryTimeline"@], seq!["topography"@, "klines"@]]
    } else {
        Seq::empty()
    }
}

/// The graph-only fields of an analysis type, as paths of keys.
pub fn stripped_fields(analysis_type: &str) -> (r: Vec<Vec<&'static str>>)
    ensures
        r@.map_values(|p: Vec<&'static str>| p@.map_values(|k: &str| k@)) == graph_only_fields(analysis_type@),
{
    let mut r: Vec<Vec<&'static str>> = Vec::new();
    if str_eq(analysis_type, "fingercontrol") {
        let mut p: Vec<&'static str> = Vec::new();
        p.push("timeline");
        r.push(p);
        assert(r@[0]@.map_values(|k: &str| k@) =~= seq!["timeline"@]);
        assert(r@.map_values(|p: Vec<&'static str>| p@.map_values(|k: &str| k@)) =~= graph_only_fields(analysis_type@));
    } else if str_eq(analysis_type, "reading") {
        let mut p: Vec<&'static str> = Vec::new();
        p.push("trajectoryTimeline");
        r.push(p);
        let mut q: Vec<&'static str> = Vec::new();
        q.push("topography");
        q.push("klines");
        r.push(q);
        assert(r@[0]@.map_values(|k: &str| k@) =~= seq!["trajectoryTimeline"@]);
        assert(r@[1]@.map_values(|k: &str| k@) =~= seq!["topography"@, "klines"@]);
        assert(r@.map_values(|p: Vec<&'static str>| p@.map_values(|k: &str| k@)) =~= graph_only_fields(analysis_type@));
    } else {
        assert(r@.map_values(|p: Vec<&'static str>| p@.map_values(|k: &str| k@)) =~= graph_only_fields(analysis_type@));
    }
    r
}

/// The position of the first result of the given analysis type.
pub open spec fn first_of_type(types: Seq<Seq<char>>, t: Seq<char>) -> Option<int> {
    if exists|i: int| 0 <= i < types.len() && types[i] == t {
        Some(choose|i: int| 0 <= i < types.len() && types[i] == t && forall|j: int| 0 <= j < i ==> types[j] != t)
    } else {
        None
    }
}

/// The position of the first result of the given analysis type.
pub fn find_result(types: &[String], t: &str) -> (r: Option<usize>)
    ensures
        match r {
            Some(i) => first_of_type(types@.map_values(|s: String| s@), t@) == Some(i as int),
            None => first_of_type(types@.map_values(|s: String| s@), t@) is None,
        },
{
    let ghost tv = types@.map_values(|s: String| s@);
    let mut i: usize = 0;
    while i < types.len()
        invariant
            tv == types@.map_values(|s: String| s@),
            i <= types.len(),
            forall|j: int| 0 <= j < i ==> tv[j] != t@,
        decreases types.len() - i,
    {
        if str_eq(types[i].as_str(), t) {
            assert(tv[i as int] == t@);
            proof {
                let c = choose|k: int| 0 <= k < tv.len() && tv[k] == t@ && forall|j: int| 0 <= j < k ==> tv[j] != t@;
                assert(c == i) by {
                    if c < i {
                        assert(tv[c] != t@);
                    }
                    if c > i {
                        assert(tv[i as int] != t@);
                    }
                }
            }
            return Some(i);
        }
        i = i + 1;
    }
    None
}

/// The title and colour of the placeholder embed of a section whose
/// analysis is unavailable.
pub open spec fn placeholder_spec(section: Seq<char>) -> Option<(Seq<char>, u32)> {
    if section == "jump"@ {
        Some(("Jump Analysis"@, 0xec4899))
    } else if section == "stream"@ {
        Some(("Stream Analysis"@, 0x3b82f6))
    } else if section == "slider"@ {
        Some(("Slider Analysis"@, 0x22c55e))
    } else if section == "fingerctrl"@ {
        Some(("Finger Control Analysis"@, 0xa855f7))
    } else if section == "aimctrl"@ {
        Some(("Aim Control Analysis"@, 0xf97316))
    } else if section == "reading"@ {
        Some(("Reading Analysis"@, 0x06b6d4))
    } else {
        None
    }
}

/// The title and colour of a section's placeholder embed (the overview
/// has none).
pub fn placeholder_embed(section: &str) -> (r: Option<(&'static str, u32)>)
    ensures
        match r {
            Some((title, color)) => placeholder_spec(section@) == Some((title@, color)),
            None => placeholder_spec(section@) is None,
        },
{
    if str_eq(section, "jump") {
        Some(("Jump Analysis", 0xec4899))
    } else if str_eq(section, "stream") {
        Some(("Stream Analysis", 0x3b82f6))
    } else if str_eq(section, "slider") {
        Some(("Slider Analysis", 0x22c55e))
    } else if str_eq(section, "fingerctrl") {
        Some(("Finger Control Analysis", 0xa855f7))
    } else if str_eq(section, "aimctrl") {
        Some(("Aim Control Analysis", 0xf97316))
    } else if str_eq(section, "reading") {
        Some(("Reading Analysis", 0x06b6d4))
    } else {
        None
    }
}

} // verus!
