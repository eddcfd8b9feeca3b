use map_analyzer::backend::{
    analysis_name, analysis_plan, analyze_step, chart_key_or_unknown, details_step, error_body, should_download,
    AnalysisKind, AnalyzeEvent, AnalyzeReply, DetailsEvent, DetailsReply, LocalRead, RankStatus,
};
use map_analyzer::bot::{
    command_of, command_plan, command_step, find_result, placeholder_embed, stripped_fields, BotCommand, BotEvent,
    BotReply,
};

#[test]
fn analysis_types_are_case_insensitive() {
    let all = analysis_plan("ALL").unwrap();
    let names: Vec<&str> = all.iter().map(|k| analysis_name(*k)).collect();
    assert_eq!(names, vec!["jump", "stream", "slider", "fingercontrol", "aimcontrol", "reading"]);
    assert_eq!(analysis_plan("FingerControl").unwrap(), vec![AnalysisKind::FingerControl]);
    assert!(analysis_plan("speed").is_none());
}

#[test]
fn analysis_requests_download_then_parse_then_run() {
    assert!(matches!(analyze_step("all", AnalyzeEvent::Requested(false)), AnalyzeReply::Download));
    assert!(matches!(analyze_step("all", AnalyzeEvent::Requested(true)), AnalyzeReply::Load));
    match analyze_step("all", AnalyzeEvent::Downloaded(Err("timeout".to_string()))) {
        AnalyzeReply::Fail(status, message) => {
            assert_eq!(status, 500);
            assert_eq!(message, "Failed to download beatmap: timeout");
        }
        _ => panic!("a failed download is an internal error"),
    }
    match analyze_step("all", AnalyzeEvent::Parsed(Ok(()), false)) {
        AnalyzeReply::Fail(status, message) => {
            assert_eq!(status, 500);
            assert_eq!(message, "Failed to parse PP map");
        }
        _ => panic!("an unparsable map is an internal error"),
    }
    match analyze_step("Speed", AnalyzeEvent::Parsed(Ok(()), true)) {
        AnalyzeReply::Fail(status, message) => {
            assert_eq!(status, 400);
            assert!(message.starts_with("Bad request: analyze_type must be all"));
        }
        _ => panic!("an unknown analysis type is a bad request"),
    }
    match analyze_step("reading", AnalyzeEvent::Parsed(Ok(()), true)) {
        AnalyzeReply::Analyze(kinds) => assert_eq!(kinds, vec![AnalysisKind::Reading]),
        _ => panic!("a known analysis type is run"),
    }
}

#[test]
fn chart_key_is_the_md5_of_the_file() {
    assert_eq!(chart_key_or_unknown(Ok(b"abc".to_vec())), "900150983cd24fb0d6963f7d28e17f72");
    assert_eq!(chart_key_or_unknown(Err("gone".to_string())), "unknown-md5");
}

#[test]
fn error_bodies_are_json() {
    assert_eq!(error_body("a \"quoted\" word"), "{\"error\":\"a \\\"quoted\\\" word\"}");
}

#[test]
fn details_come_from_the_store_unless_the_map_can_change() {
    assert!(should_download(RankStatus::Graveyard));
    assert!(should_download(RankStatus::Wip));
    assert!(should_download(RankStatus::Pending));
    assert!(!should_download(RankStatus::Ranked));
    assert!(!should_download(RankStatus::Loved));
    assert!(matches!(details_step(DetailsEvent::Fetched(Ok((RankStatus::Pending, true)))), DetailsReply::Download));
    assert!(matches!(details_step(DetailsEvent::Fetched(Ok((RankStatus::Ranked, true)))), DetailsReply::ReadLocal));
    match details_step(DetailsEvent::Fetched(Ok((RankStatus::Ranked, false)))) {
        DetailsReply::Fail(m) => assert_eq!(m, "Couldn't get beatmapset from beatmap (wtf?)"),
        _ => panic!("a beatmap without its set is an error"),
    }
    assert!(matches!(details_step(DetailsEvent::Read(LocalRead::NotFound)), DetailsReply::Download));
    match details_step(DetailsEvent::Read(LocalRead::OpenFailed("denied".to_string()))) {
        DetailsReply::Fail(m) => assert_eq!(m, "Internal server error: denied"),
        _ => panic!("an unreadable store is an error"),
    }
    match details_step(DetailsEvent::Downloaded(Ok(Ok("osu file format v14".to_string())))) {
        DetailsReply::Parse(text) => assert_eq!(text, "osu file format v14"),
        _ => panic!("downloaded text is parsed"),
    }
    match details_step(DetailsEvent::Downloaded(Ok(Err("invalid utf-8".to_string())))) {
        DetailsReply::Fail(m) => assert_eq!(m, "Error while converting bytes to string: invalid utf-8"),
        _ => panic!("bytes that are not text are an error"),
    }
    match details_step(DetailsEvent::Parsed(Err("bad header".to_string()))) {
        DetailsReply::Fail(m) => assert_eq!(m, "Error parsing beatmap: bad header"),
        _ => panic!("an unparsable file is an error"),
    }
    assert!(matches!(details_step(DetailsEvent::Parsed(Ok(()))), DetailsReply::Respond));
}

#[test]
fn commands_map_to_analyses_and_sections() {
    assert_eq!(command_of("analyze-finger_ctrl"), Some(BotCommand::FingerCtrl));
    assert_eq!(command_of("analyze-everything"), None);
    let (t, sections) = command_plan(BotCommand::All);
    assert_eq!(t, "all");
    assert_eq!(sections, vec!["overview", "jump", "stream", "slider", "fingerctrl", "aimctrl", "reading"]);
    let (t, sections) = command_plan(BotCommand::AimCtrl);
    assert_eq!(t, "aimcontrol");
    assert_eq!(sections, vec!["overview", "aimctrl"]);
}

#[test]
fn commands_reply_to_bad_input_and_failures() {
    assert!(matches!(command_step(BotEvent::Deferred(Err("x".to_string()))), BotReply::Stop));
    assert!(matches!(command_step(BotEvent::Deferred(Ok(()))), BotReply::ReadArgument));
    match command_step(BotEvent::Argument("https://osu.ppy.sh/b/123456?m=0".to_string())) {
        BotReply::Fetch(id) => assert_eq!(id, 123456),
        _ => panic!("a beatmap URL is fetched"),
    }
    match command_step(BotEvent::Argument("nonsense".to_string())) {
        BotReply::Say(m) => assert!(m.starts_with("Invalid beatmap.")),
        _ => panic!("a bad argument is answered"),
    }
    match command_step(BotEvent::Fetched(Err("down".to_string()), Ok(()))) {
        BotReply::Say(m) => assert_eq!(m, "Error fetching beatmap details: down"),
        _ => panic!("a failed details fetch is answered"),
    }
    match command_step(BotEvent::Fetched(Ok(()), Err("slow".to_string()))) {
        BotReply::Say(m) => assert_eq!(m, "Error analyzing beatmap: slow"),
        _ => panic!("a failed analysis fetch is answered"),
    }
    assert!(matches!(command_step(BotEvent::Fetched(Ok(()), Ok(()))), BotReply::Render));
}

#[test]
fn graph_only_fields_and_placeholders() {
    assert_eq!(stripped_fields("fingercontrol"), vec![vec!["timeline"]]);
    assert_eq!(stripped_fields("reading"), vec![vec!["trajectoryTimeline"], vec!["topography", "klines"]]);
    assert!(stripped_fields("jump").is_empty());
    let types = vec!["jump".to_string(), "reading".to_string(), "reading".to_string()];
    assert_eq!(find_result(&types, "reading"), Some(1));
    assert_eq!(find_result(&types, "slider"), None);
    assert_eq!(placeholder_embed("aimctrl"), Some(("Aim Control Analysis", 0xf97316)));
    assert_eq!(placeholder_embed("overview"), None);
}
