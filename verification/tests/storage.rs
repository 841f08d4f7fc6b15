use xai_grok_pager::storage::{
    after_fallback_read, after_read, creates_home, home_source, transcript_file_name, HomeSource,
    LoadStep, ReadOutcome, SIDE_CHATS_INDEX_FILE, SIDE_PANEL_FILE, WINDOWS_FILE,
};

#[test]
fn home_precedence() {
    assert_eq!(home_source(true, true, true, true), HomeSource::Override);
    assert_eq!(home_source(false, true, true, true), HomeSource::RivoEnv);
    assert_eq!(home_source(false, false, true, true), HomeSource::GrokEnv);
    assert_eq!(home_source(false, false, false, true), HomeSource::SiblingRivo);
    assert_eq!(home_source(false, false, false, false), HomeSource::GrokHome);
}

#[test]
fn only_environment_homes_are_created() {
    assert!(creates_home(HomeSource::RivoEnv));
    assert!(creates_home(HomeSource::GrokEnv));
    assert!(!creates_home(HomeSource::Override));
    assert!(!creates_home(HomeSource::SiblingRivo));
    assert!(!creates_home(HomeSource::GrokHome));
}

#[test]
fn file_names() {
    assert_eq!(transcript_file_name("side-1234"), "side-side-1234.jsonl");
    assert_eq!(transcript_file_name(""), "side-.jsonl");
    assert_eq!(SIDE_CHATS_INDEX_FILE, "side-chats.json");
    assert_eq!(SIDE_PANEL_FILE, "side-panel.json");
    assert_eq!(WINDOWS_FILE, "windows.json");
}

#[test]
fn load_steps() {
    assert_eq!(after_read(ReadOutcome::Read, true), LoadStep::Parse);
    assert_eq!(after_read(ReadOutcome::Missing, true), LoadStep::ReadFallback);
    assert_eq!(after_read(ReadOutcome::Missing, false), LoadStep::UseDefault);
    assert_eq!(after_read(ReadOutcome::Failed, true), LoadStep::UseDefault);
    assert_eq!(after_fallback_read(ReadOutcome::Read), LoadStep::Parse);
    assert_eq!(after_fallback_read(ReadOutcome::Missing), LoadStep::UseDefault);
    assert_eq!(after_fallback_read(ReadOutcome::Failed), LoadStep::UseDefault);
}
