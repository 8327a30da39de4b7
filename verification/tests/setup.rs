//! Settings, the command line and models.
use std::path::PathBuf;

use transcribe_bot::asr::models::{
    configure_model, find_file, recognizer_threads, FilePattern, ForcedFamily, ModelDir,
    ModelLayout,
};
use transcribe_bot::cli::{
    check, doctor_verdict, is_download_confirmation, is_safe_component, model_destination,
    ollama_model_is_available, ollama_tags_url, parse_command, parse_repo_id, Command,
};
use transcribe_bot::config::{
    api_key_variable, required_nonempty, resolve_ai_api_key, resolve_asr_runtime_config,
    resolve_autojoin_suffix, resolve_autojoin_text_channel_id, resolve_config_path,
    resolve_transcription_runtime_config, usable_cores, AiSection, AppConfig, AsrSection,
    ConfigError, DiscordSection, FileConfig, SummarySection, TranscriptionSection,
};
use transcribe_bot::json::Json;
use transcribe_bot::text::trim_nonblank;

fn no_file() -> FileConfig {
    FileConfig {
        ai: None,
        asr: None,
        audio: None,
        debug: None,
        transcription: None,
        discord: None,
        summary: None,
    }
}

fn no_ai() -> AiSection {
    AiSection { request_timeout: None, model: None, base_url: None, api_key_env: None }
}

fn no_discord() -> DiscordSection {
    DiscordSection { autojoin_suffix: None, autojoin_text_channel_id: None }
}

#[test]
fn transcription_config_enforces_safety_floors_and_boundaries() {
    let rejected = TranscriptionSection {
        endpoint_silence_ms: Some(10),
        rolling_ingest_max_ms: Some(100),
        rolling_ingest_context_ms: Some(100),
        retention_days: Some(0),
    };
    let cfg = resolve_transcription_runtime_config(Some(&rejected));
    assert_eq!(cfg.endpoint_silence_ms, 400);
    assert_eq!(cfg.rolling_ingest_max_ms, 12_000);
    assert_eq!(cfg.rolling_ingest_context_ms, 1_500);
    assert_eq!(cfg.retention_days, 30);

    let boundaries = TranscriptionSection {
        endpoint_silence_ms: Some(80),
        rolling_ingest_max_ms: Some(4_000),
        rolling_ingest_context_ms: Some(250),
        retention_days: Some(1),
    };
    let cfg = resolve_transcription_runtime_config(Some(&boundaries));
    assert_eq!(cfg.endpoint_silence_ms, 80);
    assert_eq!(cfg.rolling_ingest_max_ms, 4_000);
    assert_eq!(cfg.rolling_ingest_context_ms, 250);
    assert_eq!(cfg.retention_days, 1);
}

#[test]
fn asr_config_requires_model_dir_and_clamps_thread_count() {
    let err = resolve_asr_runtime_config(None, 4).expect_err("missing model dir should fail");
    assert!(err.message().contains("config.toml"));

    let high = AsrSection {
        model_dir: Some("models/test".to_string()),
        model_family: None,
        num_threads: Some(99),
    };
    assert_eq!(
        resolve_asr_runtime_config(Some(&high), 4)
            .unwrap()
            .num_threads,
        8
    );

    let invalid = AsrSection {
        num_threads: Some(0),
        ..high
    };
    assert_eq!(
        resolve_asr_runtime_config(Some(&invalid), 2)
            .unwrap()
            .num_threads,
        2
    );
}

#[test]
fn autojoin_suffix_uses_default_for_blank_values() {
    let blank = DiscordSection {
        autojoin_suffix: Some("   ".to_string()),
        ..no_discord()
    };
    assert_eq!(resolve_autojoin_suffix(Some(&blank)), "[Transcribe]");
}

#[test]
fn autojoin_text_channel_id_is_optional_but_cannot_be_zero() {
    assert_eq!(resolve_autojoin_text_channel_id(None).unwrap(), None);
    assert_eq!(
        resolve_autojoin_text_channel_id(Some(&DiscordSection {
            autojoin_text_channel_id: Some(123),
            ..no_discord()
        }))
        .unwrap(),
        Some(123)
    );
    assert!(resolve_autojoin_text_channel_id(Some(&DiscordSection {
        autojoin_text_channel_id: Some(0),
        ..no_discord()
    }))
    .is_err());
}

#[test]
fn environment_helpers_trim_filter_and_resolve_path() {
    let name = "TRANSCRIBE_BOT_TEST_ENV";
    assert_eq!(trim_nonblank(Some("   value   ".to_string())), Some("value".to_string()));

    assert_eq!(trim_nonblank(Some("    ".to_string())), None);
    assert_eq!(trim_nonblank(None), None);
    assert!(required_nonempty(name, Some("    ".to_string())).is_err());

    assert_eq!(required_nonempty(name, Some("  token  ".to_string())).unwrap(), "token");
    assert_eq!(
        required_nonempty(name, None).unwrap_err().message(),
        "missing TRANSCRIBE_BOT_TEST_ENV"
    );
    assert_eq!(resolve_config_path(Some("custom.toml".to_string())), "custom.toml");
    assert_eq!(resolve_config_path(None), "config.toml");
}

#[test]
fn api_key_is_only_read_when_its_environment_variable_is_configured() {
    let without_key = AiSection {
        model: Some("model-a".to_string()),
        ..no_ai()
    };
    assert_eq!(api_key_variable(Some(&without_key)), None);
    assert_eq!(
        resolve_ai_api_key(Some(&without_key), Some("must-not-be-used".to_string())).unwrap(),
        None
    );

    let with_key = AiSection {
        api_key_env: Some("TRANSCRIBE_BOT_TEST_API_KEY".to_string()),
        ..without_key
    };
    assert_eq!(
        api_key_variable(Some(&with_key)).as_deref(),
        Some("TRANSCRIBE_BOT_TEST_API_KEY")
    );
    assert_eq!(
        resolve_ai_api_key(Some(&with_key), Some(" explicit-key ".to_string()))
            .unwrap()
            .as_deref(),
        Some("explicit-key")
    );
    assert_eq!(
        resolve_ai_api_key(Some(&with_key), Some(" ".to_string())).unwrap_err().message(),
        "reading [ai].api_key_env: missing TRANSCRIBE_BOT_TEST_API_KEY"
    );
}

#[test]
fn name_of_the_key_variable_is_trimmed() {
    let with_key = AiSection { api_key_env: Some(" KEY ".to_string()), ..no_ai() };
    assert_eq!(api_key_variable(Some(&with_key)).as_deref(), Some("KEY"));
    let blank = AiSection { api_key_env: Some("  ".to_string()), ..no_ai() };
    assert_eq!(api_key_variable(Some(&blank)), None);
}

#[test]
fn settings_are_refused_in_the_order_they_are_read() {
    let token = || Some("t".to_string());
    let mut file = no_file();
    assert!(matches!(
        AppConfig::resolve(&file, Some(" ".to_string()), None, 4),
        Err(ConfigError::MissingVariable { .. })
    ));
    file.ai = Some(AiSection { api_key_env: Some("KEY".to_string()), ..no_ai() });
    assert!(matches!(
        AppConfig::resolve(&file, token(), None, 4),
        Err(ConfigError::MissingApiKey { .. })
    ));
    let missing = AppConfig::resolve(&file, token(), Some("k".to_string()), 4).unwrap_err();
    assert_eq!(missing.message(), "missing [ai].model");
    file.ai = Some(AiSection { model: Some("m".to_string()), ..no_ai() });
    assert!(matches!(
        AppConfig::resolve(&file, token(), None, 4),
        Err(ConfigError::MissingModelDir)
    ));
    file.asr = Some(AsrSection {
        model_dir: Some("d".to_string()),
        model_family: Some("tdnn".to_string()),
        num_threads: None,
    });
    file.discord =
        Some(DiscordSection { autojoin_text_channel_id: Some(0), ..no_discord() });
    assert_eq!(
        AppConfig::resolve(&file, token(), None, 4).unwrap_err().message(),
        "[discord].autojoin_text_channel_id must be a non-zero Discord channel ID"
    );
}

#[test]
fn settings_are_resolved_with_their_defaults() {
    let mut file = no_file();
    file.ai = Some(AiSection {
        model: Some(" m ".to_string()),
        request_timeout: Some(4),
        ..no_ai()
    });
    file.asr = Some(AsrSection {
        model_dir: Some("d".to_string()),
        model_family: None,
        num_threads: None,
    });
    let cfg = AppConfig::resolve(&file, Some(" t ".to_string()), Some("k".to_string()), 4).unwrap();
    assert_eq!(cfg.discord_token, "t");
    assert_eq!(cfg.ai.provider.model, "m");
    assert_eq!(cfg.ai.provider.api_key, None);
    assert_eq!(cfg.ai.provider.base_url, "http://127.0.0.1:11434/v1");
    assert_eq!(cfg.ai.request_timeout, 30);
    assert_eq!(cfg.asr.num_threads, 3);
    assert!(!cfg.audio.enable_denoiser);
    assert!(!cfg.debug.log_live_transcript);
    assert!(!cfg.summary.enabled);
    assert!(cfg.summary.post_in_thread);
    assert!(!cfg.summary.include_in_markdown);
    assert_eq!(cfg.discord.autojoin_suffix, "[Transcribe]");
    assert_eq!(cfg.transcription.retention_days, 30);

    file.summary = Some(SummarySection {
        enabled: Some(true),
        post_in_thread: Some(false),
        include_in_markdown: None,
    });
    file.ai = Some(AiSection {
        model: Some("m".to_string()),
        request_timeout: Some(5),
        api_key_env: Some("KEY".to_string()),
        ..no_ai()
    });
    let cfg = AppConfig::resolve(&file, Some("t".to_string()), Some("k".to_string()), 1).unwrap();
    assert!(cfg.summary.enabled);
    assert!(!cfg.summary.post_in_thread);
    assert_eq!(cfg.ai.request_timeout, 5);
    assert_eq!(cfg.ai.provider.api_key.as_deref(), Some("k"));
    assert_eq!(cfg.asr.num_threads, 1);
    assert_eq!(usable_cores(None), 4);
    assert_eq!(usable_cores(Some(64)), 8);
    assert_eq!(usable_cores(Some(0)), 1);
}

// ---------------------------------------------------------------------------
// The command line
// ---------------------------------------------------------------------------

#[test]
fn parser_recognizes_operational_commands() {
    assert_eq!(parse_command(Vec::<String>::new()).unwrap(), Command::Run);
    assert_eq!(
        parse_command(vec!["init".to_string()]).unwrap(),
        Command::Init
    );
    assert_eq!(
        parse_command(vec!["doctor".to_string()]).unwrap(),
        Command::Doctor
    );
    assert_eq!(
        parse_command(vec![
            "download".to_string(),
            "sherpa-onnx/sherpa-onnx-moonshine-base-en-int8".to_string(),
        ])
        .unwrap(),
        Command::Download {
            repo_id: "sherpa-onnx/sherpa-onnx-moonshine-base-en-int8".to_string(),
        }
    );
    assert_eq!(
        parse_command(vec!["--help".to_string()]).unwrap(),
        Command::Help
    );
    assert!(parse_command(vec!["unknown".to_string()]).is_err());
}

#[test]
fn repository_id_requires_two_safe_components() {
    assert_eq!(
        parse_repo_id("sherpa-onnx/sherpa-onnx-moonshine-base-en-int8").unwrap(),
        (
            "sherpa-onnx".to_string(),
            "sherpa-onnx-moonshine-base-en-int8".to_string()
        )
    );
    for invalid in [
        "",
        "model",
        "/model",
        "owner/",
        "a/b/c",
        "../model",
        "owner/model\\name",
    ] {
        assert!(
            parse_repo_id(invalid).is_err(),
            "{invalid} should be rejected"
        );
    }
}

#[test]
fn destination_uses_repository_basename() {
    assert_eq!(
        PathBuf::from(model_destination("sherpa-onnx-moonshine-base-en-int8")),
        PathBuf::from("models").join("sherpa-onnx-moonshine-base-en-int8")
    );
}

#[test]
fn download_confirmation_defaults_to_yes() {
    assert!(is_download_confirmation("y"));
    assert!(is_download_confirmation(" YES\n"));
    assert!(is_download_confirmation(""));
    assert!(is_download_confirmation("unexpected input"));
    assert!(!is_download_confirmation("no"));
    assert!(!is_download_confirmation("N"));
}

#[test]
fn ollama_model_check_requires_the_configured_model() {
    let payload =
        Json::parse(r#"{ "models": [{"name": "gemma3:4b"}, {"name": "llama3.1:8b"}] }"#).unwrap();
    assert!(ollama_model_is_available(&payload, "gemma3:4b"));
    assert!(!ollama_model_is_available(&payload, "missing:latest"));
}

#[test]
fn downloads_stay_below_models() {
    for repo_id in ["a/b", "a/...", "o/~", "o/b c"] {
        let (_, repository) = parse_repo_id(repo_id).unwrap();
        let path = PathBuf::from(model_destination(&repository));
        assert_eq!(path, PathBuf::from("models").join(&repository));
        assert_eq!(path.parent(), Some(PathBuf::from("models").as_path()));
        assert_eq!(path.components().count(), 2);
    }
    for unsafe_name in ["", ".", "..", "a:b", "a\u{7}", "q?", "a|b", "<", "\"", "*"] {
        assert!(!is_safe_component(unsafe_name), "{unsafe_name:?}");
    }
    assert_eq!(
        PathBuf::from(model_destination("/root")),
        PathBuf::from("models").join("/root")
    );
    assert_eq!(
        parse_repo_id("x").unwrap_err().message(),
        "model repository must be in owner/repo form"
    );
    let usage = parse_command(vec!["init".to_string(), "now".to_string()]).unwrap_err();
    assert_eq!(usage.message(), "usage: transcribe-bot [init|doctor|download <owner/repo>]");
}

#[test]
fn the_doctor_names_every_problem() {
    let mut failures = Vec::new();
    assert_eq!(check(true, "a", &mut failures), "ok: a");
    assert_eq!(doctor_verdict(&failures), None);
    assert_eq!(check(false, "b", &mut failures), "error: missing b");
    assert_eq!(check(false, "c", &mut failures), "error: missing c");
    assert_eq!(doctor_verdict(&failures).as_deref(), Some("doctor found problems: b, c"));
    assert_eq!(ollama_tags_url("http://h/"), "http://h/api/tags");
    assert!(!ollama_model_is_available(&Json::Null, "m"));
}

// ---------------------------------------------------------------------------
// Models
// ---------------------------------------------------------------------------

fn dir(name: &str, files: &[&str]) -> ModelDir {
    ModelDir {
        name: name.to_string(),
        files: files.iter().map(|f| f.to_string()).collect(),
        has_tokenizer_dir: false,
    }
}

#[test]
fn forced_family_parses_common_aliases() {
    assert_eq!(ForcedFamily::from_hint("sense-voice"), Some(ForcedFamily::SenseVoice));
    assert_eq!(ForcedFamily::from_hint("zipformer_ctc"), Some(ForcedFamily::ZipformerCtc));
    assert_eq!(ForcedFamily::from_hint("nemoctc"), Some(ForcedFamily::NemoCtc));
}

#[test]
fn forced_family_guesses_from_directory_name() {
    assert_eq!(
        ForcedFamily::guess_from_dir_name("model-sensevoice"),
        Some(ForcedFamily::SenseVoice)
    );
    assert_eq!(
        ForcedFamily::guess_from_dir_name("acoustic-tdnn"),
        Some(ForcedFamily::Tdnn)
    );
}

#[test]
fn configure_model_supports_single_file_with_forced_family() {
    let dir = dir("single-file-forced-family", &["model.onnx", "tokens.txt"]);
    let layout = configure_model(&dir, Some("paraformer"))
        .ok()
        .expect("model should configure");

    assert_eq!(layout.label(), "paraformer");
    match layout {
        ModelLayout::SingleFile { family, model, tokens } => {
            assert_eq!(family, ForcedFamily::Paraformer);
            assert_eq!(model, "model.onnx");
            assert_eq!(tokens, "tokens.txt");
        }
        _ => panic!("not a single file"),
    }
}

#[test]
fn configure_model_single_file_without_family_errors() {
    let dir = dir("single-file-missing-family", &["model.int8.onnx", "tokens.txt"]);
    let err = configure_model(&dir, None)
        .err()
        .expect("single-file config should fail without family hint");
    assert!(err.message("models/x").contains("can't tell which family"));
}

#[test]
fn names_are_lowered_before_they_are_read() {
    assert_eq!(ForcedFamily::from_hint("Sense-Voice"), Some(ForcedFamily::SenseVoice));
    assert_eq!(
        ForcedFamily::guess_from_dir_name("SHERPA-Paraformer"),
        Some(ForcedFamily::Paraformer)
    );
    assert_eq!(ForcedFamily::from_hint("other"), None);
    assert_eq!(ForcedFamily::guess_from_dir_name("other"), None);
}

#[test]
fn layouts_are_told_by_their_files() {
    let transducer =
        dir("m", &["encoder.onnx", "decoder.onnx", "joiner.onnx", "tokens.txt"]);
    assert!(matches!(
        configure_model(&transducer, None),
        Ok(ModelLayout::Transducer { .. })
    ));
    let empty = dir("m", &[]);
    assert!(configure_model(&empty, None).is_err());
    let names: Vec<String> = ["decoder.onnx", "encoder.int8.onnx", "encoder.onnx"]
        .iter()
        .map(|s| s.to_string())
        .collect();
    assert!(find_file(&names, FilePattern::Prefix("encoder")).is_some());
    assert!(find_file(&names, FilePattern::Prefix("joiner")).is_none());
    assert!(recognizer_threads(0) >= 1);
}
