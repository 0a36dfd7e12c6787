use radhe::chat::{build_chat_prompt, clean_chat_reply, read_chat_input, remember_turn, ChatInput, ChatTurn};
use radhe::cli::{requested_task, max_tokens_for, Cli};
use radhe::config::{
    language_label, resolve_settings, set_config_value, store_default, valid_difficulty,
    valid_language, valid_study_mode, version_model, DefaultSetting, RadheConfig, SettingsError,
};
use radhe::modes::TaskKind;
use radhe::packs::{
    add_pack_name, build_pack_markdown, build_pack_prompt, format_pack_name, list_entry,
    new_pack_name, pack_file_name, pack_max_tokens, valid_pack_name, PackNameError,
};
use radhe::prompts::lang_system_prompt;
use radhe::setup::{
    apply_choices, apply_feature_profile, apply_minimal_profile, confirmed, parse_menu_choice,
    parse_profile_choice, parse_yes_no, standard_features, MenuChoice, Profile, DIFFICULTY_OPTIONS,
    MODE_OPTIONS,
};
use radhe::shell::{repl_step, ReplAction, ShellAction, ShellState};
use radhe::stats::{stats_report, PackCount, RadheStats};
use radhe::update::{check_for_update, parse_latest_version, release_download_url, UpdateCheck};

fn empty_cli() -> Cli {
    Cli {
        command: None,
        version: false,
        prompt: None,
        code: None,
        explain: None,
        notes: None,
        fix: None,
        summarize: None,
        chat: false,
        quiz: None,
        quiz_file: None,
        count: None,
        model: None,
        max_tokens: None,
        pack: None,
        list_packs: false,
        create_pack: false,
        delete_pack: None,
        lang: None,
        set_lang: None,
        mode: None,
        difficulty: None,
        set_mode: None,
        set_difficulty: None,
    }
}

#[test]
fn config_value_replaces_first_key_line() {
    let content = "# Radhe AI Configuration\nmax_tokens = 300\nlang = \"hi\"\nlang = \"old\"\n";
    assert_eq!(
        set_config_value(content, "lang", "en"),
        "# Radhe AI Configuration\nmax_tokens = 300\nlang = \"en\"\nlang = \"old\"\n"
    );
    // any line that starts with the key counts, so `model = ...` is taken for `mode`
    let with_model = "model = \"m.gguf\"\nmode = \"exam\"\n";
    assert_eq!(
        set_config_value(with_model, "mode", "revision"),
        "mode = \"revision\"\nmode = \"exam\"\n"
    );
}

#[test]
fn config_value_is_appended_when_missing() {
    assert_eq!(set_config_value("model = \"x\"", "lang", "hi"), "model = \"x\"\nlang = \"hi\"\n");
    assert_eq!(set_config_value("", "lang", "hi"), "lang = \"hi\"\n");
    // a key line needs an '='
    assert_eq!(set_config_value("lang\n", "lang", "en"), "lang\nlang = \"en\"\n");
}

#[test]
fn stored_defaults_are_checked() {
    let text = store_default("max_tokens = 300\n", DefaultSetting::Difficulty, "hard").unwrap();
    assert_eq!(text, "max_tokens = 300\ndifficulty = \"hard\"\n");
    let again = store_default(&text, DefaultSetting::Difficulty, "easy").unwrap();
    assert_eq!(again, "max_tokens = 300\ndifficulty = \"easy\"\n");
    let bad = store_default(&text, DefaultSetting::Mode, "invalid").unwrap_err();
    assert_eq!(bad.value, "invalid");
    assert!(store_default("", DefaultSetting::Lang, "fr").is_err());
    assert!(store_default("", DefaultSetting::Lang, "hinglish").is_ok());
}

#[test]
fn accepted_values() {
    assert!(valid_study_mode("normal") && valid_study_mode("exam") && valid_study_mode("revision"));
    assert!(!valid_study_mode("Exam"));
    assert!(valid_difficulty("easy") && valid_difficulty("medium") && valid_difficulty("hard"));
    assert!(!valid_difficulty("invalid"));
    assert!(valid_language("en") && valid_language("hi") && valid_language("hinglish"));
    assert!(!valid_language("fr"));
    assert_eq!(language_label("hi"), "Hindi");
    assert_eq!(language_label("hinglish"), "Hinglish");
    assert_eq!(language_label("xx"), "English");
}

#[test]
fn settings_follow_flag_then_config_then_default() {
    let mut cli = empty_cli();
    let mut config = RadheConfig::empty();
    let s = resolve_settings(&cli, &config).unwrap();
    assert_eq!(s.model, "Qwen2.5-Coder-1.5B-Instruct-Q4_K_M.gguf");
    assert_eq!(s.max_tokens, 300);
    assert_eq!(s.lang, "en");
    assert_eq!(s.mode, "normal");
    assert_eq!(s.difficulty, "medium");
    assert_eq!(s.profile, "standard");
    config.mode = Some("exam".to_string());
    config.max_tokens = Some(99);
    config.model = Some("cfg.gguf".to_string());
    cli.mode = Some("revision".to_string());
    let s = resolve_settings(&cli, &config).unwrap();
    assert_eq!(s.mode, "revision");
    assert_eq!(s.max_tokens, 99);
    assert_eq!(s.model, "cfg.gguf");
    cli.model = Some("cli".to_string());
    assert_eq!(version_model(&cli, &config), "cli");
}

#[test]
fn invalid_settings_are_refused() {
    let mut cli = empty_cli();
    cli.mode = Some("sleepy".to_string());
    cli.difficulty = Some("impossible".to_string());
    match resolve_settings(&cli, &RadheConfig::empty()) {
        Err(SettingsError::InvalidMode(m)) => assert_eq!(m, "sleepy"),
        _ => panic!("mode should be refused first"),
    }
    cli.mode = None;
    match resolve_settings(&cli, &RadheConfig::empty()) {
        Err(SettingsError::InvalidDifficulty(d)) => assert_eq!(d, "impossible"),
        _ => panic!("difficulty should be refused"),
    }
}

#[test]
fn requests_and_budgets() {
    let mut cli = empty_cli();
    assert_eq!(requested_task(&cli), None);
    cli.chat = true;
    assert_eq!(requested_task(&cli), Some(TaskKind::Chat));
    cli.summarize = Some("f".to_string());
    cli.quiz = Some("t".to_string());
    assert_eq!(requested_task(&cli), Some(TaskKind::Quiz));
    assert_eq!(max_tokens_for(TaskKind::Code, 1), 300);
    assert_eq!(max_tokens_for(TaskKind::Explain, 1), 200);
    assert_eq!(max_tokens_for(TaskKind::Notes, 1), 150);
    assert_eq!(max_tokens_for(TaskKind::Fix, 1), 400);
    assert_eq!(max_tokens_for(TaskKind::Quiz, 1), 500);
    assert_eq!(max_tokens_for(TaskKind::Summarize, 1), 200);
    assert_eq!(max_tokens_for(TaskKind::QuizFile, 1), 400);
    assert_eq!(max_tokens_for(TaskKind::Prompt, 77), 77);
}

#[test]
fn stats_count_each_request_once() {
    let mut s = RadheStats::zero();
    assert!(s.record_task(TaskKind::Code));
    assert!(s.record_task(TaskKind::QuizFile));
    assert!(s.record_task(TaskKind::Quiz));
    assert!(s.record_task(TaskKind::Fix));
    assert_eq!(s.total_commands, 4);
    assert_eq!(s.code_count, 1);
    assert_eq!(s.quiz_count, 2);
    assert!(s.record_pack("Math"));
    assert!(s.record_pack("math"));
    assert!(s.record_pack("CS"));
    assert_eq!(s.total_commands, 7);
    assert_eq!(s.pack_usage.len(), 2);
    assert_eq!(s.pack_usage[0].name, "math");
    assert_eq!(s.pack_usage[0].count, 2);
    assert_eq!(s.pack_usage[1].name, "cs");
    s.total_commands = u64::MAX;
    assert!(!s.record_task(TaskKind::Code));
    assert_eq!(s.code_count, 1);
}

#[test]
fn stats_table_ranks_packs() {
    let mut s = RadheStats::zero();
    s.total_commands = 12;
    s.explain_count = 3;
    s.pack_usage = vec![
        PackCount { name: "science".to_string(), count: 2 },
        PackCount { name: "math".to_string(), count: 5 },
        PackCount { name: "cs".to_string(), count: 2 },
        PackCount { name: "economics".to_string(), count: 1 },
    ];
    let lines = stats_report(&s);
    assert_eq!(lines[0], "Radhe AI — Usage Stats");
    assert_eq!(lines[1], "─────────────────────────────");
    assert_eq!(lines[2], "Total commands run : 12");
    assert_eq!(lines[3], "Explains           : 3");
    assert_eq!(lines[8], "Chats              : 0");
    assert_eq!(lines[9], "Pack usage:");
    assert_eq!(lines[10], "  math    : 5");
    assert_eq!(lines[11], "  cs      : 2");
    assert_eq!(lines[12], "  science : 2");
    assert_eq!(lines[13], "  economics: 1");
    assert_eq!(lines.len(), 14);
    assert_eq!(stats_report(&RadheStats::zero()).len(), 9);
}

#[test]
fn chat_prompt_carries_history() {
    let history = vec![ChatTurn { user: "hi".to_string(), assistant: "hello".to_string() }];
    let p = build_chat_prompt(&history, "what is RAM?", "normal", "en");
    assert_eq!(
        p,
        "<|im_start|>system\nYou are Radhe, a concise AI assistant for students. Give short, direct answers. No bullet points unless asked. No headers. Maximum 3 sentences per response.<|im_end|>\n<|im_start|>user\nhi<|im_end|>\n<|im_start|>assistant\nhello<|im_end|>\n<|im_start|>user\nwhat is RAM?<|im_end|>\n<|im_start|>assistant\n"
    );
    let hi = build_chat_prompt(&Vec::new(), "x", "exam", "hi");
    assert!(hi.contains(&format!("Maximum 2 short sentences per response. {}<|im_end|>", lang_system_prompt("hi"))));
}

#[test]
fn chat_replies_are_cut() {
    assert_eq!(clean_chat_reply("  Paris is the capital.\nUser: and Rome?"), "Paris is the capital.");
    assert_eq!(clean_chat_reply("Yes ### END junk"), "Yes");
    assert_eq!(clean_chat_reply("A\nYou: B"), "A");
    assert_eq!(clean_chat_reply(" plain "), "plain");
}

#[test]
fn chat_history_keeps_six_turns() {
    let mut h: Vec<ChatTurn> = Vec::new();
    for i in 0..9 {
        remember_turn(&mut h, ChatTurn { user: format!("u{}", i), assistant: format!("a{}", i) });
        assert!(h.len() <= 6);
    }
    assert_eq!(h.len(), 6);
    assert_eq!(h[0].user, "u3");
    assert_eq!(h[5].user, "u8");
}

#[test]
fn chat_input() {
    assert!(matches!(read_chat_input(" exit\n"), ChatInput::Quit));
    assert!(matches!(read_chat_input("quit"), ChatInput::Quit));
    assert!(matches!(read_chat_input("   "), ChatInput::Skip));
    match read_chat_input("  hello  ") {
        ChatInput::Message(m) => assert_eq!(m, "hello"),
        _ => panic!(),
    }
}

#[test]
fn repl_lines() {
    assert!(matches!(repl_step("   ", "normal", "en"), ReplAction::Skip));
    assert!(matches!(repl_step("/exit", "normal", "en"), ReplAction::Exit));
    assert!(matches!(repl_step(" /clear ", "normal", "en"), ReplAction::Clear));
    match repl_step("--code  fizzbuzz in python ", "exam", "hi") {
        ReplAction::Ask { query, tip } => {
            assert_eq!(query.task, TaskKind::Code);
            assert_eq!(query.max_tokens, 300);
            assert!(query.prompt.ends_with("\nTask: fizzbuzz in python, respect the exact language specified."));
            assert!(!tip);
        }
        _ => panic!(),
    }
    match repl_step("recursion", "normal", "en") {
        ReplAction::Ask { query, tip } => {
            assert_eq!(query.task, TaskKind::Explain);
            assert!(query.prompt.starts_with("Explain 'recursion' in exactly 5 bullet points"));
            assert!(tip);
        }
        _ => panic!(),
    }
    match repl_step("what is a very long question here", "normal", "en") {
        ReplAction::Ask { tip, .. } => assert!(!tip),
        _ => panic!(),
    }
}

#[test]
fn power_shell_session() {
    let mut s = ShellState::new("normal", "medium");
    assert!(matches!(s.step("  ", "en"), ShellAction::Skip));
    match s.step(":set-mode EXAM", "en") {
        ShellAction::ModeChanged(m) => assert_eq!(m, "exam"),
        _ => panic!(),
    }
    assert_eq!(s.mode(), "exam");
    match s.step(":set-mode lazy", "en") {
        ShellAction::InvalidMode(m) => assert_eq!(m, "lazy"),
        _ => panic!(),
    }
    assert_eq!(s.mode(), "exam");
    assert!(matches!(s.step(":set-difficulty", "en"), ShellAction::SetDifficultyUsage));
    match s.step(":set-difficulty hard", "en") {
        ShellAction::DifficultyChanged(d) => assert_eq!(d, "hard"),
        _ => panic!(),
    }
    assert_eq!(s.difficulty(), "hard");
    match s.step("\u{feff}:mode", "en") {
        ShellAction::ShowMode(m) => assert_eq!(m, "exam"),
        _ => panic!(),
    }
    match s.step(":bogus x", "en") {
        ShellAction::UnknownCommand(c) => assert_eq!(c, ":bogus"),
        _ => panic!(),
    }
    match s.step("--notes DNS", "en") {
        ShellAction::Ask(q) => {
            assert_eq!(q.task, TaskKind::Notes);
            assert!(q.prompt.contains("Focus strictly on exam-relevant facts"));
        }
        _ => panic!(),
    }
    assert!(matches!(s.step(":exit", "en"), ShellAction::Quit));
    assert!(matches!(s.step(":stats", "en"), ShellAction::ShowStats));
}

#[test]
fn power_shell_history_shows_last_twenty() {
    let mut s = ShellState::new("normal", "easy");
    for i in 0..25 {
        s.step(&format!("--code task {}", i), "en");
    }
    match s.step(":history", "en") {
        ShellAction::ShowHistory(h) => {
            assert_eq!(h.len(), 20);
            assert_eq!(h[0], "--code task 6");
            assert_eq!(h[19], ":history");
        }
        _ => panic!(),
    }
}

#[test]
fn pack_names() {
    assert_eq!(new_pack_name("  World History ").unwrap(), "world_history");
    assert!(matches!(new_pack_name("   "), Err(PackNameError::Empty)));
    match new_pack_name("../etc") {
        Err(PackNameError::InvalidCharacters(n)) => assert_eq!(n, "../etc"),
        _ => panic!(),
    }
    assert!(valid_pack_name("cs-101_a"));
    assert!(!valid_pack_name("a/b"));
    assert_eq!(pack_file_name("math"), "math.md");
    assert_eq!(format_pack_name("cs"), "CS");
    assert_eq!(format_pack_name("Cs"), "CS");
    assert_eq!(format_pack_name("math"), "Math");
    assert_eq!(format_pack_name(""), "");
    assert_eq!(pack_max_tokens(300), 500);
    assert_eq!(pack_max_tokens(800), 800);
    assert_eq!(list_entry("  Algebra \n"), Some("Algebra".to_string()));
    assert_eq!(list_entry("  \n"), None);
}

#[test]
fn pack_markdown() {
    let md = build_pack_markdown(
        "History",
        &vec!["Mughals".to_string(), "Maurya".to_string()],
        &vec![],
        "MCQ",
    );
    assert_eq!(md, "# History Pack — Radhe AI\n\n## Topics\n- Mughals\n- Maurya\n\n## Quiz Style\nMCQ\n");
    let md2 = build_pack_markdown("E", &vec![], &vec!["GDP = C+I+G".to_string()], "");
    assert_eq!(md2, "# E Pack — Radhe AI\n\n## Topics\n\n## Key Facts / Formulas\n- GDP = C+I+G\n");
}

#[test]
fn pack_prompt() {
    assert_eq!(
        build_pack_prompt("PACK", "en", "why?"),
        "<|im_start|>system\nPACK\n<|im_end|>\n<|im_start|>user\nwhy?\n<|im_end|>\n<|im_start|>assistant\n"
    );
}

#[test]
fn pack_listing_is_sorted_without_repeats() {
    let mut names: Vec<String> = Vec::new();
    for n in ["science", "math", "cs", "math", "Zoology", "art"] {
        add_pack_name(&mut names, n.to_string());
    }
    assert_eq!(names, vec!["Zoology", "art", "cs", "math", "science"]);
}

#[test]
fn latest_version_parsing() {
    let json = "{\"url\":\"x\",\"tag_name\":\"v0.9.1\",\"name\":\"r\"}";
    assert_eq!(parse_latest_version(json, false), "0.9.1");
    assert_eq!(parse_latest_version(" v1.2.0\r\n", true), "1.2.0");
    assert_eq!(parse_latest_version("{}", false), "");
    assert!(matches!(check_for_update("0.9.1", json, false), UpdateCheck::UpToDate));
    match check_for_update("0.8.0", json, false) {
        UpdateCheck::Available(v) => assert_eq!(v, "0.9.1"),
        _ => panic!(),
    }
    assert!(matches!(check_for_update("0.8.0", "oops", false), UpdateCheck::Unparsable));
    assert_eq!(
        release_download_url("radhe"),
        "https://github.com/DevWizard-Vandan/radhe-ai/releases/latest/download/radhe"
    );
}

#[test]
fn setup_answers() {
    assert_eq!(parse_profile_choice(" 2 "), Some(Profile::Standard));
    assert_eq!(parse_profile_choice("4"), None);
    assert_eq!(parse_yes_no(""), Some(true));
    assert_eq!(parse_yes_no(" YES"), Some(true));
    assert_eq!(parse_yes_no("No"), Some(false));
    assert_eq!(parse_yes_no("maybe"), None);
    assert!(matches!(parse_menu_choice("", MODE_OPTIONS), MenuChoice::Keep));
    match parse_menu_choice("3", DIFFICULTY_OPTIONS) {
        MenuChoice::Pick(s) => assert_eq!(s, "hard"),
        _ => panic!(),
    }
    assert!(matches!(parse_menu_choice("x", MODE_OPTIONS), MenuChoice::Invalid));
    assert!(confirmed(" Y\n"));
    assert!(!confirmed("n"));
    assert!(!confirmed("yes"));
}

#[test]
fn setup_profiles() {
    let mut c = RadheConfig::empty();
    c.model = Some("mine.gguf".to_string());
    apply_minimal_profile(&mut c);
    assert_eq!(c.model.as_deref(), Some("mine.gguf"));
    assert_eq!(c.max_tokens, Some(300));
    assert_eq!(c.profile.as_deref(), Some("minimal"));
    assert_eq!(c.stats_enabled, Some(false));
    assert_eq!(c.shell_enabled, Some(false));
    let mut d = RadheConfig::empty();
    apply_feature_profile(&mut d, Profile::Standard, &standard_features());
    assert_eq!(d.profile.as_deref(), Some("standard"));
    assert_eq!(d.packs_enabled, Some(true));
    apply_choices(&mut d, "exam".to_string(), "hard".to_string(), "hi".to_string());
    assert_eq!(d.mode.as_deref(), Some("exam"));
    assert_eq!(d.lang.as_deref(), Some("hi"));
}
