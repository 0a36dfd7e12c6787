use radhe::chat::{build_chat_prompt, remember_turn, ChatSession, ChatTurn};
use radhe::cli::{build_prompt, Cli, SourceFile};
use radhe::modes::TaskKind;
use radhe::output::{clean_response, lowered_key};
use radhe::prompts::{
    code_words_exec, lang_system_prompt, language_of_lowered, language_word_in, lowered_bug_hint,
};
use radhe::quiz::{first_letter, is_answer_label};
use radhe::setup::{setup_menus, standard_features, Features, Profile, SetupMenu};
use radhe::shell::{ShellAction, ShellState};
use radhe::stats::RadheStats;

fn cli_with(f: impl FnOnce(&mut Cli)) -> Cli {
    let mut c = Cli {
        command: None,
        version: false,
        prompt: None,
        code: None,
        explain: None,
        notes: None,
        fix: None,
        summarize: None,
        chat: false,
        quiz: None,
        quiz_file: None,
        count: None,
        model: None,
        max_tokens: None,
        pack: None,
        list_packs: false,
        create_pack: false,
        delete_pack: None,
        lang: None,
        set_lang: None,
        mode: None,
        difficulty: None,
        set_mode: None,
        set_difficulty: None,
    };
    f(&mut c);
    c
}

fn chars(s: &str) -> Vec<char> {
    s.chars().collect()
}

#[test]
fn language_suffix_goes_into_every_prompt_but_fix() {
    let file = SourceFile { text: "int main() {}\n".to_string(), extension: Some("c".to_string()) };
    let clis = vec![
        cli_with(|c| c.code = Some("sort in rust".to_string())),
        cli_with(|c| c.explain = Some("stacks".to_string())),
        cli_with(|c| c.notes = Some("queues".to_string())),
        cli_with(|c| c.summarize = Some("n.txt".to_string())),
        cli_with(|c| c.quiz_file = Some("n.txt".to_string())),
        cli_with(|c| c.quiz = Some("trees".to_string())),
        cli_with(|c| c.prompt = Some("what is RAM".to_string())),
    ];
    for cli in &clis {
        for lang in ["hi", "hinglish"] {
            let p = build_prompt(cli, lang, "medium", "normal", Some(&file)).unwrap();
            let q = build_prompt(cli, "en", "medium", "normal", Some(&file)).unwrap();
            let suffix = format!("\n\n{}", lang_system_prompt(lang));
            assert!(p.contains(&suffix));
            assert!(!q.contains(lang_system_prompt(lang)));
            let k = p.find(&suffix).unwrap();
            assert_eq!(format!("{}{}", &p[..k], &p[k + suffix.len()..]), q);
        }
    }
    let fix = cli_with(|c| c.fix = Some("a.c".to_string()));
    let p = build_prompt(&fix, "hi", "medium", "normal", Some(&file)).unwrap();
    let q = build_prompt(&fix, "en", "medium", "normal", Some(&file)).unwrap();
    assert_eq!(p, q);
    assert!(!p.contains(lang_system_prompt("hi")));
}

#[test]
fn cleaned_answer_is_trimmed_and_clean() {
    let raw = "### RESPONSE:\n   first line  \n```rust\n\n  ### RESPONSE: again\nmiddle\r\nlast   \n// Explanation below\nafter";
    for task in [TaskKind::Code, TaskKind::Explain, TaskKind::Notes] {
        let s = clean_response(raw, "", "p", task);
        assert_eq!(s, s.trim());
        for l in s.lines() {
            let t = l.trim();
            assert!(!t.is_empty());
            assert!(!t.contains("### RESPONSE:"));
            assert!(!["```", "```c", "```cpp", "```python", "```rust"].contains(&t));
            if task == TaskKind::Code {
                assert!(!t.starts_with("// Explanation"));
            }
        }
    }
    assert_eq!(clean_response(raw, "", "p", TaskKind::Code), "first line  \nmiddle\nlast");
}

#[test]
fn chat_prompt_uses_the_last_six_turns() {
    let mut h: Vec<ChatTurn> = Vec::new();
    let mut all: Vec<ChatTurn> = Vec::new();
    for i in 0..9 {
        let t = ChatTurn { user: format!("u{}", i), assistant: format!("a{}", i) };
        all.push(ChatTurn { user: t.user.clone(), assistant: t.assistant.clone() });
        remember_turn(&mut h, t);
    }
    let last: Vec<ChatTurn> = all[3..]
        .iter()
        .map(|t| ChatTurn { user: t.user.clone(), assistant: t.assistant.clone() })
        .collect();
    let p = build_chat_prompt(&h, "next", "normal", "en");
    assert_eq!(p, build_chat_prompt(&last, "next", "normal", "en"));
    assert!(!p.contains("u2"));
    assert!(p.contains("<|im_start|>user\nu3<|im_end|>\n<|im_start|>assistant\na3<|im_end|>\n"));
}

#[test]
fn pack_usage_names_stay_distinct() {
    let mut s = RadheStats::zero();
    for name in ["Math", "math", "MATH", "cs", "Math"] {
        assert!(s.record_pack(name));
    }
    assert_eq!(s.pack_usage.len(), 2);
    assert_eq!(s.pack_usage[0].name, "math");
    assert_eq!(s.pack_usage[0].count, 4);
    assert_eq!(s.pack_usage[1].name, "cs");
    assert_eq!(s.pack_usage[1].count, 1);
}

#[test]
fn logic_after_lowercasing() {
    assert_eq!(first_letter(&chars("b) four")), Some('b'));
    assert_eq!(first_letter(&chars("")), None);
    assert!(is_answer_label(&chars("answer: b")));
    assert!(!is_answer_label(&chars("Answer: b")));
    assert!(language_word_in(&chars("write bubble sort in c++")));
    assert!(language_word_in(&chars("c#,python")));
    assert!(!language_word_in(&chars("describe a cup")));
    let ws: Vec<String> = code_words_exec(&chars("a b,c++")).into_iter().map(|w| w.into_iter().collect()).collect();
    assert_eq!(ws, vec!["a", "b", "c++"]);
    assert_eq!(language_of_lowered(&chars("py")), "Python");
    assert_eq!(language_of_lowered(&chars("PY")), "code");
    assert_eq!(language_of_lowered(&chars("")), "code");
    assert!(lowered_bug_hint(&chars("x = 1; // bug: off by one")));
    assert!(lowered_bug_hint(&chars("# bug: here")));
    assert!(!lowered_bug_hint(&chars("// Bug: capital")));
    let key: String = lowered_key(&chars("- **fact** one")).into_iter().collect();
    assert_eq!(key, "fact one");
    let key: String = lowered_key(&chars("12. * 3. fact")).into_iter().collect();
    assert_eq!(key, "fact");
}

#[test]
fn code_prompt_without_language_word() {
    let cli = cli_with(|c| c.code = Some("Write a classic loop".to_string()));
    assert_eq!(
        build_prompt(&cli, "en", "medium", "normal", None).unwrap(),
        "You are a coding assistant. Return ONLY valid compilable code with zero explanation. No markdown, no backticks, no comments. Just raw code.\nTask: Write a classic loop"
    );
}

#[test]
fn chat_session_carries_the_last_six_turns() {
    let mut session = ChatSession::new();
    let mut all: Vec<(String, String)> = Vec::new();
    for i in 0..8 {
        let p = session.prompt_for(&format!("q{}", i), "normal", "en");
        let start = if all.len() > 6 { all.len() - 6 } else { 0 };
        let window: Vec<ChatTurn> = all[start..]
            .iter()
            .map(|(u, a)| ChatTurn { user: u.clone(), assistant: a.clone() })
            .collect();
        assert_eq!(p, build_chat_prompt(&window, &format!("q{}", i), "normal", "en"));
        all.push((format!("q{}", i), format!("r{}", i)));
        session.remember(ChatTurn { user: format!("q{}", i), assistant: format!("r{}", i) });
    }
    let p = session.prompt_for("last", "normal", "en");
    assert!(!p.contains("q1<"));
    assert!(p.contains("<|im_start|>user\nq2<|im_end|>"));
    assert!(p.contains("<|im_start|>user\nq7<|im_end|>\n<|im_start|>assistant\nr7<|im_end|>"));
}

#[test]
fn setup_menu_order() {
    assert!(setup_menus(Profile::Minimal, &standard_features()).is_empty());
    assert_eq!(
        setup_menus(Profile::Standard, &standard_features()),
        vec![SetupMenu::Mode, SetupMenu::Difficulty, SetupMenu::Language]
    );
    let f = Features { stats: true, packs: false, shell: true, modes: false, difficulty: true };
    assert_eq!(setup_menus(Profile::Custom, &f), vec![SetupMenu::Difficulty, SetupMenu::Language]);
    let f = Features { stats: false, packs: false, shell: false, modes: false, difficulty: false };
    assert_eq!(setup_menus(Profile::Custom, &f), vec![SetupMenu::Language]);
}

#[test]
fn meta_commands_never_run_the_model() {
    let mut s = ShellState::new("normal", "medium");
    for line in [":set-mode exam", ":set-difficulty HARD", ":mode", ":stats", ":whatever now", ":history", ":quit extra"] {
        assert!(!matches!(s.step(line, "en"), ShellAction::Ask(_)));
    }
    assert_eq!(s.mode(), "exam");
    assert_eq!(s.difficulty(), "hard");
    assert!(matches!(s.step("what is a heap", "en"), ShellAction::Ask(_)));
}
