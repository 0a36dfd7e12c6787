use radhe::cli::{build_prompt, Cli, PromptError, SourceFile};
use radhe::prompts::{
    build_code_prompt, build_explain_prompt, build_general_prompt, build_interactive_explain_prompt,
    build_notes_prompt, build_quiz_file_prompt, build_quiz_prompt, build_summarize_prompt,
    has_language_hint, lang_system_prompt, strip_bug_hints, fix_language,
};

fn empty_cli() -> Cli {
    Cli {
        command: None,
        version: false,
        prompt: None,
        code: None,
        explain: None,
        notes: None,
        fix: None,
        summarize: None,
        chat: false,
        quiz: None,
        quiz_file: None,
        count: None,
        model: None,
        max_tokens: None,
        pack: None,
        list_packs: false,
        create_pack: false,
        delete_pack: None,
        lang: None,
        set_lang: None,
        mode: None,
        difficulty: None,
        set_mode: None,
        set_difficulty: None,
    }
}

#[test]
fn test_build_prompt_code() {
    let cli = Cli {
        command: None,
        version: false,
        prompt: None,
        code: Some("bubble sort in c".to_string()),
        explain: None,
        notes: None,
        fix: None,
        summarize: None,
        chat: false,
        quiz: None,
        quiz_file: None,
        count: None,
        model: None,
        max_tokens: None,
        pack: None,
        list_packs: false,
        create_pack: false,
        delete_pack: None,
        lang: None,
        set_lang: None,
        mode: None,
        difficulty: None,
        set_mode: None,
        set_difficulty: None,
    };
    let p = build_prompt(&cli, "en", "medium", "normal", None).unwrap();
    assert!(p.contains("coding assistant"), "should contain coding assistant");
    assert!(p.contains("bubble sort in c"), "should contain prompt text");
}

#[test]
fn test_build_prompt_explain() {
    let cli = Cli {
        command: None,
        version: false,
        prompt: None,
        code: None,
        explain: Some("recursion".to_string()),
        notes: None,
        fix: None,
        summarize: None,
        chat: false,
        quiz: None,
        quiz_file: None,
        count: None,
        model: None,
        max_tokens: None,
        pack: None,
        list_packs: false,
        create_pack: false,
        delete_pack: None,
        lang: None,
        set_lang: None,
        mode: None,
        difficulty: None,
        set_mode: None,
        set_difficulty: None,
    };
    let p = build_prompt(&cli, "en", "medium", "normal", None).unwrap();
    assert!(p.contains("Explain 'recursion' in exactly 5 bullet points"), "should format explanation prompt");
}

#[test]
fn code_prompt_exact_with_language_note() {
    let p = build_code_prompt("bubble sort in c", "en");
    assert_eq!(
        p,
        "You are a coding assistant. Return ONLY valid compilable code with zero explanation. No markdown, no backticks, no comments. Just raw code.\nTask: bubble sort in c, respect the exact language specified."
    );
}

#[test]
fn code_prompt_without_language_and_in_hindi() {
    let p = build_code_prompt("sort a list", "hi");
    assert_eq!(
        p,
        format!(
            "You are a coding assistant. Return ONLY valid compilable code with zero explanation. No markdown, no backticks, no comments. Just raw code.\n\n{}\nTask: sort a list",
            lang_system_prompt("hi")
        )
    );
}

#[test]
fn language_hints_are_whole_words() {
    assert!(has_language_hint("Bubble Sort in C"));
    assert!(has_language_hint("write it in C++ please"));
    assert!(has_language_hint("a c#-style event"));
    assert!(has_language_hint("(rust)"));
    assert!(!has_language_hint("calculate the sum"));
    assert!(!has_language_hint("golangish code"));
    assert!(!has_language_hint(""));
}

#[test]
fn system_prompts_by_language() {
    assert!(lang_system_prompt("hi").contains("simple Hindi (Devanagari script)"));
    assert!(lang_system_prompt("hinglish").contains("Hinglish"));
    assert_eq!(
        lang_system_prompt("en"),
        "You are Radhe, a helpful AI assistant. Respond in clear, simple English."
    );
    assert_eq!(lang_system_prompt("fr"), lang_system_prompt("en"));
}

#[test]
fn explain_prompts_by_mode() {
    assert_eq!(
        build_explain_prompt("stacks", "normal", "en"),
        "Explain 'stacks' in exactly 5 bullet points for a beginner programmer. Each bullet must be one sentence. Stop after 5 bullets. Do not repeat yourself.\n\nExplanation:"
    );
    assert_eq!(
        build_explain_prompt("stacks", "exam", "en"),
        "Explain 'stacks' for a beginner programmer. Provide very short, direct, exam-focused answers with zero fluff. Stop after 3 sentences.\n\nExplanation:"
    );
    let hi = build_explain_prompt("stacks", "revision", "hi");
    assert!(hi.starts_with("Explain 'stacks' for a beginner programmer using bullet-style"));
    assert!(hi.ends_with(&format!("\n\n{}\n\nExplanation:", lang_system_prompt("hi"))));
}

#[test]
fn interactive_explain_puts_cue_before_language() {
    let p = build_interactive_explain_prompt("queues", "normal", "hinglish");
    assert!(p.ends_with(&format!(
        "Do not repeat yourself.\n\nExplanation:\n\n{}",
        lang_system_prompt("hinglish")
    )));
    let e = build_interactive_explain_prompt("queues", "exam", "en");
    assert!(e.ends_with("Stop after 3 sentences."));
}

#[test]
fn notes_prompts_by_mode() {
    let n = build_notes_prompt("DNS", "normal", "en");
    assert!(n.starts_with("Give exactly 6 bullet points about 'DNS' for a student. Format strictly as:\n- [fact 1]"));
    assert!(n.ends_with("Start directly with the first bullet, no intro paragraph."));
    let e = build_notes_prompt("DNS", "exam", "en");
    assert!(e.contains("for a student. Focus strictly on exam-relevant facts, direct and with zero fluff. Format strictly as:"));
}

#[test]
fn quiz_prompt_counts_and_difficulty() {
    let q = build_quiz_prompt("recursion", None, "medium", "en");
    assert!(q.starts_with("Write 3 exam MCQs about 'recursion'. The questions must be of moderate/medium difficulty"));
    assert!(q.ends_with("Only output the questions. No intro, no explanation."));
    let h = build_quiz_prompt("graphs", Some(12), "hard", "en");
    assert!(h.starts_with("Write 12 exam MCQs about 'graphs'. The questions must be advanced and hard"));
    let z = build_quiz_prompt("x", Some(0), "easy", "en");
    assert!(z.starts_with("Write 0 exam MCQs about 'x'. The questions must be simple and easy"));
    let big = build_quiz_prompt("x", Some(255), "easy", "en");
    assert!(big.starts_with("Write 255 exam"));
}

#[test]
fn summarize_prompt_trims_and_truncates() {
    let long: String = std::iter::repeat('a').take(3500).collect();
    let content = format!("  \n{}\n\n", long);
    let p = build_summarize_prompt(&content, "normal", "en");
    let expected_tail: String = std::iter::repeat('a').take(3000).collect();
    assert!(p.starts_with("You are a study assistant. Summarize the following notes into exactly 5 clear bullet points."));
    assert!(p.ends_with(&format!("\n\nNotes:\n{}", expected_tail)));
    let short = build_summarize_prompt("  hello  ", "exam", "en");
    assert_eq!(
        short,
        "You are an exam prep assistant. Summarize the following notes into extremely direct, short exam answers with zero fluff. No intro/outro.\n\nNotes:\nhello"
    );
}

#[test]
fn quiz_file_prompt_format() {
    let p = build_quiz_file_prompt("photosynthesis", "easy", "en");
    assert!(p.starts_with("You are a student quiz generator. Based on the following notes, generate exactly 5 quiz questions with answers. The questions must be simple and easy, focusing on basic recall"));
    assert!(p.contains(" Format each as:\nQ1: [question]\nA1: [answer]"));
    assert!(p.ends_with("\n\nNotes:\nphotosynthesis"));
}

#[test]
fn general_prompt_by_mode() {
    assert_eq!(
        build_general_prompt("what is TCP?", "normal", "en"),
        "You are Radhe AI, a tiny offline terminal assistant for students. Be concise and practical.\nUser: what is TCP?"
    );
    assert!(build_general_prompt("q", "revision", "en").contains("Respond using bullet-style concise memory aids."));
}

#[test]
fn bug_hints_are_removed() {
    let code = "int main() {\n  int x = 1; // BUG: off by one\n  return x;\n# Bug: here\n}";
    assert_eq!(strip_bug_hints(code), "int main() {\n  return x;\n}");
}

#[test]
fn fix_language_from_extension() {
    assert_eq!(fix_language(Some("C")), "C");
    assert_eq!(fix_language(Some("cpp")), "C++");
    assert_eq!(fix_language(Some("PY")), "Python");
    assert_eq!(fix_language(Some("rs")), "Rust");
    assert_eq!(fix_language(Some("java")), "Java");
    assert_eq!(fix_language(Some("go")), "code");
    assert_eq!(fix_language(None), "code");
}

#[test]
fn fix_request_reads_the_file() {
    let mut cli = empty_cli();
    cli.fix = Some("/tmp/broken.c".to_string());
    let file = SourceFile { text: "int main( {\nreturn 0; // bug: missing paren\n}\n".to_string(), extension: Some("c".to_string()) };
    let p = build_prompt(&cli, "hi", "medium", "normal", Some(&file)).unwrap();
    assert_eq!(
        p,
        "You are a C/C compiler and debugger. The following code has syntax errors and logic bugs. Rewrite it completely with ALL bugs fixed. Output ONLY the fixed code. No explanations, no comments about what was fixed, no markdown fences.\nBROKEN CODE:\nint main( {\n}\nFIXED CODE:\n"
    );
}

#[test]
fn file_requests_report_unreadable_and_empty_files() {
    let mut cli = empty_cli();
    cli.summarize = Some("notes.txt".to_string());
    match build_prompt(&cli, "en", "medium", "normal", None) {
        Err(PromptError::UnreadableFile(p)) => assert_eq!(p, "notes.txt"),
        other => panic!("unexpected {:?}", other),
    }
    let blank = SourceFile { text: " \n\t ".to_string(), extension: None };
    match build_prompt(&cli, "en", "medium", "normal", Some(&blank)) {
        Err(PromptError::EmptyFile(p)) => assert_eq!(p, "notes.txt"),
        other => panic!("unexpected {:?}", other),
    }
    let mut q = empty_cli();
    q.quiz_file = Some("n.txt".to_string());
    let f = SourceFile { text: "cells".to_string(), extension: Some("txt".to_string()) };
    assert_eq!(build_prompt(&q, "en", "hard", "normal", Some(&f)).unwrap(), build_quiz_file_prompt("cells", "hard", "en"));
}

#[test]
fn nothing_requested_is_an_error() {
    let cli = empty_cli();
    assert!(matches!(build_prompt(&cli, "en", "medium", "normal", None), Err(PromptError::NoPrompt)));
}

#[test]
fn flag_priority_in_prompts() {
    let mut cli = empty_cli();
    cli.quiz = Some("trees".to_string());
    cli.prompt = Some("hello".to_string());
    cli.notes = Some("heaps".to_string());
    let p = build_prompt(&cli, "en", "medium", "normal", None).unwrap();
    assert_eq!(p, build_notes_prompt("heaps", "normal", "en"));
    cli.notes = None;
    let q = build_prompt(&cli, "en", "medium", "normal", None).unwrap();
    assert_eq!(q, build_quiz_prompt("trees", None, "medium", "en"));
    cli.quiz = None;
    let g = build_prompt(&cli, "en", "medium", "exam", None).unwrap();
    assert_eq!(g, build_general_prompt("hello", "exam", "en"));
}
