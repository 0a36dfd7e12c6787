use radhe::modes::TaskKind;
use radhe::models::{clean_path, is_active_model, is_default_model, model_filename};
use radhe::output::{clean_response, prompt_with_delimiter};
use radhe::quiz::{judge_reply, parse_quiz, starts_with_q_marker, AnswerOutcome, QuizScore};

#[test]
fn q_markers() {
    assert!(starts_with_q_marker("Q1: What is a stack?"));
    assert!(starts_with_q_marker("   Q12: deep"));
    assert!(!starts_with_q_marker("Q: missing number"));
    assert!(!starts_with_q_marker("Qa: letter"));
    assert!(!starts_with_q_marker("q1: lowercase"));
    assert!(!starts_with_q_marker("Q1 no colon"));
    assert!(!starts_with_q_marker(""));
}

#[test]
fn quiz_blocks_and_keys() {
    let out = "Here are your questions\nQ1: What is 2+2?\na) 3\nb) 4\nAnswer: B\nQ2: Pick one\na) x\nanswer: z) none\nQ3: No key here\na) y\n";
    let qs = parse_quiz(out);
    assert_eq!(qs.len(), 3);
    assert_eq!(qs[0].lines, vec!["Q1: What is 2+2?", "a) 3", "b) 4"]);
    assert_eq!(qs[0].expected, Some('b'));
    assert_eq!(qs[1].lines, vec!["Q2: Pick one", "a) x"]);
    assert_eq!(qs[1].expected, Some('z'));
    assert_eq!(qs[2].lines, vec!["Q3: No key here", "a) y"]);
    assert_eq!(qs[2].expected, None);
    assert!(parse_quiz("no questions at all").is_empty());
}

#[test]
fn replies_are_judged_case_insensitively() {
    assert_eq!(judge_reply(Some('b'), "  B \n"), AnswerOutcome::Correct);
    assert_eq!(judge_reply(Some('b'), "c"), AnswerOutcome::Wrong('b'));
    assert_eq!(judge_reply(Some('b'), ""), AnswerOutcome::Wrong('b'));
    assert_eq!(judge_reply(None, "a"), AnswerOutcome::NoKey);
}

#[test]
fn score_counts_only_abcd_keys() {
    let mut s = QuizScore::new();
    s.record(Some('a'), AnswerOutcome::Correct);
    s.record(Some('c'), AnswerOutcome::Wrong('c'));
    s.record(Some('z'), AnswerOutcome::Correct);
    s.record(None, AnswerOutcome::NoKey);
    assert_eq!(s.correct(), 1);
    assert_eq!(s.counted(), 2);
    assert!(s.correct() <= s.counted());
}

#[test]
fn model_files() {
    assert_eq!(model_filename("qwen2"), "qwen2.gguf");
    assert_eq!(model_filename("qwen2.gguf"), "qwen2.gguf");
    assert_eq!(model_filename(""), ".gguf");
    assert!(is_active_model("QWEN2.GGUF", "qwen2"));
    assert!(!is_active_model("other.gguf", "qwen2"));
    assert!(is_default_model("Qwen2.5-Coder-1.5B-Instruct-Q4_K_M"));
    assert!(is_default_model("qwen2.5-coder-0.5b-instruct-q4_k_m.gguf"));
    assert!(!is_default_model("llama.gguf"));
}

#[test]
fn windows_path_prefix_is_dropped() {
    assert_eq!(clean_path("\\\\?\\C:\\Users\\a\\notes.txt"), "C:\\Users\\a\\notes.txt");
    assert_eq!(clean_path("/home/a/notes.txt"), "/home/a/notes.txt");
}

#[test]
fn delimiter_is_added_except_for_fix_and_chat() {
    assert_eq!(prompt_with_delimiter("P", TaskKind::Code), "P\n\n### RESPONSE:\n");
    assert_eq!(prompt_with_delimiter("P", TaskKind::Fix), "P");
    assert_eq!(prompt_with_delimiter("P", TaskKind::Chat), "P");
}

#[test]
fn answer_after_response_marker() {
    let raw = "prompt text\n\n### RESPONSE:\n```c\nint main() {}\n```\nExplanation: it does nothing\nmore";
    assert_eq!(clean_response(raw, "", "prompt text", TaskKind::Code), "int main() {}");
    // explanations are kept outside code requests
    assert_eq!(
        clean_response(raw, "", "prompt text", TaskKind::Explain),
        "int main() {}\nExplanation: it does nothing\nmore"
    );
}

#[test]
fn log_lines_and_end_tokens_are_dropped() {
    let raw = "0.01 load time\n### RESPONSE: \n- first\n\n- second [end of text]\n0.5 timing";
    assert_eq!(clean_response(raw, "", "p", TaskKind::Notes), "- first\n- second");
}

#[test]
fn stderr_is_used_when_stdout_is_blank() {
    assert_eq!(clean_response("  \n", "### RESPONSE:\nanswer", "p", TaskKind::Prompt), "answer");
}

#[test]
fn fixed_code_marker() {
    let raw = "BROKEN CODE:\nx\nFIXED CODE:\nint x = 1;\n// Explanation: fixed";
    assert_eq!(clean_response(raw, "", "whatever", TaskKind::Fix), "int x = 1;");
}

#[test]
fn echoed_prompt_is_stripped() {
    let prompt = "<|im_start|>system\nBe brief<|im_end|>\n<|im_start|>user\nhi<|im_end|>\n<|im_start|>assistant\n";
    let raw = "system\nBe brief\nuser\nhi\nassistant\nHello there!";
    assert_eq!(clean_response(raw, "", prompt, TaskKind::Chat), "Hello there!");
}

#[test]
fn repeated_notes_are_dropped() {
    let raw = "### RESPONSE:\n- **Fact** one\n1. fact one\n* Fact two\n2. FACT TWO\n- fact three";
    assert_eq!(
        clean_response(raw, "", "p", TaskKind::Notes),
        "- **Fact** one\n* Fact two\n- fact three"
    );
    // other requests keep them
    assert_eq!(
        clean_response(raw, "", "p", TaskKind::Explain),
        "- **Fact** one\n1. fact one\n* Fact two\n2. FACT TWO\n- fact three"
    );
}
