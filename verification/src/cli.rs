//! The command line as the library sees it, and the decisions taken from it:
//! which request it makes, what prompt it sends, and which settings apply.
use vstd::prelude::*;
use crate::modes::TaskKind;
use crate::prompts::{
    build_code_prompt, build_explain_prompt, build_fix_prompt, build_general_prompt,
    build_notes_prompt, build_quiz_file_prompt, build_quiz_prompt, build_summarize_prompt,
    code_prompt, explain_prompt, fix_prompt, general_prompt, notes_prompt, quiz_file_prompt,
    quiz_prompt, summarize_prompt,
};
use crate::prompts::{
    task_chars_known, explain_body, lang_suffix, notes_excerpt, stripped_code, system_prompt_for, CODE_INSTRUCTIONS,
    EXPLANATION_CUE, TASK_LABEL,
};
use crate::text::{chars_of, contains, is_blank, lemma_match_found, lines, lowers_ascii, matches_at, trim};

verus! {

/// The subcommands.
pub enum Commands {
    Init,
    Doctor,
    Models,
    Update,
    Stats { reset: bool },
    Shell,
    Setup,
}

/// The parsed command line.
pub struct Cli {
    pub command: Option<Commands>,
    pub version: bool,
    pub prompt: Option<String>,
    pub code: Option<String>,
    pub explain: Option<String>,
    pub notes: Option<String>,
    pub fix: Option<String>,
    pub summarize: Option<String>,
    pub chat: bool,
    pub quiz: Option<String>,
    pub quiz_file: Option<String>,
    pub count: Option<u8>,
    pub model: Option<String>,
    pub max_tokens: Option<u32>,
    pub pack: Option<String>,
    pub list_packs: bool,
    pub create_pack: bool,
    pub delete_pack: Option<String>,
    pub lang: Option<String>,
    pub set_lang: Option<String>,
    pub mode: Option<String>,
    pub difficulty: Option<String>,
    pub set_mode: Option<String>,
    pub set_difficulty: Option<String>,
}

/// A source or notes file that a request names, as it was read.
pub struct SourceFile {
    pub text: String,
    /// The file name's extension, if it has one.
    pub extension: Option<String>,
}

/// Why no prompt could be built.
#[derive(Debug)]
pub enum PromptError {
    /// The named file could not be read.
    UnreadableFile(String),
    /// The named file holds only whitespace.
    EmptyFile(String),
    /// The command line asks for nothing.
    NoPrompt,
}

pub open spec fn opt_view(o: Option<String>) -> Option<Seq<char>> {
    match o {
        Some(s) => Some(s@),
        None => None,
    }
}

/// No interactive request and no one-shot request: the interactive loop runs.
pub open spec fn is_interactive(cli: Cli) -> bool {
    cli.prompt is None && cli.code is None && cli.explain is None && cli.notes is None && cli.fix is None
        && cli.quiz is None && cli.summarize is None && cli.quiz_file is None && !cli.chat
}

/// The kind of one-shot request, in the order the flags are looked at.
pub open spec fn task_of(cli: Cli) -> TaskKind {
    if cli.code is Some {
        TaskKind::Code
    } else if cli.explain is Some {
        TaskKind::Explain
    } else if cli.notes is Some {
        TaskKind::Notes
    } else if cli.fix is Some {
        TaskKind::Fix
    } else if cli.quiz is Some {
        TaskKind::Quiz
    } else if cli.summarize is Some {
        TaskKind::Summarize
    } else if cli.quiz_file is Some {
        TaskKind::QuizFile
    } else if cli.chat {
        TaskKind::Chat
    } else {
        TaskKind::Prompt
    }
}

/// The request a command line makes: none for the interactive loop.
pub fn requested_task(cli: &Cli) -> (r: Option<TaskKind>)
    ensures
        is_interactive(*cli) ==> r is None,
        !is_interactive(*cli) ==> r == Some(task_of(*cli)),
{
    if cli.prompt.is_none() && cli.code.is_none() && cli.explain.is_none() && cli.notes.is_none()
        && cli.fix.is_none() && cli.quiz.is_none() && cli.summarize.is_none()
        && cli.quiz_file.is_none() && !cli.chat {
        return None;
    }
    if cli.code.is_some() {
        Some(TaskKind::Code)
    } else if cli.explain.is_some() {
        Some(TaskKind::Explain)
    } else if cli.notes.is_some() {
        Some(TaskKind::Notes)
    } else if cli.fix.is_some() {
        Some(TaskKind::Fix)
    } else if cli.quiz.is_some() {
        Some(TaskKind::Quiz)
    } else if cli.summarize.is_some() {
        Some(TaskKind::Summarize)
    } else if cli.quiz_file.is_some() {
        Some(TaskKind::QuizFile)
    } else if cli.chat {
        Some(TaskKind::Chat)
    } else {
        Some(TaskKind::Prompt)
    }
}

/// The token budget of a one-shot request; free questions and chats use the
/// configured budget.
pub open spec fn token_budget(task: TaskKind, configured: u32) -> u32 {
    match task {
        TaskKind::Code => 300,
        TaskKind::Explain => 200,
        TaskKind::Notes => 150,
        TaskKind::Fix => 400,
        TaskKind::Quiz => 500,
        TaskKind::Summarize => 200,
        TaskKind::QuizFile => 400,
        _ => configured,
    }
}

pub fn max_tokens_for(task: TaskKind, configured: u32) -> (r: u32)
    ensures
        r == token_budget(task, configured),
{
    match task {
        TaskKind::Code => 300,
        TaskKind::Explain => 200,
        TaskKind::Notes => 150,
        TaskKind::Fix => 400,
        TaskKind::Quiz => 500,
        TaskKind::Summarize => 200,
        TaskKind::QuizFile => 400,
        _ => configured,
    }
}

/// What `build_prompt` gives for a file request: an error when the file
/// could not be read or is blank, else the prompt built from it.
pub open spec fn file_prompt_matches(
    path: Seq<char>,
    file: Option<&SourceFile>,
    r: Result<String, PromptError>,
    prompt_of: spec_fn(SourceFile) -> Seq<char>,
) -> bool {
    match file {
        None => r matches Err(PromptError::UnreadableFile(p)) && p@ == path,
        Some(f) => if trim(f.text@).len() == 0 {
            r matches Err(PromptError::EmptyFile(p)) && p@ == path
        } else {
            r matches Ok(s) && s@ == prompt_of(*f)
        },
    }
}

/// The prompt a command line sends, in the order the flags are looked at:
/// code, explain, notes, fix, summarize, quiz file, quiz, free question.
pub open spec fn prompt_matches(
    cli: Cli,
    lang: Seq<char>,
    difficulty: Seq<char>,
    mode: Seq<char>,
    file: Option<&SourceFile>,
    r: Result<String, PromptError>,
) -> bool {
    if cli.code is Some {
        r matches Ok(s) && s@ == code_prompt(cli.code->0@, lang)
    } else if cli.explain is Some {
        r matches Ok(s) && s@ == explain_prompt(cli.explain->0@, mode, lang)
    } else if cli.notes is Some {
        r matches Ok(s) && s@ == notes_prompt(cli.notes->0@, mode, lang)
    } else if cli.fix is Some {
        file_prompt_matches(
            cli.fix->0@,
            file,
            r,
            |f: SourceFile| fix_prompt(opt_view(f.extension), f.text@),
        )
    } else if cli.summarize is Some {
        file_prompt_matches(
            cli.summarize->0@,
            file,
            r,
            |f: SourceFile| summarize_prompt(f.text@, mode, lang),
        )
    } else if cli.quiz_file is Some {
        file_prompt_matches(
            cli.quiz_file->0@,
            file,
            r,
            |f: SourceFile| quiz_file_prompt(f.text@, difficulty, lang),
        )
    } else if cli.quiz is Some {
        r matches Ok(s) && s@ == quiz_prompt(cli.quiz->0@, cli.count, difficulty, lang)
    } else if cli.prompt is Some {
        r matches Ok(s) && s@ == general_prompt(cli.prompt->0@, mode, lang)
    } else {
        r matches Err(PromptError::NoPrompt)
    }
}

/// The request is a fix: no code, explain or notes request comes before it.
pub open spec fn is_fix_request(cli: Cli) -> bool {
    cli.code is None && cli.explain is None && cli.notes is None && cli.fix is Some
}

/// `p` is `q` with the language suffix of `lang` put in at one place.
pub open spec fn inserts_suffix(p: Seq<char>, q: Seq<char>, lang: Seq<char>) -> bool {
    exists|k: int| 0 <= k <= q.len() && #[trigger] q.take(k) + lang_suffix(lang) + q.skip(k) == p
}

proof fn lemma_suffix_at(a: Seq<char>, b: Seq<char>, lang: Seq<char>)
    ensures
        inserts_suffix(a + lang_suffix(lang) + b, a + lang_suffix("en"@) + b, lang),
        lang != "en"@ ==> contains(a + lang_suffix(lang) + b, "\n\n"@ + system_prompt_for(lang)),
{
    let q = a + lang_suffix("en"@) + b;
    let k = a.len() as int;
    assert(lang_suffix("en"@) =~= Seq::<char>::empty());
    assert(q.take(k) =~= a);
    assert(q.skip(k) =~= b);
    assert(q.take(k) + lang_suffix(lang) + q.skip(k) == a + lang_suffix(lang) + b);
    if lang != "en"@ {
        let p = a + lang_suffix(lang) + b;
        let s = "\n\n"@ + system_prompt_for(lang);
        assert(p.subrange(k, k + s.len()) =~= s);
        lemma_match_found(p, s, k);
    }
}

/// The language of a request shows in its prompt in one way only. Set `lang`
/// against English (`en`), everything else equal: both give a prompt or both
/// fail alike. A fix prompt is the same whatever the language. Any other
/// prompt is the English one with the language suffix put in, a blank line
/// and the language's system prompt when `lang` is not `en`, nothing when it
/// is.
pub proof fn lemma_language_suffix(
    cli: Cli,
    lang: Seq<char>,
    difficulty: Seq<char>,
    mode: Seq<char>,
    file: Option<&SourceFile>,
    r: Result<String, PromptError>,
    r_en: Result<String, PromptError>,
)
    requires
        prompt_matches(cli, lang, difficulty, mode, file, r),
        prompt_matches(cli, "en"@, difficulty, mode, file, r_en),
    ensures
        r is Ok <==> r_en is Ok,
        r matches Err(PromptError::UnreadableFile(a)) ==> r_en matches Err(
            PromptError::UnreadableFile(b),
        ) && a@ == b@,
        r matches Err(PromptError::EmptyFile(a)) ==> r_en matches Err(PromptError::EmptyFile(b))
            && a@ == b@,
        r matches Err(PromptError::NoPrompt) ==> r_en matches Err(PromptError::NoPrompt),
        r matches Ok(p) ==> (r_en matches Ok(q) ==> if is_fix_request(cli) {
            p@ == q@
        } else {
            &&& inserts_suffix(p@, q@, lang)
            &&& (lang != "en"@ ==> contains(p@, "\n\n"@ + system_prompt_for(lang)))
        }),
{
    if let (Ok(p), Ok(q)) = (r, r_en) {
        if cli.code is Some {
            let t = crate::prompts::code_task(cli.code->0@);
            lemma_suffix_at(CODE_INSTRUCTIONS@, TASK_LABEL@ + t, lang);
            assert(p@ =~= CODE_INSTRUCTIONS@ + lang_suffix(lang) + (TASK_LABEL@ + t));
            assert(q@ =~= CODE_INSTRUCTIONS@ + lang_suffix("en"@) + (TASK_LABEL@ + t));
        } else if cli.explain is Some {
            let a = explain_body(cli.explain->0@, mode);
            lemma_suffix_at(a, EXPLANATION_CUE@, lang);
        } else if cli.notes is Some {
            let a = crate::prompts::notes_prompt(cli.notes->0@, mode, "en"@);
            assert(lang_suffix("en"@) =~= Seq::<char>::empty());
            lemma_suffix_at(a, seq![], lang);
            assert(p@ =~= a + lang_suffix(lang) + seq![]);
            assert(q@ =~= a + lang_suffix("en"@) + seq![]);
        } else if cli.fix is Some {
        } else if cli.summarize is Some {
            let f = *file->0;
            let a = crate::prompts::summarize_prompt(f.text@, mode, "en"@);
            let head = a.take(a.len() - (crate::prompts::NOTES_LABEL@ + notes_excerpt(f.text@)).len());
            let tail = crate::prompts::NOTES_LABEL@ + notes_excerpt(f.text@);
            assert(lang_suffix("en"@) =~= Seq::<char>::empty());
            assert(head + tail =~= a);
            lemma_suffix_at(head, tail, lang);
            assert(p@ =~= head + lang_suffix(lang) + tail);
            assert(q@ =~= head + lang_suffix("en"@) + tail);
        } else if cli.quiz_file is Some {
            let f = *file->0;
            let a = crate::prompts::quiz_file_prompt(f.text@, difficulty, "en"@);
            let tail = crate::prompts::NOTES_LABEL@ + notes_excerpt(f.text@);
            let head = a.take(a.len() - tail.len());
            assert(lang_suffix("en"@) =~= Seq::<char>::empty());
            assert(head + tail =~= a);
            lemma_suffix_at(head, tail, lang);
            assert(p@ =~= head + lang_suffix(lang) + tail);
            assert(q@ =~= head + lang_suffix("en"@) + tail);
        } else if cli.quiz is Some {
            let a = crate::prompts::quiz_prompt(cli.quiz->0@, cli.count, difficulty, "en"@);
            assert(lang_suffix("en"@) =~= Seq::<char>::empty());
            lemma_suffix_at(a, seq![], lang);
            assert(p@ =~= a + lang_suffix(lang) + seq![]);
            assert(q@ =~= a + lang_suffix("en"@) + seq![]);
        } else {
            let a = crate::prompts::general_prompt(cli.prompt->0@, mode, "en"@);
            let tail = crate::prompts::USER_LABEL@ + cli.prompt->0@;
            let head = a.take(a.len() - tail.len());
            assert(lang_suffix("en"@) =~= Seq::<char>::empty());
            assert(head + tail =~= a);
            lemma_suffix_at(head, tail, lang);
            assert(p@ =~= head + lang_suffix(lang) + tail);
            assert(q@ =~= head + lang_suffix("en"@) + tail);
        }
    }
}

fn copy_string(s: &String) -> (r: String)
    ensures
        r@ == s@,
{
    s.clone()
}

/// Checks a file request's file: unreadable and blank files are errors.
fn checked_file<'a>(path: &String, file: Option<&'a SourceFile>) -> (r: Result<
    &'a SourceFile,
    PromptError,
>)
    ensures
        file is None ==> (r matches Err(PromptError::UnreadableFile(p)) && p@ == path@),
        file matches Some(f) ==> if trim(f.text@).len() == 0 {
            r matches Err(PromptError::EmptyFile(p)) && p@ == path@
        } else {
            r matches Ok(g) && g == f
        },
{
    match file {
        None => Err(PromptError::UnreadableFile(copy_string(path))),
        Some(f) => {
            let t = chars_of(f.text.as_str());
            if is_blank(t.as_slice()) {
                Err(PromptError::EmptyFile(copy_string(path)))
            } else {
                Ok(f)
            }
        },
    }
}

/// Builds the prompt for a command line. `file` is the file that the fix,
/// summarize or quiz-file request names, as read, or `None` if it could not
/// be read.
pub fn build_prompt(
    cli: &Cli,
    lang: &str,
    difficulty: &str,
    study_mode: &str,
    file: Option<&SourceFile>,
) -> (r: Result<String, PromptError>)
    ensures
        prompt_matches(*cli, lang@, difficulty@, study_mode@, file, r),
        cli.code matches Some(t) ==> task_chars_known(t@),
        is_fix_request(*cli) && file is Some && r is Ok ==> {
            let f = *file->0;
            &&& (f.extension matches Some(e) ==> lowers_ascii(e@))
            &&& forall|k: int|
                0 <= k < lines(f.text@).len() ==> lowers_ascii(#[trigger] lines(f.text@)[k])
        },
{
    if let Some(task) = &cli.code {
        return Ok(build_code_prompt(task.as_str(), lang));
    }
    if let Some(topic) = &cli.explain {
        return Ok(build_explain_prompt(topic.as_str(), study_mode, lang));
    }
    if let Some(topic) = &cli.notes {
        return Ok(build_notes_prompt(topic.as_str(), study_mode, lang));
    }
    if let Some(path) = &cli.fix {
        return match checked_file(path, file) {
            Err(e) => Err(e),
            Ok(f) => {
                let ext: Option<&str> = match &f.extension {
                    Some(e) => Some(e.as_str()),
                    None => None,
                };
                Ok(build_fix_prompt(ext, f.text.as_str()))
            },
        };
    }
    if let Some(path) = &cli.summarize {
        return match checked_file(path, file) {
            Err(e) => Err(e),
            Ok(f) => Ok(build_summarize_prompt(f.text.as_str(), study_mode, lang)),
        };
    }
    if let Some(path) = &cli.quiz_file {
        return match checked_file(path, file) {
            Err(e) => Err(e),
            Ok(f) => Ok(build_quiz_file_prompt(f.text.as_str(), difficulty, lang)),
        };
    }
    if let Some(topic) = &cli.quiz {
        return Ok(build_quiz_prompt(topic.as_str(), cli.count, difficulty, lang));
    }
    if let Some(question) = &cli.prompt {
        return Ok(build_general_prompt(question.as_str(), study_mode, lang));
    }
    Err(PromptError::NoPrompt)
}

} // verus!

verus! {

/// The file a command line's prompt is built from: the fix, summarize or
/// quiz-file path, when no code, explain or notes request comes first.
pub open spec fn prompt_file(cli: Cli) -> Option<Seq<char>> {
    if cli.code is Some || cli.explain is Some || cli.notes is Some {
        None
    } else if cli.fix is Some {
        opt_view(cli.fix)
    } else if cli.summarize is Some {
        opt_view(cli.summarize)
    } else {
        opt_view(cli.quiz_file)
    }
}

/// The path of the file that `build_prompt` needs read, if any.
pub fn prompt_file_path(cli: &Cli) -> (r: Option<String>)
    ensures
        opt_view(r) == prompt_file(*cli),
{
    if cli.code.is_some() || cli.explain.is_some() || cli.notes.is_some() {
        None
    } else if let Some(p) = &cli.fix {
        Some(p.clone())
    } else if let Some(p) = &cli.summarize {
        Some(p.clone())
    } else if let Some(p) = &cli.quiz_file {
        Some(p.clone())
    } else {
        None
    }
}

} // verus!
