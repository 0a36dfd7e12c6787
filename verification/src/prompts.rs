//! The prompts the assistant sends to the model, for each kind of request,
//! study mode, quiz difficulty and answer language.
use vstd::prelude::*;
use crate::text::{
    append_chars, chars_eq, chars_of, contains, contains_exec, decimal, decimal_chars, is_blank,
    join, join_chars, lines, lines_of, lowercase, lowercase_chars, lowers_ascii, alnum_known, push_str, same_text, string_of,
    trim, trim_chars, views, alphanumeric, is_alphanumeric, copy_range, lemma_match_found, lemma_contains_piece,
};

verus! {

// ---------------------------------------------------------------------------
// Answer language
// ---------------------------------------------------------------------------

pub const HINDI_SYSTEM_PROMPT: &'static str = "You are Radhe, an AI assistant. Always respond in simple Hindi (Devanagari script). Use clear, student-friendly language. Avoid complex Sanskrit terms — prefer everyday Hindi words.";

pub const HINGLISH_SYSTEM_PROMPT: &'static str = "You are Radhe, an AI assistant. Always respond in Hinglish — a natural mix of Hindi and English commonly used by Indian students. Write Hindi words in Roman script (not Devanagari). Keep it casual and friendly, like explaining to a classmate.";

pub const ENGLISH_SYSTEM_PROMPT: &'static str = "You are Radhe, a helpful AI assistant. Respond in clear, simple English.";

/// The instruction that sets the answer language: Hindi for `hi`, Hinglish
/// for `hinglish`, English for anything else.
pub open spec fn system_prompt_for(lang: Seq<char>) -> Seq<char> {
    if lang == "hi"@ {
        HINDI_SYSTEM_PROMPT@
    } else if lang == "hinglish"@ {
        HINGLISH_SYSTEM_PROMPT@
    } else {
        ENGLISH_SYSTEM_PROMPT@
    }
}

pub fn lang_system_prompt(lang: &str) -> (r: &'static str)
    ensures
        r@ == system_prompt_for(lang@),
{
    if same_text(lang, "hi") {
        HINDI_SYSTEM_PROMPT
    } else if same_text(lang, "hinglish") {
        HINGLISH_SYSTEM_PROMPT
    } else {
        ENGLISH_SYSTEM_PROMPT
    }
}

/// What is appended to a prompt for the answer language: nothing for `en`,
/// else a blank line and the language instruction.
pub open spec fn lang_suffix(lang: Seq<char>) -> Seq<char> {
    if lang == "en"@ {
        seq![]
    } else {
        "\n\n"@ + system_prompt_for(lang)
    }
}

pub fn push_lang_suffix(r: &mut Vec<char>, lang: &str)
    ensures
        final(r)@ == old(r)@ + lang_suffix(lang@),
{
    if !same_text(lang, "en") {
        push_str(r, "\n\n");
        push_str(r, lang_system_prompt(lang));
    } else {
        assert(old(r)@ + lang_suffix(lang@) =~= old(r)@);
    }
}

/// The study mode `exam`.
pub open spec fn is_exam(mode: Seq<char>) -> bool {
    mode == "exam"@
}

/// The study mode `revision`.
pub open spec fn is_revision(mode: Seq<char>) -> bool {
    mode == "revision"@
}

// ---------------------------------------------------------------------------
// Code
// ---------------------------------------------------------------------------

pub const CODE_INSTRUCTIONS: &'static str = "You are a coding assistant. Return ONLY valid compilable code with zero explanation. No markdown, no backticks, no comments. Just raw code.";

pub const TASK_LABEL: &'static str = "\nTask: ";

pub const LANGUAGE_NOTE: &'static str = ", respect the exact language specified.";

/// A character that separates words when looking for a language name:
/// neither alphanumeric nor `+` nor `#`.
pub open spec fn is_word_break(c: char) -> bool {
    !alphanumeric(c) && c != '+' && c != '#'
}

pub open spec fn code_words_acc(s: Seq<char>) -> (Seq<Seq<char>>, Seq<char>)
    decreases s.len(),
{
    if s.len() == 0 {
        (seq![], seq![])
    } else {
        let (done, cur) = code_words_acc(s.drop_last());
        if is_word_break(s.last()) {
            (done.push(cur), seq![])
        } else {
            (done, cur.push(s.last()))
        }
    }
}

/// The pieces of `s` between word breaks (`str::split` with that predicate).
pub open spec fn code_words(s: Seq<char>) -> Seq<Seq<char>> {
    let (done, cur) = code_words_acc(s);
    done.push(cur)
}

/// The programming languages a coding task may name.
pub open spec fn is_language_name(w: Seq<char>) -> bool {
    w == "c"@ || w == "c++"@ || w == "cpp"@ || w == "c#"@ || w == "csharp"@ || w == "rust"@ || w
        == "python"@ || w == "java"@ || w == "javascript"@ || w == "js"@ || w == "typescript"@ || w
        == "ts"@ || w == "go"@ || w == "golang"@ || w == "ruby"@ || w == "php"@ || w == "swift"@
        || w == "kotlin"@ || w == "bash"@ || w == "shell"@ || w == "powershell"@ || w == "sql"@
        || w == "html"@ || w == "css"@ || w == "assembly"@
}

/// The task, lowercased, has a word that names a programming language.
pub open spec fn names_language(task: Seq<char>) -> bool {
    has_language_word(lowercase(task))
}

/// Some word of the (lowercased) text names a programming language.
pub open spec fn has_language_word(low: Seq<char>) -> bool {
    exists|k: int| 0 <= k < code_words(low).len() && is_language_name(#[trigger] code_words(low)[k])
}

fn is_language_name_exec(w: &[char]) -> (b: bool)
    ensures
        b == is_language_name(w@),
{
    let names: [&'static str; 25] = [
        "c",
        "c++",
        "cpp",
        "c#",
        "csharp",
        "rust",
        "python",
        "java",
        "javascript",
        "js",
        "typescript",
        "ts",
        "go",
        "golang",
        "ruby",
        "php",
        "swift",
        "kotlin",
        "bash",
        "shell",
        "powershell",
        "sql",
        "html",
        "css",
        "assembly",
    ];
    let mut i: usize = 0;
    while i < 25
        invariant
            i <= 25,
            names@ == seq![
                "c",
                "c++",
                "cpp",
                "c#",
                "csharp",
                "rust",
                "python",
                "java",
                "javascript",
                "js",
                "typescript",
                "ts",
                "go",
                "golang",
                "ruby",
                "php",
                "swift",
                "kotlin",
                "bash",
                "shell",
                "powershell",
                "sql",
                "html",
                "css",
                "assembly",
            ],
            forall|k: int| 0 <= k < i ==> w@ != (#[trigger] names@[k])@,
        decreases 25 - i,
    {
        let n = chars_of(names[i]);
        if chars_eq(w, n.as_slice()) {
            return true;
        }
        i += 1;
    }
    assert(!is_language_name(w@)) by {
        assert(w@ != names@[0]@);
        assert(w@ != names@[1]@);
        assert(w@ != names@[2]@);
        assert(w@ != names@[3]@);
        assert(w@ != names@[4]@);
        assert(w@ != names@[5]@);
        assert(w@ != names@[6]@);
        assert(w@ != names@[7]@);
        assert(w@ != names@[8]@);
        assert(w@ != names@[9]@);
        assert(w@ != names@[10]@);
        assert(w@ != names@[11]@);
        assert(w@ != names@[12]@);
        assert(w@ != names@[13]@);
        assert(w@ != names@[14]@);
        assert(w@ != names@[15]@);
        assert(w@ != names@[16]@);
        assert(w@ != names@[17]@);
        assert(w@ != names@[18]@);
        assert(w@ != names@[19]@);
        assert(w@ != names@[20]@);
        assert(w@ != names@[21]@);
        assert(w@ != names@[22]@);
        assert(w@ != names@[23]@);
        assert(w@ != names@[24]@);
    }
    false
}

/// The words of a text for the language search: the pieces between word
/// breaks.
pub fn code_words_exec(s: &[char]) -> (r: Vec<Vec<char>>)
    ensures
        views(r@) == code_words(s@),
        forall|k: int| 0 <= k < s@.len() ==> alnum_known(#[trigger] s@[k]),
{
    let mut done: Vec<Vec<char>> = Vec::new();
    let mut cur: Vec<char> = Vec::new();
    let mut i: usize = 0;
    assert(s@.take(0) =~= Seq::<char>::empty());
    assert(views(done@) =~= Seq::<Seq<char>>::empty());
    while i < s.len()
        invariant
            i <= s@.len(),
            (views(done@), cur@) == code_words_acc(s@.take(i as int)),
            forall|k: int| 0 <= k < i ==> alnum_known(#[trigger] s@[k]),
        decreases s@.len() - i,
    {
        assert(s@.take(i + 1).drop_last() =~= s@.take(i as int));
        let c = s[i];
        if !is_alphanumeric(c) && c != '+' && c != '#' {
            let w = cur;
            let ghost before = views(done@);
            done.push(w);
            assert(views(done@) =~= before.push(w@));
            cur = Vec::new();
        } else {
            cur.push(c);
        }
        i += 1;
    }
    assert(s@.take(s@.len() as int) =~= s@);
    let ghost before = views(done@);
    let w = cur;
    done.push(w);
    assert(views(done@) =~= before.push(w@));
    done
}

/// Whether a lowercased text has a word that names a programming language.
pub fn language_word_in(low: &[char]) -> (b: bool)
    ensures
        b == has_language_word(low@),
        forall|k: int| 0 <= k < low@.len() ==> alnum_known(#[trigger] low@[k]),
{
    let ws = code_words_exec(low);
    let mut i: usize = 0;
    while i < ws.len()
        invariant
            i <= ws@.len(),
            views(ws@) == code_words(low@),
            forall|k: int| 0 <= k < low@.len() ==> alnum_known(#[trigger] low@[k]),
            forall|k: int| 0 <= k < i ==> !is_language_name(#[trigger] views(ws@)[k]),
        decreases ws@.len() - i,
    {
        if is_language_name_exec(ws[i].as_slice()) {
            assert(views(ws@)[i as int] == ws@[i as int]@);
            return true;
        }
        assert(views(ws@)[i as int] == ws@[i as int]@);
        i += 1;
    }
    false
}

/// What is known of the std calls that looking for a language name in
/// `task` made: how the task was lowercased on ASCII text, and which of the
/// lowercased task's ASCII characters are alphanumeric.
pub open spec fn task_chars_known(task: Seq<char>) -> bool {
    &&& lowers_ascii(task)
    &&& forall|k: int| 0 <= k < lowercase(task).len() ==> alnum_known(#[trigger] lowercase(task)[k])
}

/// Whether a coding task names a programming language.
pub fn has_language_hint(task: &str) -> (b: bool)
    ensures
        b == names_language(task@),
        task_chars_known(task@),
{
    let t = chars_of(task);
    let low = lowercase_chars(t.as_slice());
    language_word_in(low.as_slice())
}

/// The task as sent: with a reminder to keep to the language, if it names one.
pub open spec fn code_task(task: Seq<char>) -> Seq<char> {
    if names_language(task) {
        task + LANGUAGE_NOTE@
    } else {
        task
    }
}

/// The prompt of a code request.
pub open spec fn code_prompt(task: Seq<char>, lang: Seq<char>) -> Seq<char> {
    CODE_INSTRUCTIONS@ + lang_suffix(lang) + TASK_LABEL@ + code_task(task)
}

pub fn build_code_prompt(task: &str, lang: &str) -> (r: String)
    ensures
        r@ == code_prompt(task@, lang@),
        task_chars_known(task@),
{
    let mut r: Vec<char> = Vec::new();
    push_str(&mut r, CODE_INSTRUCTIONS);
    push_lang_suffix(&mut r, lang);
    push_str(&mut r, TASK_LABEL);
    push_str(&mut r, task);
    if has_language_hint(task) {
        push_str(&mut r, LANGUAGE_NOTE);
    }
    assert(r@ =~= code_prompt(task@, lang@));
    string_of(r.as_slice())
}

} // verus!

verus! {

// ---------------------------------------------------------------------------
// Explanations and notes
// ---------------------------------------------------------------------------

pub const EXPLAIN_OPEN: &'static str = "Explain '";

pub const EXPLAIN_EXAM: &'static str = "' for a beginner programmer. Provide very short, direct, exam-focused answers with zero fluff. Stop after 3 sentences.";

pub const EXPLAIN_REVISION: &'static str = "' for a beginner programmer using bullet-style concise memory aids and quick revision facts. Keep them extremely short and punchy.";

pub const EXPLAIN_NORMAL: &'static str = "' in exactly 5 bullet points for a beginner programmer. Each bullet must be one sentence. Stop after 5 bullets. Do not repeat yourself.";

pub const EXPLANATION_CUE: &'static str = "\n\nExplanation:";

/// The explanation request for a topic in a study mode.
pub open spec fn explain_body(topic: Seq<char>, mode: Seq<char>) -> Seq<char> {
    EXPLAIN_OPEN@ + topic + if is_exam(mode) {
        EXPLAIN_EXAM@
    } else if is_revision(mode) {
        EXPLAIN_REVISION@
    } else {
        EXPLAIN_NORMAL@
    }
}

/// The prompt of an explain request given on the command line.
pub open spec fn explain_prompt(topic: Seq<char>, mode: Seq<char>, lang: Seq<char>) -> Seq<char> {
    explain_body(topic, mode) + lang_suffix(lang) + EXPLANATION_CUE@
}

/// The prompt of an explain request typed in the interactive shells: the
/// explanation cue, in the normal mode only, comes before the language.
pub open spec fn interactive_explain_prompt(
    topic: Seq<char>,
    mode: Seq<char>,
    lang: Seq<char>,
) -> Seq<char> {
    if is_exam(mode) || is_revision(mode) {
        explain_body(topic, mode) + lang_suffix(lang)
    } else {
        explain_body(topic, mode) + EXPLANATION_CUE@ + lang_suffix(lang)
    }
}

fn push_explain_body(r: &mut Vec<char>, topic: &str, mode: &str)
    ensures
        final(r)@ == old(r)@ + explain_body(topic@, mode@),
{
    push_str(r, EXPLAIN_OPEN);
    push_str(r, topic);
    if same_text(mode, "exam") {
        push_str(r, EXPLAIN_EXAM);
    } else if same_text(mode, "revision") {
        push_str(r, EXPLAIN_REVISION);
    } else {
        push_str(r, EXPLAIN_NORMAL);
    }
    assert(final(r)@ =~= old(r)@ + explain_body(topic@, mode@));
}

pub fn build_explain_prompt(topic: &str, mode: &str, lang: &str) -> (r: String)
    ensures
        r@ == explain_prompt(topic@, mode@, lang@),
{
    let mut r: Vec<char> = Vec::new();
    push_explain_body(&mut r, topic, mode);
    push_lang_suffix(&mut r, lang);
    push_str(&mut r, EXPLANATION_CUE);
    assert(r@ =~= explain_prompt(topic@, mode@, lang@));
    string_of(r.as_slice())
}

pub fn build_interactive_explain_prompt(topic: &str, mode: &str, lang: &str) -> (r: String)
    ensures
        r@ == interactive_explain_prompt(topic@, mode@, lang@),
{
    let mut r: Vec<char> = Vec::new();
    push_explain_body(&mut r, topic, mode);
    if same_text(mode, "exam") || same_text(mode, "revision") {
        push_lang_suffix(&mut r, lang);
    } else {
        push_str(&mut r, EXPLANATION_CUE);
        push_lang_suffix(&mut r, lang);
    }
    assert(r@ =~= interactive_explain_prompt(topic@, mode@, lang@));
    string_of(r.as_slice())
}

pub const NOTES_OPEN: &'static str = "Give exactly 6 bullet points about '";

pub const NOTES_AUDIENCE: &'static str = "' for a student.";

pub const NOTES_EXAM_FOCUS: &'static str = " Focus strictly on exam-relevant facts, direct and with zero fluff.";

pub const NOTES_REVISION_FOCUS: &'static str = " Use bullet-style concise memory aids and quick revision facts that are extremely punchy.";

pub const NOTES_FORMAT: &'static str = " Format strictly as:\n- [fact 1]\n- [fact 2]\n- [fact 3]\n- [fact 4]\n- [fact 5]\n- [fact 6]\nEach bullet = one unique fact. Max 15 words per bullet. Start directly with the first bullet, no intro paragraph.";

/// The prompt of a notes request (the same on the command line and in the
/// interactive shells).
pub open spec fn notes_prompt(topic: Seq<char>, mode: Seq<char>, lang: Seq<char>) -> Seq<char> {
    NOTES_OPEN@ + topic + NOTES_AUDIENCE@ + (if is_exam(mode) {
        NOTES_EXAM_FOCUS@
    } else if is_revision(mode) {
        NOTES_REVISION_FOCUS@
    } else {
        seq![]
    }) + NOTES_FORMAT@ + lang_suffix(lang)
}

pub fn build_notes_prompt(topic: &str, mode: &str, lang: &str) -> (r: String)
    ensures
        r@ == notes_prompt(topic@, mode@, lang@),
{
    let mut r: Vec<char> = Vec::new();
    push_str(&mut r, NOTES_OPEN);
    push_str(&mut r, topic);
    push_str(&mut r, NOTES_AUDIENCE);
    if same_text(mode, "exam") {
        push_str(&mut r, NOTES_EXAM_FOCUS);
    } else if same_text(mode, "revision") {
        push_str(&mut r, NOTES_REVISION_FOCUS);
    }
    push_str(&mut r, NOTES_FORMAT);
    push_lang_suffix(&mut r, lang);
    assert(r@ =~= notes_prompt(topic@, mode@, lang@));
    string_of(r.as_slice())
}

// ---------------------------------------------------------------------------
// Fixing code
// ---------------------------------------------------------------------------

pub const FIX_OPEN: &'static str = "You are a C/";

pub const FIX_INSTRUCTIONS: &'static str = " compiler and debugger. The following code has syntax errors and logic bugs. Rewrite it completely with ALL bugs fixed. Output ONLY the fixed code. No explanations, no comments about what was fixed, no markdown fences.\nBROKEN CODE:\n";

pub const FIX_CLOSE: &'static str = "\nFIXED CODE:\n";

/// The language named in a fix prompt, from the file's extension
/// (lowercased): `c`, `cpp`, `py`, `rs` and `java` are known, anything else
/// is just code.
pub open spec fn language_for_extension(ext: Seq<char>) -> Seq<char> {
    if ext == "c"@ {
        "C"@
    } else if ext == "cpp"@ {
        "C++"@
    } else if ext == "py"@ {
        "Python"@
    } else if ext == "rs"@ {
        "Rust"@
    } else if ext == "java"@ {
        "Java"@
    } else {
        "code"@
    }
}

/// The lowercased extension, or nothing when the file has none.
pub open spec fn lowered_extension(ext: Option<Seq<char>>) -> Seq<char> {
    match ext {
        Some(e) => lowercase(e),
        None => seq![],
    }
}

/// The language named by a lowercased extension.
pub fn language_of_lowered(ext: &[char]) -> (r: &'static str)
    ensures
        r@ == language_for_extension(ext@),
{
    let c = chars_of("c");
    let cpp = chars_of("cpp");
    let py = chars_of("py");
    let rs = chars_of("rs");
    let java = chars_of("java");
    if chars_eq(ext, c.as_slice()) {
        "C"
    } else if chars_eq(ext, cpp.as_slice()) {
        "C++"
    } else if chars_eq(ext, py.as_slice()) {
        "Python"
    } else if chars_eq(ext, rs.as_slice()) {
        "Rust"
    } else if chars_eq(ext, java.as_slice()) {
        "Java"
    } else {
        "code"
    }
}

pub fn fix_language(ext: Option<&str>) -> (r: &'static str)
    ensures
        r@ == language_for_extension(
            lowered_extension(
                match ext {
                    Some(e) => Some(e@),
                    None => None,
                },
            ),
        ),
        ext matches Some(e) ==> lowers_ascii(e@),
{
    let low: Vec<char> = match ext {
        Some(e) => {
            let v = chars_of(e);
            lowercase_chars(v.as_slice())
        },
        None => Vec::new(),
    };
    language_of_lowered(low.as_slice())
}

/// A line that gives a bug away: lowercased, it holds `// bug:` or `# bug:`.
pub open spec fn is_bug_hint(line: Seq<char>) -> bool {
    is_lowered_bug_hint(lowercase(line))
}

/// A lowercased line that holds `// bug:` or `# bug:`.
pub open spec fn is_lowered_bug_hint(low: Seq<char>) -> bool {
    contains(low, "// bug:"@) || contains(low, "# bug:"@)
}

/// Whether a lowercased line gives a bug away.
pub fn lowered_bug_hint(low: &[char]) -> (b: bool)
    ensures
        b == is_lowered_bug_hint(low@),
{
    let h1 = chars_of("// bug:");
    let h2 = chars_of("# bug:");
    contains_exec(low, h1.as_slice()) || contains_exec(low, h2.as_slice())
}

/// The lines that are not bug hints, in order.
pub open spec fn without_bug_hints(ls: Seq<Seq<char>>) -> Seq<Seq<char>>
    decreases ls.len(),
{
    if ls.len() == 0 {
        ls
    } else if is_bug_hint(ls.last()) {
        without_bug_hints(ls.drop_last())
    } else {
        without_bug_hints(ls.drop_last()).push(ls.last())
    }
}

/// The code with its bug-hint lines removed.
pub open spec fn stripped_code(code: Seq<char>) -> Seq<char> {
    join(without_bug_hints(lines(code)), "\n"@)
}

pub fn strip_bug_hints(code: &str) -> (r: String)
    ensures
        r@ == stripped_code(code@),
        forall|k: int| 0 <= k < lines(code@).len() ==> lowers_ascii(#[trigger] lines(code@)[k]),
{
    let text = chars_of(code);
    let ls = lines_of(text.as_slice());
    let ghost lv = views(ls@);
    let mut kept: Vec<Vec<char>> = Vec::new();
    let mut i: usize = 0;
    assert(lv.take(0) =~= Seq::<Seq<char>>::empty());
    assert(views(kept@) =~= Seq::<Seq<char>>::empty());
    while i < ls.len()
        invariant
            i <= ls@.len(),
            lv == views(ls@),
            lv == lines(code@),
            views(kept@) == without_bug_hints(lv.take(i as int)),
            forall|k: int| 0 <= k < i ==> lowers_ascii(#[trigger] lv[k]),
        decreases ls@.len() - i,
    {
        assert(lv.take(i + 1).drop_last() =~= lv.take(i as int));
        assert(lv.take(i + 1).last() == ls@[i as int]@);
        let low = lowercase_chars(ls[i].as_slice());
        if !lowered_bug_hint(low.as_slice()) {
            let line = copy_range(ls[i].as_slice(), 0, ls[i].len());
            assert(line@ =~= ls@[i as int]@);
            let ghost before = views(kept@);
            kept.push(line);
            assert(views(kept@) =~= before.push(line@));
        }
        i += 1;
    }
    assert(lv.take(ls@.len() as int) =~= lv);
    let nl = chars_of("\n");
    let joined = join_chars(&kept, nl.as_slice());
    string_of(joined.as_slice())
}

/// The prompt of a fix request, from the file's extension and its code.
pub open spec fn fix_prompt(ext: Option<Seq<char>>, code: Seq<char>) -> Seq<char> {
    FIX_OPEN@ + language_for_extension(lowered_extension(ext)) + FIX_INSTRUCTIONS@ + stripped_code(
        code,
    ) + FIX_CLOSE@
}

pub fn build_fix_prompt(ext: Option<&str>, code: &str) -> (r: String)
    ensures
        r@ == fix_prompt(
            match ext {
                Some(e) => Some(e@),
                None => None,
            },
            code@,
        ),
        ext matches Some(e) ==> lowers_ascii(e@),
        forall|k: int| 0 <= k < lines(code@).len() ==> lowers_ascii(#[trigger] lines(code@)[k]),
{
    let mut r: Vec<char> = Vec::new();
    push_str(&mut r, FIX_OPEN);
    push_str(&mut r, fix_language(ext));
    push_str(&mut r, FIX_INSTRUCTIONS);
    let stripped = strip_bug_hints(code);
    push_str(&mut r, stripped.as_str());
    push_str(&mut r, FIX_CLOSE);
    string_of(r.as_slice())
}

} // verus!

verus! {

// ---------------------------------------------------------------------------
// Notes files: summaries and quizzes
// ---------------------------------------------------------------------------

/// At most this many characters of a notes file go into a prompt.
pub const NOTES_EXCERPT_CHARS: usize = 3000;

pub const NOTES_LABEL: &'static str = "\n\nNotes:\n";

/// The part of a notes file that goes into a prompt: the trimmed text, cut
/// after its first 3000 characters.
pub open spec fn notes_excerpt(content: Seq<char>) -> Seq<char> {
    let t = trim(content);
    if t.len() <= NOTES_EXCERPT_CHARS {
        t
    } else {
        t.take(NOTES_EXCERPT_CHARS as int)
    }
}

pub fn excerpt_of(content: &str) -> (r: Vec<char>)
    ensures
        r@ == notes_excerpt(content@),
{
    let c = chars_of(content);
    let t = trim_chars(c.as_slice());
    if t.len() <= NOTES_EXCERPT_CHARS {
        t
    } else {
        let r = copy_range(t.as_slice(), 0, NOTES_EXCERPT_CHARS);
        assert(r@ =~= t@.take(NOTES_EXCERPT_CHARS as int));
        r
    }
}

pub const SUMMARY_EXAM: &'static str = "You are an exam prep assistant. Summarize the following notes into extremely direct, short exam answers with zero fluff. No intro/outro.";

pub const SUMMARY_REVISION: &'static str = "You are a revision assistant. Summarize the following notes into bullet-style concise memory aids and quick revision facts. Extremely punchy.";

pub const SUMMARY_NORMAL: &'static str = "You are a study assistant. Summarize the following notes into exactly 5 clear bullet points. Each bullet should be one concise sentence. Start each bullet with a dash (-).";

/// The prompt that asks for a summary of a notes file.
pub open spec fn summarize_prompt(content: Seq<char>, mode: Seq<char>, lang: Seq<char>) -> Seq<
    char,
> {
    (if is_exam(mode) {
        SUMMARY_EXAM@
    } else if is_revision(mode) {
        SUMMARY_REVISION@
    } else {
        SUMMARY_NORMAL@
    }) + lang_suffix(lang) + NOTES_LABEL@ + notes_excerpt(content)
}

pub fn build_summarize_prompt(content: &str, mode: &str, lang: &str) -> (r: String)
    ensures
        r@ == summarize_prompt(content@, mode@, lang@),
{
    let mut r: Vec<char> = Vec::new();
    if same_text(mode, "exam") {
        push_str(&mut r, SUMMARY_EXAM);
    } else if same_text(mode, "revision") {
        push_str(&mut r, SUMMARY_REVISION);
    } else {
        push_str(&mut r, SUMMARY_NORMAL);
    }
    push_lang_suffix(&mut r, lang);
    push_str(&mut r, NOTES_LABEL);
    let ex = excerpt_of(content);
    append_chars(&mut r, ex.as_slice());
    assert(r@ =~= summarize_prompt(content@, mode@, lang@));
    string_of(r.as_slice())
}

/// The difficulty `easy`.
pub open spec fn is_easy(d: Seq<char>) -> bool {
    d == "easy"@
}

/// The difficulty `hard`.
pub open spec fn is_hard(d: Seq<char>) -> bool {
    d == "hard"@
}

pub const FILE_QUIZ_OPEN: &'static str = "You are a student quiz generator. Based on the following notes, generate exactly 5 quiz questions with answers. ";

pub const FILE_QUIZ_EASY: &'static str = "The questions must be simple and easy, focusing on basic recall and literal facts from the notes.";

pub const FILE_QUIZ_HARD: &'static str = "The questions must be advanced and hard, testing critical thinking, synthesis, and deep implications or complex details of the notes.";

pub const FILE_QUIZ_MEDIUM: &'static str = "The questions must be of moderate/medium difficulty, testing conceptual understanding and main ideas from the notes.";

pub const FILE_QUIZ_FORMAT: &'static str = " Format each as:\nQ1: [question]\nA1: [answer]\nQ2: [question]\nA2: [answer]\n... and so on until Q5/A5.";

/// The prompt that asks for a quiz on a notes file.
pub open spec fn quiz_file_prompt(content: Seq<char>, difficulty: Seq<char>, lang: Seq<char>) -> Seq<
    char,
> {
    FILE_QUIZ_OPEN@ + (if is_easy(difficulty) {
        FILE_QUIZ_EASY@
    } else if is_hard(difficulty) {
        FILE_QUIZ_HARD@
    } else {
        FILE_QUIZ_MEDIUM@
    }) + FILE_QUIZ_FORMAT@ + lang_suffix(lang) + NOTES_LABEL@ + notes_excerpt(content)
}

pub fn build_quiz_file_prompt(content: &str, difficulty: &str, lang: &str) -> (r: String)
    ensures
        r@ == quiz_file_prompt(content@, difficulty@, lang@),
{
    let mut r: Vec<char> = Vec::new();
    push_str(&mut r, FILE_QUIZ_OPEN);
    if same_text(difficulty, "easy") {
        push_str(&mut r, FILE_QUIZ_EASY);
    } else if same_text(difficulty, "hard") {
        push_str(&mut r, FILE_QUIZ_HARD);
    } else {
        push_str(&mut r, FILE_QUIZ_MEDIUM);
    }
    push_str(&mut r, FILE_QUIZ_FORMAT);
    push_lang_suffix(&mut r, lang);
    push_str(&mut r, NOTES_LABEL);
    let ex = excerpt_of(content);
    append_chars(&mut r, ex.as_slice());
    assert(r@ =~= quiz_file_prompt(content@, difficulty@, lang@));
    string_of(r.as_slice())
}

// ---------------------------------------------------------------------------
// Topic quizzes and free questions
// ---------------------------------------------------------------------------

/// How many questions a topic quiz asks for when no count is given.
pub const DEFAULT_QUESTION_COUNT: u8 = 3;

pub const MCQ_OPEN: &'static str = "Write ";

pub const MCQ_ABOUT: &'static str = " exam MCQs about '";

pub const MCQ_AFTER_TOPIC: &'static str = "'. ";

pub const MCQ_EASY: &'static str = "The questions must be simple and easy, testing basic facts and introductory concepts with straightforward options.";

pub const MCQ_HARD: &'static str = "The questions must be advanced and hard, testing deep analytical skills, complex scenarios, and edge cases with subtle and challenging distractors.";

pub const MCQ_MEDIUM: &'static str = "The questions must be of moderate/medium difficulty, testing standard conceptual understanding and application.";

pub const MCQ_FORMAT: &'static str = " Use this exact format for each:\nQ1: [question text]\na) [option]\nb) [option]\nc) [option]\nd) [option]\nAnswer: [single letter a/b/c/d]\nQ2: [question text]\n...\nOnly output the questions. No intro, no explanation.";

/// The prompt of a multiple-choice quiz on a topic.
pub open spec fn quiz_prompt(
    topic: Seq<char>,
    count: Option<u8>,
    difficulty: Seq<char>,
    lang: Seq<char>,
) -> Seq<char> {
    let n = match count {
        Some(c) => c,
        None => DEFAULT_QUESTION_COUNT,
    };
    MCQ_OPEN@ + decimal(n as nat) + MCQ_ABOUT@ + topic + MCQ_AFTER_TOPIC@ + (if is_easy(difficulty) {
        MCQ_EASY@
    } else if is_hard(difficulty) {
        MCQ_HARD@
    } else {
        MCQ_MEDIUM@
    }) + MCQ_FORMAT@ + lang_suffix(lang)
}

pub fn build_quiz_prompt(topic: &str, count: Option<u8>, difficulty: &str, lang: &str) -> (r: String)
    ensures
        r@ == quiz_prompt(topic@, count, difficulty@, lang@),
{
    let n: u8 = match count {
        Some(c) => c,
        None => DEFAULT_QUESTION_COUNT,
    };
    let mut r: Vec<char> = Vec::new();
    push_str(&mut r, MCQ_OPEN);
    let digits = decimal_chars(n as u64);
    append_chars(&mut r, digits.as_slice());
    push_str(&mut r, MCQ_ABOUT);
    push_str(&mut r, topic);
    push_str(&mut r, MCQ_AFTER_TOPIC);
    if same_text(difficulty, "easy") {
        push_str(&mut r, MCQ_EASY);
    } else if same_text(difficulty, "hard") {
        push_str(&mut r, MCQ_HARD);
    } else {
        push_str(&mut r, MCQ_MEDIUM);
    }
    push_str(&mut r, MCQ_FORMAT);
    push_lang_suffix(&mut r, lang);
    assert(r@ =~= quiz_prompt(topic@, count, difficulty@, lang@));
    string_of(r.as_slice())
}

pub const ASSISTANT_EXAM: &'static str = "You are Radhe AI, a tiny offline terminal assistant for students. Provide very short, direct answers with zero fluff.";

pub const ASSISTANT_REVISION: &'static str = "You are Radhe AI, a tiny offline terminal assistant for students. Respond using bullet-style concise memory aids.";

pub const ASSISTANT_NORMAL: &'static str = "You are Radhe AI, a tiny offline terminal assistant for students. Be concise and practical.";

pub const USER_LABEL: &'static str = "\nUser: ";

/// The prompt of a free question.
pub open spec fn general_prompt(question: Seq<char>, mode: Seq<char>, lang: Seq<char>) -> Seq<char> {
    (if is_exam(mode) {
        ASSISTANT_EXAM@
    } else if is_revision(mode) {
        ASSISTANT_REVISION@
    } else {
        ASSISTANT_NORMAL@
    }) + lang_suffix(lang) + USER_LABEL@ + question
}

pub fn build_general_prompt(question: &str, mode: &str, lang: &str) -> (r: String)
    ensures
        r@ == general_prompt(question@, mode@, lang@),
{
    let mut r: Vec<char> = Vec::new();
    if same_text(mode, "exam") {
        push_str(&mut r, ASSISTANT_EXAM);
    } else if same_text(mode, "revision") {
        push_str(&mut r, ASSISTANT_REVISION);
    } else {
        push_str(&mut r, ASSISTANT_NORMAL);
    }
    push_lang_suffix(&mut r, lang);
    push_str(&mut r, USER_LABEL);
    push_str(&mut r, question);
    assert(r@ =~= general_prompt(question@, mode@, lang@));
    string_of(r.as_slice())
}

} // verus!

verus! {

/// The difficulty instruction of a notes-file quiz follows the difficulty:
/// `easy` puts in the easy text, `hard` the hard text and anything else the
/// medium text; so the prompts for the three levels all differ.
pub proof fn lemma_quiz_file_difficulty(content: Seq<char>, lang: Seq<char>, d: Seq<char>)
    requires
        d != "easy"@,
        d != "hard"@,
    ensures
        contains(quiz_file_prompt(content, "easy"@, lang), FILE_QUIZ_EASY@),
        contains(quiz_file_prompt(content, "hard"@, lang), FILE_QUIZ_HARD@),
        contains(quiz_file_prompt(content, d, lang), FILE_QUIZ_MEDIUM@),
        quiz_file_prompt(content, "easy"@, lang) != quiz_file_prompt(content, "hard"@, lang),
        quiz_file_prompt(content, "hard"@, lang) != quiz_file_prompt(content, d, lang),
        quiz_file_prompt(content, "easy"@, lang) != quiz_file_prompt(content, d, lang),
{
    reveal_strlit("The questions must be simple and easy, focusing on basic recall and literal facts from the notes.");
    reveal_strlit("The questions must be advanced and hard, testing critical thinking, synthesis, and deep implications or complex details of the notes.");
    reveal_strlit("The questions must be of moderate/medium difficulty, testing conceptual understanding and main ideas from the notes.");
    reveal_strlit("easy");
    reveal_strlit("hard");
    let o = FILE_QUIZ_OPEN@.len() as int;
    let e = quiz_file_prompt(content, "easy"@, lang);
    let h = quiz_file_prompt(content, "hard"@, lang);
    let m = quiz_file_prompt(content, d, lang);
    assert("hard"@[0] != "easy"@[0]);
    assert(!is_easy("hard"@));
    assert(h == FILE_QUIZ_OPEN@ + FILE_QUIZ_HARD@ + FILE_QUIZ_FORMAT@ + lang_suffix(lang)
        + NOTES_LABEL@ + notes_excerpt(content));
    assert(!is_easy(d) && !is_hard(d));
    assert(m == FILE_QUIZ_OPEN@ + FILE_QUIZ_MEDIUM@ + FILE_QUIZ_FORMAT@ + lang_suffix(lang)
        + NOTES_LABEL@ + notes_excerpt(content));
    assert(e.subrange(o, o + FILE_QUIZ_EASY@.len()) =~= FILE_QUIZ_EASY@);
    assert(h.subrange(o, o + FILE_QUIZ_HARD@.len()) =~= FILE_QUIZ_HARD@);
    assert(m.subrange(o, o + FILE_QUIZ_MEDIUM@.len()) =~= FILE_QUIZ_MEDIUM@);
    lemma_match_found(e, FILE_QUIZ_EASY@, o);
    lemma_match_found(h, FILE_QUIZ_HARD@, o);
    lemma_match_found(m, FILE_QUIZ_MEDIUM@, o);
    assert(e[o + 22] == 's');
    assert(h[o + 22] == 'a');
    assert(m[o + 22] == 'o');
}

/// The difficulty instruction of a topic quiz follows the difficulty in the
/// same way: easy, hard and any other level give three different prompts,
/// each with its own instruction.
pub proof fn lemma_quiz_difficulty(
    topic: Seq<char>,
    count: Option<u8>,
    lang: Seq<char>,
    d: Seq<char>,
)
    requires
        d != "easy"@,
        d != "hard"@,
    ensures
        contains(quiz_prompt(topic, count, "easy"@, lang), MCQ_EASY@),
        contains(quiz_prompt(topic, count, "hard"@, lang), MCQ_HARD@),
        contains(quiz_prompt(topic, count, d, lang), MCQ_MEDIUM@),
        quiz_prompt(topic, count, "easy"@, lang) != quiz_prompt(topic, count, "hard"@, lang),
        quiz_prompt(topic, count, "hard"@, lang) != quiz_prompt(topic, count, d, lang),
        quiz_prompt(topic, count, "easy"@, lang) != quiz_prompt(topic, count, d, lang),
{
    reveal_strlit("The questions must be simple and easy, testing basic facts and introductory concepts with straightforward options.");
    reveal_strlit("The questions must be advanced and hard, testing deep analytical skills, complex scenarios, and edge cases with subtle and challenging distractors.");
    reveal_strlit("The questions must be of moderate/medium difficulty, testing standard conceptual understanding and application.");
    reveal_strlit("easy");
    reveal_strlit("hard");
    let n = match count {
        Some(c) => c,
        None => DEFAULT_QUESTION_COUNT,
    };
    let o = (MCQ_OPEN@ + decimal(n as nat) + MCQ_ABOUT@ + topic + MCQ_AFTER_TOPIC@).len() as int;
    let e = quiz_prompt(topic, count, "easy"@, lang);
    let h = quiz_prompt(topic, count, "hard"@, lang);
    let m = quiz_prompt(topic, count, d, lang);
    assert("hard"@[0] != "easy"@[0]);
    assert(!is_easy("hard"@));
    assert(!is_easy(d) && !is_hard(d));
    assert(e.subrange(o, o + MCQ_EASY@.len()) =~= MCQ_EASY@);
    assert(h.subrange(o, o + MCQ_HARD@.len()) =~= MCQ_HARD@);
    assert(m.subrange(o, o + MCQ_MEDIUM@.len()) =~= MCQ_MEDIUM@);
    lemma_match_found(e, MCQ_EASY@, o);
    lemma_match_found(h, MCQ_HARD@, o);
    lemma_match_found(m, MCQ_MEDIUM@, o);
    assert(e[o + 22] == 's');
    assert(h[o + 22] == 'a');
    assert(m[o + 22] == 'o');
}

} // verus!

verus! {

/// Each study mode puts its own instruction into the prompts that depend on
/// it: `exam` the exam text, `revision` the revision text, and any other mode
/// the normal text; for explain requests (given on the command line or typed
/// in a shell), notes, summaries and free questions alike.
pub proof fn lemma_mode_instructions(
    topic: Seq<char>,
    content: Seq<char>,
    lang: Seq<char>,
    other: Seq<char>,
)
    requires
        other != "exam"@,
        other != "revision"@,
    ensures
        contains(explain_prompt(topic, "exam"@, lang), EXPLAIN_EXAM@),
        contains(explain_prompt(topic, "revision"@, lang), EXPLAIN_REVISION@),
        contains(explain_prompt(topic, other, lang), EXPLAIN_NORMAL@),
        contains(interactive_explain_prompt(topic, "exam"@, lang), EXPLAIN_EXAM@),
        contains(interactive_explain_prompt(topic, "revision"@, lang), EXPLAIN_REVISION@),
        contains(interactive_explain_prompt(topic, other, lang), EXPLAIN_NORMAL@),
        contains(notes_prompt(topic, "exam"@, lang), NOTES_EXAM_FOCUS@),
        contains(notes_prompt(topic, "revision"@, lang), NOTES_REVISION_FOCUS@),
        contains(summarize_prompt(content, "exam"@, lang), SUMMARY_EXAM@),
        contains(summarize_prompt(content, "revision"@, lang), SUMMARY_REVISION@),
        contains(summarize_prompt(content, other, lang), SUMMARY_NORMAL@),
        contains(general_prompt(topic, "exam"@, lang), ASSISTANT_EXAM@),
        contains(general_prompt(topic, "revision"@, lang), ASSISTANT_REVISION@),
        contains(general_prompt(topic, other, lang), ASSISTANT_NORMAL@),
{
    reveal_strlit("exam");
    reveal_strlit("revision");
    assert("exam"@.len() != "revision"@.len());
    assert(!is_exam("revision"@) && !is_revision("exam"@));
    let ex = EXPLAIN_OPEN@ + topic;
    lemma_contains_piece(ex, EXPLAIN_EXAM@, lang_suffix(lang) + EXPLANATION_CUE@);
    lemma_contains_piece(ex, EXPLAIN_REVISION@, lang_suffix(lang) + EXPLANATION_CUE@);
    lemma_contains_piece(ex, EXPLAIN_NORMAL@, lang_suffix(lang) + EXPLANATION_CUE@);
    assert(explain_prompt(topic, "exam"@, lang) =~= ex + EXPLAIN_EXAM@ + (lang_suffix(lang)
        + EXPLANATION_CUE@));
    assert(explain_prompt(topic, "revision"@, lang) =~= ex + EXPLAIN_REVISION@ + (lang_suffix(lang)
        + EXPLANATION_CUE@));
    assert(explain_prompt(topic, other, lang) =~= ex + EXPLAIN_NORMAL@ + (lang_suffix(lang)
        + EXPLANATION_CUE@));
    lemma_contains_piece(ex, EXPLAIN_EXAM@, lang_suffix(lang));
    lemma_contains_piece(ex, EXPLAIN_REVISION@, lang_suffix(lang));
    lemma_contains_piece(ex, EXPLAIN_NORMAL@, EXPLANATION_CUE@ + lang_suffix(lang));
    assert(interactive_explain_prompt(topic, "exam"@, lang) =~= ex + EXPLAIN_EXAM@ + lang_suffix(lang));
    assert(interactive_explain_prompt(topic, "revision"@, lang) =~= ex + EXPLAIN_REVISION@
        + lang_suffix(lang));
    assert(interactive_explain_prompt(topic, other, lang) =~= ex + EXPLAIN_NORMAL@ + (
    EXPLANATION_CUE@ + lang_suffix(lang)));
    let no = NOTES_OPEN@ + topic + NOTES_AUDIENCE@;
    let nt = NOTES_FORMAT@ + lang_suffix(lang);
    lemma_contains_piece(no, NOTES_EXAM_FOCUS@, nt);
    lemma_contains_piece(no, NOTES_REVISION_FOCUS@, nt);
    assert(notes_prompt(topic, "exam"@, lang) =~= no + NOTES_EXAM_FOCUS@ + nt);
    assert(notes_prompt(topic, "revision"@, lang) =~= no + NOTES_REVISION_FOCUS@ + nt);
    let st = lang_suffix(lang) + NOTES_LABEL@ + notes_excerpt(content);
    lemma_contains_piece(seq![], SUMMARY_EXAM@, st);
    lemma_contains_piece(seq![], SUMMARY_REVISION@, st);
    lemma_contains_piece(seq![], SUMMARY_NORMAL@, st);
    assert(summarize_prompt(content, "exam"@, lang) =~= Seq::<char>::empty() + SUMMARY_EXAM@ + st);
    assert(summarize_prompt(content, "revision"@, lang) =~= Seq::<char>::empty() + SUMMARY_REVISION@
        + st);
    assert(summarize_prompt(content, other, lang) =~= Seq::<char>::empty() + SUMMARY_NORMAL@ + st);
    let gt = lang_suffix(lang) + USER_LABEL@ + topic;
    lemma_contains_piece(seq![], ASSISTANT_EXAM@, gt);
    lemma_contains_piece(seq![], ASSISTANT_REVISION@, gt);
    lemma_contains_piece(seq![], ASSISTANT_NORMAL@, gt);
    assert(general_prompt(topic, "exam"@, lang) =~= Seq::<char>::empty() + ASSISTANT_EXAM@ + gt);
    assert(general_prompt(topic, "revision"@, lang) =~= Seq::<char>::empty() + ASSISTANT_REVISION@
        + gt);
    assert(general_prompt(topic, other, lang) =~= Seq::<char>::empty() + ASSISTANT_NORMAL@ + gt);
}

} // verus!
