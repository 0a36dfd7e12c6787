//! The two interactive loops: the plain prompt started with no arguments,
//! and the power shell with its meta-commands. Each typed line is decided
//! here; reading, printing and running the model are left to the caller.
use vstd::prelude::*;
use crate::modes::TaskKind;
use crate::config::{is_difficulty, is_study_mode, valid_difficulty, valid_study_mode};
use crate::prompts::{
    build_interactive_explain_prompt, build_notes_prompt, code_task, has_language_hint, task_chars_known,
    interactive_explain_prompt, notes_prompt, CODE_INSTRUCTIONS, LANGUAGE_NOTE, TASK_LABEL,
};
use crate::text::{
    append_chars, chars_eq, chars_of, copy_range, lowercase, lowercase_chars, lowers_ascii, push_str,
    starts_with, starts_with_exec, string_of, trim, trim_chars, views, words, words_of,
};

verus! {

/// A request for the model, decided from a typed line.
pub struct Query {
    pub prompt: String,
    pub task: TaskKind,
    pub max_tokens: u32,
}

/// The prompt of a code request typed in an interactive loop (which ignores
/// the answer language).
pub open spec fn interactive_code_prompt(task: Seq<char>) -> Seq<char> {
    CODE_INSTRUCTIONS@ + TASK_LABEL@ + code_task(task)
}

pub fn build_interactive_code_prompt(task: &str) -> (r: String)
    ensures
        r@ == interactive_code_prompt(task@),
        task_chars_known(task@),
{
    let mut r: Vec<char> = Vec::new();
    push_str(&mut r, CODE_INSTRUCTIONS);
    push_str(&mut r, TASK_LABEL);
    push_str(&mut r, task);
    if has_language_hint(task) {
        push_str(&mut r, LANGUAGE_NOTE);
    }
    assert(r@ =~= interactive_code_prompt(task@));
    string_of(r.as_slice())
}

/// The text after a prefix, trimmed.
pub open spec fn after_prefix(t: Seq<char>, prefix: Seq<char>) -> Seq<char> {
    trim(t.skip(prefix.len() as int))
}

/// The request a typed line makes (`t` is the trimmed line): `--code `,
/// `--explain ` and `--notes ` choose the kind; anything else is explained.
pub open spec fn typed_query_matches(t: Seq<char>, mode: Seq<char>, lang: Seq<char>, q: Query) -> bool {
    if starts_with(t, "--code "@) {
        q.prompt@ == interactive_code_prompt(after_prefix(t, "--code "@)) && q.task == TaskKind::Code
            && q.max_tokens == 300
    } else if starts_with(t, "--explain "@) {
        q.prompt@ == interactive_explain_prompt(after_prefix(t, "--explain "@), mode, lang) && q.task
            == TaskKind::Explain && q.max_tokens == 200
    } else if starts_with(t, "--notes "@) {
        q.prompt@ == notes_prompt(after_prefix(t, "--notes "@), mode, lang) && q.task
            == TaskKind::Notes && q.max_tokens == 150
    } else {
        q.prompt@ == interactive_explain_prompt(t, mode, lang) && q.task == TaskKind::Explain
            && q.max_tokens == 200
    }
}

fn rest_after(t: &[char], n: usize) -> (r: String)
    requires
        n <= t@.len(),
    ensures
        r@ == trim(t@.skip(n as int)),
{
    let rest = copy_range(t, n, t.len());
    assert(rest@ =~= t@.skip(n as int));
    let tr = trim_chars(rest.as_slice());
    string_of(tr.as_slice())
}

/// The request for a trimmed typed line, and whether it used a prefix.
fn typed_query(t: &[char], mode: &str, lang: &str) -> (r: (Query, bool))
    ensures
        typed_query_matches(t@, mode@, lang@, r.0),
        r.1 == (starts_with(t@, "--code "@) || starts_with(t@, "--explain "@) || starts_with(
            t@,
            "--notes "@,
        )),
        starts_with(t@, "--code "@) ==> task_chars_known(after_prefix(t@, "--code "@)),
{
    let code = chars_of("--code ");
    let explain = chars_of("--explain ");
    let notes = chars_of("--notes ");
    if starts_with_exec(t, code.as_slice()) {
        let task = rest_after(t, code.len());
        let prompt = build_interactive_code_prompt(task.as_str());
        (Query { prompt, task: TaskKind::Code, max_tokens: 300 }, true)
    } else if starts_with_exec(t, explain.as_slice()) {
        let topic = rest_after(t, explain.len());
        let prompt = build_interactive_explain_prompt(topic.as_str(), mode, lang);
        (Query { prompt, task: TaskKind::Explain, max_tokens: 200 }, true)
    } else if starts_with_exec(t, notes.as_slice()) {
        let topic = rest_after(t, notes.len());
        let prompt = build_notes_prompt(topic.as_str(), mode, lang);
        (Query { prompt, task: TaskKind::Notes, max_tokens: 150 }, true)
    } else {
        let whole = string_of(t);
        let prompt = build_interactive_explain_prompt(whole.as_str(), mode, lang);
        (Query { prompt, task: TaskKind::Explain, max_tokens: 200 }, false)
    }
}

// ---------------------------------------------------------------------------
// The plain interactive prompt
// ---------------------------------------------------------------------------

/// What a line typed at the plain prompt asks for.
pub enum ReplAction {
    /// A blank line: ask again.
    Skip,
    /// `/exit`: say goodbye and stop.
    Exit,
    /// `/clear`: clear the screen.
    Clear,
    /// Run the model; afterwards show the usage tip if `tip` holds.
    Ask { query: Query, tip: bool },
}

/// Fewer than four words typed without a prefix earn a tip on the prefixes.
pub open spec fn wants_tip(t: Seq<char>) -> bool {
    !(starts_with(t, "--code "@) || starts_with(t, "--explain "@) || starts_with(t, "--notes "@))
        && words(t).len() < 4
}

pub open spec fn repl_action_matches(line: Seq<char>, mode: Seq<char>, lang: Seq<char>, a: ReplAction) -> bool {
    let t = trim(line);
    if t.len() == 0 {
        a is Skip
    } else if t == "/exit"@ {
        a is Exit
    } else if t == "/clear"@ {
        a is Clear
    } else {
        a matches ReplAction::Ask { query, tip } && typed_query_matches(t, mode, lang, query) && tip
            == wants_tip(t)
    }
}

/// Decides what a line typed at the plain prompt asks for.
pub fn repl_step(line: &str, mode: &str, lang: &str) -> (a: ReplAction)
    ensures
        repl_action_matches(line@, mode@, lang@, a),
        starts_with(trim(line@), "--code "@) ==> task_chars_known(
            after_prefix(trim(line@), "--code "@),
        ),
{
    let c = chars_of(line);
    let t = trim_chars(c.as_slice());
    proof {
        reveal_strlit("--code ");
        reveal_strlit("/exit");
        reveal_strlit("/clear");
        if starts_with(t@, "--code "@) {
            assert(t@.take(7)[0] == '-');
            assert(t@[0] == '-');
            assert(t@ != "/exit"@);
            assert(t@ != "/clear"@);
        }
    }
    if t.len() == 0 {
        return ReplAction::Skip;
    }
    let exit = chars_of("/exit");
    let clear = chars_of("/clear");
    if chars_eq(t.as_slice(), exit.as_slice()) {
        return ReplAction::Exit;
    }
    if chars_eq(t.as_slice(), clear.as_slice()) {
        return ReplAction::Clear;
    }
    let (query, prefixed) = typed_query(t.as_slice(), mode, lang);
    let tip = if prefixed {
        false
    } else {
        let ws = words_of(t.as_slice());
        assert(ws@.len() == views(ws@).len());
        ws.len() < 4
    };
    ReplAction::Ask { query, tip }
}

} // verus!

verus! {

// ---------------------------------------------------------------------------
// The power shell
// ---------------------------------------------------------------------------

/// How many past entries `:history` shows.
pub const HISTORY_SHOWN: usize = 20;

/// The session of a power shell: its study mode and difficulty, which are
/// always accepted values, and every non-blank line typed so far.
pub struct ShellState {
    mode: String,
    difficulty: String,
    history: Vec<String>,
}

pub open spec fn string_views(v: Seq<String>) -> Seq<Seq<char>> {
    v.map_values(|x: String| x@)
}

/// What a line typed in the power shell asks for.
pub enum ShellAction {
    /// A blank line: ask again.
    Skip,
    /// `:mode`: the current study mode.
    ShowMode(String),
    /// `:difficulty`: the current difficulty.
    ShowDifficulty(String),
    /// `:set-mode` without a value.
    SetModeUsage,
    /// `:set-mode` with an accepted value: the mode is now the value.
    ModeChanged(String),
    /// `:set-mode` with a value that is not a study mode (as typed).
    InvalidMode(String),
    /// `:set-difficulty` without a value.
    SetDifficultyUsage,
    /// `:set-difficulty` with an accepted value.
    DifficultyChanged(String),
    /// `:set-difficulty` with a value that is not a difficulty (as typed).
    InvalidDifficulty(String),
    /// `:stats`.
    ShowStats,
    /// `:clear`.
    ClearScreen,
    /// `:help`.
    Help,
    /// `:quit` or `:exit`.
    Quit,
    /// `:history`: the last twenty entries, oldest first.
    ShowHistory(Vec<String>),
    /// Any other meta-command (its first word).
    UnknownCommand(String),
    /// Run the model.
    Ask(Query),
}

/// The trimmed line, without one byte-order mark at its start.
pub open spec fn shell_text(line: Seq<char>) -> Seq<char> {
    let t = trim(line);
    if t.len() > 0 && t[0] == '\u{feff}' {
        t.drop_first()
    } else {
        t
    }
}

/// The last twenty entries of a history.
pub open spec fn recent(h: Seq<Seq<char>>) -> Seq<Seq<char>> {
    if h.len() > HISTORY_SHOWN {
        h.skip(h.len() - HISTORY_SHOWN)
    } else {
        h
    }
}

impl ShellState {
    #[verifier::type_invariant]
    spec fn shell_inv(self) -> bool {
        is_study_mode(self.mode@) && is_difficulty(self.difficulty@)
    }

    pub closed spec fn spec_mode(self) -> Seq<char> {
        self.mode@
    }

    pub closed spec fn spec_difficulty(self) -> Seq<char> {
        self.difficulty@
    }

    pub closed spec fn spec_history(self) -> Seq<Seq<char>> {
        string_views(self.history@)
    }

    /// A new session with an accepted study mode and difficulty.
    pub fn new(mode: &str, difficulty: &str) -> (s: ShellState)
        requires
            is_study_mode(mode@),
            is_difficulty(difficulty@),
        ensures
            s.spec_mode() == mode@,
            s.spec_difficulty() == difficulty@,
            s.spec_history().len() == 0,
    {
        let s = ShellState {
            mode: string_of(chars_of(mode).as_slice()),
            difficulty: string_of(chars_of(difficulty).as_slice()),
            history: Vec::new(),
        };
        assert(string_views(s.history@) =~= Seq::<Seq<char>>::empty());
        s
    }

    /// The session's study mode, always an accepted one.
    pub fn mode(&self) -> (r: String)
        ensures
            r@ == self.spec_mode(),
            is_study_mode(r@),
    {
        proof {
            use_type_invariant(self);
        }
        self.mode.clone()
    }

    /// The session's difficulty, always an accepted one.
    pub fn difficulty(&self) -> (r: String)
        ensures
            r@ == self.spec_difficulty(),
            is_difficulty(r@),
    {
        proof {
            use_type_invariant(self);
        }
        self.difficulty.clone()
    }

    /// What a line does to the session and what it asks for. A non-blank
    /// line joins the history first; meta-commands start with `:`; only
    /// `:set-mode` and `:set-difficulty` with accepted values change the
    /// session's settings.
    pub open spec fn step_matches(
        self,
        line: Seq<char>,
        lang: Seq<char>,
        next: ShellState,
        a: ShellAction,
    ) -> bool {
        let t = shell_text(line);
        if t.len() == 0 {
            &&& a is Skip
            &&& next.spec_mode() == self.spec_mode()
            &&& next.spec_difficulty() == self.spec_difficulty()
            &&& next.spec_history() == self.spec_history()
        } else {
            let h = self.spec_history().push(t);
            let ws = words(t);
            &&& next.spec_history() == h
            &&& if t[0] == ':' {
                let cmd = ws[0];
                let sets_mode = cmd == ":set-mode"@ && ws.len() >= 2 && is_study_mode(
                    lowercase(ws[1]),
                );
                let sets_diff = cmd == ":set-difficulty"@ && ws.len() >= 2 && is_difficulty(
                    lowercase(ws[1]),
                );
                &&& next.spec_mode() == (if sets_mode {
                    lowercase(ws[1])
                } else {
                    self.spec_mode()
                })
                &&& next.spec_difficulty() == (if sets_diff {
                    lowercase(ws[1])
                } else {
                    self.spec_difficulty()
                })
                &&& if cmd == ":mode"@ {
                    a matches ShellAction::ShowMode(m) && m@ == self.spec_mode()
                } else if cmd == ":difficulty"@ {
                    a matches ShellAction::ShowDifficulty(d) && d@ == self.spec_difficulty()
                } else if cmd == ":set-mode"@ {
                    if ws.len() < 2 {
                        a is SetModeUsage
                    } else if sets_mode {
                        a matches ShellAction::ModeChanged(m) && m@ == lowercase(ws[1])
                    } else {
                        a matches ShellAction::InvalidMode(m) && m@ == ws[1]
                    }
                } else if cmd == ":set-difficulty"@ {
                    if ws.len() < 2 {
                        a is SetDifficultyUsage
                    } else if sets_diff {
                        a matches ShellAction::DifficultyChanged(d) && d@ == lowercase(ws[1])
                    } else {
                        a matches ShellAction::InvalidDifficulty(d) && d@ == ws[1]
                    }
                } else if cmd == ":stats"@ {
                    a is ShowStats
                } else if cmd == ":clear"@ {
                    a is ClearScreen
                } else if cmd == ":help"@ {
                    a is Help
                } else if cmd == ":quit"@ || cmd == ":exit"@ {
                    a is Quit
                } else if cmd == ":history"@ {
                    a matches ShellAction::ShowHistory(es) && string_views(es@) == recent(h)
                } else {
                    a matches ShellAction::UnknownCommand(c) && c@ == cmd
                }
            } else {
                &&& next.spec_mode() == self.spec_mode()
                &&& next.spec_difficulty() == self.spec_difficulty()
                &&& a matches ShellAction::Ask(q) && typed_query_matches(t, self.spec_mode(), lang, q)
            }
        }
    }
}

fn recent_entries(h: &Vec<String>) -> (r: Vec<String>)
    ensures
        string_views(r@) == recent(string_views(h@)),
{
    let start = if h.len() > HISTORY_SHOWN {
        h.len() - HISTORY_SHOWN
    } else {
        0
    };
    let ghost hv = string_views(h@);
    let mut r: Vec<String> = Vec::new();
    let mut i = start;
    assert(hv.subrange(start as int, start as int) =~= Seq::<Seq<char>>::empty());
    assert(string_views(r@) =~= Seq::<Seq<char>>::empty());
    while i < h.len()
        invariant
            start <= i <= h@.len(),
            hv == string_views(h@),
            string_views(r@) == hv.subrange(start as int, i as int),
        decreases h@.len() - i,
    {
        let e = h[i].clone();
        let ghost before = string_views(r@);
        r.push(e);
        assert(string_views(r@) =~= before.push(hv[i as int]));
        assert(hv.subrange(start as int, i + 1) =~= hv.subrange(start as int, i as int).push(
            hv[i as int],
        ));
        i += 1;
    }
    assert(hv.subrange(start as int, h@.len() as int) =~= recent(hv));
    r
}

impl ShellState {
    /// Decides one typed line of the power shell and updates the session.
    pub fn step(&mut self, line: &str, lang: &str) -> (a: ShellAction)
        ensures
            old(self).step_matches(line@, lang@, *final(self), a),
            ({
                let t = shell_text(line@);
                let ws = words(t);
                t.len() > 0 && t[0] == ':' && ws.len() >= 2 && (ws[0] == ":set-mode"@ || ws[0]
                    == ":set-difficulty"@) ==> lowers_ascii(ws[1])
            }),
            starts_with(shell_text(line@), "--code "@) ==> task_chars_known(
                after_prefix(shell_text(line@), "--code "@),
            ),
    {
        proof {
            use_type_invariant(&*self);
        }
        let c = chars_of(line);
        let t0 = trim_chars(c.as_slice());
        let t = if t0.len() > 0 && t0[0] == '\u{feff}' {
            let r = copy_range(t0.as_slice(), 1, t0.len());
            assert(r@ =~= t0@.drop_first());
            r
        } else {
            t0
        };
        proof {
            reveal_strlit("--code ");
            if starts_with(t@, "--code "@) {
                assert(t@.take(7)[0] == '-');
                assert(t@[0] == '-');
            }
        }
        if t.len() == 0 {
            return ShellAction::Skip;
        }
        let entry = string_of(t.as_slice());
        let ghost before = string_views(self.history@);
        let mut h: Vec<String> = Vec::new();
        std::mem::swap(&mut h, &mut self.history);
        h.push(entry);
        self.history = h;
        assert(string_views(self.history@) =~= before.push(t@));
        if t[0] == ':' {
            let ws = words_of(t.as_slice());
            proof {
                lemma_first_word(t@);
                reveal_strlit(":mode");
                reveal_strlit(":difficulty");
                reveal_strlit(":set-mode");
                reveal_strlit(":set-difficulty");
                reveal_strlit(":stats");
                reveal_strlit(":clear");
                reveal_strlit(":help");
                reveal_strlit(":quit");
                reveal_strlit(":exit");
                reveal_strlit(":history");
            }
            let cmd = &ws[0];
            assert(views(ws@)[0] == ws@[0]@);
            if chars_eq(cmd.as_slice(), chars_of(":mode").as_slice()) {
                ShellAction::ShowMode(self.mode.clone())
            } else if chars_eq(cmd.as_slice(), chars_of(":difficulty").as_slice()) {
                ShellAction::ShowDifficulty(self.difficulty.clone())
            } else if chars_eq(cmd.as_slice(), chars_of(":set-mode").as_slice()) {
                if ws.len() < 2 {
                    ShellAction::SetModeUsage
                } else {
                    assert(views(ws@)[1] == ws@[1]@);
                    let low = lowercase_chars(ws[1].as_slice());
                    let new_mode = string_of(low.as_slice());
                    if valid_study_mode(new_mode.as_str()) {
                        self.mode = new_mode.clone();
                        ShellAction::ModeChanged(new_mode)
                    } else {
                        ShellAction::InvalidMode(string_of(ws[1].as_slice()))
                    }
                }
            } else if chars_eq(cmd.as_slice(), chars_of(":set-difficulty").as_slice()) {
                if ws.len() < 2 {
                    ShellAction::SetDifficultyUsage
                } else {
                    assert(views(ws@)[1] == ws@[1]@);
                    let low = lowercase_chars(ws[1].as_slice());
                    let new_diff = string_of(low.as_slice());
                    if valid_difficulty(new_diff.as_str()) {
                        self.difficulty = new_diff.clone();
                        ShellAction::DifficultyChanged(new_diff)
                    } else {
                        ShellAction::InvalidDifficulty(string_of(ws[1].as_slice()))
                    }
                }
            } else if chars_eq(cmd.as_slice(), chars_of(":stats").as_slice()) {
                ShellAction::ShowStats
            } else if chars_eq(cmd.as_slice(), chars_of(":clear").as_slice()) {
                ShellAction::ClearScreen
            } else if chars_eq(cmd.as_slice(), chars_of(":help").as_slice()) {
                ShellAction::Help
            } else if chars_eq(cmd.as_slice(), chars_of(":quit").as_slice()) || chars_eq(
                cmd.as_slice(),
                chars_of(":exit").as_slice(),
            ) {
                ShellAction::Quit
            } else if chars_eq(cmd.as_slice(), chars_of(":history").as_slice()) {
                ShellAction::ShowHistory(recent_entries(&self.history))
            } else {
                ShellAction::UnknownCommand(string_of(cmd.as_slice()))
            }
        } else {
            let (q, _) = typed_query(t.as_slice(), self.mode.as_str(), lang);
            ShellAction::Ask(q)
        }
    }
}

/// A text whose first character is not whitespace has at least one word.
proof fn lemma_first_word(t: Seq<char>)
    requires
        t.len() > 0,
        !crate::text::is_whitespace(t[0]),
    ensures
        words(t).len() > 0,
{
    crate::text::lemma_words_nonempty(t);
}


/// A meta-command never runs the model: for a line that starts with `:`, the
/// power shell's answer is never `Ask`, and the step changes nothing but the
/// session, whose history gains the line.
pub proof fn lemma_meta_commands_stay_in_session(
    s: ShellState,
    line: Seq<char>,
    lang: Seq<char>,
    next: ShellState,
    a: ShellAction,
)
    requires
        s.step_matches(line, lang, next, a),
        shell_text(line).len() > 0,
        shell_text(line)[0] == ':',
    ensures
        !(a is Ask),
        next.spec_history() == s.spec_history().push(shell_text(line)),
{
}


/// A typed request with a prefix asks about the text after the prefix,
/// trimmed: `--code `, `--explain ` and `--notes ` followed by any text give
/// the code, explain and notes prompt for that text, and the prefix is never
/// part of what is asked about.
pub proof fn lemma_prefix_is_not_part_of_the_request(
    topic: Seq<char>,
    mode: Seq<char>,
    lang: Seq<char>,
    q: Query,
)
    ensures
        typed_query_matches("--code "@ + topic, mode, lang, q) ==> q.prompt@
            == interactive_code_prompt(trim(topic)) && q.task == TaskKind::Code,
        typed_query_matches("--explain "@ + topic, mode, lang, q) ==> q.prompt@
            == interactive_explain_prompt(trim(topic), mode, lang) && q.task == TaskKind::Explain,
        typed_query_matches("--notes "@ + topic, mode, lang, q) ==> q.prompt@ == notes_prompt(
            trim(topic),
            mode,
            lang,
        ) && q.task == TaskKind::Notes,
{
    reveal_strlit("--code ");
    reveal_strlit("--explain ");
    reveal_strlit("--notes ");
    let c = "--code "@ + topic;
    let e = "--explain "@ + topic;
    let n = "--notes "@ + topic;
    assert(c.take(7) =~= "--code "@);
    assert(c.skip(7) =~= topic);
    assert(e.take(10) =~= "--explain "@);
    assert(e.skip(10) =~= topic);
    assert(n.take(8) =~= "--notes "@);
    assert(n.skip(8) =~= topic);
    if starts_with(e, "--code "@) {
        assert(e.take(7)[2] == e[2]);
    }
    if starts_with(n, "--code "@) {
        assert(n.take(7)[2] == n[2]);
    }
    if starts_with(n, "--explain "@) {
        assert(n.take(10)[2] == n[2]);
    }
}

/// At the plain prompt and in the power shell, a line `--explain ` followed
/// by a topic asks to explain the topic, trimmed, and never the prefix.
pub proof fn lemma_explain_line_asks_about_the_topic(
    line: Seq<char>,
    topic: Seq<char>,
    mode: Seq<char>,
    lang: Seq<char>,
    ra: ReplAction,
    s: ShellState,
    next: ShellState,
    sa: ShellAction,
)
    ensures
        trim(line) == "--explain "@ + topic && repl_action_matches(line, mode, lang, ra) ==> (
        ra matches ReplAction::Ask { query, tip } && query.prompt@ == interactive_explain_prompt(
            trim(topic),
            mode,
            lang,
        )),
        shell_text(line) == "--explain "@ + topic && s.step_matches(line, lang, next, sa) ==> (
        sa matches ShellAction::Ask(q) && q.prompt@ == interactive_explain_prompt(
            trim(topic),
            s.spec_mode(),
            lang,
        )),
{
    reveal_strlit("--explain ");
    reveal_strlit("/exit");
    reveal_strlit("/clear");
    let e = "--explain "@ + topic;
    assert(e[0] == '-');
    assert(e.len() >= 10);
    assert(e != "/exit"@);
    assert(e != "/clear"@);
    if trim(line) == e && repl_action_matches(line, mode, lang, ra) {
        if let ReplAction::Ask { query, tip } = ra {
            lemma_prefix_is_not_part_of_the_request(topic, mode, lang, query);
        }
    }
    if shell_text(line) == e && s.step_matches(line, lang, next, sa) {
        if let ShellAction::Ask(q) = sa {
            lemma_prefix_is_not_part_of_the_request(topic, s.spec_mode(), lang, q);
        }
    }
}

} // verus!
