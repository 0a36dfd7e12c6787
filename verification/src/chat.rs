//! The chat mode: the rolling prompt built from recent turns, the cleanup of
//! each reply, and the bounded history.
use vstd::prelude::*;
use crate::prompts::{lang_system_prompt, system_prompt_for};
use crate::text::{
    append_chars, chars_of, contains, copy_range, find, find_exec, lemma_contains_piece, lemma_find,
    push_str, same_text,
    string_of, trim, trim_chars,
};

verus! {

/// The most recent turns a chat prompt carries.
pub const CHAT_HISTORY_TURNS: usize = 6;

/// The token budget of a chat reply.
pub const CHAT_MAX_TOKENS: u32 = 300;

pub const CHAT_EXAM: &'static str = "You are Radhe, a concise AI assistant for students in EXAM mode. Give extremely short, direct answers with zero fluff. Answer questions directly without headers. Maximum 2 short sentences per response.";

pub const CHAT_REVISION: &'static str = "You are Radhe, a concise AI assistant for students in REVISION mode. Give answers using bullet-style concise memory aids. Keep them extremely brief and punchy.";

pub const CHAT_NORMAL: &'static str = "You are Radhe, a concise AI assistant for students. Give short, direct answers. No bullet points unless asked. No headers. Maximum 3 sentences per response.";

pub const SYSTEM_OPEN: &'static str = "<|im_start|>system\n";

pub const TURN_END: &'static str = "<|im_end|>\n";

pub const USER_OPEN: &'static str = "<|im_start|>user\n";

pub const ASSISTANT_OPEN: &'static str = "<|im_start|>assistant\n";

/// One exchange of a chat.
pub struct ChatTurn {
    pub user: String,
    pub assistant: String,
}

/// The chat's standing instruction for a study mode and answer language.
pub open spec fn chat_instruction(mode: Seq<char>, lang: Seq<char>) -> Seq<char> {
    (if mode == "exam"@ {
        CHAT_EXAM@
    } else if mode == "revision"@ {
        CHAT_REVISION@
    } else {
        CHAT_NORMAL@
    }) + if lang == "en"@ {
        seq![]
    } else {
        " "@ + system_prompt_for(lang)
    }
}

/// The past turns in chat-template form.
pub open spec fn turns_text(history: Seq<ChatTurn>) -> Seq<char>
    decreases history.len(),
{
    if history.len() == 0 {
        seq![]
    } else {
        turns_text(history.drop_last()) + USER_OPEN@ + history.last().user@ + TURN_END@
            + ASSISTANT_OPEN@ + history.last().assistant@ + TURN_END@
    }
}

/// The prompt for the next chat message.
pub open spec fn chat_prompt(
    history: Seq<ChatTurn>,
    input: Seq<char>,
    mode: Seq<char>,
    lang: Seq<char>,
) -> Seq<char> {
    SYSTEM_OPEN@ + chat_instruction(mode, lang) + TURN_END@ + turns_text(history) + USER_OPEN@
        + input + TURN_END@ + ASSISTANT_OPEN@
}

pub fn build_chat_prompt(history: &Vec<ChatTurn>, input: &str, mode: &str, lang: &str) -> (r: String)
    ensures
        r@ == chat_prompt(history@, input@, mode@, lang@),
{
    let mut r: Vec<char> = Vec::new();
    push_str(&mut r, SYSTEM_OPEN);
    if same_text(mode, "exam") {
        push_str(&mut r, CHAT_EXAM);
    } else if same_text(mode, "revision") {
        push_str(&mut r, CHAT_REVISION);
    } else {
        push_str(&mut r, CHAT_NORMAL);
    }
    if !same_text(lang, "en") {
        push_str(&mut r, " ");
        push_str(&mut r, lang_system_prompt(lang));
    }
    push_str(&mut r, TURN_END);
    let ghost head = r@;
    assert(head =~= SYSTEM_OPEN@ + chat_instruction(mode@, lang@) + TURN_END@);
    let mut i: usize = 0;
    assert(history@.take(0) =~= Seq::<ChatTurn>::empty());
    while i < history.len()
        invariant
            i <= history@.len(),
            r@ == head + turns_text(history@.take(i as int)),
        decreases history@.len() - i,
    {
        assert(history@.take(i + 1).drop_last() =~= history@.take(i as int));
        push_str(&mut r, USER_OPEN);
        push_str(&mut r, history[i].user.as_str());
        push_str(&mut r, TURN_END);
        push_str(&mut r, ASSISTANT_OPEN);
        push_str(&mut r, history[i].assistant.as_str());
        push_str(&mut r, TURN_END);
        assert(r@ =~= head + turns_text(history@.take(i + 1)));
        i += 1;
    }
    assert(history@.take(history@.len() as int) =~= history@);
    push_str(&mut r, USER_OPEN);
    push_str(&mut r, input);
    push_str(&mut r, TURN_END);
    push_str(&mut r, ASSISTANT_OPEN);
    assert(r@ =~= chat_prompt(history@, input@, mode@, lang@));
    string_of(r.as_slice())
}

/// Cuts a reply at a marker, if it holds one, and trims what is left.
pub open spec fn cut_at(r: Seq<char>, marker: Seq<char>) -> Seq<char> {
    match find(r, marker) {
        Some(i) => trim(r.take(i)),
        None => r,
    }
}

/// The reply kept from the model: trimmed, then cut at `### END`, at `###`,
/// at a new `User:` line and at a new `You:` line, in that order.
pub open spec fn chat_reply(response: Seq<char>) -> Seq<char> {
    cut_at(cut_at(cut_at(cut_at(trim(response), "### END"@), "###"@), "\nUser:"@), "\nYou:"@)
}

fn cut_at_exec(r: Vec<char>, marker: &str) -> (out: Vec<char>)
    ensures
        out@ == cut_at(r@, marker@),
{
    let m = chars_of(marker);
    let found = find_exec(r.as_slice(), m.as_slice());
    match found {
        Some(i) => {
            assert(find(r@, m@) == Some(i as int));
            proof {
                lemma_find(r@, m@);
            }
            let head = copy_range(r.as_slice(), 0, i);
            assert(head@ =~= r@.take(i as int));
            trim_chars(head.as_slice())
        },
        None => r,
    }
}

pub fn clean_chat_reply(response: &str) -> (r: String)
    ensures
        r@ == chat_reply(response@),
{
    let c = chars_of(response);
    let t = trim_chars(c.as_slice());
    let a = cut_at_exec(t, "### END");
    let b = cut_at_exec(a, "###");
    let d = cut_at_exec(b, "\nUser:");
    let e = cut_at_exec(d, "\nYou:");
    string_of(e.as_slice())
}

/// The history after one more turn: the turn is added, and the oldest turn
/// dropped when six were kept already.
pub open spec fn after_turn(history: Seq<ChatTurn>, turn: ChatTurn) -> Seq<ChatTurn> {
    if history.len() < CHAT_HISTORY_TURNS {
        history.push(turn)
    } else {
        history.push(turn).drop_first()
    }
}

/// The history after the given turns, one by one, from an empty one.
pub open spec fn history_after(turns: Seq<ChatTurn>) -> Seq<ChatTurn>
    decreases turns.len(),
{
    if turns.len() == 0 {
        turns
    } else {
        after_turn(history_after(turns.drop_last()), turns.last())
    }
}

/// The last six of the given turns (all of them, if there are fewer).
pub open spec fn last_turns(turns: Seq<ChatTurn>) -> Seq<ChatTurn> {
    if turns.len() <= CHAT_HISTORY_TURNS {
        turns
    } else {
        turns.skip(turns.len() - CHAT_HISTORY_TURNS)
    }
}

/// Adds a turn to the history and drops the oldest when more than six are kept.
pub fn remember_turn(history: &mut Vec<ChatTurn>, turn: ChatTurn)
    ensures
        final(history)@ == after_turn(old(history)@, turn),
        old(history)@.len() < CHAT_HISTORY_TURNS ==> final(history)@ == old(history)@.push(turn),
        old(history)@.len() >= CHAT_HISTORY_TURNS ==> final(history)@ == old(history)@.push(
            turn,
        ).drop_first(),
{
    history.push(turn);
    if history.len() > CHAT_HISTORY_TURNS {
        history.remove(0);
        assert(history@ =~= old(history)@.push(turn).drop_first());
    }
}

/// The history never holds more than six turns.
pub proof fn lemma_history_bounded(h: Seq<ChatTurn>, turn: ChatTurn)
    requires
        h.len() <= CHAT_HISTORY_TURNS,
    ensures
        after_turn(h, turn).len() <= CHAT_HISTORY_TURNS,
{
}

/// Turn by turn, from an empty history, what the history holds is always
/// the last six turns of the chat.
pub proof fn lemma_history_is_last_six(turns: Seq<ChatTurn>)
    ensures
        history_after(turns) == last_turns(turns),
    decreases turns.len(),
{
    if turns.len() > 0 {
        let init = turns.drop_last();
        lemma_history_is_last_six(init);
        let n = turns.len();
        if n <= CHAT_HISTORY_TURNS {
            assert(init.push(turns.last()) =~= turns);
        } else if n == CHAT_HISTORY_TURNS + 1 {
            assert(init.push(turns.last()).drop_first() =~= turns.skip(n - CHAT_HISTORY_TURNS));
        } else {
            let h = init.skip(init.len() - CHAT_HISTORY_TURNS);
            assert(h.push(turns.last()).drop_first() =~= turns.skip(n - CHAT_HISTORY_TURNS));
        }
    }
}

/// The prompt for the message that follows a chat's turns is the chat prompt
/// over the last six of them: older turns are left out.
pub proof fn lemma_chat_prompt_window(
    turns: Seq<ChatTurn>,
    input: Seq<char>,
    mode: Seq<char>,
    lang: Seq<char>,
)
    ensures
        chat_prompt(history_after(turns), input, mode, lang) == chat_prompt(
            last_turns(turns),
            input,
            mode,
            lang,
        ),
        last_turns(turns).len() <= CHAT_HISTORY_TURNS,
{
    lemma_history_is_last_six(turns);
}

/// One more turn after the last six of some turns keeps the last six of
/// them all.
pub proof fn lemma_last_turns_step(turns: Seq<ChatTurn>, turn: ChatTurn)
    ensures
        after_turn(last_turns(turns), turn) == last_turns(turns.push(turn)),
{
    let all = turns.push(turn);
    assert(all.drop_last() =~= turns);
    lemma_history_is_last_six(turns);
    lemma_history_is_last_six(all);
}

/// A chat in progress: every turn so far, of which the prompt carries the
/// last six.
pub struct ChatSession {
    history: Vec<ChatTurn>,
    turns: Ghost<Seq<ChatTurn>>,
}

impl ChatSession {
    #[verifier::type_invariant]
    spec fn keeps_last_turns(self) -> bool {
        self.history@ == last_turns(self.turns@)
    }

    /// Every turn of the chat so far, oldest first.
    pub closed spec fn spec_turns(self) -> Seq<ChatTurn> {
        self.turns@
    }

    /// A chat with no turn yet.
    pub fn new() -> (s: ChatSession)
        ensures
            s.spec_turns() == Seq::<ChatTurn>::empty(),
    {
        ChatSession { history: Vec::new(), turns: Ghost(Seq::empty()) }
    }

    /// The prompt for the next message: the chat prompt over the last six
    /// turns of the chat.
    pub fn prompt_for(&self, input: &str, mode: &str, lang: &str) -> (r: String)
        ensures
            r@ == chat_prompt(last_turns(self.spec_turns()), input@, mode@, lang@),
    {
        proof {
            use_type_invariant(self);
        }
        build_chat_prompt(&self.history, input, mode, lang)
    }

    /// Adds a finished turn to the chat.
    pub fn remember(&mut self, turn: ChatTurn)
        ensures
            final(self).spec_turns() == old(self).spec_turns().push(turn),
    {
        proof {
            use_type_invariant(&*self);
        }
        let mut taken = ChatSession::new();
        std::mem::swap(self, &mut taken);
        proof {
            use_type_invariant(&taken);
        }
        let ChatSession { history: mut h, turns } = taken;
        let ghost t = turn;
        remember_turn(&mut h, turn);
        proof {
            lemma_last_turns_step(turns@, t);
        }
        *self = ChatSession { history: h, turns: Ghost(turns@.push(t)) };
    }
}

/// What a line typed in chat asks for.
pub enum ChatInput {
    /// `exit` or `quit`.
    Quit,
    /// A blank line.
    Skip,
    /// A message, trimmed.
    Message(String),
}

pub open spec fn chat_input_matches(line: Seq<char>, r: ChatInput) -> bool {
    let t = trim(line);
    if t == "exit"@ || t == "quit"@ {
        r is Quit
    } else if t.len() == 0 {
        r is Skip
    } else {
        r matches ChatInput::Message(m) && m@ == t
    }
}

pub fn read_chat_input(line: &str) -> (r: ChatInput)
    ensures
        chat_input_matches(line@, r),
{
    let c = chars_of(line);
    let t = trim_chars(c.as_slice());
    let exit = chars_of("exit");
    let quit = chars_of("quit");
    if crate::text::chars_eq(t.as_slice(), exit.as_slice()) || crate::text::chars_eq(
        t.as_slice(),
        quit.as_slice(),
    ) {
        ChatInput::Quit
    } else if t.len() == 0 {
        ChatInput::Skip
    } else {
        ChatInput::Message(string_of(t.as_slice()))
    }
}

/// Each study mode puts its own standing instruction into every chat
/// prompt: `exam` the exam text, `revision` the revision text, any other mode
/// the normal text.
pub proof fn lemma_chat_mode_instruction(
    history: Seq<ChatTurn>,
    input: Seq<char>,
    lang: Seq<char>,
    other: Seq<char>,
)
    requires
        other != "exam"@,
        other != "revision"@,
    ensures
        contains(chat_prompt(history, input, "exam"@, lang), CHAT_EXAM@),
        contains(chat_prompt(history, input, "revision"@, lang), CHAT_REVISION@),
        contains(chat_prompt(history, input, other, lang), CHAT_NORMAL@),
{
    reveal_strlit("exam");
    reveal_strlit("revision");
    assert("exam"@.len() != "revision"@.len());
    let tail = (if lang == "en"@ {
        seq![]
    } else {
        " "@ + system_prompt_for(lang)
    }) + TURN_END@ + turns_text(history) + USER_OPEN@ + input + TURN_END@ + ASSISTANT_OPEN@;
    lemma_contains_piece(SYSTEM_OPEN@, CHAT_EXAM@, tail);
    lemma_contains_piece(SYSTEM_OPEN@, CHAT_REVISION@, tail);
    lemma_contains_piece(SYSTEM_OPEN@, CHAT_NORMAL@, tail);
    assert(chat_prompt(history, input, "exam"@, lang) =~= SYSTEM_OPEN@ + CHAT_EXAM@ + tail);
    assert(chat_prompt(history, input, "revision"@, lang) =~= SYSTEM_OPEN@ + CHAT_REVISION@ + tail);
    assert(chat_prompt(history, input, other, lang) =~= SYSTEM_OPEN@ + CHAT_NORMAL@ + tail);
}

} // verus!
