//! The interactive multiple-choice quiz: splitting the model's output into
//! questions, finding each answer key, and keeping the score.
use vstd::prelude::*;
use crate::text::{chars_of, copy_range, find, find_exec, is_ascii_digit, lemma_find, lines, lines_of, lowercase, lowercase_chars, lowers_ascii, starts_with, starts_with_exec, string_of, trim, trim_chars, trim_start, trim_start_chars, views};

verus! {

/// `line`, after its leading whitespace, starts with `Q`, one or more ASCII
/// digits and a colon (as in `Q12:`).
pub open spec fn is_q_marker(line: Seq<char>) -> bool {
    let t = trim_start(line);
    t.len() >= 3 && t[0] == 'Q' && exists|n: int|
        #![trigger t[n]]
        2 <= n < t.len() && t[n] == ':' && forall|k: int| 1 <= k < n ==> is_ascii_digit(#[trigger] t[k])
}

fn q_marker_chars(line: &[char]) -> (b: bool)
    ensures
        b == is_q_marker(line@),
{
    let t = trim_start_chars(line);
    if t.len() == 0 || t[0] != 'Q' {
        return false;
    }
    let mut i: usize = 1;
    while i < t.len()
        invariant
            1 <= i <= t@.len(),
            t@ == trim_start(line@),
            t@[0] == 'Q',
            forall|k: int| 1 <= k < i ==> is_ascii_digit(#[trigger] t@[k]),
        decreases t@.len() - i,
    {
        let c = t[i];
        if '0' <= c && c <= '9' {
            i += 1;
        } else if c == ':' && i > 1 {
            assert(t@[i as int] == ':');
            return true;
        } else {
            proof {
                assert forall|n: int| 2 <= n < t@.len() && t@[n] == ':' implies !(forall|k: int|
                    1 <= k < n ==> is_ascii_digit(#[trigger] t@[k])) by {
                    if n > i {
                        assert(!is_ascii_digit(t@[i as int]));
                    }
                }
            }
            return false;
        }
    }
    false
}

/// Whether a line opens a new quiz question (`Q<digits>:` after leading
/// whitespace).
pub fn starts_with_q_marker(line: &str) -> (b: bool)
    ensures
        b == is_q_marker(line@),
{
    let v = chars_of(line);
    q_marker_chars(v.as_slice())
}

} // verus!

verus! {

/// The finished question blocks, and the open one, after reading `ls`.
/// A block starts at a question marker and runs up to the next one; lines
/// before the first marker belong to no block.
pub open spec fn blocks_acc(ls: Seq<Seq<char>>) -> (Seq<Seq<Seq<char>>>, Seq<Seq<char>>)
    decreases ls.len(),
{
    if ls.len() == 0 {
        (seq![], seq![])
    } else {
        let (done, cur) = blocks_acc(ls.drop_last());
        let line = ls.last();
        if is_q_marker(line) {
            if cur.len() > 0 {
                (done.push(cur), seq![line])
            } else {
                (done, seq![line])
            }
        } else if cur.len() > 0 {
            (done, cur.push(line))
        } else {
            (done, cur)
        }
    }
}

/// The question blocks of the quiz text `output`.
pub open spec fn quiz_blocks(output: Seq<char>) -> Seq<Seq<Seq<char>>> {
    let (done, cur) = blocks_acc(lines(output));
    if cur.len() > 0 {
        done.push(cur)
    } else {
        done
    }
}

/// A line that gives the answer: after trimming and lowercasing it starts
/// with `answer:`.
pub open spec fn is_answer_line(line: Seq<char>) -> bool {
    starts_with(lowercase(trim(line)), "answer:"@)
}

/// The index of the first answer line of a block at or after `i`.
pub open spec fn answer_index_from(block: Seq<Seq<char>>, i: int) -> Option<int>
    decreases block.len() - i,
{
    if i < 0 || i >= block.len() {
        None
    } else if is_answer_line(block[i]) {
        Some(i)
    } else {
        answer_index_from(block, i + 1)
    }
}

pub open spec fn answer_index(block: Seq<Seq<char>>) -> Option<int> {
    answer_index_from(block, 0)
}

/// The letter an answer line gives: the first character of what follows its
/// first colon, trimmed and lowercased.
pub open spec fn answer_letter(line: Seq<char>) -> Option<char> {
    let t = trim(line);
    match find(t, seq![':']) {
        None => None,
        Some(k) => {
            let a = lowercase(trim(t.skip(k + 1)));
            if a.len() > 0 {
                Some(a[0])
            } else {
                None
            }
        },
    }
}

/// The expected answer of a block, if it has an answer line with a letter.
pub open spec fn answer_key(block: Seq<Seq<char>>) -> Option<char> {
    match answer_index(block) {
        None => None,
        Some(i) => answer_letter(block[i]),
    }
}

/// What is known of the lowercasing that reading a block's key did: each
/// line looked at for the answer line (all, or those up to the answer line),
/// trimmed, and the part of the answer line after its first colon, trimmed,
/// are lowered as `lowers_ascii` says.
pub open spec fn block_lowering_known(block: Seq<Seq<char>>) -> bool {
    &&& forall|j: int|
        0 <= j < block.len() && (answer_index(block) matches Some(k) ==> j <= k) ==> lowers_ascii(
            trim(#[trigger] block[j]),
        )
    &&& (answer_index(block) matches Some(k) ==> letter_known(block[k]))
}

/// What is known of the lowercasing of an answer line's letter.
pub open spec fn letter_known(line: Seq<char>) -> bool {
    let t = trim(line);
    match find(t, seq![':']) {
        None => true,
        Some(k) => lowers_ascii(trim(t.skip(k + 1))),
    }
}

/// What the student is shown of a block: every line but the answer line.
pub open spec fn shown_lines(block: Seq<Seq<char>>) -> Seq<Seq<char>> {
    match answer_index(block) {
        None => block,
        Some(i) => block.remove(i),
    }
}

/// A question as the student sees it, with the key kept back.
pub struct QuizQuestion {
    pub lines: Vec<String>,
    pub expected: Option<char>,
}

pub open spec fn string_views(v: Seq<String>) -> Seq<Seq<char>> {
    v.map_values(|x: String| x@)
}

fn strings_of(ls: &Vec<Vec<char>>) -> (r: Vec<String>)
    ensures
        string_views(r@) == views(ls@),
{
    let mut r: Vec<String> = Vec::new();
    let mut i: usize = 0;
    while i < ls.len()
        invariant
            i <= ls@.len(),
            string_views(r@) == views(ls@).take(i as int),
        decreases ls@.len() - i,
    {
        let s = string_of(ls[i].as_slice());
        let ghost before = string_views(r@);
        r.push(s);
        assert(string_views(r@) =~= before.push(s@));
        assert(views(ls@).take(i + 1) =~= views(ls@).take(i as int).push(ls@[i as int]@));
        i += 1;
    }
    assert(views(ls@).take(ls@.len() as int) =~= views(ls@));
    r
}

/// The first character of a lowercased answer, if it has one.
pub fn first_letter(lowered: &[char]) -> (r: Option<char>)
    ensures
        r == (if lowered@.len() > 0 {
            Some(lowered@[0])
        } else {
            None
        }),
{
    if lowered.len() > 0 {
        Some(lowered[0])
    } else {
        None
    }
}

/// Whether a trimmed, lowercased line starts with `answer:`.
pub fn is_answer_label(lowered: &[char]) -> (b: bool)
    ensures
        b == starts_with(lowered@, "answer:"@),
{
    let prefix = chars_of("answer:");
    starts_with_exec(lowered, prefix.as_slice())
}

fn answer_letter_exec(line: &[char]) -> (r: Option<char>)
    ensures
        r == answer_letter(line@),
        letter_known(line@),
{
    let t = trim_chars(line);
    let colon = vec![':'];
    assert(colon@ =~= seq![':']);
    let found = find_exec(t.as_slice(), colon.as_slice());
    match found {
        None => None,
        Some(k) => {
            assert(find(t@, colon@) == Some(k as int));
            proof {
                lemma_find(t@, colon@);
                assert(colon@.len() == 1);
                assert(k + 1 <= t@.len());
                assert(t@.len() == t.len());
            }
            let rest = copy_range(t.as_slice(), k + 1, t.len());
            assert(rest@ =~= t@.skip(k + 1));
            let rt = trim_chars(rest.as_slice());
            let a = lowercase_chars(rt.as_slice());
            first_letter(a.as_slice())
        },
    }
}

fn is_answer_line_exec(line: &[char]) -> (b: bool)
    ensures
        b == is_answer_line(line@),
        lowers_ascii(trim(line@)),
{
    let t = trim_chars(line);
    let low = lowercase_chars(t.as_slice());
    is_answer_label(low.as_slice())
}

fn answer_index_exec(block: &Vec<Vec<char>>) -> (r: Option<usize>)
    ensures
        r matches Some(k) ==> k < block@.len() && answer_index(views(block@)) == Some(k as int),
        r is None ==> answer_index(views(block@)) is None,
        forall|j: int|
            0 <= j < block@.len() && (r matches Some(k) ==> j <= k) ==> lowers_ascii(
                trim(#[trigger] views(block@)[j]),
            ),
{
    let mut i: usize = 0;
    while i < block.len()
        invariant
            i <= block@.len(),
            answer_index(views(block@)) == answer_index_from(views(block@), i as int),
            forall|j: int| 0 <= j < i ==> lowers_ascii(trim(#[trigger] views(block@)[j])),
        decreases block@.len() - i,
    {
        assert(views(block@)[i as int] == block@[i as int]@);
        if is_answer_line_exec(block[i].as_slice()) {
            return Some(i);
        }
        i += 1;
    }
    None
}

fn question_of(block: &Vec<Vec<char>>) -> (q: QuizQuestion)
    ensures
        string_views(q.lines@) == shown_lines(views(block@)),
        q.expected == answer_key(views(block@)),
        block_lowering_known(views(block@)),
{
    let idx = answer_index_exec(block);
    let expected = match idx {
        Some(k) => answer_letter_exec(block[k].as_slice()),
        None => None,
    };
    let mut shown: Vec<Vec<char>> = Vec::new();
    let mut j: usize = 0;
    let ghost bv = views(block@);
    while j < block.len()
        invariant
            j <= block@.len(),
            bv == views(block@),
            idx matches Some(k) ==> k < block@.len() && answer_index(bv) == Some(k as int),
            idx is None ==> answer_index(bv) is None,
            views(shown@) == (match idx {
                Some(k) => if j <= k { bv.take(j as int) } else { bv.take(j as int).remove(k as int) },
                None => bv.take(j as int),
            }),
        decreases block@.len() - j,
    {
        let keep = match idx {
            Some(k) => j != k,
            None => true,
        };
        let ghost before = views(shown@);
        assert(bv[j as int] == block@[j as int]@);
        assert(bv.take(j + 1) =~= bv.take(j as int).push(bv[j as int]));
        if keep {
            let line = copy_range(block[j].as_slice(), 0, block[j].len());
            assert(line@ =~= block@[j as int]@);
            shown.push(line);
            assert(views(shown@) =~= before.push(bv[j as int]));
        }
        proof {
            match idx {
                Some(k) => {
                    if j < k {
                    } else if j == k {
                        assert(bv.take(j + 1).remove(k as int) =~= bv.take(j as int));
                    } else {
                        assert(bv.take(j + 1).remove(k as int) =~= bv.take(j as int).remove(
                            k as int,
                        ).push(bv[j as int]));
                    }
                },
                None => {},
            }
        }
        j += 1;
    }
    proof {
        assert(bv.take(block@.len() as int) =~= bv);
    }
    QuizQuestion { lines: strings_of(&shown), expected }
}

} // verus!

verus! {

pub open spec fn block_views(bs: Seq<Vec<Vec<char>>>) -> Seq<Seq<Seq<char>>> {
    bs.map_values(|b: Vec<Vec<char>>| views(b@))
}

fn clone_chars(v: &Vec<char>) -> (r: Vec<char>)
    ensures
        r@ == v@,
{
    let r = copy_range(v.as_slice(), 0, v.len());
    assert(v@.subrange(0, v@.len() as int) =~= v@);
    r
}

/// Splits the quiz text into question blocks.
fn quiz_blocks_exec(output: &[char]) -> (r: Vec<Vec<Vec<char>>>)
    ensures
        block_views(r@) == quiz_blocks(output@),
{
    let ls = lines_of(output);
    let ghost lv = views(ls@);
    let mut done: Vec<Vec<Vec<char>>> = Vec::new();
    let mut cur: Vec<Vec<char>> = Vec::new();
    let mut i: usize = 0;
    assert(lv.take(0) =~= Seq::<Seq<char>>::empty());
    assert(block_views(done@) =~= Seq::<Seq<Seq<char>>>::empty());
    assert(views(cur@) =~= Seq::<Seq<char>>::empty());
    while i < ls.len()
        invariant
            i <= ls@.len(),
            lv == views(ls@),
            (block_views(done@), views(cur@)) == blocks_acc(lv.take(i as int)),
        decreases ls@.len() - i,
    {
        assert(lv.take(i + 1).drop_last() =~= lv.take(i as int));
        assert(lv.take(i + 1).last() == ls@[i as int]@);
        let line = clone_chars(&ls[i]);
        let ghost before_done = block_views(done@);
        let ghost before_cur = views(cur@);
        if q_marker_chars(line.as_slice()) {
            if cur.len() > 0 {
                let c = cur;
                done.push(c);
                assert(block_views(done@) =~= before_done.push(before_cur));
            }
            cur = Vec::new();
            cur.push(line);
            assert(views(cur@) =~= seq![ls@[i as int]@]);
        } else if cur.len() > 0 {
            cur.push(line);
            assert(views(cur@) =~= before_cur.push(ls@[i as int]@));
        }
        i += 1;
    }
    assert(lv.take(ls@.len() as int) =~= lv);
    if cur.len() > 0 {
        let ghost before_done = block_views(done@);
        let ghost before_cur = views(cur@);
        done.push(cur);
        assert(block_views(done@) =~= before_done.push(before_cur));
    }
    done
}

/// The questions of a quiz text, in order: for each question block, the
/// lines to show (all but its answer line) and its answer key.
pub fn parse_quiz(output: &str) -> (r: Vec<QuizQuestion>)
    ensures
        r@.len() == quiz_blocks(output@).len(),
        forall|i: int|
            0 <= i < r@.len() ==> string_views(#[trigger] r@[i].lines@) == shown_lines(
                quiz_blocks(output@)[i],
            ) && r@[i].expected == answer_key(quiz_blocks(output@)[i]) && block_lowering_known(
                quiz_blocks(output@)[i],
            ),
{
    let text = chars_of(output);
    let blocks = quiz_blocks_exec(text.as_slice());
    let ghost bv = block_views(blocks@);
    let mut r: Vec<QuizQuestion> = Vec::new();
    let mut i: usize = 0;
    while i < blocks.len()
        invariant
            i <= blocks@.len(),
            bv == block_views(blocks@),
            bv == quiz_blocks(output@),
            r@.len() == i,
            forall|k: int|
                0 <= k < i ==> string_views(#[trigger] r@[k].lines@) == shown_lines(bv[k])
                    && r@[k].expected == answer_key(bv[k]) && block_lowering_known(bv[k]),
        decreases blocks@.len() - i,
    {
        let q = question_of(&blocks[i]);
        r.push(q);
        i += 1;
    }
    r
}

/// The first character of the student's reply, trimmed and lowercased.
pub open spec fn reply_letter(input: Seq<char>) -> Option<char> {
    let a = lowercase(trim(input));
    if a.len() > 0 {
        Some(a[0])
    } else {
        None
    }
}

/// How a reply to a question is judged.
#[derive(Clone, Copy, PartialEq, Eq, Structural, Debug)]
pub enum AnswerOutcome {
    Correct,
    /// Wrong; the expected letter is given.
    Wrong(char),
    /// The question had no answer key, so no reply can be right.
    NoKey,
}

pub open spec fn judge(expected: Option<char>, input: Seq<char>) -> AnswerOutcome {
    match expected {
        None => AnswerOutcome::NoKey,
        Some(e) => if reply_letter(input) == Some(e) {
            AnswerOutcome::Correct
        } else {
            AnswerOutcome::Wrong(e)
        },
    }
}

/// An answer key counts toward the score only if it is one of `a`..`d`.
pub open spec fn counts_toward_score(expected: Option<char>) -> bool {
    expected == Some('a') || expected == Some('b') || expected == Some('c') || expected == Some('d')
}

/// Judges the student's reply to a question with the given key.
pub fn judge_reply(expected: Option<char>, input: &str) -> (r: AnswerOutcome)
    ensures
        r == judge(expected, input@),
        lowers_ascii(trim(input@)),
{
    let v = chars_of(input);
    let t = trim_chars(v.as_slice());
    let low = lowercase_chars(t.as_slice());
    let letter = first_letter(low.as_slice());
    match expected {
        None => AnswerOutcome::NoKey,
        Some(e) => {
            if letter == Some(e) {
                AnswerOutcome::Correct
            } else {
                AnswerOutcome::Wrong(e)
            }
        },
    }
}

/// The running score of a quiz: how many counted questions there were, and
/// how many of them were answered correctly.
pub struct QuizScore {
    correct: u64,
    counted: u64,
}

impl QuizScore {
    #[verifier::type_invariant]
    spec fn score_inv(self) -> bool {
        self.correct <= self.counted
    }

    pub closed spec fn spec_correct(self) -> nat {
        self.correct as nat
    }

    pub closed spec fn spec_counted(self) -> nat {
        self.counted as nat
    }

    pub fn new() -> (s: QuizScore)
        ensures
            s.spec_correct() == 0,
            s.spec_counted() == 0,
    {
        QuizScore { correct: 0, counted: 0 }
    }

    pub fn correct(&self) -> (n: u64)
        ensures
            n == self.spec_correct(),
            n <= self.spec_counted(),
    {
        proof {
            use_type_invariant(self);
        }
        self.correct
    }

    pub fn counted(&self) -> (n: u64)
        ensures
            n == self.spec_counted(),
    {
        self.counted
    }

    /// Records the judgement of one question: a question counts only if its
    /// key is one of `a`..`d`, and it scores only if it counts and was
    /// answered correctly.
    pub fn record(&mut self, expected: Option<char>, outcome: AnswerOutcome)
        requires
            old(self).spec_counted() < u64::MAX,
        ensures
            final(self).spec_counted() == old(self).spec_counted() + (if counts_toward_score(
                expected,
            ) {
                1int
            } else {
                0int
            }),
            final(self).spec_correct() == old(self).spec_correct() + (if counts_toward_score(
                expected,
            ) && outcome == AnswerOutcome::Correct {
                1int
            } else {
                0int
            }),
    {
        proof {
            use_type_invariant(&*self);
        }
        let valid = match expected {
            Some('a') | Some('b') | Some('c') | Some('d') => true,
            _ => false,
        };
        if valid {
            let ok = match outcome {
                AnswerOutcome::Correct => true,
                _ => false,
            };
            if ok {
                self.counted = self.counted + 1;
                self.correct = self.correct + 1;
            } else {
                self.counted = self.counted + 1;
            }
        }
    }
}


/// The questions that count toward the score are exactly those whose key is
/// one of the option letters `a` to `d`, all four alike: a key counts when it
/// lies in the range `a..=d`, and no other key, nor a missing one, counts.
pub proof fn lemma_option_letters_count(expected: Option<char>)
    ensures
        counts_toward_score(expected) <==> (expected matches Some(c) && 'a' <= c && c <= 'd'),
{
    if let Some(c) = expected {
        if 'a' <= c && c <= 'd' {
            assert(c == 'a' || c == 'b' || c == 'c' || c == 'd') by {
                assert(('a' as u32) + 1 == ('b' as u32));
                assert(('b' as u32) + 1 == ('c' as u32));
                assert(('c' as u32) + 1 == ('d' as u32));
            }
        }
    }
}

/// A reply is judged against the key alone: with no key nothing is right;
/// with a key, the reply is right exactly when its first letter, lowercased,
/// is the key, and a wrong reply is told the key, never its own letter.
pub proof fn lemma_judge_by_key(expected: Option<char>, input: Seq<char>)
    ensures
        expected is None ==> judge(expected, input) == AnswerOutcome::NoKey,
        forall|e: char|
            expected == Some(e) ==> (judge(expected, input) == AnswerOutcome::Correct
                <==> lowercase(trim(input)).len() > 0 && lowercase(trim(input))[0] == e),
        forall|e: char|
            expected == Some(e) && judge(expected, input) != AnswerOutcome::Correct ==> judge(
                expected,
                input,
            ) == AnswerOutcome::Wrong(e),
{
}

} // verus!
