//! Cleaning the raw text that the local model prints into the answer shown
//! to the student.
use vstd::prelude::*;
use crate::modes::TaskKind;
use crate::text::{
    append_chars, chars_eq, chars_of, contains, contains_exec, contains_seq, copy_range, ends_with,
    find, find_exec, is_ascii_digit, is_blank, join, join_chars, lemma_find, lines, lines_of,
    has_no_newline, lemma_replace_no_newline, lemma_trim_stable, lemma_lines_have_no_newline,
    lemma_trim_join_lines, lines_acc, trim_start, lemma_contains_in_trim, all_whitespace,
    lemma_blank_iff_whitespace, matches_at,
    lowercase, lowercase_chars, lowers_ascii, replace, replace_chars, starts_with, starts_with_exec, string_of,
    trim, trim_chars, views,
};

verus! {

/// The marker that ends the prompt and opens the model's answer.
pub open spec fn response_marker() -> Seq<char> {
    "### RESPONSE:"@
}

/// The marker after which a fix request's answer starts.
pub open spec fn fixed_code_marker() -> Seq<char> {
    "FIXED CODE:"@
}

/// The prompt as handed to the model: fix and chat prompts as they are,
/// others followed by a blank line and the response marker.
pub open spec fn delimited_prompt(prompt: Seq<char>, task: TaskKind) -> Seq<char> {
    if task == TaskKind::Fix || task == TaskKind::Chat {
        prompt
    } else {
        prompt + "\n\n"@ + response_marker() + "\n"@
    }
}

pub fn prompt_with_delimiter(prompt: &str, task: TaskKind) -> (r: String)
    ensures
        r@ == delimited_prompt(prompt@, task),
{
    let mut r = chars_of(prompt);
    if !(task == TaskKind::Fix || task == TaskKind::Chat) {
        let a = chars_of("\n\n");
        let b = chars_of("### RESPONSE:");
        let c = chars_of("\n");
        append_chars(&mut r, a.as_slice());
        append_chars(&mut r, b.as_slice());
        append_chars(&mut r, c.as_slice());
    }
    string_of(r.as_slice())
}

// ---------------------------------------------------------------------------
// Picking the answer out of the model's output
// ---------------------------------------------------------------------------

/// Standard output, unless it is blank; then standard error.
pub open spec fn raw_output(stdout: Seq<char>, stderr: Seq<char>) -> Seq<char> {
    if trim(stdout).len() == 0 {
        stderr
    } else {
        stdout
    }
}

/// Log and timing lines of the runner start with `0.`.
pub open spec fn is_log_line(l: Seq<char>) -> bool {
    starts_with(l, "0."@)
}

/// The lines that are not log lines, in order.
pub open spec fn without_log_lines(ls: Seq<Seq<char>>) -> Seq<Seq<char>>
    decreases ls.len(),
{
    if ls.len() == 0 {
        ls
    } else if is_log_line(ls.last()) {
        without_log_lines(ls.drop_last())
    } else {
        without_log_lines(ls.drop_last()).push(ls.last())
    }
}

/// `rest` without its first line, if that line is blank.
pub open spec fn drop_blank_first_line(rest: Seq<char>) -> Seq<char> {
    match find(rest, seq!['\n']) {
        Some(k) => if trim(rest.take(k)).len() == 0 {
            rest.skip(k + 1)
        } else {
            rest
        },
        None => rest,
    }
}

/// A prompt with its escaped line breaks and tabs made real, as the runner
/// echoes it.
pub open spec fn normalized_prompt(p: Seq<char>) -> Seq<char> {
    replace(
        replace(replace(replace(p, "\r\n"@, "\n"@), "\\n"@, "\n"@), "\\r"@, "\r"@),
        "\\t"@,
        "\t"@,
    )
}

/// Text without chat-template tags.
pub open spec fn without_chat_tags(s: Seq<char>) -> Seq<char> {
    replace(replace(s, "<|im_start|>"@, ""@), "<|im_end|>"@, ""@)
}

/// Where the echoed prompt ends in the (tag-free) output: after the prompt,
/// else after the trimmed prompt, else at the start.
pub open spec fn echo_end(cc: Seq<char>, prompt: Seq<char>) -> int {
    let pc = without_chat_tags(normalized_prompt(prompt));
    let tpc = without_chat_tags(normalized_prompt(trim(prompt)));
    match find(cc, pc) {
        Some(p) => p + pc.len(),
        None => match find(cc, tpc) {
            Some(p) => p + tpc.len(),
            None => 0,
        },
    }
}

/// The part of the cleaned output that is the answer: what follows the
/// response marker, else what follows the fixed-code marker, else what
/// follows the echoed prompt.
pub open spec fn answer_part(content: Seq<char>, prompt: Seq<char>) -> Seq<char> {
    match find(content, response_marker()) {
        Some(pos) => drop_blank_first_line(content.skip(pos + response_marker().len())),
        None => match find(content, fixed_code_marker()) {
            Some(pos) => drop_blank_first_line(content.skip(pos + fixed_code_marker().len())),
            None => {
                let cc = without_chat_tags(content);
                drop_blank_first_line(cc.skip(echo_end(cc, prompt)))
            },
        },
    }
}

/// A markdown fence line.
pub open spec fn is_fence(t: Seq<char>) -> bool {
    t == "```c"@ || t == "```cpp"@ || t == "```python"@ || t == "```rust"@ || t == "```"@
}

/// A line that opens an explanation after the code.
pub open spec fn is_explanation_header(t: Seq<char>) -> bool {
    starts_with(t, "Explanation:"@) || starts_with(t, "explanation:"@) || starts_with(
        t,
        "// Explanation"@,
    ) || starts_with(t, "// explanation"@) || starts_with(t, "# Explanation"@) || starts_with(
        t,
        "# explanation"@,
    )
}

/// A line with the end-of-text token removed.
pub open spec fn without_end_token(l: Seq<char>) -> Seq<char> {
    replace(l, "[end of text]"@, ""@)
}

/// The answer lines worth showing, in order: end-of-text tokens removed;
/// marker lines, fences and blank lines dropped; and, for code, everything
/// from an explanation header on dropped.
pub open spec fn shown_answer_lines(ls: Seq<Seq<char>>, code_like: bool) -> Seq<Seq<char>>
    decreases ls.len(),
{
    if ls.len() == 0 {
        seq![]
    } else {
        let lc = without_end_token(ls[0]);
        let t = trim(lc);
        if contains(t, response_marker()) || is_fence(t) {
            shown_answer_lines(ls.drop_first(), code_like)
        } else if code_like && is_explanation_header(t) {
            seq![]
        } else if t.len() == 0 {
            shown_answer_lines(ls.drop_first(), code_like)
        } else {
            seq![lc] + shown_answer_lines(ls.drop_first(), code_like)
        }
    }
}

// ---------------------------------------------------------------------------
// Notes: dropping repeated bullets
// ---------------------------------------------------------------------------

/// The number of ASCII digits at the start of `t`.
pub open spec fn leading_digits(t: Seq<char>) -> nat
    decreases t.len(),
{
    if t.len() > 0 && is_ascii_digit(t[0]) {
        1 + leading_digits(t.drop_first())
    } else {
        0
    }
}

/// One round of bullet stripping: a leading `-` or `*`, then a leading
/// number followed by `.`, each with the whitespace after it.
pub open spec fn strip_bullet_once(t: Seq<char>) -> Seq<char> {
    let t1 = if t.len() > 0 && (t[0] == '-' || t[0] == '*') {
        trim(t.drop_first())
    } else {
        t
    };
    let n = leading_digits(t1);
    if n >= 1 && n < t1.len() && t1[n as int] == '.' {
        trim(t1.skip(n as int + 1))
    } else {
        t1
    }
}

/// Bullet stripping repeated while it shortens the text.
pub open spec fn strip_bullets(t: Seq<char>) -> Seq<char>
    decreases t.len(),
{
    let t2 = strip_bullet_once(t);
    if t2.len() < t.len() {
        strip_bullets(t2)
    } else {
        t2
    }
}

/// What two notes lines share when they say the same thing: the text
/// lowercased, bold markers removed, trimmed, and bullets stripped.
pub open spec fn bullet_key(line: Seq<char>) -> Seq<char> {
    lowered_bullet_key(lowercase(line))
}

/// The key of a notes line that is already lowercased: bold markers
/// removed, trimmed, and bullets stripped.
pub open spec fn lowered_bullet_key(low: Seq<char>) -> Seq<char> {
    strip_bullets(trim(replace(low, "**"@, ""@)))
}

/// The kept lines and their keys after reading `ls`: a line is kept when it
/// is not blank and no kept line before it has the same key.
pub open spec fn dedup_acc(ls: Seq<Seq<char>>) -> (Seq<Seq<char>>, Seq<Seq<char>>)
    decreases ls.len(),
{
    if ls.len() == 0 {
        (seq![], seq![])
    } else {
        let (kept, keys) = dedup_acc(ls.drop_last());
        let l = ls.last();
        if trim(l).len() == 0 || keys.contains(bullet_key(l)) {
            (kept, keys)
        } else {
            (kept.push(l), keys.push(bullet_key(l)))
        }
    }
}

pub open spec fn dedup_bullets(ls: Seq<Seq<char>>) -> Seq<Seq<char>> {
    dedup_acc(ls).0
}

/// The answer shown for a request, from what the model printed.
pub open spec fn cleaned_answer(
    stdout: Seq<char>,
    stderr: Seq<char>,
    prompt: Seq<char>,
    task: TaskKind,
) -> Seq<char> {
    trim(join(answer_lines(stdout, stderr, prompt, task), "\n"@))
}

/// The answer text before its lines are picked: the model's output without
/// log lines, from the response marker or the echoed prompt on.
pub open spec fn answer_text(stdout: Seq<char>, stderr: Seq<char>, prompt: Seq<char>) -> Seq<char> {
    let content = join(without_log_lines(lines(raw_output(stdout, stderr))), "\n"@);
    answer_part(content, prompt)
}

/// The lines of the answer shown for a request, before they are joined: the
/// shown answer lines, with repeated notes dropped.
pub open spec fn answer_lines(
    stdout: Seq<char>,
    stderr: Seq<char>,
    prompt: Seq<char>,
    task: TaskKind,
) -> Seq<Seq<char>> {
    let shown = shown_answer_lines(
        lines(answer_text(stdout, stderr, prompt)),
        task == TaskKind::Code || task == TaskKind::Fix,
    );
    if task == TaskKind::Notes {
        dedup_bullets(shown)
    } else {
        shown
    }
}

} // verus!

verus! {

fn without_log_lines_exec(ls: &Vec<Vec<char>>) -> (r: Vec<Vec<char>>)
    ensures
        views(r@) == without_log_lines(views(ls@)),
{
    let prefix = chars_of("0.");
    let ghost lv = views(ls@);
    let mut r: Vec<Vec<char>> = Vec::new();
    let mut i: usize = 0;
    assert(lv.take(0) =~= Seq::<Seq<char>>::empty());
    assert(views(r@) =~= Seq::<Seq<char>>::empty());
    while i < ls.len()
        invariant
            i <= ls@.len(),
            lv == views(ls@),
            prefix@ == "0."@,
            views(r@) == without_log_lines(lv.take(i as int)),
        decreases ls@.len() - i,
    {
        assert(lv.take(i + 1).drop_last() =~= lv.take(i as int));
        assert(lv.take(i + 1).last() == ls@[i as int]@);
        if !starts_with_exec(ls[i].as_slice(), prefix.as_slice()) {
            let line = copy_range(ls[i].as_slice(), 0, ls[i].len());
            assert(line@ =~= ls@[i as int]@);
            let ghost before = views(r@);
            r.push(line);
            assert(views(r@) =~= before.push(line@));
        }
        i += 1;
    }
    assert(lv.take(ls@.len() as int) =~= lv);
    r
}

fn drop_blank_first_line_exec(rest: &[char]) -> (r: Vec<char>)
    ensures
        r@ == drop_blank_first_line(rest@),
{
    let nl = vec!['\n'];
    assert(nl@ =~= seq!['\n']);
    let found = find_exec(rest, nl.as_slice());
    match found {
        Some(k) => {
            assert(find(rest@, nl@) == Some(k as int));
            proof {
                lemma_find(rest@, nl@);
                assert(k + 1 <= rest@.len());
                assert(rest@.len() == rest.len());
            }
            let first = copy_range(rest, 0, k);
            assert(first@ =~= rest@.take(k as int));
            if is_blank(first.as_slice()) {
                let r = copy_range(rest, k + 1, rest.len());
                assert(r@ =~= rest@.skip(k + 1));
                r
            } else {
                let r = copy_range(rest, 0, rest.len());
                assert(r@ =~= rest@);
                r
            }
        },
        None => {
            let r = copy_range(rest, 0, rest.len());
            assert(r@ =~= rest@);
            r
        },
    }
}

fn normalized_prompt_exec(p: &[char]) -> (r: Vec<char>)
    ensures
        r@ == normalized_prompt(p@),
{
    let crlf = chars_of("\r\n");
    let nl = chars_of("\n");
    let esc_n = chars_of("\\n");
    let cr = chars_of("\r");
    let esc_r = chars_of("\\r");
    let tab = chars_of("\t");
    let esc_t = chars_of("\\t");
    proof {
        reveal_strlit("\r\n");
        reveal_strlit("\\n");
        reveal_strlit("\\r");
        reveal_strlit("\\t");
    }
    let a = replace_chars(p, crlf.as_slice(), nl.as_slice());
    let b = replace_chars(a.as_slice(), esc_n.as_slice(), nl.as_slice());
    let c = replace_chars(b.as_slice(), esc_r.as_slice(), cr.as_slice());
    replace_chars(c.as_slice(), esc_t.as_slice(), tab.as_slice())
}

fn without_chat_tags_exec(s: &[char]) -> (r: Vec<char>)
    ensures
        r@ == without_chat_tags(s@),
{
    let start = chars_of("<|im_start|>");
    let end = chars_of("<|im_end|>");
    let empty = chars_of("");
    proof {
        reveal_strlit("<|im_start|>");
        reveal_strlit("<|im_end|>");
    }
    let a = replace_chars(s, start.as_slice(), empty.as_slice());
    replace_chars(a.as_slice(), end.as_slice(), empty.as_slice())
}

fn echo_end_exec(cc: &[char], prompt: &[char]) -> (r: usize)
    ensures
        r == echo_end(cc@, prompt@),
        r <= cc@.len(),
{
    let n = normalized_prompt_exec(prompt);
    let pc = without_chat_tags_exec(n.as_slice());
    let tp = trim_chars(prompt);
    let tn = normalized_prompt_exec(tp.as_slice());
    let tpc = without_chat_tags_exec(tn.as_slice());
    proof {
        lemma_find(cc@, pc@);
        lemma_find(cc@, tpc@);
    }
    let f1 = find_exec(cc, pc.as_slice());
    match f1 {
        Some(p) => {
            assert(find(cc@, pc@) == Some(p as int));
            assert(cc@.len() == cc.len());
            p + pc.len()
        },
        None => {
            let f2 = find_exec(cc, tpc.as_slice());
            match f2 {
                Some(p) => {
                    assert(find(cc@, tpc@) == Some(p as int));
                    assert(cc@.len() == cc.len());
                    p + tpc.len()
                },
                None => 0,
            }
        },
    }
}

/// What follows `marker` in `content`, if it occurs.
fn after_marker(content: &[char], marker: &[char]) -> (r: Option<Vec<char>>)
    ensures
        r matches Some(v) ==> find(content@, marker@) matches Some(pos) && v@
            == drop_blank_first_line(content@.skip(pos + marker@.len())),
        r is None ==> find(content@, marker@) is None,
{
    let found = find_exec(content, marker);
    match found {
        Some(pos) => {
            assert(find(content@, marker@) == Some(pos as int));
            proof {
                lemma_find(content@, marker@);
                assert(content@.len() == content.len());
            }
            let rest = copy_range(content, pos + marker.len(), content.len());
            assert(rest@ =~= content@.skip(pos + marker@.len()));
            Some(drop_blank_first_line_exec(rest.as_slice()))
        },
        None => None,
    }
}

fn answer_part_exec(content: &[char], prompt: &[char]) -> (r: Vec<char>)
    ensures
        r@ == answer_part(content@, prompt@),
{
    let resp = chars_of("### RESPONSE:");
    let fixed = chars_of("FIXED CODE:");
    match after_marker(content, resp.as_slice()) {
        Some(v) => v,
        None => match after_marker(content, fixed.as_slice()) {
            Some(v) => v,
            None => {
                let cc = without_chat_tags_exec(content);
                let end = echo_end_exec(cc.as_slice(), prompt);
                let rest = copy_range(cc.as_slice(), end, cc.len());
                assert(rest@ =~= cc@.skip(end as int));
                drop_blank_first_line_exec(rest.as_slice())
            },
        },
    }
}

fn is_fence_exec(t: &[char]) -> (b: bool)
    ensures
        b == is_fence(t@),
{
    let f1 = chars_of("```c");
    let f2 = chars_of("```cpp");
    let f3 = chars_of("```python");
    let f4 = chars_of("```rust");
    let f5 = chars_of("```");
    chars_eq(t, f1.as_slice()) || chars_eq(t, f2.as_slice()) || chars_eq(t, f3.as_slice())
        || chars_eq(t, f4.as_slice()) || chars_eq(t, f5.as_slice())
}

fn is_explanation_header_exec(t: &[char]) -> (b: bool)
    ensures
        b == is_explanation_header(t@),
{
    let h1 = chars_of("Explanation:");
    let h2 = chars_of("explanation:");
    let h3 = chars_of("// Explanation");
    let h4 = chars_of("// explanation");
    let h5 = chars_of("# Explanation");
    let h6 = chars_of("# explanation");
    starts_with_exec(t, h1.as_slice()) || starts_with_exec(t, h2.as_slice()) || starts_with_exec(
        t,
        h3.as_slice(),
    ) || starts_with_exec(t, h4.as_slice()) || starts_with_exec(t, h5.as_slice())
        || starts_with_exec(t, h6.as_slice())
}

fn shown_answer_lines_exec(ls: &Vec<Vec<char>>, code_like: bool) -> (r: Vec<Vec<char>>)
    ensures
        views(r@) == shown_answer_lines(views(ls@), code_like),
{
    let token = chars_of("[end of text]");
    let empty = chars_of("");
    let marker = chars_of("### RESPONSE:");
    proof {
        reveal_strlit("[end of text]");
    }
    let ghost lv = views(ls@);
    let mut r: Vec<Vec<char>> = Vec::new();
    let mut i: usize = 0;
    assert(lv.skip(0) =~= lv);
    assert(views(r@) =~= Seq::<Seq<char>>::empty());
    while i < ls.len()
        invariant
            i <= ls@.len(),
            lv == views(ls@),
            token@ == "[end of text]"@,
            token@.len() > 0,
            empty@ == ""@,
            marker@ == response_marker(),
            shown_answer_lines(lv, code_like) == views(r@) + shown_answer_lines(
                lv.skip(i as int),
                code_like,
            ),
        decreases ls@.len() - i,
    {
        let ghost rest = lv.skip(i as int);
        assert(rest[0] == ls@[i as int]@);
        assert(rest.drop_first() =~= lv.skip(i + 1));
        let lc = replace_chars(ls[i].as_slice(), token.as_slice(), empty.as_slice());
        let t = trim_chars(lc.as_slice());
        if contains_exec(t.as_slice(), marker.as_slice()) || is_fence_exec(t.as_slice()) {
        } else if code_like && is_explanation_header_exec(t.as_slice()) {
            assert(views(r@) + shown_answer_lines(rest, code_like) =~= views(r@));
            return r;
        } else if t.len() == 0 {
        } else {
            let ghost before = views(r@);
            r.push(lc);
            assert(views(r@) =~= before.push(lc@));
            assert(before + shown_answer_lines(rest, code_like) =~= views(r@)
                + shown_answer_lines(lv.skip(i + 1), code_like));
        }
        i += 1;
    }
    assert(views(r@) + shown_answer_lines(lv.skip(i as int), code_like) =~= views(r@));
    r
}

proof fn lemma_leading_digits(t: Seq<char>, n: int)
    requires
        0 <= n <= t.len(),
        forall|k: int| 0 <= k < n ==> is_ascii_digit(#[trigger] t[k]),
        n == t.len() || !is_ascii_digit(t[n]),
    ensures
        leading_digits(t) == n,
    decreases n,
{
    if n > 0 {
        assert forall|k: int| 0 <= k < n - 1 implies is_ascii_digit(#[trigger] t.drop_first()[k]) by {
            assert(t.drop_first()[k] == t[k + 1]);
        }
        if n - 1 < t.drop_first().len() {
            assert(t.drop_first()[n - 1] == t[n]);
        }
        lemma_leading_digits(t.drop_first(), n - 1);
    }
}

fn leading_digits_exec(t: &[char]) -> (n: usize)
    ensures
        n == leading_digits(t@),
        n <= t@.len(),
{
    let mut n: usize = 0;
    while n < t.len() && '0' <= t[n] && t[n] <= '9'
        invariant
            n <= t@.len(),
            forall|k: int| 0 <= k < n ==> is_ascii_digit(#[trigger] t@[k]),
        decreases t@.len() - n,
    {
        n += 1;
    }
    proof {
        lemma_leading_digits(t@, n as int);
    }
    n
}

fn strip_bullet_once_exec(t: &[char]) -> (r: Vec<char>)
    ensures
        r@ == strip_bullet_once(t@),
{
    let t1 = if t.len() > 0 && (t[0] == '-' || t[0] == '*') {
        let rest = copy_range(t, 1, t.len());
        assert(rest@ =~= t@.drop_first());
        trim_chars(rest.as_slice())
    } else {
        copy_range(t, 0, t.len())
    };
    assert(t1@ =~= (if t@.len() > 0 && (t@[0] == '-' || t@[0] == '*') {
        trim(t@.drop_first())
    } else {
        t@
    }));
    let n = leading_digits_exec(t1.as_slice());
    if n >= 1 && n < t1.len() && t1[n] == '.' {
        let rest = copy_range(t1.as_slice(), n + 1, t1.len());
        assert(rest@ =~= t1@.skip(n as int + 1));
        trim_chars(rest.as_slice())
    } else {
        t1
    }
}

fn strip_bullets_exec(t: &[char]) -> (r: Vec<char>)
    ensures
        r@ == strip_bullets(t@),
{
    let mut cur = copy_range(t, 0, t.len());
    assert(cur@ =~= t@);
    loop
        invariant
            strip_bullets(t@) == strip_bullets(cur@),
        decreases cur@.len(),
    {
        let next = strip_bullet_once_exec(cur.as_slice());
        if next.len() < cur.len() {
            cur = next;
        } else {
            return next;
        }
    }
}

/// The key of a lowercased notes line.
pub fn lowered_key(low: &[char]) -> (r: Vec<char>)
    ensures
        r@ == lowered_bullet_key(low@),
{
    let bold = chars_of("**");
    let empty = chars_of("");
    proof {
        reveal_strlit("**");
    }
    let plain = replace_chars(low, bold.as_slice(), empty.as_slice());
    let t = trim_chars(plain.as_slice());
    strip_bullets_exec(t.as_slice())
}

fn bullet_key_exec(line: &[char]) -> (r: Vec<char>)
    ensures
        r@ == bullet_key(line@),
        lowers_ascii(line@),
{
    let low = lowercase_chars(line);
    lowered_key(low.as_slice())
}

fn dedup_bullets_exec(ls: &Vec<Vec<char>>) -> (r: Vec<Vec<char>>)
    ensures
        views(r@) == dedup_bullets(views(ls@)),
        forall|k: int|
            0 <= k < ls@.len() && trim(ls@[k]@).len() > 0 ==> lowers_ascii(#[trigger] ls@[k]@),
{
    let ghost lv = views(ls@);
    let mut kept: Vec<Vec<char>> = Vec::new();
    let mut keys: Vec<Vec<char>> = Vec::new();
    let mut i: usize = 0;
    assert(lv.take(0) =~= Seq::<Seq<char>>::empty());
    assert(views(kept@) =~= Seq::<Seq<char>>::empty());
    assert(views(keys@) =~= Seq::<Seq<char>>::empty());
    while i < ls.len()
        invariant
            i <= ls@.len(),
            lv == views(ls@),
            (views(kept@), views(keys@)) == dedup_acc(lv.take(i as int)),
            forall|k: int|
                0 <= k < i && trim(ls@[k]@).len() > 0 ==> lowers_ascii(#[trigger] ls@[k]@),
        decreases ls@.len() - i,
    {
        assert(lv.take(i + 1).drop_last() =~= lv.take(i as int));
        assert(lv.take(i + 1).last() == ls@[i as int]@);
        if !is_blank(ls[i].as_slice()) {
            let key = bullet_key_exec(ls[i].as_slice());
            if !contains_seq(&keys, key.as_slice()) {
                let line = copy_range(ls[i].as_slice(), 0, ls[i].len());
                assert(line@ =~= ls@[i as int]@);
                let ghost before_kept = views(kept@);
                let ghost before_keys = views(keys@);
                kept.push(line);
                keys.push(key);
                assert(views(kept@) =~= before_kept.push(line@));
                assert(views(keys@) =~= before_keys.push(key@));
            }
        }
        i += 1;
    }
    assert(lv.take(ls@.len() as int) =~= lv);
    kept
}

/// The answer to show for a request, from what the model runner printed on
/// standard output and standard error, the prompt it was given, and the kind
/// of request.
pub fn clean_response(stdout: &str, stderr: &str, prompt: &str, task: TaskKind) -> (r: String)
    ensures
        r@ == cleaned_answer(stdout@, stderr@, prompt@, task),
        task == TaskKind::Notes ==> forall|k: int|
            0 <= k < shown_answer_lines(lines(answer_text(stdout@, stderr@, prompt@)), false).len()
                ==> lowers_ascii(
                #[trigger] shown_answer_lines(lines(answer_text(stdout@, stderr@, prompt@)), false)[k],
            ),
{
    let out = chars_of(stdout);
    let err = chars_of(stderr);
    let raw = if is_blank(out.as_slice()) {
        err
    } else {
        out
    };
    let all_lines = lines_of(raw.as_slice());
    let kept = without_log_lines_exec(&all_lines);
    let nl = chars_of("\n");
    let content = join_chars(&kept, nl.as_slice());
    let p = chars_of(prompt);
    let answer = answer_part_exec(content.as_slice(), p.as_slice());
    let answer_lines = lines_of(answer.as_slice());
    let code_like = task == TaskKind::Code || task == TaskKind::Fix;
    let shown = shown_answer_lines_exec(&answer_lines, code_like);
    let joined = if task == TaskKind::Notes {
        let unique = dedup_bullets_exec(&shown);
        proof {
            lemma_shown_lines_are_clean(views(answer_lines@), false);
            assert forall|k: int|
                0 <= k < views(shown@).len() implies lowers_ascii(#[trigger] views(shown@)[k]) by {
                assert(views(shown@)[k] == shown@[k]@);
            }
        }
        join_chars(&unique, nl.as_slice())
    } else {
        join_chars(&shown, nl.as_slice())
    };
    let t = trim_chars(joined.as_slice());
    string_of(t.as_slice())
}

} // verus!

verus! {

/// Every answer line that is shown is non-blank, is no markdown fence, holds
/// no response marker, and, for code, opens no explanation.
pub proof fn lemma_shown_lines_are_clean(ls: Seq<Seq<char>>, code_like: bool)
    ensures
        forall|i: int|
            0 <= i < shown_answer_lines(ls, code_like).len() ==> {
                let t = trim(#[trigger] shown_answer_lines(ls, code_like)[i]);
                &&& t.len() > 0
                &&& !is_fence(t)
                &&& !contains(t, response_marker())
                &&& (code_like ==> !is_explanation_header(t))
            },
    decreases ls.len(),
{
    if ls.len() > 0 {
        lemma_shown_lines_are_clean(ls.drop_first(), code_like);
        let rest = shown_answer_lines(ls.drop_first(), code_like);
        let lc = without_end_token(ls[0]);
        let r = shown_answer_lines(ls, code_like);
        assert forall|i: int| 0 <= i < r.len() implies {
            let t = trim(#[trigger] r[i]);
            &&& t.len() > 0
            &&& !is_fence(t)
            &&& !contains(t, response_marker())
            &&& (code_like ==> !is_explanation_header(t))
        } by {
            let t0 = trim(lc);
            if contains(t0, response_marker()) || is_fence(t0) || t0.len() == 0 {
                assert(r[i] == rest[i]);
            } else if code_like && is_explanation_header(t0) {
            } else {
                if i > 0 {
                    assert(r[i] == rest[i - 1]);
                }
            }
        }
    }
}

/// Among the notes lines kept, no two have the same key, none is blank, and
/// each is one of the input lines.
pub proof fn lemma_dedup_keeps_distinct(ls: Seq<Seq<char>>)
    ensures
        dedup_acc(ls).0.len() == dedup_acc(ls).1.len(),
        forall|i: int|
            0 <= i < dedup_acc(ls).0.len() ==> dedup_acc(ls).1[i] == bullet_key(
                #[trigger] dedup_acc(ls).0[i],
            ) && trim(dedup_acc(ls).0[i]).len() > 0 && ls.contains(dedup_acc(ls).0[i]),
        forall|i: int, j: int|
            0 <= i < j < dedup_acc(ls).1.len() ==> #[trigger] dedup_acc(ls).1[i]
                != #[trigger] dedup_acc(ls).1[j],
    decreases ls.len(),
{
    if ls.len() > 0 {
        let prev = ls.drop_last();
        lemma_dedup_keeps_distinct(prev);
        let (kept, keys) = dedup_acc(prev);
        let l = ls.last();
        assert forall|i: int| 0 <= i < kept.len() implies ls.contains(#[trigger] kept[i]) by {
            let j = choose|j: int| 0 <= j < prev.len() && prev[j] == kept[i];
            assert(ls[j] == kept[i]);
        }
        if !(trim(l).len() == 0 || keys.contains(bullet_key(l))) {
            assert(ls[ls.len() - 1] == l);
            let nk = keys.push(bullet_key(l));
            assert forall|i: int, j: int| 0 <= i < j < nk.len() implies #[trigger] nk[i]
                != #[trigger] nk[j] by {
                if j == nk.len() - 1 {
                    assert(keys[i] == nk[i]);
                    if keys[i] == bullet_key(l) {
                        assert(keys.contains(bullet_key(l)));
                    }
                }
            }
        }
    }
}

/// The notes lines shown are pairwise distinct in their keys.
pub proof fn lemma_notes_have_no_repeats(ls: Seq<Seq<char>>)
    ensures
        forall|i: int, j: int|
            0 <= i < j < dedup_bullets(ls).len() ==> bullet_key(#[trigger] dedup_bullets(ls)[i])
                != bullet_key(#[trigger] dedup_bullets(ls)[j]),
{
    lemma_dedup_keeps_distinct(ls);
    let (kept, keys) = dedup_acc(ls);
    assert forall|i: int, j: int| 0 <= i < j < kept.len() implies bullet_key(#[trigger] kept[i])
        != bullet_key(#[trigger] kept[j]) by {
        assert(keys[i] == bullet_key(kept[i]));
        assert(keys[j] == bullet_key(kept[j]));
    }
}

} // verus!

verus! {

proof fn lemma_shown_lines_no_newline(ls: Seq<Seq<char>>, code_like: bool)
    requires
        forall|i: int| 0 <= i < ls.len() ==> has_no_newline(#[trigger] ls[i]),
    ensures
        forall|i: int|
            0 <= i < shown_answer_lines(ls, code_like).len() ==> has_no_newline(
                #[trigger] shown_answer_lines(ls, code_like)[i],
            ),
    decreases ls.len(),
{
    if ls.len() > 0 {
        let rest_in = ls.drop_first();
        assert forall|i: int| 0 <= i < rest_in.len() implies has_no_newline(#[trigger] rest_in[i]) by {
            assert(rest_in[i] == ls[i + 1]);
        }
        lemma_shown_lines_no_newline(rest_in, code_like);
        assert(has_no_newline(ls[0]));
        reveal_strlit("");
        assert(has_no_newline(""@));
        lemma_replace_no_newline(ls[0], "[end of text]"@, ""@);
        let rest = shown_answer_lines(rest_in, code_like);
        let r = shown_answer_lines(ls, code_like);
        let lc = without_end_token(ls[0]);
        assert forall|i: int| 0 <= i < r.len() implies has_no_newline(#[trigger] r[i]) by {
            let t0 = trim(lc);
            if contains(t0, response_marker()) || is_fence(t0) || t0.len() == 0 {
                assert(r[i] == rest[i]);
            } else if code_like && is_explanation_header(t0) {
            } else {
                if i > 0 {
                    assert(r[i] == rest[i - 1]);
                }
            }
        }
    }
}

/// The answer shown is its own trim, and each of its lines, trimmed, is
/// non-blank, is no markdown fence and holds no response marker; no line
/// holds a response marker at all; for code and fix requests, no line opens
/// an explanation.
pub proof fn lemma_answer_is_clean(
    stdout: Seq<char>,
    stderr: Seq<char>,
    prompt: Seq<char>,
    task: TaskKind,
)
    ensures
        trim(cleaned_answer(stdout, stderr, prompt, task)) == cleaned_answer(
            stdout,
            stderr,
            prompt,
            task,
        ),
        forall|i: int|
            0 <= i < lines(cleaned_answer(stdout, stderr, prompt, task)).len() ==> {
                let t = trim(#[trigger] lines(cleaned_answer(stdout, stderr, prompt, task))[i]);
                &&& t.len() > 0
                &&& !is_fence(t)
                &&& !contains(t, response_marker())
                &&& ((task == TaskKind::Code || task == TaskKind::Fix) ==> !is_explanation_header(t))
            },
        forall|i: int|
            0 <= i < lines(cleaned_answer(stdout, stderr, prompt, task)).len() ==> !contains(
                #[trigger] lines(cleaned_answer(stdout, stderr, prompt, task))[i],
                response_marker(),
            ),
{
    let code_like = task == TaskKind::Code || task == TaskKind::Fix;
    let src = lines(answer_text(stdout, stderr, prompt));
    let shown = shown_answer_lines(src, code_like);
    let f = answer_lines(stdout, stderr, prompt, task);
    let s = cleaned_answer(stdout, stderr, prompt, task);
    lemma_trim_stable(join(f, "\n"@));
    lemma_lines_have_no_newline(answer_text(stdout, stderr, prompt));
    lemma_shown_lines_no_newline(src, code_like);
    lemma_shown_lines_are_clean(src, code_like);
    if task == TaskKind::Notes {
        lemma_dedup_keeps_distinct(shown);
    }
    // each kept line is a shown line
    assert forall|i: int| #![trigger f[i]] 0 <= i < f.len() implies exists|j: int|
        0 <= j < shown.len() && #[trigger] shown[j] == f[i] by {
        if task == TaskKind::Notes {
            assert(shown.contains(dedup_acc(shown).0[i]));
        } else {
            assert(shown[i] == f[i]);
        }
    }
    assert forall|i: int| 0 <= i < f.len() implies {
        let t = trim(#[trigger] f[i]);
        &&& has_no_newline(f[i])
        &&& t.len() > 0
        &&& !is_fence(t)
        &&& !contains(t, response_marker())
        &&& (code_like ==> !is_explanation_header(t))
    } by {
        let j = choose|j: int| 0 <= j < shown.len() && #[trigger] shown[j] == f[i];
        assert(has_no_newline(shown[j]));
        assert(trim(shown[j]).len() > 0);
    }
    reveal_strlit("\n");
    assert("\n"@ =~= seq!['\n']);
    if f.len() == 0 {
        assert(join(f, "\n"@) =~= Seq::<char>::empty());
        assert(trim_start(Seq::<char>::empty()) =~= Seq::<char>::empty());
        assert(s =~= Seq::<char>::empty());
        assert(lines_acc(s) == (Seq::<Seq<char>>::empty(), Seq::<char>::empty()));
    } else {
        assert forall|i: int| 0 <= i < f.len() implies has_no_newline(#[trigger] f[i]) by {}
        assert forall|i: int| 0 <= i < f.len() implies trim(#[trigger] f[i]).len() > 0 by {}
        lemma_trim_join_lines(f);
        assert forall|i: int| 0 <= i < lines(s).len() implies {
            let t = trim(#[trigger] lines(s)[i]);
            &&& t.len() > 0
            &&& !is_fence(t)
            &&& !contains(t, response_marker())
            &&& (code_like ==> !is_explanation_header(t))
        } by {
            assert(trim(lines(s)[i]) == trim(f[i]));
        }
        reveal_strlit("### RESPONSE:");
        assert forall|i: int| 0 <= i < lines(s).len() implies !contains(
            #[trigger] lines(s)[i],
            response_marker(),
        ) by {
            assert(trim(lines(s)[i]) == trim(f[i]));
            if contains(lines(s)[i], response_marker()) {
                lemma_contains_in_trim(lines(s)[i], response_marker());
            }
        }
    }
}

} // verus!

verus! {

/// The text after a marker or an echoed prompt loses its first line only
/// when that line is blank: the result is the text itself, or the text less
/// a first line of whitespace only and its line break. And a blank first line
/// is always dropped.
pub proof fn lemma_only_a_blank_first_line_is_dropped(rest: Seq<char>)
    ensures
        ({
            let r = drop_blank_first_line(rest);
            let n = rest.len() - r.len();
            ||| r == rest
            ||| (1 <= n && r == rest.skip(n) && rest[n - 1] == '\n' && has_no_newline(
                rest.take(n - 1),
            ) && all_whitespace(rest.take(n - 1)))
        }),
        forall|k: int|
            0 <= k < rest.len() && rest[k] == '\n' && has_no_newline(#[trigger] rest.take(k))
                && all_whitespace(rest.take(k)) ==> drop_blank_first_line(rest) == rest.skip(k + 1),
{
    let nl = seq!['\n'];
    lemma_find(rest, nl);
    match find(rest, nl) {
        Some(k) => {
            let first = rest.take(k);
            lemma_blank_iff_whitespace(first);
            assert(rest.subrange(k, k + 1) =~= nl);
            assert(rest[k] == '\n') by {
                assert(rest.subrange(k, k + 1)[0] == rest[k]);
            }
            assert(has_no_newline(first)) by {
                assert forall|m: int| 0 <= m < first.len() implies #[trigger] first[m] != '\n' by {
                    if first[m] == '\n' {
                        assert(rest.subrange(m, m + 1) =~= nl);
                        assert(matches_at(rest, nl, m));
                    }
                }
            }
            if trim(first).len() == 0 {
                assert(rest.len() - rest.skip(k + 1).len() == k + 1);
            }
            assert forall|j: int|
                0 <= j < rest.len() && rest[j] == '\n' && has_no_newline(#[trigger] rest.take(j))
                    && all_whitespace(rest.take(j)) implies drop_blank_first_line(rest) == rest.skip(
                j + 1,
            ) by {
                if j > k {
                    assert(rest.take(j)[k] == rest[k]);
                } else if j < k {
                    assert(first[j] == rest[j]);
                }
            }
        },
        None => {
            assert forall|j: int|
                0 <= j < rest.len() && rest[j] == '\n' && has_no_newline(#[trigger] rest.take(j))
                    && all_whitespace(rest.take(j)) implies drop_blank_first_line(rest) == rest.skip(
                j + 1,
            ) by {
                assert(rest.subrange(j, j + 1) =~= nl);
                assert(matches_at(rest, nl, j));
            }
        },
    }
}

} // verus!
