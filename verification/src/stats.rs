//! Local usage statistics: what is counted, and how a use changes the counts.
use vstd::prelude::*;
use crate::modes::TaskKind;
use crate::config::RadheConfig;
use crate::text::{
    append_chars, chars_eq, chars_of, decimal, decimal_chars, lemma_lex_asymmetric,
    lemma_lex_transitive, lex_less, lex_lt, lowercase, push_str,
    lowercase_chars, lowers_ascii, string_of,
};

verus! {

/// How often one subject pack was used.
pub struct PackCount {
    pub name: String,
    pub count: u64,
}

/// The usage counters.
pub struct RadheStats {
    pub total_commands: u64,
    pub explain_count: u64,
    pub code_count: u64,
    pub quiz_count: u64,
    pub notes_count: u64,
    pub summarize_count: u64,
    pub chat_count: u64,
    pub pack_usage: Vec<PackCount>,
}

/// How often the pack `name` was used: the counts of all entries with that
/// name added up.
pub open spec fn usage_of(entries: Seq<PackCount>, name: Seq<char>) -> nat
    decreases entries.len(),
{
    if entries.len() == 0 {
        0
    } else {
        usage_of(entries.drop_last(), name) + if entries.last().name@ == name {
            entries.last().count as nat
        } else {
            0
        }
    }
}

/// No two entries name the same pack.
pub open spec fn distinct_names(entries: Seq<PackCount>) -> bool {
    forall|i: int, j: int|
        0 <= i < j < entries.len() ==> (#[trigger] entries[i]).name@ != (#[trigger] entries[j]).name@
}

/// Whether usage statistics are kept: unless the configuration turns them off.
pub open spec fn stats_on(config: RadheConfig) -> bool {
    config.stats_enabled != Some(false)
}

pub fn stats_enabled(config: &RadheConfig) -> (b: bool)
    ensures
        b == stats_on(*config),
{
    match config.stats_enabled {
        Some(false) => false,
        _ => true,
    }
}

/// The counter that a request of the given kind raises, besides the total.
pub open spec fn task_counter(s: RadheStats, task: TaskKind) -> u64 {
    match task {
        TaskKind::Code => s.code_count,
        TaskKind::Explain => s.explain_count,
        TaskKind::Notes => s.notes_count,
        TaskKind::Quiz | TaskKind::QuizFile => s.quiz_count,
        TaskKind::Summarize => s.summarize_count,
        TaskKind::Chat => s.chat_count,
        _ => 0,
    }
}

/// Requests of this kind have a counter of their own.
pub open spec fn has_counter(task: TaskKind) -> bool {
    !(task == TaskKind::Fix || task == TaskKind::Prompt)
}

/// Everything but the total and the counter of `task` is unchanged.
pub open spec fn same_except(a: RadheStats, b: RadheStats, task: TaskKind) -> bool {
    &&& (task != TaskKind::Code ==> a.code_count == b.code_count)
    &&& (task != TaskKind::Explain ==> a.explain_count == b.explain_count)
    &&& (task != TaskKind::Notes ==> a.notes_count == b.notes_count)
    &&& (!(task == TaskKind::Quiz || task == TaskKind::QuizFile) ==> a.quiz_count == b.quiz_count)
    &&& (task != TaskKind::Summarize ==> a.summarize_count == b.summarize_count)
    &&& (task != TaskKind::Chat ==> a.chat_count == b.chat_count)
    &&& a.pack_usage@ == b.pack_usage@
}

impl RadheStats {
    /// Statistics with every count at zero.
    pub fn zero() -> (s: RadheStats)
        ensures
            s.total_commands == 0 && s.explain_count == 0 && s.code_count == 0 && s.quiz_count == 0
                && s.notes_count == 0 && s.summarize_count == 0 && s.chat_count == 0
                && s.pack_usage@.len() == 0,
    {
        RadheStats {
            total_commands: 0,
            explain_count: 0,
            code_count: 0,
            quiz_count: 0,
            notes_count: 0,
            summarize_count: 0,
            chat_count: 0,
            pack_usage: Vec::new(),
        }
    }

    /// Counts one request: the total rises by one, and so does the counter of
    /// its kind (quizzes on a topic and on a file share one); fixes and free
    /// questions have no counter of their own. A count already at its maximum
    /// is not wrapped: then nothing changes and the result is false.
    pub fn record_task(&mut self, task: TaskKind) -> (counted: bool)
        ensures
            counted == (old(self).total_commands < u64::MAX && task_counter(*old(self), task)
                < u64::MAX),
            counted ==> final(self).total_commands == old(self).total_commands + 1,
            counted && has_counter(task) ==> task_counter(*final(self), task) == task_counter(
                *old(self),
                task,
            ) + 1,
            counted ==> same_except(*old(self), *final(self), task),
            !counted ==> *final(self) == *old(self),
            distinct_names(old(self).pack_usage@) ==> distinct_names(final(self).pack_usage@),
    {
        let at_max = match task {
            TaskKind::Code => self.code_count == u64::MAX,
            TaskKind::Explain => self.explain_count == u64::MAX,
            TaskKind::Notes => self.notes_count == u64::MAX,
            TaskKind::Quiz | TaskKind::QuizFile => self.quiz_count == u64::MAX,
            TaskKind::Summarize => self.summarize_count == u64::MAX,
            TaskKind::Chat => self.chat_count == u64::MAX,
            _ => false,
        };
        if self.total_commands == u64::MAX || at_max {
            return false;
        }
        self.total_commands = self.total_commands + 1;
        match task {
            TaskKind::Code => self.code_count = self.code_count + 1,
            TaskKind::Explain => self.explain_count = self.explain_count + 1,
            TaskKind::Notes => self.notes_count = self.notes_count + 1,
            TaskKind::Quiz | TaskKind::QuizFile => self.quiz_count = self.quiz_count + 1,
            TaskKind::Summarize => self.summarize_count = self.summarize_count + 1,
            TaskKind::Chat => self.chat_count = self.chat_count + 1,
            _ => {},
        }
        true
    }
}

proof fn lemma_usage_split(entries: Seq<PackCount>, i: int, name: Seq<char>)
    requires
        0 <= i <= entries.len(),
    ensures
        usage_of(entries, name) == usage_of(entries.take(i), name) + usage_of(entries.skip(i), name),
    decreases entries.len() - i,
{
    if i == entries.len() {
        assert(entries.take(i) =~= entries);
        assert(entries.skip(i) =~= Seq::<PackCount>::empty());
    } else {
        lemma_usage_split(entries.drop_last(), if i < entries.len() { i } else { i - 1 }, name);
        assert(entries.drop_last().take(i) =~= entries.take(i));
        assert(entries.drop_last().skip(i) =~= entries.skip(i).drop_last());
        assert(entries.skip(i).last() == entries.last());
    }
}

proof fn lemma_usage_update(entries: Seq<PackCount>, i: int, e: PackCount, name: Seq<char>)
    requires
        0 <= i < entries.len(),
    ensures
        usage_of(entries.update(i, e), name) + (if entries[i].name@ == name {
            entries[i].count as nat
        } else {
            0
        }) == usage_of(entries, name) + (if e.name@ == name {
            e.count as nat
        } else {
            0
        }),
    decreases entries.len(),
{
    let u = entries.update(i, e);
    if i == entries.len() - 1 {
        assert(u.drop_last() =~= entries.drop_last());
    } else {
        assert(u.drop_last() =~= entries.drop_last().update(i, e));
        lemma_usage_update(entries.drop_last(), i, e, name);
    }
}

proof fn lemma_usage_absent(entries: Seq<PackCount>, name: Seq<char>)
    requires
        forall|k: int| 0 <= k < entries.len() ==> (#[trigger] entries[k]).name@ != name,
    ensures
        usage_of(entries, name) == 0,
    decreases entries.len(),
{
    if entries.len() > 0 {
        assert(entries[entries.len() - 1].name@ != name);
        lemma_usage_absent(entries.drop_last(), name);
    }
}

proof fn lemma_usage_monotone(entries: Seq<PackCount>, i: int, name: Seq<char>)
    requires
        0 <= i <= entries.len(),
    ensures
        usage_of(entries.take(i), name) <= usage_of(entries, name),
{
    lemma_usage_split(entries, i, name);
}

/// Whether the pack `name` was used fewer than `u64::MAX` times.
fn usage_below_max(entries: &Vec<PackCount>, name: &[char]) -> (b: bool)
    ensures
        b == (usage_of(entries@, name@) < u64::MAX),
{
    let mut sum: u64 = 0;
    let mut i: usize = 0;
    assert(entries@.take(0) =~= Seq::<PackCount>::empty());
    while i < entries.len()
        invariant
            i <= entries@.len(),
            sum == usage_of(entries@.take(i as int), name@),
            sum < u64::MAX,
        decreases entries@.len() - i,
    {
        assert(entries@.take(i + 1).drop_last() =~= entries@.take(i as int));
        let n = chars_of(entries[i].name.as_str());
        if chars_eq(n.as_slice(), name) {
            let c = entries[i].count;
            if c >= u64::MAX - sum {
                proof {
                    lemma_usage_monotone(entries@, i + 1, name@);
                }
                return false;
            }
            sum = sum + c;
        }
        i += 1;
    }
    assert(entries@.take(entries@.len() as int) =~= entries@);
    true
}

impl RadheStats {
    /// Counts one use of a subject pack: the total rises by one, and so does
    /// the usage of the pack, under its lowercased name; no other count
    /// changes. A count already at its maximum is not wrapped: then nothing
    /// changes and the result is false.
    pub fn record_pack(&mut self, pack: &str) -> (counted: bool)
        ensures
            counted == (old(self).total_commands < u64::MAX && usage_of(
                old(self).pack_usage@,
                lowercase(pack@),
            ) < u64::MAX),
            !counted ==> *final(self) == *old(self),
            counted ==> final(self).total_commands == old(self).total_commands + 1,
            counted ==> usage_of(final(self).pack_usage@, lowercase(pack@)) == usage_of(
                old(self).pack_usage@,
                lowercase(pack@),
            ) + 1,
            counted ==> forall|other: Seq<char>|
                other != lowercase(pack@) ==> #[trigger] usage_of(final(self).pack_usage@, other)
                    == usage_of(old(self).pack_usage@, other),
            counted ==> final(self).explain_count == old(self).explain_count,
            counted ==> final(self).code_count == old(self).code_count,
            counted ==> final(self).quiz_count == old(self).quiz_count,
            counted ==> final(self).notes_count == old(self).notes_count,
            counted ==> final(self).summarize_count == old(self).summarize_count,
            counted ==> final(self).chat_count == old(self).chat_count,
            distinct_names(old(self).pack_usage@) ==> distinct_names(final(self).pack_usage@),
            lowers_ascii(pack@),
    {
        let p = chars_of(pack);
        let low = lowercase_chars(p.as_slice());
        let ghost name = low@;
        let ghost before = self.pack_usage@;
        if self.total_commands == u64::MAX || !usage_below_max(&self.pack_usage, low.as_slice()) {
            return false;
        }
        self.total_commands = self.total_commands + 1;
        let mut i: usize = 0;
        while i < self.pack_usage.len()
            invariant
                i <= self.pack_usage@.len(),
                self.pack_usage@ == before,
                name == low@,
                name == lowercase(pack@),
                lowers_ascii(pack@),
                before == old(self).pack_usage@,
                usage_of(before, name) < u64::MAX,
                self.total_commands == old(self).total_commands + 1,
                self.explain_count == old(self).explain_count,
                self.code_count == old(self).code_count,
                self.quiz_count == old(self).quiz_count,
                self.notes_count == old(self).notes_count,
                self.summarize_count == old(self).summarize_count,
                self.chat_count == old(self).chat_count,
                forall|k: int| 0 <= k < i ==> (#[trigger] before[k]).name@ != name,
            decreases self.pack_usage@.len() - i,
        {
            let n = chars_of(self.pack_usage[i].name.as_str());
            if chars_eq(n.as_slice(), low.as_slice()) {
                proof {
                    lemma_usage_split(before, i as int, name);
                    lemma_usage_absent(before.take(i as int), name);
                    assert(before.take(i as int + 1).drop_last() =~= before.take(i as int));
                    lemma_usage_split(before, i as int + 1, name);
                    assert(usage_of(before.take(i as int + 1), name) == before[i as int].count);
                    assert(before[i as int].count <= usage_of(before, name));
                }
                let old_count = self.pack_usage[i].count;
                let entry = PackCount { name: string_of(low.as_slice()), count: old_count + 1 };
                let ghost e = entry;
                self.pack_usage.set(i, entry);
                proof {
                    assert(e.name@ == before[i as int].name@);
                    assert forall|a: int, b: int|
                        0 <= a < b < self.pack_usage@.len() && distinct_names(before) implies
                        (#[trigger] self.pack_usage@[a]).name@ != (#[trigger] self.pack_usage@[b]).name@ by {
                        assert(self.pack_usage@[a].name@ == before[a].name@);
                        assert(self.pack_usage@[b].name@ == before[b].name@);
                        assert(before[a].name@ != before[b].name@);
                    }
                    assert forall|other: Seq<char>| true implies #[trigger] usage_of(
                        self.pack_usage@,
                        other,
                    ) + (if before[i as int].name@ == other {
                        before[i as int].count as nat
                    } else {
                        0
                    }) == usage_of(before, other) + (if e.name@ == other {
                        e.count as nat
                    } else {
                        0
                    }) by {
                        lemma_usage_update(before, i as int, e, other);
                    }
                }
                return true;
            }
            i += 1;
        }
        let entry = PackCount { name: string_of(low.as_slice()), count: 1 };
        self.pack_usage.push(entry);
        proof {
            lemma_usage_absent(before, name);
            assert(self.pack_usage@.drop_last() =~= before);
            assert forall|a: int, b: int|
                0 <= a < b < self.pack_usage@.len() && distinct_names(before) implies
                (#[trigger] self.pack_usage@[a]).name@ != (#[trigger] self.pack_usage@[b]).name@ by {
                assert(self.pack_usage@[a] == before[a]);
                if b < before.len() {
                    assert(self.pack_usage@[b] == before[b]);
                    assert(before[a].name@ != before[b].name@);
                } else {
                    assert(before[a].name@ != name);
                }
            }
        }
        true
    }
}

} // verus!

verus! {

// ---------------------------------------------------------------------------
// The usage table
// ---------------------------------------------------------------------------

/// A pack's usage as plain values.
pub open spec fn entry_view(p: PackCount) -> (Seq<char>, u64) {
    (p.name@, p.count)
}

pub open spec fn entry_views(v: Seq<PackCount>) -> Seq<(Seq<char>, u64)> {
    v.map_values(|p: PackCount| entry_view(p))
}

/// Pack `a` is listed before pack `b`: it was used more often, or as often
/// and its name sorts first.
pub open spec fn ranks_before(a: (Seq<char>, u64), b: (Seq<char>, u64)) -> bool {
    a.1 > b.1 || (a.1 == b.1 && lex_lt(a.0, b.0))
}

/// No pack is listed after one it ranks before.
pub open spec fn ranked(v: Seq<(Seq<char>, u64)>) -> bool {
    forall|i: int, j: int|
        0 <= i < j < v.len() ==> !ranks_before(#[trigger] v[j], #[trigger] v[i])
}

proof fn lemma_ranks_before_order(a: (Seq<char>, u64), b: (Seq<char>, u64), c: (Seq<char>, u64))
    ensures
        ranks_before(a, b) ==> !ranks_before(b, a),
        ranks_before(a, b) && ranks_before(b, c) ==> ranks_before(a, c),
{
    lemma_lex_asymmetric(a.0, b.0);
    if ranks_before(a, b) && ranks_before(b, c) && a.1 == b.1 && b.1 == c.1 {
        lemma_lex_transitive(a.0, b.0, c.0);
    }
}

fn copy_entry(p: &PackCount) -> (r: PackCount)
    ensures
        entry_view(r) == entry_view(*p),
{
    PackCount { name: p.name.clone(), count: p.count }
}

/// The first place in a ranked list whose entry `x` ranks before.
fn insert_position(r: &Vec<PackCount>, x: &PackCount) -> (p: usize)
    ensures
        p <= r@.len(),
        forall|k: int| 0 <= k < p ==> !ranks_before(entry_view(*x), #[trigger] entry_views(r@)[k]),
        p < r@.len() ==> ranks_before(entry_view(*x), entry_views(r@)[p as int]),
{
    let ghost rv = entry_views(r@);
    let ghost xv = entry_view(*x);
    let xn = chars_of(x.name.as_str());
    let mut p: usize = 0;
    while p < r.len()
        invariant
            p <= r@.len(),
            rv == entry_views(r@),
            xv == entry_view(*x),
            xn@ == xv.0,
            forall|k: int| 0 <= k < p ==> !ranks_before(xv, #[trigger] rv[k]),
        decreases r@.len() - p,
    {
        let yn = chars_of(r[p].name.as_str());
        assert(rv[p as int] == entry_view(r@[p as int]));
        if x.count > r[p].count || (x.count == r[p].count && lex_less(xn.as_slice(), yn.as_slice())) {
            return p;
        }
        p += 1;
    }
    p
}

/// The packs in the order the usage table lists them: most used first, ties
/// by name.
pub fn ranked_packs(usage: &Vec<PackCount>) -> (r: Vec<PackCount>)
    ensures
        ranked(entry_views(r@)),
        entry_views(r@).to_multiset() == entry_views(usage@).to_multiset(),
{
    broadcast use vstd::seq_lib::to_multiset_build, vstd::seq_lib::to_multiset_insert;
    let ghost input = entry_views(usage@);
    let mut r: Vec<PackCount> = Vec::new();
    let mut i: usize = 0;
    assert(input.take(0) =~= Seq::<(Seq<char>, u64)>::empty());
    assert(entry_views(r@) =~= Seq::<(Seq<char>, u64)>::empty());
    while i < usage.len()
        invariant
            i <= usage@.len(),
            input == entry_views(usage@),
            ranked(entry_views(r@)),
            entry_views(r@).to_multiset() == input.take(i as int).to_multiset(),
        decreases usage@.len() - i,
    {
        let x = copy_entry(&usage[i]);
        let ghost xv = entry_view(x);
        let ghost rv = entry_views(r@);
        let p = insert_position(&r, &x);
        r.insert(p, x);
        proof {
            let after = entry_views(r@);
            assert(after =~= rv.insert(p as int, xv));
            assert forall|a: int, b: int| 0 <= a < b < after.len() implies !ranks_before(
                #[trigger] after[b],
                #[trigger] after[a],
            ) by {
                if a < p && b == p {
                } else if a < p && b > p {
                    assert(after[b] == rv[b - 1]);
                    assert(after[a] == rv[a]);
                } else if a == p {
                    assert(after[b] == rv[b - 1]);
                    lemma_ranks_before_order(after[b], xv, rv[p as int]);
                    if b - 1 > p {
                        lemma_ranks_before_order(rv[b - 1], xv, rv[p as int]);
                        lemma_ranks_before_order(rv[b - 1], rv[p as int], xv);
                    }
                } else if a > p {
                    assert(after[a] == rv[a - 1]);
                    assert(after[b] == rv[b - 1]);
                }
            }
            assert(input.take(i + 1) =~= input.take(i as int).push(input[i as int]));
            assert(input[i as int] == xv);
            vstd::seq_lib::to_multiset_insert(rv, p as int, xv);
            vstd::seq_lib::to_multiset_build(input.take(i as int), xv);
        }
        i += 1;
    }
    assert(input.take(usage@.len() as int) =~= input);
    r
}

} // verus!

verus! {

pub const STATS_TITLE: &'static str = "Radhe AI — Usage Stats";

pub const STATS_RULE: &'static str = "─────────────────────────────";

/// `s` padded with spaces on the right to `width` characters.
pub open spec fn padded(s: Seq<char>, width: nat) -> Seq<char> {
    if s.len() >= width {
        s
    } else {
        s + Seq::new((width - s.len()) as nat, |i: int| ' ')
    }
}

fn padded_exec(s: &str, width: usize) -> (r: Vec<char>)
    ensures
        r@ == padded(s@, width as nat),
{
    let mut r = chars_of(s);
    let n = r.len();
    if n < width {
        let mut k: usize = n;
        while k < width
            invariant
                n <= k <= width,
                n == s@.len(),
                r@ == s@ + Seq::new((k - n) as nat, |i: int| ' '),
            decreases width - k,
        {
            r.push(' ');
            assert(r@ =~= s@ + Seq::new((k + 1 - n) as nat, |i: int| ' '));
            k += 1;
        }
    }
    r
}

/// A labelled count line of the usage table.
pub open spec fn count_line(label: Seq<char>, n: u64) -> Seq<char> {
    label + decimal(n as nat)
}

/// A pack line of the usage table.
pub open spec fn pack_line(p: (Seq<char>, u64)) -> Seq<char> {
    "  "@ + padded(p.0, 8) + ": "@ + decimal(p.1 as nat)
}

/// The usage table, line by line: the title, a rule, the total and each
/// counter, then, if any pack was used, the packs in ranked order.
pub open spec fn report_matches(s: RadheStats, lines: Seq<Seq<char>>) -> bool {
    let head = seq![
        STATS_TITLE@,
        STATS_RULE@,
        count_line("Total commands run : "@, s.total_commands),
        count_line("Explains           : "@, s.explain_count),
        count_line("Code generations   : "@, s.code_count),
        count_line("Quizzes            : "@, s.quiz_count),
        count_line("Notes              : "@, s.notes_count),
        count_line("Summaries          : "@, s.summarize_count),
        count_line("Chats              : "@, s.chat_count),
    ];
    if s.pack_usage@.len() == 0 {
        lines == head
    } else {
        &&& lines.len() == head.len() + 1 + s.pack_usage@.len()
        &&& lines.take(head.len() as int) == head
        &&& lines[head.len() as int] == "Pack usage:"@
        &&& exists|order: Seq<(Seq<char>, u64)>|
            #![trigger order.to_multiset()]
            {
                &&& ranked(order)
                &&& order.to_multiset() == entry_views(s.pack_usage@).to_multiset()
                &&& order.len() == s.pack_usage@.len()
                &&& forall|k: int|
                    0 <= k < order.len() ==> lines[head.len() + 1 + k] == pack_line(
                        #[trigger] order[k],
                    )
            }
    }
}

fn count_line_exec(label: &str, n: u64) -> (r: String)
    ensures
        r@ == count_line(label@, n),
{
    let mut v = chars_of(label);
    let d = decimal_chars(n);
    append_chars(&mut v, d.as_slice());
    string_of(v.as_slice())
}

fn push_line(out: &mut Vec<String>, line: String)
    ensures
        string_views(final(out)@) == string_views(old(out)@).push(line@),
{
    out.push(line);
    assert(string_views(out@) =~= string_views(old(out)@).push(line@));
}

/// The usage table shown by `stats` and by `:stats` in the power shell.
pub fn stats_report(s: &RadheStats) -> (r: Vec<String>)
    ensures
        report_matches(*s, string_views(r@)),
{
    let mut out: Vec<String> = Vec::new();
    assert(string_views(out@) =~= Seq::<Seq<char>>::empty());
    push_line(&mut out, string_of(chars_of(STATS_TITLE).as_slice()));
    push_line(&mut out, string_of(chars_of(STATS_RULE).as_slice()));
    push_line(&mut out, count_line_exec("Total commands run : ", s.total_commands));
    push_line(&mut out, count_line_exec("Explains           : ", s.explain_count));
    push_line(&mut out, count_line_exec("Code generations   : ", s.code_count));
    push_line(&mut out, count_line_exec("Quizzes            : ", s.quiz_count));
    push_line(&mut out, count_line_exec("Notes              : ", s.notes_count));
    push_line(&mut out, count_line_exec("Summaries          : ", s.summarize_count));
    push_line(&mut out, count_line_exec("Chats              : ", s.chat_count));
    let ghost head = string_views(out@);
    assert(head =~= seq![
        STATS_TITLE@,
        STATS_RULE@,
        count_line("Total commands run : "@, s.total_commands),
        count_line("Explains           : "@, s.explain_count),
        count_line("Code generations   : "@, s.code_count),
        count_line("Quizzes            : "@, s.quiz_count),
        count_line("Notes              : "@, s.notes_count),
        count_line("Summaries          : "@, s.summarize_count),
        count_line("Chats              : "@, s.chat_count),
    ]);
    if s.pack_usage.len() == 0 {
        return out;
    }
    push_line(&mut out, string_of(chars_of("Pack usage:").as_slice()));
    let order = ranked_packs(&s.pack_usage);
    let ghost ov = entry_views(order@);
    proof {
        vstd::seq_lib::to_multiset_len(ov);
        vstd::seq_lib::to_multiset_len(entry_views(s.pack_usage@));
    }
    let mut k: usize = 0;
    while k < order.len()
        invariant
            k <= order@.len(),
            ov == entry_views(order@),
            string_views(out@).len() == 10 + k,
            string_views(out@).take(9) == head,
            string_views(out@)[9] == "Pack usage:"@,
            forall|m: int| 0 <= m < k ==> string_views(out@)[10 + m] == pack_line(#[trigger] ov[m]),
        decreases order@.len() - k,
    {
        let mut line = chars_of("  ");
        let name = padded_exec(order[k].name.as_str(), 8);
        append_chars(&mut line, name.as_slice());
        push_str(&mut line, ": ");
        let d = decimal_chars(order[k].count);
        append_chars(&mut line, d.as_slice());
        assert(ov[k as int] == entry_view(order@[k as int]));
        assert(line@ =~= pack_line(ov[k as int]));
        let ghost before = string_views(out@);
        push_line(&mut out, string_of(line.as_slice()));
        assert(string_views(out@).take(9) =~= before.take(9));
        k += 1;
    }
    proof {
        let lines = string_views(out@);
        assert(forall|m: int| 0 <= m < ov.len() ==> lines[9 + 1 + m] == pack_line(#[trigger] ov[m]));
    }
    out
}

pub open spec fn string_views(v: Seq<String>) -> Seq<Seq<char>> {
    v.map_values(|x: String| x@)
}

} // verus!
