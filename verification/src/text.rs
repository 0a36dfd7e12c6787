//! Character-level text primitives shared by the rest of the library.
use vstd::prelude::*;

verus! {

/// Appends one character to a `String` (`String::push`).
#[verifier::external_body]
pub(crate) fn push_char(s: &mut String, c: char)
    ensures
        final(s)@ == old(s)@.push(c),
{
    s.push(c)
}

/// The characters of a string slice, in order.
pub fn chars_of(s: &str) -> (v: Vec<char>)
    ensures
        v@ == s@,
{
    let mut v: Vec<char> = Vec::new();
    for c in it: s.chars()
        invariant
            v@ == it.seq().take(it.index() as int),
    {
        v.push(c);
    }
    v
}

/// A `String` holding exactly the given characters.
pub fn string_of(v: &[char]) -> (s: String)
    ensures
        s@ == v@,
{
    let mut s = String::new();
    let mut i: usize = 0;
    while i < v.len()
        invariant
            i <= v.len(),
            s@ == v@.take(i as int),
        decreases v.len() - i,
    {
        push_char(&mut s, v[i]);
        assert(v@.take(i as int).push(v@[i as int]) =~= v@.take(i + 1));
        i += 1;
    }
    assert(v@.take(v.len() as int) =~= v@);
    s
}

} // verus!

verus! {

// ---------------------------------------------------------------------------
// Whitespace and trimming
// ---------------------------------------------------------------------------

/// Unicode `White_Space`, the property that `char::is_whitespace` and
/// `str::trim` go by.
pub open spec fn is_whitespace(c: char) -> bool {
    let u = c as u32;
    (0x9 <= u && u <= 0xd) || u == 0x20 || u == 0x85 || u == 0xa0 || u == 0x1680 || (0x2000 <= u
        && u <= 0x200a) || u == 0x2028 || u == 0x2029 || u == 0x202f || u == 0x205f || u == 0x3000
}

pub fn is_whitespace_char(c: char) -> (b: bool)
    ensures
        b == is_whitespace(c),
{
    let u = c as u32;
    (0x9 <= u && u <= 0xd) || u == 0x20 || u == 0x85 || u == 0xa0 || u == 0x1680 || (0x2000 <= u
        && u <= 0x200a) || u == 0x2028 || u == 0x2029 || u == 0x202f || u == 0x205f || u == 0x3000
}

pub open spec fn is_ascii_digit(c: char) -> bool {
    '0' <= c && c <= '9'
}

/// `s` without its leading whitespace.
pub open spec fn trim_start(s: Seq<char>) -> Seq<char>
    decreases s.len(),
{
    if s.len() > 0 && is_whitespace(s[0]) {
        trim_start(s.drop_first())
    } else {
        s
    }
}

/// `s` without its trailing whitespace.
pub open spec fn trim_end(s: Seq<char>) -> Seq<char>
    decreases s.len(),
{
    if s.len() > 0 && is_whitespace(s.last()) {
        trim_end(s.drop_last())
    } else {
        s
    }
}

/// `s` without leading and trailing whitespace (`str::trim`).
pub open spec fn trim(s: Seq<char>) -> Seq<char> {
    trim_end(trim_start(s))
}

pub proof fn lemma_trim_start_skip(s: Seq<char>, i: int)
    requires
        0 <= i <= s.len(),
        forall|k: int| 0 <= k < i ==> is_whitespace(#[trigger] s[k]),
    ensures
        trim_start(s) == trim_start(s.skip(i)),
    decreases i,
{
    if i > 0 {
        assert(s.drop_first().skip(i - 1) =~= s.skip(i));
        lemma_trim_start_skip(s.drop_first(), i - 1);
    } else {
        assert(s.skip(0) =~= s);
    }
}

pub proof fn lemma_trim_end_take(s: Seq<char>, j: int)
    requires
        0 <= j <= s.len(),
        forall|k: int| j <= k < s.len() ==> is_whitespace(#[trigger] s[k]),
    ensures
        trim_end(s) == trim_end(s.take(j)),
    decreases s.len() - j,
{
    if j < s.len() {
        assert(s.drop_last().take(j) =~= s.take(j));
        lemma_trim_end_take(s.drop_last(), j);
    } else {
        assert(s.take(j) =~= s);
    }
}

/// A copy of `s[from..to]`.
pub fn copy_range(s: &[char], from: usize, to: usize) -> (r: Vec<char>)
    requires
        from <= to <= s@.len(),
    ensures
        r@ == s@.subrange(from as int, to as int),
{
    let mut r: Vec<char> = Vec::new();
    let mut i = from;
    while i < to
        invariant
            from <= i <= to <= s@.len(),
            r@ == s@.subrange(from as int, i as int),
        decreases to - i,
    {
        r.push(s[i]);
        assert(s@.subrange(from as int, i as int).push(s@[i as int]) =~= s@.subrange(
            from as int,
            i + 1,
        ));
        i += 1;
    }
    r
}

/// Index of the first character that is not whitespace (or the length).
fn leading_whitespace_end(s: &[char]) -> (i: usize)
    ensures
        i <= s@.len(),
        trim_start(s@) == s@.skip(i as int),
        i < s@.len() ==> !is_whitespace(s@[i as int]),
        forall|k: int| 0 <= k < i ==> is_whitespace(#[trigger] s@[k]),
{
    let mut i: usize = 0;
    while i < s.len() && is_whitespace_char(s[i])
        invariant
            i <= s@.len(),
            forall|k: int| 0 <= k < i ==> is_whitespace(#[trigger] s@[k]),
        decreases s@.len() - i,
    {
        i += 1;
    }
    proof {
        lemma_trim_start_skip(s@, i as int);
        let t = s@.skip(i as int);
        if t.len() > 0 {
            assert(t[0] == s@[i as int]);
        }
    }
    i
}

/// `trim` on characters.
pub fn trim_chars(s: &[char]) -> (r: Vec<char>)
    ensures
        r@ == trim(s@),
{
    let i = leading_whitespace_end(s);
    let mut j = s.len();
    while j > i && is_whitespace_char(s[j - 1])
        invariant
            i <= j <= s@.len(),
            forall|k: int| j <= k < s@.len() ==> is_whitespace(#[trigger] s@[k]),
        decreases j,
    {
        j -= 1;
    }
    proof {
        let t = s@.skip(i as int);
        let m = (j - i) as int;
        assert forall|k: int| m <= k < t.len() implies is_whitespace(#[trigger] t[k]) by {
            assert(t[k] == s@[k + i]);
        }
        lemma_trim_end_take(t, m);
        assert(t.take(m) =~= s@.subrange(i as int, j as int));
        let u = t.take(m);
        if u.len() > 0 {
            assert(u.last() == s@[j - 1]);
        }
    }
    copy_range(s, i, j)
}

/// Whether `s` is empty or whitespace only.
pub fn is_blank(s: &[char]) -> (b: bool)
    ensures
        b == (trim(s@).len() == 0),
{
    let t = trim_chars(s);
    t.len() == 0
}

// ---------------------------------------------------------------------------
// Prefixes and searching
// ---------------------------------------------------------------------------

pub open spec fn starts_with(s: Seq<char>, p: Seq<char>) -> bool {
    p.len() <= s.len() && s.take(p.len() as int) == p
}

pub open spec fn ends_with(s: Seq<char>, p: Seq<char>) -> bool {
    p.len() <= s.len() && s.skip(s.len() - p.len()) == p
}

/// `p` occurs in `s` at index `i`.
pub open spec fn matches_at(s: Seq<char>, p: Seq<char>, i: int) -> bool {
    0 <= i && i + p.len() <= s.len() && s.subrange(i, i + p.len()) == p
}

/// The first index at or after `i` at which `p` occurs in `s`.
pub open spec fn find_from(s: Seq<char>, p: Seq<char>, i: int) -> Option<int>
    decreases s.len() - i,
{
    if i < 0 || i + p.len() > s.len() {
        None
    } else if matches_at(s, p, i) {
        Some(i)
    } else {
        proof {
            if p.len() == 0 {
                assert(s.subrange(i, i + p.len()) =~= p);
            }
        }
        find_from(s, p, i + 1)
    }
}

/// The first index at which `p` occurs in `s` (`str::find`).
pub open spec fn find(s: Seq<char>, p: Seq<char>) -> Option<int> {
    find_from(s, p, 0)
}

pub open spec fn contains(s: Seq<char>, p: Seq<char>) -> bool {
    find(s, p) is Some
}

pub proof fn lemma_find_from(s: Seq<char>, p: Seq<char>, i: int)
    requires
        0 <= i,
    ensures
        find_from(s, p, i) matches Some(k) ==> i <= k && matches_at(s, p, k) && forall|m: int|
            i <= m < k ==> !#[trigger] matches_at(s, p, m),
        find_from(s, p, i) is None ==> forall|m: int| i <= m ==> !#[trigger] matches_at(s, p, m),
    decreases s.len() - i,
{
    if i + p.len() > s.len() {
    } else if matches_at(s, p, i) {
    } else {
        if p.len() == 0 {
            assert(s.subrange(i, i + p.len()) =~= p);
        }
        lemma_find_from(s, p, i + 1);
    }
}

pub proof fn lemma_find(s: Seq<char>, p: Seq<char>)
    ensures
        find(s, p) matches Some(k) ==> 0 <= k && k + p.len() <= s.len() && s.subrange(k, k + p.len())
            == p && forall|m: int| 0 <= m < k ==> !#[trigger] matches_at(s, p, m),
        find(s, p) is None ==> forall|m: int| !#[trigger] matches_at(s, p, m),
{
    lemma_find_from(s, p, 0);
}

/// Whether `p` occurs in `s` at index `i`.
pub fn matches_at_exec(s: &[char], p: &[char], i: usize) -> (b: bool)
    ensures
        b == matches_at(s@, p@, i as int),
{
    if i > s.len() || p.len() > s.len() - i {
        return false;
    }
    let mut k: usize = 0;
    while k < p.len()
        invariant
            i + p@.len() <= s@.len(),
            s@.len() == s.len(),
            k <= p@.len(),
            forall|m: int| 0 <= m < k ==> s@[i + m] == p@[m],
        decreases p@.len() - k,
    {
        if s[i + k] != p[k] {
            assert(s@.subrange(i as int, i + p@.len())[k as int] != p@[k as int]);
            return false;
        }
        k += 1;
    }
    assert(s@.subrange(i as int, i + p@.len()) =~= p@);
    true
}

pub fn starts_with_exec(s: &[char], p: &[char]) -> (b: bool)
    ensures
        b == starts_with(s@, p@),
{
    let b = matches_at_exec(s, p, 0);
    proof {
        if p@.len() <= s@.len() {
            assert(s@.subrange(0, p@.len() as int) =~= s@.take(p@.len() as int));
        }
    }
    b
}

/// The first index at which `p` occurs in `s`.
pub fn find_exec(s: &[char], p: &[char]) -> (r: Option<usize>)
    ensures
        r matches Some(k) ==> find(s@, p@) == Some(k as int),
        r is None ==> find(s@, p@) is None,
{
    if p.len() > s.len() {
        return None;
    }
    let last = s.len() - p.len();
    let mut i: usize = 0;
    loop
        invariant
            p@.len() <= s@.len(),
            last == s@.len() - p@.len(),
            i <= last,
            find(s@, p@) == find_from(s@, p@, i as int),
        decreases last - i,
    {
        if matches_at_exec(s, p, i) {
            return Some(i);
        }
        if i == last {
            assert(find_from(s@, p@, i + 1) is None);
            return None;
        }
        i += 1;
    }
}

pub fn contains_exec(s: &[char], p: &[char]) -> (b: bool)
    ensures
        b == contains(s@, p@),
{
    find_exec(s, p).is_some()
}

} // verus!

verus! {

/// Appends the characters of `t` to `r`.
pub fn append_chars(r: &mut Vec<char>, t: &[char])
    ensures
        final(r)@ == old(r)@ + t@,
{
    let ghost start = r@;
    let mut k: usize = 0;
    while k < t.len()
        invariant
            k <= t@.len(),
            r@ == start + t@.take(k as int),
        decreases t@.len() - k,
    {
        r.push(t[k]);
        assert(start + t@.take(k + 1) =~= (start + t@.take(k as int)).push(t@[k as int]));
        k += 1;
    }
    assert(t@.take(t@.len() as int) =~= t@);
}

// ---------------------------------------------------------------------------
// Replacement
// ---------------------------------------------------------------------------

/// `s` with every non-overlapping occurrence of `f`, scanned from the left,
/// replaced by `t` (`str::replace`, for a non-empty pattern).
pub open spec fn replace(s: Seq<char>, f: Seq<char>, t: Seq<char>) -> Seq<char>
    decreases s.len(),
{
    if s.len() == 0 || f.len() == 0 {
        s
    } else if starts_with(s, f) {
        t + replace(s.skip(f.len() as int), f, t)
    } else {
        seq![s[0]] + replace(s.drop_first(), f, t)
    }
}

pub proof fn lemma_starts_with_skip(s: Seq<char>, f: Seq<char>, i: int)
    requires
        0 <= i <= s.len(),
    ensures
        starts_with(s.skip(i), f) == matches_at(s, f, i),
{
    if f.len() <= s.len() - i {
        assert(s.skip(i).take(f.len() as int) =~= s.subrange(i, i + f.len()));
    }
}

pub fn replace_chars(s: &[char], f: &[char], t: &[char]) -> (r: Vec<char>)
    requires
        f@.len() > 0,
    ensures
        r@ == replace(s@, f@, t@),
{
    let mut r: Vec<char> = Vec::new();
    let mut i: usize = 0;
    assert(s@.skip(0) =~= s@);
    while i < s.len()
        invariant
            f@.len() > 0,
            i <= s@.len(),
            replace(s@, f@, t@) == r@ + replace(s@.skip(i as int), f@, t@),
        decreases s@.len() - i,
    {
        let ghost rest = s@.skip(i as int);
        proof {
            lemma_starts_with_skip(s@, f@, i as int);
        }
        if matches_at_exec(s, f, i) {
            append_chars(&mut r, t);
            assert(rest.skip(f@.len() as int) =~= s@.skip(i + f@.len()));
            i += f.len();
        } else {
            r.push(s[i]);
            assert(rest.drop_first() =~= s@.skip(i + 1));
            assert(r@ + replace(s@.skip(i + 1), f@, t@) =~= (r@.drop_last() + (seq![rest[0]]
                + replace(rest.drop_first(), f@, t@))));
            i += 1;
        }
    }
    assert(r@ + replace(s@.skip(i as int), f@, t@) =~= r@);
    r
}

// ---------------------------------------------------------------------------
// Lines and joining
// ---------------------------------------------------------------------------

/// Drops one trailing carriage return.
pub open spec fn strip_cr(l: Seq<char>) -> Seq<char> {
    if l.len() > 0 && l.last() == '\r' {
        l.drop_last()
    } else {
        l
    }
}

/// The lines completed so far, and the pending partial line, after reading `s`.
pub open spec fn lines_acc(s: Seq<char>) -> (Seq<Seq<char>>, Seq<char>)
    decreases s.len(),
{
    if s.len() == 0 {
        (seq![], seq![])
    } else {
        let (done, cur) = lines_acc(s.drop_last());
        if s.last() == '\n' {
            (done.push(strip_cr(cur)), seq![])
        } else {
            (done, cur.push(s.last()))
        }
    }
}

/// The lines of `s` (`str::lines`): split at `\n`, a `\r` right before a
/// `\n` dropped, and no empty last line after a final `\n`.
pub open spec fn lines(s: Seq<char>) -> Seq<Seq<char>> {
    let (done, cur) = lines_acc(s);
    if cur.len() == 0 {
        done
    } else {
        done.push(cur)
    }
}

/// The views of a sequence of character vectors.
pub open spec fn views(v: Seq<Vec<char>>) -> Seq<Seq<char>> {
    v.map_values(|x: Vec<char>| x@)
}

pub fn lines_of(s: &[char]) -> (r: Vec<Vec<char>>)
    ensures
        views(r@) == lines(s@),
{
    let mut done: Vec<Vec<char>> = Vec::new();
    let mut cur: Vec<char> = Vec::new();
    let mut i: usize = 0;
    assert(s@.take(0) =~= Seq::<char>::empty());
    assert(views(done@) =~= Seq::<Seq<char>>::empty());
    while i < s.len()
        invariant
            i <= s@.len(),
            (views(done@), cur@) == lines_acc(s@.take(i as int)),
        decreases s@.len() - i,
    {
        assert(s@.take(i + 1).drop_last() =~= s@.take(i as int));
        if s[i] == '\n' {
            if cur.len() > 0 && cur[cur.len() - 1] == '\r' {
                cur.pop();
            }
            let c = cur;
            let ghost old_done = views(done@);
            done.push(c);
            assert(views(done@) =~= old_done.push(c@));
            cur = Vec::new();
        } else {
            cur.push(s[i]);
        }
        i += 1;
    }
    assert(s@.take(s@.len() as int) =~= s@);
    if cur.len() > 0 {
        let ghost old_done = views(done@);
        let c = cur;
        done.push(c);
        assert(views(done@) =~= old_done.push(c@));
    }
    done
}

/// The pieces of `ls` with `sep` between each two (`[T]::join`).
pub open spec fn join(ls: Seq<Seq<char>>, sep: Seq<char>) -> Seq<char>
    decreases ls.len(),
{
    if ls.len() == 0 {
        seq![]
    } else if ls.len() == 1 {
        ls[0]
    } else {
        join(ls.drop_last(), sep) + sep + ls.last()
    }
}

pub fn join_chars(ls: &Vec<Vec<char>>, sep: &[char]) -> (r: Vec<char>)
    ensures
        r@ == join(views(ls@), sep@),
{
    let mut r: Vec<char> = Vec::new();
    let mut i: usize = 0;
    assert(views(ls@).take(0) =~= Seq::<Seq<char>>::empty());
    while i < ls.len()
        invariant
            i <= ls@.len(),
            r@ == join(views(ls@).take(i as int), sep@),
        decreases ls@.len() - i,
    {
        assert(views(ls@).take(i + 1).drop_last() =~= views(ls@).take(i as int));
        if i > 0 {
            append_chars(&mut r, sep);
        } else {
            assert(r@ =~= Seq::<char>::empty());
        }
        append_chars(&mut r, ls[i].as_slice());
        assert(views(ls@).take(i + 1).last() == ls@[i as int]@);
        i += 1;
    }
    assert(views(ls@).take(ls@.len() as int) =~= views(ls@));
    r
}

// ---------------------------------------------------------------------------
// Whitespace-separated words
// ---------------------------------------------------------------------------

pub open spec fn words_acc(s: Seq<char>) -> (Seq<Seq<char>>, Seq<char>)
    decreases s.len(),
{
    if s.len() == 0 {
        (seq![], seq![])
    } else {
        let (done, cur) = words_acc(s.drop_last());
        if is_whitespace(s.last()) {
            if cur.len() > 0 {
                (done.push(cur), seq![])
            } else {
                (done, seq![])
            }
        } else {
            (done, cur.push(s.last()))
        }
    }
}

/// The maximal runs of non-whitespace characters (`str::split_whitespace`).
pub open spec fn words(s: Seq<char>) -> Seq<Seq<char>> {
    let (done, cur) = words_acc(s);
    if cur.len() == 0 {
        done
    } else {
        done.push(cur)
    }
}

pub fn words_of(s: &[char]) -> (r: Vec<Vec<char>>)
    ensures
        views(r@) == words(s@),
{
    let mut done: Vec<Vec<char>> = Vec::new();
    let mut cur: Vec<char> = Vec::new();
    let mut i: usize = 0;
    assert(s@.take(0) =~= Seq::<char>::empty());
    assert(views(done@) =~= Seq::<Seq<char>>::empty());
    while i < s.len()
        invariant
            i <= s@.len(),
            (views(done@), cur@) == words_acc(s@.take(i as int)),
        decreases s@.len() - i,
    {
        assert(s@.take(i + 1).drop_last() =~= s@.take(i as int));
        if is_whitespace_char(s[i]) {
            if cur.len() > 0 {
                let c = cur;
                let ghost old_done = views(done@);
                done.push(c);
                assert(views(done@) =~= old_done.push(c@));
            }
            cur = Vec::new();
        } else {
            cur.push(s[i]);
        }
        i += 1;
    }
    assert(s@.take(s@.len() as int) =~= s@);
    if cur.len() > 0 {
        let ghost old_done = views(done@);
        let c = cur;
        done.push(c);
        assert(views(done@) =~= old_done.push(c@));
    }
    done
}

// ---------------------------------------------------------------------------
// Unicode case mapping and classes from std
// ---------------------------------------------------------------------------

/// What `str::to_lowercase` returns for a string.
pub uninterp spec fn lowercase(s: Seq<char>) -> Seq<char>;

/// Whether every character is ASCII.
pub open spec fn is_ascii_text(s: Seq<char>) -> bool {
    forall|i: int| 0 <= i < s.len() ==> (#[trigger] s[i] as u32) < 128
}

/// An ASCII letter `A`..`Z` turned into `a`..`z`; any other character as it is.
pub open spec fn ascii_lower_char(c: char) -> char {
    if 'A' <= c && c <= 'Z' {
        ((c as u32) + 32) as char
    } else {
        c
    }
}

/// An ASCII letter `a`..`z` turned into `A`..`Z`; any other character as it is.
pub open spec fn ascii_upper_char(c: char) -> char {
    if 'a' <= c && c <= 'z' {
        ((c as u32) - 32) as char
    } else {
        c
    }
}

/// `ascii_lower_char` applied to each character.
pub open spec fn ascii_lower(s: Seq<char>) -> Seq<char> {
    s.map_values(|c: char| ascii_lower_char(c))
}

/// An ASCII letter or digit.
pub open spec fn is_ascii_alphanumeric(c: char) -> bool {
    ('a' <= c && c <= 'z') || ('A' <= c && c <= 'Z') || ('0' <= c && c <= '9')
}

/// Calls `str::to_lowercase`. The contract names the result (`lowercase`, a
/// function of the characters of `s`) and states one short fact of it: on
/// ASCII text, Unicode's lowercase mapping turns `A`..`Z` into `a`..`z` and
/// keeps every other character. Unicode's case tables beyond ASCII, and the
/// context rule for a final sigma, are left unstated.
#[verifier::external_body]
pub(crate) fn to_lowercase(s: &str) -> (r: String)
    ensures
        r@ == lowercase(s@),
        is_ascii_text(s@) ==> r@ == ascii_lower(s@),
{
    s.to_lowercase()
}

/// What is known of `lowercase` at `s`: on ASCII text it lowers `A`..`Z`
/// and keeps every other character.
pub open spec fn lowers_ascii(s: Seq<char>) -> bool {
    is_ascii_text(s) ==> lowercase(s) == ascii_lower(s)
}

/// What is known of `alphanumeric` at `c`: among ASCII characters, exactly
/// the letters and digits.
pub open spec fn alnum_known(c: char) -> bool {
    (c as u32) < 128 ==> alphanumeric(c) == is_ascii_alphanumeric(c)
}

/// What is known of `uppercase` at `c`: an ASCII character maps to the one
/// character `ascii_upper_char` gives.
pub open spec fn upper_known(c: char) -> bool {
    (c as u32) < 128 ==> uppercase(c) == seq![ascii_upper_char(c)]
}

/// `lowercase` on characters.
pub fn lowercase_chars(s: &[char]) -> (r: Vec<char>)
    ensures
        r@ == lowercase(s@),
        lowers_ascii(s@),
{
    let st = string_of(s);
    let low = to_lowercase(st.as_str());
    chars_of(low.as_str())
}

/// Whether `char::is_alphanumeric` holds of a character.
pub uninterp spec fn alphanumeric(c: char) -> bool;

/// Calls `char::is_alphanumeric`. The contract names the result (Unicode's
/// `Alphabetic` and `Numeric` classes) and states one short fact of it: among
/// ASCII characters, exactly the letters and the digits are alphanumeric.
/// Beyond ASCII it states nothing.
#[verifier::external_body]
pub(crate) fn is_alphanumeric(c: char) -> (b: bool)
    ensures
        b == alphanumeric(c),
        (c as u32) < 128 ==> b == is_ascii_alphanumeric(c),
{
    c.is_alphanumeric()
}

/// What `char::to_uppercase` yields for a character.
pub uninterp spec fn uppercase(c: char) -> Seq<char>;

/// Calls `char::to_uppercase` and collects what it yields. The contract names
/// the result and states one short fact of it: an ASCII character maps to
/// the one character `ascii_upper_char` gives (`a`..`z` to `A`..`Z`, any
/// other ASCII character to itself). Beyond ASCII it states nothing.
#[verifier::external_body]
pub(crate) fn to_uppercase(c: char) -> (r: String)
    ensures
        r@ == uppercase(c),
        (c as u32) < 128 ==> r@ == seq![ascii_upper_char(c)],
{
    c.to_uppercase().collect()
}

} // verus!

verus! {

/// `trim_start` on characters.
pub fn trim_start_chars(s: &[char]) -> (r: Vec<char>)
    ensures
        r@ == trim_start(s@),
{
    let i = leading_whitespace_end(s);
    let r = copy_range(s, i, s.len());
    assert(s@.subrange(i as int, s@.len() as int) =~= s@.skip(i as int));
    r
}

} // verus!

verus! {

/// Whether two character sequences are equal.
pub fn chars_eq(a: &[char], b: &[char]) -> (r: bool)
    ensures
        r == (a@ == b@),
{
    if a.len() != b.len() {
        return false;
    }
    let mut i: usize = 0;
    while i < a.len()
        invariant
            a@.len() == b@.len(),
            i <= a@.len(),
            forall|k: int| 0 <= k < i ==> a@[k] == b@[k],
        decreases a@.len() - i,
    {
        if a[i] != b[i] {
            return false;
        }
        i += 1;
    }
    assert(a@ =~= b@);
    true
}

/// Whether two strings hold the same characters.
pub fn same_text(a: &str, b: &str) -> (r: bool)
    ensures
        r == (a@ == b@),
{
    let x = chars_of(a);
    let y = chars_of(b);
    chars_eq(x.as_slice(), y.as_slice())
}

/// Whether `v` holds a sequence equal to `x`.
pub fn contains_seq(v: &Vec<Vec<char>>, x: &[char]) -> (r: bool)
    ensures
        r == views(v@).contains(x@),
{
    let mut i: usize = 0;
    while i < v.len()
        invariant
            i <= v@.len(),
            forall|k: int| 0 <= k < i ==> views(v@)[k] != x@,
        decreases v@.len() - i,
    {
        if chars_eq(v[i].as_slice(), x) {
            assert(views(v@)[i as int] == x@);
            return true;
        }
        i += 1;
    }
    proof {
        if views(v@).contains(x@) {
            let k = choose|k: int| 0 <= k < views(v@).len() && views(v@)[k] == x@;
            assert(views(v@)[k] != x@);
        }
    }
    false
}

} // verus!

verus! {

/// Appends the characters of `s` to `r`.
pub fn push_str(r: &mut Vec<char>, s: &str)
    ensures
        final(r)@ == old(r)@ + s@,
{
    let v = chars_of(s);
    append_chars(r, v.as_slice());
}

/// The decimal digit for `d` (`0 <= d < 10`).
pub open spec fn digit_char(d: nat) -> char {
    if d == 0 {
        '0'
    } else if d == 1 {
        '1'
    } else if d == 2 {
        '2'
    } else if d == 3 {
        '3'
    } else if d == 4 {
        '4'
    } else if d == 5 {
        '5'
    } else if d == 6 {
        '6'
    } else if d == 7 {
        '7'
    } else if d == 8 {
        '8'
    } else {
        '9'
    }
}

/// The decimal numeral of `n`, without leading zeros.
pub open spec fn decimal(n: nat) -> Seq<char>
    decreases n,
{
    if n < 10 {
        seq![digit_char(n)]
    } else {
        decimal(n / 10).push(digit_char(n % 10))
    }
}

fn digit_char_exec(d: u64) -> (c: char)
    requires
        d < 10,
    ensures
        c == digit_char(d as nat),
{
    if d == 0 {
        '0'
    } else if d == 1 {
        '1'
    } else if d == 2 {
        '2'
    } else if d == 3 {
        '3'
    } else if d == 4 {
        '4'
    } else if d == 5 {
        '5'
    } else if d == 6 {
        '6'
    } else if d == 7 {
        '7'
    } else if d == 8 {
        '8'
    } else {
        '9'
    }
}

/// The decimal numeral of `n`.
pub fn decimal_chars(n: u64) -> (r: Vec<char>)
    ensures
        r@ == decimal(n as nat),
    decreases n,
{
    if n < 10 {
        let r = vec![digit_char_exec(n)];
        assert(r@ =~= seq![digit_char(n as nat)]);
        r
    } else {
        let mut r = decimal_chars(n / 10);
        r.push(digit_char_exec(n % 10));
        r
    }
}

} // verus!

verus! {

// ---------------------------------------------------------------------------
// Facts about lines
// ---------------------------------------------------------------------------

/// Each line followed by a line break.
pub open spec fn terminated(ls: Seq<Seq<char>>) -> Seq<char>
    decreases ls.len(),
{
    if ls.len() == 0 {
        seq![]
    } else {
        terminated(ls.drop_last()) + ls.last() + seq!['\n']
    }
}

pub open spec fn has_no_newline(l: Seq<char>) -> bool {
    forall|k: int| 0 <= k < l.len() ==> #[trigger] l[k] != '\n'
}

/// Joining non-empty lines with line breaks and adding a final one ends each
/// line with a line break.
pub proof fn lemma_join_terminated(ls: Seq<Seq<char>>)
    requires
        ls.len() >= 1,
    ensures
        join(ls, seq!['\n']) + seq!['\n'] == terminated(ls),
    decreases ls.len(),
{
    if ls.len() == 1 {
        assert(ls.drop_last() =~= Seq::<Seq<char>>::empty());
        assert(terminated(ls.drop_last()) =~= Seq::<char>::empty());
        assert(join(ls, seq!['\n']) + seq!['\n'] =~= terminated(ls));
    } else {
        lemma_join_terminated(ls.drop_last());
        assert(join(ls, seq!['\n']) + seq!['\n'] =~= (join(ls.drop_last(), seq!['\n']) + seq![
            '\n',
        ]) + ls.last() + seq!['\n']);
    }
}

pub proof fn lemma_lines_acc_no_newline(l: Seq<char>)
    requires
        has_no_newline(l),
    ensures
        lines_acc(l) == (Seq::<Seq<char>>::empty(), l),
    decreases l.len(),
{
    if l.len() > 0 {
        assert(l[l.len() - 1] != '\n');
        assert forall|k: int| 0 <= k < l.drop_last().len() implies #[trigger] l.drop_last()[k]
            != '\n' by {
            assert(l.drop_last()[k] == l[k]);
        }
        lemma_lines_acc_no_newline(l.drop_last());
        assert(l.drop_last().push(l.last()) =~= l);
    } else {
        assert(l =~= Seq::<char>::empty());
    }
}

pub proof fn lemma_lines_acc_append(a: Seq<char>, b: Seq<char>)
    requires
        lines_acc(a).1.len() == 0,
    ensures
        lines_acc(a + b) == (lines_acc(a).0 + lines_acc(b).0, lines_acc(b).1),
    decreases b.len(),
{
    if b.len() == 0 {
        assert(a + b =~= a);
        assert(lines_acc(a).0 + lines_acc(b).0 =~= lines_acc(a).0);
        assert(lines_acc(a).1 =~= lines_acc(b).1);
    } else {
        assert((a + b).drop_last() =~= a + b.drop_last());
        assert((a + b).last() == b.last());
        lemma_lines_acc_append(a, b.drop_last());
        let (d, c) = lines_acc(b.drop_last());
        if b.last() == '\n' {
            assert(lines_acc(a).0 + d.push(strip_cr(c)) =~= (lines_acc(a).0 + d).push(strip_cr(c)));
        }
    }
}

/// Reading back lines that were written one per line gives them again, less
/// a carriage return at the end of a line.
pub proof fn lemma_lines_terminated(ls: Seq<Seq<char>>)
    requires
        forall|i: int| 0 <= i < ls.len() ==> has_no_newline(#[trigger] ls[i]),
    ensures
        lines_acc(terminated(ls)) == (ls.map_values(|l: Seq<char>| strip_cr(l)), Seq::<char>::empty()),
        lines(terminated(ls)) == ls.map_values(|l: Seq<char>| strip_cr(l)),
    decreases ls.len(),
{
    if ls.len() == 0 {
        assert(ls.map_values(|l: Seq<char>| strip_cr(l)) =~= Seq::<Seq<char>>::empty());
    } else {
        let dl = ls.drop_last();
        assert forall|i: int| 0 <= i < dl.len() implies has_no_newline(#[trigger] dl[i]) by {
            assert(dl[i] == ls[i]);
        }
        lemma_lines_terminated(dl);
        let last = ls.last();
        assert(has_no_newline(ls[ls.len() - 1]));
        let b = last + seq!['\n'];
        assert(terminated(ls) =~= terminated(dl) + b);
        lemma_lines_acc_append(terminated(dl), b);
        lemma_lines_acc_no_newline(last);
        assert(b.drop_last() =~= last);
        assert(lines_acc(b) == (seq![strip_cr(last)], Seq::<char>::empty()));
        assert(dl.map_values(|l: Seq<char>| strip_cr(l)) + seq![strip_cr(last)] =~= ls.map_values(
            |l: Seq<char>| strip_cr(l),
        ));
    }
}

/// No line of a text holds a line break.
pub proof fn lemma_lines_have_no_newline(s: Seq<char>)
    ensures
        forall|i: int| 0 <= i < lines(s).len() ==> has_no_newline(#[trigger] lines(s)[i]),
        forall|i: int| 0 <= i < lines_acc(s).0.len() ==> has_no_newline(#[trigger] lines_acc(s).0[i]),
        has_no_newline(lines_acc(s).1),
    decreases s.len(),
{
    if s.len() > 0 {
        lemma_lines_have_no_newline(s.drop_last());
        let (d, c) = lines_acc(s.drop_last());
        if s.last() == '\n' {
            assert(has_no_newline(strip_cr(c))) by {
                if c.len() > 0 && c.last() == '\r' {
                    assert forall|k: int| 0 <= k < c.drop_last().len() implies #[trigger] c.drop_last()[k]
                        != '\n' by {
                        assert(c.drop_last()[k] == c[k]);
                    }
                }
            }
            assert forall|i: int| 0 <= i < d.push(strip_cr(c)).len() implies has_no_newline(
                #[trigger] d.push(strip_cr(c))[i],
            ) by {
                if i < d.len() {
                    assert(d.push(strip_cr(c))[i] == d[i]);
                }
            }
        } else {
            assert forall|k: int| 0 <= k < c.push(s.last()).len() implies #[trigger] c.push(
                s.last(),
            )[k] != '\n' by {
                if k < c.len() {
                    assert(c.push(s.last())[k] == c[k]);
                }
            }
        }
    }
    let (d, c) = lines_acc(s);
    if c.len() > 0 {
        assert forall|i: int| 0 <= i < d.push(c).len() implies has_no_newline(#[trigger] d.push(c)[i]) by {
            if i < d.len() {
                assert(d.push(c)[i] == d[i]);
            }
        }
    }
}

/// A match found in a text is seen by `find`.
pub proof fn lemma_match_found(s: Seq<char>, p: Seq<char>, i: int)
    requires
        matches_at(s, p, i),
    ensures
        contains(s, p),
{
    lemma_find(s, p);
}

} // verus!

verus! {

proof fn lemma_words_acc_grows(s: Seq<char>)
    ensures
        words_acc(s).0.len() >= 0,
        s.len() > 0 && !is_whitespace(s[0]) ==> words_acc(s).0.len() > 0 || words_acc(s).1.len() > 0,
    decreases s.len(),
{
    if s.len() > 1 {
        lemma_words_acc_grows(s.drop_last());
        assert(s.drop_last()[0] == s[0]);
    } else if s.len() == 1 {
        assert(s.drop_last() =~= Seq::<char>::empty());
    }
}

/// A text that starts with a non-whitespace character has a word.
pub proof fn lemma_words_nonempty(t: Seq<char>)
    requires
        t.len() > 0,
        !is_whitespace(t[0]),
    ensures
        words(t).len() > 0,
{
    lemma_words_acc_grows(t);
}

} // verus!

verus! {

// ---------------------------------------------------------------------------
// The order of strings
// ---------------------------------------------------------------------------

/// `a` sorts strictly before `b`, comparing characters by code point (the
/// order of `String`, since UTF-8 keeps the order of code points).
pub open spec fn lex_lt(a: Seq<char>, b: Seq<char>) -> bool
    decreases a.len(),
{
    if a.len() == 0 {
        b.len() > 0
    } else if b.len() == 0 {
        false
    } else if a[0] < b[0] {
        true
    } else if a[0] == b[0] {
        lex_lt(a.drop_first(), b.drop_first())
    } else {
        false
    }
}

pub proof fn lemma_lex_irreflexive(a: Seq<char>)
    ensures
        !lex_lt(a, a),
    decreases a.len(),
{
    if a.len() > 0 {
        lemma_lex_irreflexive(a.drop_first());
    }
}

pub proof fn lemma_lex_asymmetric(a: Seq<char>, b: Seq<char>)
    ensures
        lex_lt(a, b) ==> !lex_lt(b, a),
    decreases a.len(),
{
    if a.len() > 0 && b.len() > 0 && a[0] == b[0] {
        lemma_lex_asymmetric(a.drop_first(), b.drop_first());
    }
}

pub proof fn lemma_lex_transitive(a: Seq<char>, b: Seq<char>, c: Seq<char>)
    requires
        lex_lt(a, b),
        lex_lt(b, c),
    ensures
        lex_lt(a, c),
    decreases a.len(),
{
    if a.len() > 0 && b.len() > 0 && c.len() > 0 && a[0] == b[0] && b[0] == c[0] {
        lemma_lex_transitive(a.drop_first(), b.drop_first(), c.drop_first());
    }
}

pub proof fn lemma_lex_total(a: Seq<char>, b: Seq<char>)
    requires
        a != b,
    ensures
        lex_lt(a, b) || lex_lt(b, a),
    decreases a.len(),
{
    if a.len() > 0 && b.len() > 0 && a[0] == b[0] {
        if a.drop_first() == b.drop_first() {
            assert(a =~= seq![a[0]] + a.drop_first());
            assert(b =~= seq![b[0]] + b.drop_first());
        }
        lemma_lex_total(a.drop_first(), b.drop_first());
    } else if a.len() == 0 && b.len() == 0 {
        assert(a =~= b);
    }
}

/// Whether `a` sorts strictly before `b`.
pub fn lex_less(a: &[char], b: &[char]) -> (r: bool)
    ensures
        r == lex_lt(a@, b@),
{
    let mut i: usize = 0;
    assert(a@.skip(0) =~= a@);
    assert(b@.skip(0) =~= b@);
    while i < a.len() && i < b.len() && a[i] == b[i]
        invariant
            i <= a@.len(),
            i <= b@.len(),
            lex_lt(a@, b@) == lex_lt(a@.skip(i as int), b@.skip(i as int)),
        decreases a@.len() - i,
    {
        proof {
            let x = a@.skip(i as int);
            let y = b@.skip(i as int);
            assert(x.drop_first() =~= a@.skip(i + 1));
            assert(y.drop_first() =~= b@.skip(i + 1));
            assert(x[0] == a@[i as int]);
            assert(y[0] == b@[i as int]);
        }
        i += 1;
    }
    proof {
        let x = a@.skip(i as int);
        let y = b@.skip(i as int);
        if i < a@.len() {
            assert(x[0] == a@[i as int]);
        }
        if i < b@.len() {
            assert(y[0] == b@[i as int]);
        }
    }
    if i == a.len() {
        i < b.len()
    } else if i == b.len() {
        false
    } else {
        a[i] < b[i]
    }
}

} // verus!

verus! {

// ---------------------------------------------------------------------------
// Facts about trimming and joining lines
// ---------------------------------------------------------------------------

/// Every character of `s` is whitespace.
pub open spec fn all_whitespace(s: Seq<char>) -> bool {
    forall|k: int| 0 <= k < s.len() ==> is_whitespace(#[trigger] s[k])
}

/// `trim_start` drops a whitespace prefix and leaves a text that starts with
/// a non-whitespace character, if any.
pub proof fn lemma_trim_start_shape(s: Seq<char>)
    ensures
        trim_start(s).len() <= s.len(),
        s == s.take(s.len() - trim_start(s).len()) + trim_start(s),
        all_whitespace(s.take(s.len() - trim_start(s).len())),
        trim_start(s).len() > 0 ==> !is_whitespace(trim_start(s)[0]),
    decreases s.len(),
{
    if s.len() > 0 && is_whitespace(s[0]) {
        lemma_trim_start_shape(s.drop_first());
        let t = trim_start(s);
        let p = s.take(s.len() - t.len());
        let q = s.drop_first().take(s.drop_first().len() - t.len());
        assert(p =~= seq![s[0]] + q);
        assert(s =~= seq![s[0]] + s.drop_first());
        assert forall|k: int| 0 <= k < p.len() implies is_whitespace(#[trigger] p[k]) by {
            if k > 0 {
                assert(p[k] == q[k - 1]);
            }
        }
    } else {
        assert(s.take(0) =~= Seq::<char>::empty());
        assert(s.take(0) + s =~= s);
    }
}

/// `trim_end` drops a whitespace suffix and leaves a text that ends with a
/// non-whitespace character, if any.
pub proof fn lemma_trim_end_shape(s: Seq<char>)
    ensures
        trim_end(s).len() <= s.len(),
        s == trim_end(s) + s.skip(trim_end(s).len() as int),
        all_whitespace(s.skip(trim_end(s).len() as int)),
        trim_end(s).len() > 0 ==> !is_whitespace(trim_end(s).last()),
    decreases s.len(),
{
    if s.len() > 0 && is_whitespace(s.last()) {
        lemma_trim_end_shape(s.drop_last());
        let t = trim_end(s);
        let w = s.skip(t.len() as int);
        let v = s.drop_last().skip(t.len() as int);
        assert(w =~= v.push(s.last()));
        assert(s =~= s.drop_last().push(s.last()));
        assert(s =~= t + w);
        assert forall|k: int| 0 <= k < w.len() implies is_whitespace(#[trigger] w[k]) by {
            if k < v.len() {
                assert(w[k] == v[k]);
            }
        }
    } else {
        assert(s.skip(s.len() as int) =~= Seq::<char>::empty());
        assert(s + s.skip(s.len() as int) =~= s);
    }
}

/// Text with a non-blank start keeps what follows it when trimmed at the start.
pub proof fn lemma_trim_start_concat(a: Seq<char>, b: Seq<char>)
    requires
        trim_start(a).len() > 0,
    ensures
        trim_start(a + b) == trim_start(a) + b,
    decreases a.len(),
{
    if a.len() > 0 && is_whitespace(a[0]) {
        assert((a + b).drop_first() =~= a.drop_first() + b);
        lemma_trim_start_concat(a.drop_first(), b);
    } else {
        assert(a.len() > 0);
        assert((a + b)[0] == a[0]);
    }
}

/// Text with a non-blank end keeps what comes before it when trimmed at the end.
pub proof fn lemma_trim_end_concat(a: Seq<char>, b: Seq<char>)
    requires
        trim_end(b).len() > 0,
    ensures
        trim_end(a + b) == a + trim_end(b),
    decreases b.len(),
{
    if b.len() > 0 && is_whitespace(b.last()) {
        assert((a + b).drop_last() =~= a + b.drop_last());
        lemma_trim_end_concat(a, b.drop_last());
    } else {
        assert(b.len() > 0);
        assert((a + b).last() == b.last());
    }
}

/// Whitespace before a text does not change its trim.
pub proof fn lemma_trim_ws_prefix(w: Seq<char>, a: Seq<char>)
    requires
        all_whitespace(w),
    ensures
        trim(w + a) == trim(a),
{
    let s = w + a;
    assert forall|k: int| 0 <= k < w.len() implies is_whitespace(#[trigger] s[k]) by {
        assert(s[k] == w[k]);
    }
    lemma_trim_start_skip(s, w.len() as int);
    assert(s.skip(w.len() as int) =~= a);
}

/// Whitespace after a text does not change its trim.
pub proof fn lemma_trim_ws_suffix(a: Seq<char>, w: Seq<char>)
    requires
        all_whitespace(w),
    ensures
        trim(a + w) == trim(a),
{
    lemma_trim_start_shape(a);
    let t = trim_start(a);
    if t.len() > 0 {
        lemma_trim_start_concat(a, w);
        let s = t + w;
        assert forall|k: int| t.len() <= k < s.len() implies is_whitespace(#[trigger] s[k]) by {
            assert(s[k] == w[k - t.len()]);
        }
        lemma_trim_end_take(s, t.len() as int);
        assert(s.take(t.len() as int) =~= t);
    } else {
        let s = a + w;
        assert(a.take(a.len() - t.len()) =~= a);
        assert forall|k: int| 0 <= k < s.len() implies is_whitespace(#[trigger] s[k]) by {
            if k < a.len() {
                assert(s[k] == a[k]);
            } else {
                assert(s[k] == w[k - a.len()]);
            }
        }
        lemma_trim_start_skip(s, s.len() as int);
        assert(s.skip(s.len() as int) =~= Seq::<char>::empty());
        lemma_trim_start_shape(s);
    }
}

/// Trimming is unchanged by trimming first at one end, or by a carriage
/// return dropped at the end, and trimming twice is trimming once.
pub proof fn lemma_trim_stable(x: Seq<char>)
    ensures
        trim(trim_start(x)) == trim(x),
        trim(trim_end(x)) == trim(x),
        trim(strip_cr(x)) == trim(x),
        trim(trim(x)) == trim(x),
        trim(x).len() > 0 ==> trim_start(x).len() > 0 && trim_end(x).len() > 0,
{
    lemma_trim_start_shape(x);
    lemma_trim_end_shape(x);
    let p = x.take(x.len() - trim_start(x).len());
    lemma_trim_ws_prefix(p, trim_start(x));
    let w = x.skip(trim_end(x).len() as int);
    lemma_trim_ws_suffix(trim_end(x), w);
    if x.len() > 0 && x.last() == '\r' {
        assert(x =~= strip_cr(x) + seq!['\r']);
        assert(all_whitespace(seq!['\r']));
        lemma_trim_ws_suffix(strip_cr(x), seq!['\r']);
    }
    let y = trim_start(x);
    lemma_trim_start_shape(y);
    if y.len() > 0 {
        assert(trim_start(y) == y);
    } else {
        assert(trim_start(y) =~= y);
    }
    lemma_trim_end_shape(y);
    let wy = y.skip(trim_end(y).len() as int);
    lemma_trim_ws_suffix(trim_end(y), wy);
    if trim_end(x).len() == 0 {
        assert(x =~= w);
        assert(x =~= Seq::<char>::empty() + w);
        lemma_trim_ws_suffix(Seq::<char>::empty(), w);
        assert(trim_start(Seq::<char>::empty()) =~= Seq::<char>::empty());
    }
}

/// Joining with a separator puts the first piece before the rest.
pub proof fn lemma_join_first(ls: Seq<Seq<char>>, sep: Seq<char>)
    requires
        ls.len() >= 2,
    ensures
        join(ls, sep) == ls[0] + sep + join(ls.drop_first(), sep),
    decreases ls.len(),
{
    if ls.len() == 2 {
        assert(ls.drop_last().len() == 1);
        assert(ls.drop_first().len() == 1);
        assert(join(ls.drop_last(), sep) == ls[0]);
        assert(join(ls.drop_first(), sep) == ls[1]);
    } else {
        lemma_join_first(ls.drop_last(), sep);
        assert(ls.drop_last().drop_first() =~= ls.drop_first().drop_last());
        assert(ls.drop_first().last() == ls.last());
    }
}

/// No character of `s` is a line break.
proof fn lemma_no_newline_sub(s: Seq<char>, i: int, j: int)
    requires
        has_no_newline(s),
        0 <= i <= j <= s.len(),
    ensures
        has_no_newline(s.subrange(i, j)),
{
    assert forall|k: int| 0 <= k < s.subrange(i, j).len() implies #[trigger] s.subrange(i, j)[k]
        != '\n' by {
        assert(s.subrange(i, j)[k] == s[i + k]);
    }
}

/// Non-blank lines joined with line breaks and trimmed read back as lines
/// with the same trims: trimming the whole touches only the first and the
/// last line.
pub proof fn lemma_trim_join_lines(ls: Seq<Seq<char>>)
    requires
        ls.len() >= 1,
        forall|i: int| 0 <= i < ls.len() ==> has_no_newline(#[trigger] ls[i]),
        forall|i: int| 0 <= i < ls.len() ==> trim(#[trigger] ls[i]).len() > 0,
    ensures
        lines(trim(join(ls, seq!['\n']))).len() == ls.len(),
        forall|i: int|
            0 <= i < ls.len() ==> trim(#[trigger] lines(trim(join(ls, seq!['\n'])))[i]) == trim(
                ls[i],
            ),
{
    let nl = seq!['\n'];
    let n = ls.len();
    let f0 = ls[0];
    lemma_trim_stable(f0);
    lemma_trim_start_shape(f0);
    let g = ls.update(0, trim_start(f0));
    let gl = g[n - 1];
    lemma_trim_stable(gl);
    lemma_trim_end_shape(gl);
    let h = g.update(n - 1, trim_end(gl));
    // the trimmed join is the join of h
    if n == 1 {
        assert(join(ls, nl) == f0);
        assert(join(h, nl) == h[0]);
        assert(h[0] == trim_end(trim_start(f0)));
    } else {
        lemma_trim_stable(ls[n - 1]);
        lemma_join_first(ls, nl);
        lemma_join_first(g, nl);
        assert(g.drop_first() =~= ls.drop_first());
        assert(ls[0] + nl + join(ls.drop_first(), nl) =~= ls[0] + (nl + join(ls.drop_first(), nl)));
        lemma_trim_start_concat(f0, nl + join(ls.drop_first(), nl));
        assert(trim_start(join(ls, nl)) =~= join(g, nl));
        assert(gl == ls[n - 1]);
        assert(join(g, nl) == join(g.drop_last(), nl) + nl + gl);
        lemma_trim_end_concat(join(g.drop_last(), nl) + nl, gl);
        assert(h.drop_last() =~= g.drop_last());
        assert(join(h, nl) == join(h.drop_last(), nl) + nl + h.last());
    }
    assert(trim(join(ls, nl)) == join(h, nl));
    // the pieces of h have no line breaks
    assert forall|i: int| 0 <= i < h.len() implies has_no_newline(#[trigger] h[i]) by {
        if i == 0 {
            assert(has_no_newline(ls[0]));
            lemma_no_newline_sub(f0, f0.len() - trim_start(f0).len(), f0.len() as int);
            assert(trim_start(f0) =~= f0.subrange(f0.len() - trim_start(f0).len(), f0.len() as int));
        }
        if i == n - 1 {
            assert(has_no_newline(g[n - 1])) by {
                if n - 1 == 0 {
                    lemma_no_newline_sub(f0, f0.len() - trim_start(f0).len(), f0.len() as int);
                    assert(trim_start(f0) =~= f0.subrange(
                        f0.len() - trim_start(f0).len(),
                        f0.len() as int,
                    ));
                } else {
                    assert(g[n - 1] == ls[n - 1]);
                }
            }
            lemma_no_newline_sub(gl, 0, trim_end(gl).len() as int);
            assert(trim_end(gl) =~= gl.subrange(0, trim_end(gl).len() as int));
        }
        if 0 < i < n - 1 {
            assert(h[i] == ls[i]);
        }
    }
    // trims of h are the trims of ls
    assert forall|i: int| 0 <= i < n implies trim(#[trigger] h[i]) == trim(ls[i]) by {
        if i == n - 1 {
            if n == 1 {
                assert(trim(trim_end(trim_start(f0))) == trim(trim_start(f0)));
            } else {
                assert(gl == ls[n - 1]);
            }
        } else if i == 0 {
        } else {
            assert(h[i] == ls[i]);
        }
    }
    // the lines of the join of h
    let last = h.last();
    lemma_trim_end_shape(gl);
    assert(last.len() > 0);
    lemma_lines_acc_no_newline(last);
    if n == 1 {
        assert(join(h, nl) == last);
        assert(lines(last) =~= seq![last]);
    } else {
        let dl = h.drop_last();
        assert forall|i: int| 0 <= i < dl.len() implies has_no_newline(#[trigger] dl[i]) by {
            assert(dl[i] == h[i]);
        }
        lemma_join_terminated(dl);
        lemma_lines_terminated(dl);
        assert(join(h, nl) =~= terminated(dl) + last);
        lemma_lines_acc_append(terminated(dl), last);
        let m = dl.map_values(|l: Seq<char>| strip_cr(l));
        assert(lines(join(h, nl)) =~= m.push(last));
        assert forall|i: int| 0 <= i < n implies trim(#[trigger] lines(join(h, nl))[i]) == trim(
            ls[i],
        ) by {
            if i < n - 1 {
                assert(lines(join(h, nl))[i] == strip_cr(h[i]));
                lemma_trim_stable(h[i]);
            }
        }
    }
}

/// Replacing within a text without line breaks, by a text without line
/// breaks, adds none.
pub proof fn lemma_replace_no_newline(s: Seq<char>, f: Seq<char>, t: Seq<char>)
    requires
        has_no_newline(s),
        has_no_newline(t),
    ensures
        has_no_newline(replace(s, f, t)),
    decreases s.len(),
{
    if s.len() == 0 || f.len() == 0 {
    } else if starts_with(s, f) {
        lemma_no_newline_sub(s, f.len() as int, s.len() as int);
        assert(s.skip(f.len() as int) =~= s.subrange(f.len() as int, s.len() as int));
        lemma_replace_no_newline(s.skip(f.len() as int), f, t);
        let r = replace(s.skip(f.len() as int), f, t);
        assert forall|k: int| 0 <= k < (t + r).len() implies #[trigger] (t + r)[k] != '\n' by {
            if k < t.len() {
                assert((t + r)[k] == t[k]);
            } else {
                assert((t + r)[k] == r[k - t.len()]);
            }
        }
    } else {
        lemma_no_newline_sub(s, 1, s.len() as int);
        assert(s.drop_first() =~= s.subrange(1, s.len() as int));
        lemma_replace_no_newline(s.drop_first(), f, t);
        let r = replace(s.drop_first(), f, t);
        assert(s[0] != '\n');
        assert forall|k: int| 0 <= k < (seq![s[0]] + r).len() implies #[trigger] (seq![s[0]] + r)[k]
            != '\n' by {
            if k > 0 {
                assert((seq![s[0]] + r)[k] == r[k - 1]);
            }
        }
    }
}


/// A text that starts and ends with non-whitespace and occurs in a line
/// occurs in the line's trim.
pub proof fn lemma_contains_in_trim(l: Seq<char>, m: Seq<char>)
    requires
        m.len() > 0,
        !is_whitespace(m[0]),
        !is_whitespace(m.last()),
        contains(l, m),
    ensures
        contains(trim(l), m),
{
    lemma_find(l, m);
    let i = find(l, m)->0;
    lemma_trim_start_shape(l);
    let y = trim_start(l);
    let p = l.take(l.len() - y.len());
    lemma_trim_end_shape(y);
    let t = trim_end(y);
    let w = y.skip(t.len() as int);
    assert(l[i] == m[0]);
    assert(l[i + m.len() - 1] == m.last()) by {
        assert(l.subrange(i, i + m.len())[m.len() - 1] == l[i + m.len() - 1]);
    }
    if i < p.len() {
        assert(l[i] == p[i]);
    }
    let e = i + m.len() - 1;
    if e >= p.len() + t.len() {
        assert(l[e] == y[e - p.len()]);
        assert(y[e - p.len()] == w[e - p.len() - t.len()]);
    }
    let j = i - p.len();
    assert(t.subrange(j, j + m.len()) =~= m) by {
        assert forall|k: int| 0 <= k < m.len() implies t.subrange(j, j + m.len())[k] == m[k] by {
            assert(t[j + k] == y[j + k]);
            assert(y[j + k] == l[i + k]);
            assert(l.subrange(i, i + m.len())[k] == l[i + k]);
        }
    }
    lemma_match_found(t, m, j);
}

/// A text trims to nothing exactly when it is whitespace only.
pub proof fn lemma_blank_iff_whitespace(x: Seq<char>)
    ensures
        trim(x).len() == 0 <==> all_whitespace(x),
{
    lemma_trim_stable(x);
    lemma_trim_start_shape(x);
    let y = trim_start(x);
    if all_whitespace(x) {
        lemma_trim_start_skip(x, x.len() as int);
        assert(x.skip(x.len() as int) =~= Seq::<char>::empty());
        assert(trim_start(Seq::<char>::empty()) =~= Seq::<char>::empty());
        assert(trim_end(Seq::<char>::empty()) =~= Seq::<char>::empty());
    }
    if trim(x).len() == 0 {
        if y.len() > 0 {
            lemma_trim_end_shape(y);
            let w = y.skip(trim_end(y).len() as int);
            if trim_end(y).len() == 0 {
                assert(y =~= w);
                assert(!is_whitespace(y[0]));
                assert(w[0] == y[0]);
            }
        } else {
            assert(x.take(x.len() - y.len()) =~= x);
        }
    }
}

/// A piece of a concatenation occurs in it.
pub proof fn lemma_contains_piece(a: Seq<char>, x: Seq<char>, b: Seq<char>)
    ensures
        contains(a + x + b, x),
{
    let s = a + x + b;
    assert(s.subrange(a.len() as int, (a.len() + x.len()) as int) =~= x);
    lemma_match_found(s, x, a.len() as int);
}

} // verus!

