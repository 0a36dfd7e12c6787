//! Subject packs: their names, the files that hold them, the markdown of a
//! new pack, the listing of installed packs, and the prompt of a pack question.
use vstd::prelude::*;
use crate::prompts::{lang_suffix, push_lang_suffix};
use crate::text::{
    alphanumeric, append_chars, chars_eq, chars_of, copy_range, is_alphanumeric, lex_less, lex_lt,
    lemma_lex_asymmetric, lemma_lex_irreflexive, lemma_lex_total, lemma_lex_transitive, lowercase,
    lowercase_chars, push_str, replace, replace_chars, string_of, trim, trim_chars, uppercase,
    to_uppercase, alnum_known, lowers_ascii, upper_known,
};

verus! {

/// A character allowed in a pack name.
pub open spec fn is_pack_name_char(c: char) -> bool {
    alphanumeric(c) || c == '_' || c == '-'
}

/// A pack name holds only letters, digits, `_` and `-` (so no path separator).
pub open spec fn is_valid_pack_name(name: Seq<char>) -> bool {
    forall|k: int| 0 <= k < name.len() ==> is_pack_name_char(#[trigger] name[k])
}

/// What is known of the characters of `name` that the check looked at: each
/// one up to the first character that is not allowed.
pub open spec fn pack_chars_known(name: Seq<char>) -> bool {
    forall|k: int|
        0 <= k < name.len() && (forall|j: int| 0 <= j < k ==> is_pack_name_char(#[trigger] name[j]))
            ==> alnum_known(#[trigger] name[k])
}

pub fn valid_pack_name(name: &str) -> (b: bool)
    ensures
        b == is_valid_pack_name(name@),
        pack_chars_known(name@),
{
    let v = chars_of(name);
    let mut i: usize = 0;
    while i < v.len()
        invariant
            i <= v@.len(),
            v@ == name@,
            forall|k: int| 0 <= k < i ==> is_pack_name_char(#[trigger] v@[k]),
            forall|k: int| 0 <= k < i ==> alnum_known(#[trigger] v@[k]),
        decreases v@.len() - i,
    {
        let c = v[i];
        if !(is_alphanumeric(c) || c == '_' || c == '-') {
            assert(!is_pack_name_char(v@[i as int]));
            assert forall|k: int|
                0 <= k < name@.len() && (forall|j: int|
                    0 <= j < k ==> is_pack_name_char(#[trigger] name@[j])) implies alnum_known(
                #[trigger] name@[k],
            ) by {
                if k > i {
                    assert(is_pack_name_char(name@[i as int]));
                }
            }
            return false;
        }
        i += 1;
    }
    true
}

/// The name a new pack is stored under: the typed name trimmed, lowercased,
/// with spaces made underscores.
pub open spec fn normalized_pack_name(input: Seq<char>) -> Seq<char> {
    replace(lowercase(trim(input)), " "@, "_"@)
}

/// Why a typed pack name cannot be used.
#[derive(Debug)]
pub enum PackNameError {
    Empty,
    /// The normalized name, which holds a character that is not allowed.
    InvalidCharacters(String),
}

/// Checks the name typed for a new pack: its normalized form must be
/// non-empty and hold only allowed characters.
pub fn new_pack_name(input: &str) -> (r: Result<String, PackNameError>)
    ensures
        normalized_pack_name(input@).len() == 0 ==> r matches Err(PackNameError::Empty),
        normalized_pack_name(input@).len() > 0 && !is_valid_pack_name(normalized_pack_name(input@))
            ==> (r matches Err(PackNameError::InvalidCharacters(n)) && n@ == normalized_pack_name(
            input@,
        )),
        r is Ok <==> normalized_pack_name(input@).len() > 0 && is_valid_pack_name(
            normalized_pack_name(input@),
        ),
        r matches Ok(n) ==> n@ == normalized_pack_name(input@),
        lowers_ascii(trim(input@)),
        pack_chars_known(normalized_pack_name(input@)),
{
    let v = chars_of(input);
    let t = trim_chars(v.as_slice());
    let low = lowercase_chars(t.as_slice());
    let space = chars_of(" ");
    let underscore = chars_of("_");
    proof {
        reveal_strlit(" ");
    }
    let n = replace_chars(low.as_slice(), space.as_slice(), underscore.as_slice());
    let name = string_of(n.as_slice());
    if n.len() == 0 {
        Err(PackNameError::Empty)
    } else if !valid_pack_name(name.as_str()) {
        Err(PackNameError::InvalidCharacters(name))
    } else {
        Ok(name)
    }
}

/// The file that holds a pack.
pub open spec fn pack_file(name: Seq<char>) -> Seq<char> {
    name + ".md"@
}

pub fn pack_file_name(name: &str) -> (r: String)
    ensures
        r@ == pack_file(name@),
{
    let mut v = chars_of(name);
    push_str(&mut v, ".md");
    string_of(v.as_slice())
}

/// An entry of a list typed one per line: the trimmed line, or nothing when
/// it is blank (which ends the list).
pub fn list_entry(line: &str) -> (r: Option<String>)
    ensures
        trim(line@).len() == 0 ==> r is None,
        trim(line@).len() > 0 ==> (r matches Some(s) && s@ == trim(line@)),
{
    let v = chars_of(line);
    let t = trim_chars(v.as_slice());
    if t.len() == 0 {
        None
    } else {
        Some(string_of(t.as_slice()))
    }
}

/// Bulleted lines, one per item.
pub open spec fn bullets(items: Seq<String>) -> Seq<char>
    decreases items.len(),
{
    if items.len() == 0 {
        seq![]
    } else {
        bullets(items.drop_last()) + "- "@ + items.last()@ + "\n"@
    }
}

/// The markdown of a new pack: its title, its topics, then its key facts and
/// its quiz style when there are any.
pub open spec fn pack_markdown(
    display: Seq<char>,
    topics: Seq<String>,
    facts: Seq<String>,
    quiz_style: Seq<char>,
) -> Seq<char> {
    "# "@ + display + " Pack — Radhe AI\n\n"@ + "## Topics\n"@ + bullets(topics) + (if facts.len()
        > 0 {
        "\n## Key Facts / Formulas\n"@ + bullets(facts)
    } else {
        seq![]
    }) + (if quiz_style.len() > 0 {
        "\n## Quiz Style\n"@ + quiz_style + "\n"@
    } else {
        seq![]
    })
}

fn push_bullets(r: &mut Vec<char>, items: &Vec<String>)
    ensures
        final(r)@ == old(r)@ + bullets(items@),
{
    let ghost start = old(r)@;
    let mut i: usize = 0;
    assert(items@.take(0) =~= Seq::<String>::empty());
    assert(r@ =~= start + bullets(items@.take(0)));
    while i < items.len()
        invariant
            i <= items@.len(),
            r@ == start + bullets(items@.take(i as int)),
        decreases items@.len() - i,
    {
        assert(items@.take(i + 1).drop_last() =~= items@.take(i as int));
        push_str(r, "- ");
        push_str(r, items[i].as_str());
        push_str(r, "\n");
        assert(r@ =~= start + bullets(items@.take(i + 1)));
        i += 1;
    }
    assert(items@.take(items@.len() as int) =~= items@);
}

pub fn build_pack_markdown(
    display: &str,
    topics: &Vec<String>,
    facts: &Vec<String>,
    quiz_style: &str,
) -> (r: String)
    ensures
        r@ == pack_markdown(display@, topics@, facts@, quiz_style@),
{
    let mut r: Vec<char> = Vec::new();
    push_str(&mut r, "# ");
    push_str(&mut r, display);
    push_str(&mut r, " Pack — Radhe AI\n\n");
    push_str(&mut r, "## Topics\n");
    push_bullets(&mut r, topics);
    if facts.len() > 0 {
        push_str(&mut r, "\n## Key Facts / Formulas\n");
        push_bullets(&mut r, facts);
    }
    let q = chars_of(quiz_style);
    if q.len() > 0 {
        push_str(&mut r, "\n## Quiz Style\n");
        push_str(&mut r, quiz_style);
        push_str(&mut r, "\n");
    }
    assert(r@ =~= pack_markdown(display@, topics@, facts@, quiz_style@));
    string_of(r.as_slice())
}

/// How a pack's name is shown: `CS` for `cs` in any case, else the name with
/// its first character uppercased.
pub open spec fn shown_pack_name(name: Seq<char>) -> Seq<char> {
    if lowercase(name) == "cs"@ {
        "CS"@
    } else if name.len() == 0 {
        seq![]
    } else {
        uppercase(name[0]) + name.drop_first()
    }
}

pub fn format_pack_name(name: &str) -> (r: String)
    ensures
        r@ == shown_pack_name(name@),
        lowers_ascii(name@),
        lowercase(name@) != "cs"@ && name@.len() > 0 ==> upper_known(name@[0]),
{
    let v = chars_of(name);
    let low = lowercase_chars(v.as_slice());
    let cs = chars_of("cs");
    if chars_eq(low.as_slice(), cs.as_slice()) {
        return string_of(chars_of("CS").as_slice());
    }
    if v.len() == 0 {
        return string_of(v.as_slice());
    }
    let up = to_uppercase(v[0]);
    let mut r = chars_of(up.as_str());
    let rest = copy_range(v.as_slice(), 1, v.len());
    assert(rest@ =~= name@.drop_first());
    append_chars(&mut r, rest.as_slice());
    string_of(r.as_slice())
}

/// The token budget of a pack question: the configured one, but at least 500.
pub open spec fn pack_token_budget(configured: u32) -> u32 {
    if configured >= 500 {
        configured
    } else {
        500
    }
}

pub fn pack_max_tokens(configured: u32) -> (r: u32)
    ensures
        r == pack_token_budget(configured),
{
    if configured >= 500 {
        configured
    } else {
        500
    }
}

/// The prompt of a question asked of a pack: the pack as the system message
/// (with the answer language), then the question.
pub open spec fn pack_prompt(pack: Seq<char>, lang: Seq<char>, question: Seq<char>) -> Seq<char> {
    "<|im_start|>system\n"@ + pack + lang_suffix(lang) + "\n<|im_end|>\n<|im_start|>user\n"@
        + question + "\n<|im_end|>\n<|im_start|>assistant\n"@
}

pub fn build_pack_prompt(pack: &str, lang: &str, question: &str) -> (r: String)
    ensures
        r@ == pack_prompt(pack@, lang@, question@),
{
    let mut r: Vec<char> = Vec::new();
    push_str(&mut r, "<|im_start|>system\n");
    push_str(&mut r, pack);
    push_lang_suffix(&mut r, lang);
    push_str(&mut r, "\n<|im_end|>\n<|im_start|>user\n");
    push_str(&mut r, question);
    push_str(&mut r, "\n<|im_end|>\n<|im_start|>assistant\n");
    assert(r@ =~= pack_prompt(pack@, lang@, question@));
    string_of(r.as_slice())
}

// ---------------------------------------------------------------------------
// Listing installed packs
// ---------------------------------------------------------------------------

pub open spec fn string_views(v: Seq<String>) -> Seq<Seq<char>> {
    v.map_values(|x: String| x@)
}

/// Names in strictly increasing order, hence each once.
pub open spec fn strictly_sorted(names: Seq<Seq<char>>) -> bool {
    forall|i: int, j: int| 0 <= i < j < names.len() ==> lex_lt(#[trigger] names[i], #[trigger] names[j])
}

/// Adds a pack name to a sorted listing, unless it is there already.
pub fn add_pack_name(names: &mut Vec<String>, name: String)
    requires
        strictly_sorted(string_views(old(names)@)),
    ensures
        strictly_sorted(string_views(final(names)@)),
        string_views(final(names)@).to_set() == string_views(old(names)@).to_set().insert(name@),
{
    let ghost before = string_views(names@);
    let n = chars_of(name.as_str());
    let mut i: usize = 0;
    while i < names.len()
        invariant
            i <= names@.len(),
            before == string_views(names@),
            names@ == old(names)@,
            strictly_sorted(before),
            n@ == name@,
            forall|k: int| 0 <= k < i ==> lex_lt(#[trigger] before[k], name@),
        decreases names@.len() - i,
    {
        let cur = chars_of(names[i].as_str());
        assert(before[i as int] == cur@);
        if chars_eq(cur.as_slice(), n.as_slice()) {
            assert(before.to_set() =~= before.to_set().insert(name@)) by {
                assert(before.contains(name@));
            }
            return ;
        }
        if lex_less(n.as_slice(), cur.as_slice()) {
            // `name` goes here
            names.insert(i, name);
            proof {
                let after = string_views(names@);
                assert(after =~= before.insert(i as int, n@));
                assert forall|a: int, b: int| 0 <= a < b < after.len() implies lex_lt(
                    #[trigger] after[a],
                    #[trigger] after[b],
                ) by {
                    if b < i {
                    } else if b == i {
                    } else if a < i {
                        assert(after[b] == before[b - 1]);
                    } else if a == i {
                        assert(after[b] == before[b - 1]);
                        if b - 1 > i {
                            lemma_lex_transitive(n@, before[i as int], before[b - 1]);
                        }
                    } else {
                        assert(after[a] == before[a - 1]);
                        assert(after[b] == before[b - 1]);
                    }
                }
                assert(after.to_set() =~= before.to_set().insert(name@)) by {
                    assert forall|x: Seq<char>| after.to_set().contains(x) implies before.to_set().insert(
                        name@,
                    ).contains(x) by {
                        let k = choose|k: int| 0 <= k < after.len() && after[k] == x;
                        if k < i {
                            assert(before[k] == x);
                        } else if k > i {
                            assert(before[k - 1] == x);
                        }
                    }
                    assert forall|x: Seq<char>| before.to_set().insert(name@).contains(x) implies after.to_set().contains(
                        x,
                    ) by {
                        if x == name@ {
                            assert(after[i as int] == x);
                        } else {
                            let k = choose|k: int| 0 <= k < before.len() && before[k] == x;
                            if k < i {
                                assert(after[k] == x);
                            } else {
                                assert(after[k + 1] == x);
                            }
                        }
                    }
                }
            }
            return ;
        }
        proof {
            lemma_lex_total(cur@, n@);
        }
        i += 1;
    }
    names.push(name);
    proof {
        let after = string_views(names@);
        assert(after =~= before.push(n@));
        assert forall|a: int, b: int| 0 <= a < b < after.len() implies lex_lt(
            #[trigger] after[a],
            #[trigger] after[b],
        ) by {
            if b == before.len() {
                assert(after[a] == before[a]);
            }
        }
        assert(after.to_set() =~= before.to_set().insert(name@)) by {
            assert forall|x: Seq<char>| after.to_set().contains(x) implies before.to_set().insert(
                name@,
            ).contains(x) by {
                let k = choose|k: int| 0 <= k < after.len() && after[k] == x;
                if k < before.len() {
                    assert(before[k] == x);
                }
            }
            assert forall|x: Seq<char>| before.to_set().insert(name@).contains(x) implies after.to_set().contains(
                x,
            ) by {
                if x == name@ {
                    assert(after[before.len() as int] == x);
                } else {
                    let k = choose|k: int| 0 <= k < before.len() && before[k] == x;
                    assert(after[k] == x);
                }
            }
        }
    }
}

} // verus!
