//! Settings: the stored configuration, how the active settings are chosen,
//! which values are accepted, and how a setting is written into the file.
use vstd::prelude::*;
use crate::cli::{Cli, opt_view};
use crate::text::{
    append_chars, chars_eq, chars_of, contains, contains_exec, find, has_no_newline, join, join_chars,
    lemma_find, lemma_join_terminated, lemma_lines_have_no_newline, lemma_lines_terminated,
    lemma_match_found, lines, lines_of, strip_cr,
    push_str, same_text, starts_with, starts_with_exec, string_of, views, copy_range,
};

verus! {

/// The model used when neither the command line nor the configuration names one.
pub const DEFAULT_MODEL: &'static str = "Qwen2.5-Coder-1.5B-Instruct-Q4_K_M.gguf";

/// The token budget used when neither the command line nor the configuration gives one.
pub const DEFAULT_MAX_TOKENS: u32 = 300;

/// The stored configuration; every setting may be absent.
pub struct RadheConfig {
    pub model: Option<String>,
    pub max_tokens: Option<u32>,
    pub lang: Option<String>,
    pub mode: Option<String>,
    pub difficulty: Option<String>,
    pub profile: Option<String>,
    pub stats_enabled: Option<bool>,
    pub packs_enabled: Option<bool>,
    pub shell_enabled: Option<bool>,
    pub modes_enabled: Option<bool>,
    pub difficulty_enabled: Option<bool>,
}

impl RadheConfig {
    /// A configuration with no setting.
    pub fn empty() -> (c: RadheConfig)
        ensures
            c.model is None && c.max_tokens is None && c.lang is None && c.mode is None
                && c.difficulty is None && c.profile is None && c.stats_enabled is None
                && c.packs_enabled is None && c.shell_enabled is None && c.modes_enabled is None
                && c.difficulty_enabled is None,
    {
        RadheConfig {
            model: None,
            max_tokens: None,
            lang: None,
            mode: None,
            difficulty: None,
            profile: None,
            stats_enabled: None,
            packs_enabled: None,
            shell_enabled: None,
            modes_enabled: None,
            difficulty_enabled: None,
        }
    }
}

/// A setting: the command-line value, else the configured one, else the default.
pub open spec fn chosen(flag: Option<Seq<char>>, configured: Option<Seq<char>>, default: Seq<char>) -> Seq<
    char,
> {
    match flag {
        Some(v) => v,
        None => match configured {
            Some(v) => v,
            None => default,
        },
    }
}

pub fn choose_setting(flag: &Option<String>, configured: &Option<String>, default: &str) -> (r: String)
    ensures
        r@ == chosen(opt_view(*flag), opt_view(*configured), default@),
{
    match flag {
        Some(v) => v.clone(),
        None => match configured {
            Some(v) => v.clone(),
            None => string_of(chars_of(default).as_slice()),
        },
    }
}

/// The study modes.
pub open spec fn is_study_mode(m: Seq<char>) -> bool {
    m == "normal"@ || m == "exam"@ || m == "revision"@
}

/// The quiz difficulties.
pub open spec fn is_difficulty(d: Seq<char>) -> bool {
    d == "easy"@ || d == "medium"@ || d == "hard"@
}

/// The answer languages that can be set as default.
pub open spec fn is_language(l: Seq<char>) -> bool {
    l == "en"@ || l == "hi"@ || l == "hinglish"@
}

pub fn valid_study_mode(m: &str) -> (b: bool)
    ensures
        b == is_study_mode(m@),
{
    same_text(m, "normal") || same_text(m, "exam") || same_text(m, "revision")
}

pub fn valid_difficulty(d: &str) -> (b: bool)
    ensures
        b == is_difficulty(d@),
{
    same_text(d, "easy") || same_text(d, "medium") || same_text(d, "hard")
}

pub fn valid_language(l: &str) -> (b: bool)
    ensures
        b == is_language(l@),
{
    same_text(l, "en") || same_text(l, "hi") || same_text(l, "hinglish")
}

/// The name of an answer language as shown to the student.
pub open spec fn language_name(l: Seq<char>) -> Seq<char> {
    if l == "hi"@ {
        "Hindi"@
    } else if l == "hinglish"@ {
        "Hinglish"@
    } else {
        "English"@
    }
}

pub fn language_label(l: &str) -> (r: &'static str)
    ensures
        r@ == language_name(l@),
{
    if same_text(l, "hi") {
        "Hindi"
    } else if same_text(l, "hinglish") {
        "Hinglish"
    } else {
        "English"
    }
}

/// The settings in force for a run.
pub struct Settings {
    pub model: String,
    pub max_tokens: u32,
    pub lang: String,
    pub mode: String,
    pub difficulty: String,
    pub profile: String,
}

/// A study mode or difficulty that is not one of the accepted values.
#[derive(Debug)]
pub enum SettingsError {
    InvalidMode(String),
    InvalidDifficulty(String),
}

pub open spec fn chosen_max_tokens(cli: Cli, config: RadheConfig) -> u32 {
    match cli.max_tokens {
        Some(n) => n,
        None => match config.max_tokens {
            Some(n) => n,
            None => DEFAULT_MAX_TOKENS,
        },
    }
}

/// Chooses the settings for a run: each from the command line, else the
/// configuration, else its default (the profile from the configuration
/// alone). The study mode is checked first, then the difficulty.
pub fn resolve_settings(cli: &Cli, config: &RadheConfig) -> (r: Result<Settings, SettingsError>)
    ensures
        !is_study_mode(chosen(opt_view(cli.mode), opt_view(config.mode), "normal"@)) ==> (r matches Err(
            SettingsError::InvalidMode(m),
        ) && m@ == chosen(opt_view(cli.mode), opt_view(config.mode), "normal"@)),
        is_study_mode(chosen(opt_view(cli.mode), opt_view(config.mode), "normal"@)) && !is_difficulty(
            chosen(opt_view(cli.difficulty), opt_view(config.difficulty), "medium"@),
        ) ==> (r matches Err(SettingsError::InvalidDifficulty(d)) && d@ == chosen(
            opt_view(cli.difficulty),
            opt_view(config.difficulty),
            "medium"@,
        )),
        r is Ok <==> is_study_mode(chosen(opt_view(cli.mode), opt_view(config.mode), "normal"@))
            && is_difficulty(chosen(opt_view(cli.difficulty), opt_view(config.difficulty), "medium"@)),
        r matches Ok(s) ==> {
            &&& s.model@ == chosen(opt_view(cli.model), opt_view(config.model), DEFAULT_MODEL@)
            &&& s.max_tokens == chosen_max_tokens(*cli, *config)
            &&& s.lang@ == chosen(opt_view(cli.lang), opt_view(config.lang), "en"@)
            &&& s.mode@ == chosen(opt_view(cli.mode), opt_view(config.mode), "normal"@)
            &&& s.difficulty@ == chosen(
                opt_view(cli.difficulty),
                opt_view(config.difficulty),
                "medium"@,
            )
            &&& s.profile@ == chosen(None, opt_view(config.profile), "standard"@)
        },
{
    let model = choose_setting(&cli.model, &config.model, DEFAULT_MODEL);
    let max_tokens = match cli.max_tokens {
        Some(n) => n,
        None => match config.max_tokens {
            Some(n) => n,
            None => DEFAULT_MAX_TOKENS,
        },
    };
    let lang = choose_setting(&cli.lang, &config.lang, "en");
    let mode = choose_setting(&cli.mode, &config.mode, "normal");
    if !valid_study_mode(mode.as_str()) {
        return Err(SettingsError::InvalidMode(mode));
    }
    let difficulty = choose_setting(&cli.difficulty, &config.difficulty, "medium");
    if !valid_difficulty(difficulty.as_str()) {
        return Err(SettingsError::InvalidDifficulty(difficulty));
    }
    let profile = choose_setting(&None, &config.profile, "standard");
    Ok(Settings { model, max_tokens, lang, mode, difficulty, profile })
}

/// The model reported by `--version`: the command-line one, else the
/// configured one, else the default.
pub fn version_model(cli: &Cli, config: &RadheConfig) -> (r: String)
    ensures
        r@ == chosen(opt_view(cli.model), opt_view(config.model), DEFAULT_MODEL@),
{
    choose_setting(&cli.model, &config.model, DEFAULT_MODEL)
}

} // verus!

verus! {

// ---------------------------------------------------------------------------
// Writing one setting into the configuration text
// ---------------------------------------------------------------------------

/// A line that sets `key`: it starts with the key and holds an `=`.
pub open spec fn is_key_line(line: Seq<char>, key: Seq<char>) -> bool {
    starts_with(line, key) && contains(line, seq!['='])
}

/// The line that sets `key` to `value`.
pub open spec fn setting_line(key: Seq<char>, value: Seq<char>) -> Seq<char> {
    key + " = \""@ + value + "\""@
}

/// The index of the first line at or after `i` that sets `key`.
pub open spec fn key_line_from(ls: Seq<Seq<char>>, key: Seq<char>, i: int) -> Option<int>
    decreases ls.len() - i,
{
    if i < 0 || i >= ls.len() {
        None
    } else if is_key_line(ls[i], key) {
        Some(i)
    } else {
        key_line_from(ls, key, i + 1)
    }
}

pub open spec fn key_line(ls: Seq<Seq<char>>, key: Seq<char>) -> Option<int> {
    key_line_from(ls, key, 0)
}

/// The lines with the first line for `key` replaced by the new setting, or
/// the setting added at the end when no line sets the key.
pub open spec fn updated_lines(ls: Seq<Seq<char>>, key: Seq<char>, value: Seq<char>) -> Seq<
    Seq<char>,
> {
    match key_line(ls, key) {
        Some(i) => ls.update(i, setting_line(key, value)),
        None => ls.push(setting_line(key, value)),
    }
}

/// The configuration text after setting `key` to `value`: its lines, updated,
/// each ended by a line break.
pub open spec fn updated_config(content: Seq<char>, key: Seq<char>, value: Seq<char>) -> Seq<char> {
    join(updated_lines(lines(content), key, value), "\n"@) + "\n"@
}

fn key_line_exec(ls: &Vec<Vec<char>>, key: &[char]) -> (r: Option<usize>)
    ensures
        r matches Some(i) ==> i < ls@.len() && key_line(views(ls@), key@) == Some(i as int),
        r is None ==> key_line(views(ls@), key@) is None,
{
    let eq = vec!['='];
    assert(eq@ =~= seq!['=']);
    let ghost lv = views(ls@);
    let mut i: usize = 0;
    while i < ls.len()
        invariant
            i <= ls@.len(),
            lv == views(ls@),
            eq@ == seq!['='],
            key_line(lv, key@) == key_line_from(lv, key@, i as int),
        decreases ls@.len() - i,
    {
        assert(lv[i as int] == ls@[i as int]@);
        if starts_with_exec(ls[i].as_slice(), key) && contains_exec(ls[i].as_slice(), eq.as_slice()) {
            return Some(i);
        }
        i += 1;
    }
    None
}

fn setting_line_exec(key: &str, value: &str) -> (r: Vec<char>)
    ensures
        r@ == setting_line(key@, value@),
{
    let mut r = chars_of(key);
    push_str(&mut r, " = \"");
    push_str(&mut r, value);
    push_str(&mut r, "\"");
    assert(r@ =~= setting_line(key@, value@));
    r
}

/// Sets `key` to `value` in the configuration text `content`: the first
/// line that starts with the key and holds an `=` is replaced by
/// `key = "value"`, or that line is added when there is none.
pub fn set_config_value(content: &str, key: &str, value: &str) -> (r: String)
    ensures
        r@ == updated_config(content@, key@, value@),
{
    let text = chars_of(content);
    let mut ls = lines_of(text.as_slice());
    let k = chars_of(key);
    let line = setting_line_exec(key, value);
    let ghost lv = views(ls@);
    let found = key_line_exec(&ls, k.as_slice());
    match found {
        Some(i) => {
            ls.set(i, line);
            assert(views(ls@) =~= updated_lines(lv, key@, value@));
        },
        None => {
            ls.push(line);
            assert(views(ls@) =~= updated_lines(lv, key@, value@));
        },
    }
    let nl = chars_of("\n");
    let mut joined = join_chars(&ls, nl.as_slice());
    append_chars(&mut joined, nl.as_slice());
    string_of(joined.as_slice())
}

} // verus!

verus! {

proof fn lemma_strip_cr_keeps_non_key(l: Seq<char>, key: Seq<char>)
    requires
        !is_key_line(l, key),
    ensures
        !is_key_line(strip_cr(l), key),
{
    if l.len() > 0 && l.last() == '\r' {
        let d = l.drop_last();
        if starts_with(d, key) {
            assert(l.take(key.len() as int) =~= d.take(key.len() as int));
        }
        if contains(d, seq!['=']) {
            lemma_find(d, seq!['=']);
            let m = find(d, seq!['=']).unwrap();
            assert(l.subrange(m, m + 1) =~= d.subrange(m, m + 1));
            lemma_match_found(l, seq!['='], m);
        }
    }
}

proof fn lemma_key_line_at(ls: Seq<Seq<char>>, key: Seq<char>, i0: int, i: int)
    requires
        0 <= i <= i0 < ls.len(),
        forall|j: int| 0 <= j < i0 ==> !is_key_line(#[trigger] ls[j], key),
        is_key_line(ls[i0], key),
    ensures
        key_line_from(ls, key, i) == Some(i0),
    decreases i0 - i,
{
    if i < i0 {
        lemma_key_line_at(ls, key, i0, i + 1);
    }
}

proof fn lemma_key_line_none(ls: Seq<Seq<char>>, key: Seq<char>, i: int)
    requires
        0 <= i,
        key_line_from(ls, key, i) is None,
    ensures
        forall|j: int| i <= j < ls.len() ==> !is_key_line(#[trigger] ls[j], key),
    decreases ls.len() - i,
{
    if i < ls.len() {
        lemma_key_line_none(ls, key, i + 1);
    }
}

proof fn lemma_key_line_some(ls: Seq<Seq<char>>, key: Seq<char>, i: int)
    requires
        0 <= i,
        key_line_from(ls, key, i) is Some,
    ensures
        ({
            let k = key_line_from(ls, key, i)->0;
            &&& i <= k < ls.len()
            &&& is_key_line(ls[k], key)
            &&& forall|j: int| i <= j < k ==> !is_key_line(#[trigger] ls[j], key)
        }),
    decreases ls.len() - i,
{
    if !is_key_line(ls[i], key) {
        lemma_key_line_some(ls, key, i + 1);
    }
}

/// After a setting is written, the line that sets the key is the new
/// setting: reading the key back gives `key = "value"`. (The value and the
/// key must not hold line breaks, or the setting would span lines.)
pub proof fn lemma_setting_reads_back(content: Seq<char>, key: Seq<char>, value: Seq<char>)
    requires
        has_no_newline(key),
        has_no_newline(value),
    ensures
        ({
            let ls = lines(updated_config(content, key, value));
            key_line(ls, key) matches Some(i) && ls[i] == setting_line(key, value)
        }),
{
    reveal_strlit("\n");
    reveal_strlit(" = \"");
    reveal_strlit("\"");
    let old_ls = lines(content);
    lemma_lines_have_no_newline(content);
    let u = updated_lines(old_ls, key, value);
    let line = setting_line(key, value);
    assert(has_no_newline(line)) by {
        assert forall|k: int| 0 <= k < line.len() implies #[trigger] line[k] != '\n' by {
            if k < key.len() {
                assert(line[k] == key[k]);
            } else if k < key.len() + 4 {
            } else if k < key.len() + 4 + value.len() {
                assert(line[k] == value[k - key.len() - 4]);
            }
        }
    }
    // the position of the new setting among the updated lines
    let i0: int = match key_line(old_ls, key) {
        Some(i) => i,
        None => old_ls.len() as int,
    };
    if key_line(old_ls, key) is Some {
        lemma_key_line_some(old_ls, key, 0);
    } else {
        lemma_key_line_none(old_ls, key, 0);
    }
    assert(0 <= i0 < u.len());
    assert(u[i0] == line);
    assert forall|i: int| 0 <= i < u.len() implies has_no_newline(#[trigger] u[i]) by {
        if i != i0 {
            assert(u[i] == old_ls[i]);
        }
    }
    assert(u.len() >= 1);
    lemma_join_terminated(u);
    assert("\n"@ == seq!['\n']);
    lemma_lines_terminated(u);
    let ls = lines(updated_config(content, key, value));
    assert(ls == u.map_values(|l: Seq<char>| strip_cr(l)));
    // the new line has no carriage return to lose
    assert(line.last() == '"');
    assert(ls[i0] == line);
    // it sets the key
    assert(line.take(key.len() as int) =~= key);
    assert(line.subrange(key.len() as int + 1, key.len() as int + 2) =~= seq!['=']);
    lemma_match_found(line, seq!['='], key.len() as int + 1);
    assert(is_key_line(ls[i0], key));
    // no line before it does
    assert forall|j: int| 0 <= j < i0 implies !is_key_line(#[trigger] ls[j], key) by {
        assert(u[j] == old_ls[j]);
        assert(ls[j] == strip_cr(u[j]));
        lemma_strip_cr_keeps_non_key(u[j], key);
    }
    lemma_key_line_at(ls, key, i0, 0);
}

} // verus!

verus! {

/// The settings whose default can be stored from the command line.
#[derive(Clone, Copy, PartialEq, Eq, Structural, Debug)]
pub enum DefaultSetting {
    Lang,
    Mode,
    Difficulty,
}

/// The configuration key of a storable setting.
pub open spec fn setting_key(s: DefaultSetting) -> Seq<char> {
    match s {
        DefaultSetting::Lang => "lang"@,
        DefaultSetting::Mode => "mode"@,
        DefaultSetting::Difficulty => "difficulty"@,
    }
}

/// The values a storable setting accepts.
pub open spec fn accepts(s: DefaultSetting, value: Seq<char>) -> bool {
    match s {
        DefaultSetting::Lang => is_language(value),
        DefaultSetting::Mode => is_study_mode(value),
        DefaultSetting::Difficulty => is_difficulty(value),
    }
}

/// A value that the setting does not accept.
#[derive(Debug)]
pub struct InvalidValue {
    pub value: String,
}

/// Stores a default: an accepted value is written into the configuration
/// text under the setting's key; any other value is refused and nothing is
/// written.
pub fn store_default(content: &str, setting: DefaultSetting, value: &str) -> (r: Result<
    String,
    InvalidValue,
>)
    ensures
        r is Ok <==> accepts(setting, value@),
        r matches Ok(text) ==> text@ == updated_config(content@, setting_key(setting), value@),
        r matches Err(e) ==> e.value@ == value@,
{
    let ok = match setting {
        DefaultSetting::Lang => valid_language(value),
        DefaultSetting::Mode => valid_study_mode(value),
        DefaultSetting::Difficulty => valid_difficulty(value),
    };
    if !ok {
        return Err(InvalidValue { value: string_of(chars_of(value).as_slice()) });
    }
    let key: &str = match setting {
        DefaultSetting::Lang => "lang",
        DefaultSetting::Mode => "mode",
        DefaultSetting::Difficulty => "difficulty",
    };
    Ok(set_config_value(content, key, value))
}

/// A stored default reads back: after an accepted value is stored, the line
/// for its key sets it.
pub proof fn lemma_stored_default_reads_back(content: Seq<char>, setting: DefaultSetting, value: Seq<char>)
    requires
        accepts(setting, value),
    ensures
        ({
            let ls = lines(updated_config(content, setting_key(setting), value));
            key_line(ls, setting_key(setting)) matches Some(i) && ls[i] == setting_line(
                setting_key(setting),
                value,
            )
        }),
{
    reveal_strlit("lang");
    reveal_strlit("mode");
    reveal_strlit("difficulty");
    reveal_strlit("en");
    reveal_strlit("hi");
    reveal_strlit("hinglish");
    reveal_strlit("normal");
    reveal_strlit("exam");
    reveal_strlit("revision");
    reveal_strlit("easy");
    reveal_strlit("medium");
    reveal_strlit("hard");
    let key = setting_key(setting);
    assert(has_no_newline(key));
    assert(has_no_newline(value));
    lemma_setting_reads_back(content, key, value);
}

/// A feature is on unless the configuration turns it off.
pub open spec fn feature_on(flag: Option<bool>) -> bool {
    flag != Some(false)
}

pub fn packs_allowed(config: &RadheConfig) -> (b: bool)
    ensures
        b == feature_on(config.packs_enabled),
{
    match config.packs_enabled {
        Some(false) => false,
        _ => true,
    }
}

pub fn shell_allowed(config: &RadheConfig) -> (b: bool)
    ensures
        b == feature_on(config.shell_enabled),
{
    match config.shell_enabled {
        Some(false) => false,
        _ => true,
    }
}

} // verus!
