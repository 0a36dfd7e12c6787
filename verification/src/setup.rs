//! Answers typed at the terminal: confirmations, the setup wizard's menus,
//! and the profiles it writes into the configuration.
use vstd::prelude::*;
use crate::config::{RadheConfig, DEFAULT_MAX_TOKENS, DEFAULT_MODEL};
use crate::cli::opt_view;
use crate::text::{chars_eq, chars_of, lowercase, lowercase_chars, lowers_ascii, string_of, trim, trim_chars};

verus! {

/// A confirmation: the answer, trimmed and lowercased, is `y`.
pub open spec fn is_confirmation(input: Seq<char>) -> bool {
    lowercase(trim(input)) == "y"@
}

pub fn confirmed(input: &str) -> (b: bool)
    ensures
        b == is_confirmation(input@),
        lowers_ascii(trim(input@)),
{
    let v = chars_of(input);
    let t = trim_chars(v.as_slice());
    let low = lowercase_chars(t.as_slice());
    chars_eq(low.as_slice(), chars_of("y").as_slice())
}

/// The setup profiles.
#[derive(Clone, Copy, PartialEq, Eq, Structural, Debug)]
pub enum Profile {
    Minimal,
    Standard,
    Custom,
}

/// The profile picked by typing `1`, `2` or `3`; anything else picks none.
pub open spec fn picked_profile(input: Seq<char>) -> Option<Profile> {
    let t = trim(input);
    if t == "1"@ {
        Some(Profile::Minimal)
    } else if t == "2"@ {
        Some(Profile::Standard)
    } else if t == "3"@ {
        Some(Profile::Custom)
    } else {
        None
    }
}

pub fn parse_profile_choice(input: &str) -> (r: Option<Profile>)
    ensures
        r == picked_profile(input@),
{
    let v = chars_of(input);
    let t = trim_chars(v.as_slice());
    if chars_eq(t.as_slice(), chars_of("1").as_slice()) {
        Some(Profile::Minimal)
    } else if chars_eq(t.as_slice(), chars_of("2").as_slice()) {
        Some(Profile::Standard)
    } else if chars_eq(t.as_slice(), chars_of("3").as_slice()) {
        Some(Profile::Custom)
    } else {
        None
    }
}

/// A yes/no answer, with yes the default: blank, `y` or `yes` is yes, `n`
/// or `no` is no (after trimming and lowercasing); anything else is no answer.
pub open spec fn yes_no_answer(input: Seq<char>) -> Option<bool> {
    let t = lowercase(trim(input));
    if t.len() == 0 || t == "y"@ || t == "yes"@ {
        Some(true)
    } else if t == "n"@ || t == "no"@ {
        Some(false)
    } else {
        None
    }
}

pub fn parse_yes_no(input: &str) -> (r: Option<bool>)
    ensures
        r == yes_no_answer(input@),
        lowers_ascii(trim(input@)),
{
    let v = chars_of(input);
    let t = trim_chars(v.as_slice());
    let low = lowercase_chars(t.as_slice());
    if low.len() == 0 || chars_eq(low.as_slice(), chars_of("y").as_slice()) || chars_eq(
        low.as_slice(),
        chars_of("yes").as_slice(),
    ) {
        Some(true)
    } else if chars_eq(low.as_slice(), chars_of("n").as_slice()) || chars_eq(
        low.as_slice(),
        chars_of("no").as_slice(),
    ) {
        Some(false)
    } else {
        None
    }
}

/// What a menu answer does.
pub enum MenuChoice {
    /// A blank answer keeps the current value.
    Keep,
    /// `1`, `2` or `3` picks that option.
    Pick(String),
    /// Anything else: ask again.
    Invalid,
}

pub open spec fn menu_choice_matches(input: Seq<char>, options: [&str; 3], r: MenuChoice) -> bool {
    let t = trim(input);
    if t.len() == 0 {
        r is Keep
    } else if t == "1"@ {
        r matches MenuChoice::Pick(s) && s@ == options[0]@
    } else if t == "2"@ {
        r matches MenuChoice::Pick(s) && s@ == options[1]@
    } else if t == "3"@ {
        r matches MenuChoice::Pick(s) && s@ == options[2]@
    } else {
        r is Invalid
    }
}

/// Reads an answer to a three-option menu.
pub fn parse_menu_choice(input: &str, options: [&str; 3]) -> (r: MenuChoice)
    ensures
        menu_choice_matches(input@, options, r),
{
    let v = chars_of(input);
    let t = trim_chars(v.as_slice());
    if t.len() == 0 {
        MenuChoice::Keep
    } else if chars_eq(t.as_slice(), chars_of("1").as_slice()) {
        MenuChoice::Pick(string_of(chars_of(options[0]).as_slice()))
    } else if chars_eq(t.as_slice(), chars_of("2").as_slice()) {
        MenuChoice::Pick(string_of(chars_of(options[1]).as_slice()))
    } else if chars_eq(t.as_slice(), chars_of("3").as_slice()) {
        MenuChoice::Pick(string_of(chars_of(options[2]).as_slice()))
    } else {
        MenuChoice::Invalid
    }
}

/// The study modes, in menu order.
pub const MODE_OPTIONS: [&'static str; 3] = ["normal", "exam", "revision"];

/// The difficulties, in menu order.
pub const DIFFICULTY_OPTIONS: [&'static str; 3] = ["easy", "medium", "hard"];

/// The languages, in menu order.
pub const LANGUAGE_OPTIONS: [&'static str; 3] = ["en", "hi", "hinglish"];

fn some_text(s: &str) -> (r: Option<String>)
    ensures
        r matches Some(v) && v@ == s@,
{
    Some(string_of(chars_of(s).as_slice()))
}

/// The minimal profile: the model and token budget kept (or their
/// defaults), English, normal mode, medium difficulty, and every optional
/// feature off.
pub fn apply_minimal_profile(config: &mut RadheConfig)
    ensures
        opt_view(final(config).model) == Some(
            match opt_view(old(config).model) {
                Some(m) => m,
                None => DEFAULT_MODEL@,
            },
        ),
        final(config).max_tokens == Some(
            match old(config).max_tokens {
                Some(n) => n,
                None => DEFAULT_MAX_TOKENS,
            },
        ),
        opt_view(final(config).lang) == Some("en"@),
        opt_view(final(config).mode) == Some("normal"@),
        opt_view(final(config).difficulty) == Some("medium"@),
        opt_view(final(config).profile) == Some("minimal"@),
        final(config).stats_enabled == Some(false),
        final(config).packs_enabled == Some(false),
        final(config).shell_enabled == Some(false),
        final(config).modes_enabled == Some(false),
        final(config).difficulty_enabled == Some(false),
{
    let model = match &config.model {
        Some(m) => m.clone(),
        None => string_of(chars_of(DEFAULT_MODEL).as_slice()),
    };
    config.model = Some(model);
    config.max_tokens = Some(
        match config.max_tokens {
            Some(n) => n,
            None => DEFAULT_MAX_TOKENS,
        },
    );
    config.lang = some_text("en");
    config.mode = some_text("normal");
    config.difficulty = some_text("medium");
    config.profile = some_text("minimal");
    config.stats_enabled = Some(false);
    config.packs_enabled = Some(false);
    config.shell_enabled = Some(false);
    config.modes_enabled = Some(false);
    config.difficulty_enabled = Some(false);
}

/// The features a profile turns on or off.
pub struct Features {
    pub stats: bool,
    pub packs: bool,
    pub shell: bool,
    pub modes: bool,
    pub difficulty: bool,
}

/// The standard profile turns every feature on.
pub fn standard_features() -> (f: Features)
    ensures
        f.stats && f.packs && f.shell && f.modes && f.difficulty,
{
    Features { stats: true, packs: true, shell: true, modes: true, difficulty: true }
}

/// Records a standard or custom profile and its features; the model, token
/// budget and settings are left as they are.
pub fn apply_feature_profile(config: &mut RadheConfig, profile: Profile, features: &Features)
    requires
        profile != Profile::Minimal,
    ensures
        opt_view(final(config).profile) == Some(
            if profile == Profile::Standard {
                "standard"@
            } else {
                "custom"@
            },
        ),
        final(config).stats_enabled == Some(features.stats),
        final(config).packs_enabled == Some(features.packs),
        final(config).shell_enabled == Some(features.shell),
        final(config).modes_enabled == Some(features.modes),
        final(config).difficulty_enabled == Some(features.difficulty),
        final(config).model == old(config).model,
        final(config).max_tokens == old(config).max_tokens,
        final(config).lang == old(config).lang,
        final(config).mode == old(config).mode,
        final(config).difficulty == old(config).difficulty,
{
    config.profile = if profile == Profile::Standard {
        some_text("standard")
    } else {
        some_text("custom")
    };
    config.stats_enabled = Some(features.stats);
    config.packs_enabled = Some(features.packs);
    config.shell_enabled = Some(features.shell);
    config.modes_enabled = Some(features.modes);
    config.difficulty_enabled = Some(features.difficulty);
}

/// Records the study mode, difficulty and language chosen at the end of setup.
pub fn apply_choices(config: &mut RadheConfig, mode: String, difficulty: String, lang: String)
    ensures
        opt_view(final(config).mode) == Some(mode@),
        opt_view(final(config).difficulty) == Some(difficulty@),
        opt_view(final(config).lang) == Some(lang@),
        final(config).model == old(config).model,
        final(config).max_tokens == old(config).max_tokens,
        final(config).profile == old(config).profile,
        final(config).stats_enabled == old(config).stats_enabled,
        final(config).packs_enabled == old(config).packs_enabled,
        final(config).shell_enabled == old(config).shell_enabled,
        final(config).modes_enabled == old(config).modes_enabled,
        final(config).difficulty_enabled == old(config).difficulty_enabled,
{
    config.mode = Some(mode);
    config.difficulty = Some(difficulty);
    config.lang = Some(lang);
}

/// A menu of the setup wizard.
#[derive(Clone, Copy, PartialEq, Eq, Structural, Debug)]
pub enum SetupMenu {
    Mode,
    Difficulty,
    Language,
}

/// The menus the wizard asks, in order, after the profile and its features
/// are chosen: none for the minimal profile, which stops there; else the
/// study mode if modes are on, the difficulty if difficulty is on, and the
/// language always.
pub open spec fn setup_menu_order(profile: Profile, features: Features) -> Seq<SetupMenu> {
    if profile == Profile::Minimal {
        seq![]
    } else {
        (if features.modes {
            seq![SetupMenu::Mode]
        } else {
            seq![]
        }) + (if features.difficulty {
            seq![SetupMenu::Difficulty]
        } else {
            seq![]
        }) + seq![SetupMenu::Language]
    }
}

pub fn setup_menus(profile: Profile, features: &Features) -> (r: Vec<SetupMenu>)
    ensures
        r@ == setup_menu_order(profile, *features),
{
    let mut r: Vec<SetupMenu> = Vec::new();
    if profile == Profile::Minimal {
        assert(r@ =~= setup_menu_order(profile, *features));
        return r;
    }
    if features.modes {
        r.push(SetupMenu::Mode);
    }
    if features.difficulty {
        r.push(SetupMenu::Difficulty);
    }
    r.push(SetupMenu::Language);
    assert(r@ =~= setup_menu_order(profile, *features));
    r
}

/// Answering a digit `k` from 1 to 3 to a three-option menu picks the k-th
/// option, counting from one; so when the options differ, the three answers
/// pick three different values, in the menu's order.
pub proof fn lemma_menu_digit_picks_that_option(input: Seq<char>, options: [&str; 3], r: MenuChoice)
    requires
        menu_choice_matches(input, options, r),
    ensures
        forall|c: char|
            trim(input) == seq![c] && '1' <= c && c <= '3' ==> (r matches MenuChoice::Pick(s) && s@
                == options[(c as u32 - '1' as u32) as int]@),
{
    reveal_strlit("1");
    reveal_strlit("2");
    reveal_strlit("3");
    assert forall|c: char|
        trim(input) == seq![c] && '1' <= c && c <= '3' implies (r matches MenuChoice::Pick(s) && s@
            == options[(c as u32 - '1' as u32) as int]@) by {
        assert(c == '1' || c == '2' || c == '3') by {
            assert(('1' as u32) + 1 == ('2' as u32));
            assert(('2' as u32) + 1 == ('3' as u32));
        }
        assert(trim(input).len() == 1 && trim(input)[0] == c);
        if c == '1' {
            assert(trim(input) =~= "1"@);
            assert((c as u32 - '1' as u32) as int == 0);
        } else if c == '2' {
            assert(trim(input) =~= "2"@);
            assert(trim(input) != "1"@);
            assert((c as u32 - '1' as u32) as int == 1);
        } else {
            assert(trim(input) =~= "3"@);
            assert(trim(input) != "1"@);
            assert(trim(input) != "2"@);
            assert((c as u32 - '1' as u32) as int == 2);
        }
    }
}

/// Typing a digit `k` from 1 to 3 at the profile question picks the k-th
/// profile of the list minimal, standard, custom; nothing else typed picks a
/// profile.
pub proof fn lemma_profile_digit(input: Seq<char>)
    ensures
        forall|c: char|
            trim(input) == seq![c] && '1' <= c && c <= '3' ==> picked_profile(input) == Some(
                seq![Profile::Minimal, Profile::Standard, Profile::Custom][(c as u32 - '1' as u32) as int],
            ),
        picked_profile(input) is Some ==> exists|c: char|
            trim(input) == seq![c] && '1' <= c && c <= '3',
{
    reveal_strlit("1");
    reveal_strlit("2");
    reveal_strlit("3");
    let opts = seq![Profile::Minimal, Profile::Standard, Profile::Custom];
    assert forall|c: char|
        trim(input) == seq![c] && '1' <= c && c <= '3' implies picked_profile(input) == Some(
            opts[(c as u32 - '1' as u32) as int],
        ) by {
        assert(c == '1' || c == '2' || c == '3') by {
            assert(('1' as u32) + 1 == ('2' as u32));
            assert(('2' as u32) + 1 == ('3' as u32));
        }
        assert(trim(input).len() == 1 && trim(input)[0] == c);
        if c == '1' {
            assert(trim(input) =~= "1"@);
            assert((c as u32 - '1' as u32) as int == 0);
        } else if c == '2' {
            assert(trim(input) =~= "2"@);
            assert(trim(input) != "1"@);
            assert((c as u32 - '1' as u32) as int == 1);
        } else {
            assert(trim(input) =~= "3"@);
            assert(trim(input) != "1"@);
            assert(trim(input) != "2"@);
            assert((c as u32 - '1' as u32) as int == 2);
        }
    }
    let t = trim(input);
    if t == "1"@ {
        assert(t == seq!['1']);
    } else if t == "2"@ {
        assert(t == seq!['2']);
    } else if t == "3"@ {
        assert(t == seq!['3']);
    }
}

} // verus!
