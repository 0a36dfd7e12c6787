//! Model files and paths.
use vstd::prelude::*;
use crate::text::{
    append_chars, chars_eq, chars_of, copy_range, ends_with, lowercase, lowercase_chars, lowers_ascii, starts_with,
    starts_with_exec, string_of,
};

verus! {

/// The model file for a model name: the name itself if it ends in `.gguf`,
/// else the name with `.gguf` added.
pub open spec fn model_file_name(model: Seq<char>) -> Seq<char> {
    if ends_with(model, ".gguf"@) {
        model
    } else {
        model + ".gguf"@
    }
}

pub fn model_filename(model: &str) -> (r: String)
    ensures
        r@ == model_file_name(model@),
{
    let m = chars_of(model);
    let ext = chars_of(".gguf");
    let n = m.len();
    let ends = if ext.len() <= n {
        let tail = copy_range(m.as_slice(), n - ext.len(), n);
        assert(tail@ =~= m@.skip(m@.len() - ext@.len()));
        chars_eq(tail.as_slice(), ext.as_slice())
    } else {
        false
    };
    let mut r = m;
    if !ends {
        append_chars(&mut r, ext.as_slice());
    }
    string_of(r.as_slice())
}

/// The model names that count as the default model.
pub open spec fn is_default_model_name(model: Seq<char>) -> bool {
    model == "Qwen2.5-Coder-1.5B-Instruct-Q4_K_M.gguf"@ || model
        == "Qwen2.5-Coder-1.5B-Instruct-Q4_K_M"@ || model
        == "qwen2.5-coder-0.5b-instruct-q4_k_m.gguf"@ || model
        == "qwen2.5-coder-0.5b-instruct-q4_k_m"@
}

pub fn is_default_model(model: &str) -> (b: bool)
    ensures
        b == is_default_model_name(model@),
{
    let m = chars_of(model);
    chars_eq(m.as_slice(), chars_of("Qwen2.5-Coder-1.5B-Instruct-Q4_K_M.gguf").as_slice())
        || chars_eq(m.as_slice(), chars_of("Qwen2.5-Coder-1.5B-Instruct-Q4_K_M").as_slice())
        || chars_eq(m.as_slice(), chars_of("qwen2.5-coder-0.5b-instruct-q4_k_m.gguf").as_slice())
        || chars_eq(m.as_slice(), chars_of("qwen2.5-coder-0.5b-instruct-q4_k_m").as_slice())
}

/// A model file is the active model when the two names agree once lowercased.
pub open spec fn is_active_model_file(file_name: Seq<char>, active: Seq<char>) -> bool {
    lowercase(file_name) == lowercase(model_file_name(active))
}

pub fn is_active_model(file_name: &str, active: &str) -> (b: bool)
    ensures
        b == is_active_model_file(file_name@, active@),
        lowers_ascii(file_name@),
        lowers_ascii(model_file_name(active@)),
{
    let f = chars_of(file_name);
    let lf = lowercase_chars(f.as_slice());
    let a = model_filename(active);
    let af = chars_of(a.as_str());
    let la = lowercase_chars(af.as_slice());
    chars_eq(lf.as_slice(), la.as_slice())
}

/// A path without the `\\?\` prefix of Windows extended-length paths.
pub open spec fn cleaned_path(path: Seq<char>) -> Seq<char> {
    if starts_with(path, "\\\\?\\"@) {
        path.skip(4)
    } else {
        path
    }
}

pub fn clean_path(path: &str) -> (r: String)
    ensures
        r@ == cleaned_path(path@),
{
    let p = chars_of(path);
    let prefix = chars_of("\\\\?\\");
    proof {
        reveal_strlit("\\\\?\\");
    }
    if starts_with_exec(p.as_slice(), prefix.as_slice()) {
        let rest = copy_range(p.as_slice(), 4, p.len());
        assert(rest@ =~= p@.skip(4));
        string_of(rest.as_slice())
    } else {
        string_of(p.as_slice())
    }
}

} // verus!
