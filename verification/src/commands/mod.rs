//! The decisions of the command-line commands, apart from their I/O.
pub mod edit;
pub mod graph;
pub mod index;
pub mod open;
pub mod outline;
pub mod project;
pub mod search;

use vstd::prelude::*;

use crate::lang::{
    all_extensions, all_extensions_spec, config_for, config_for_extension, lowercase,
    to_lowercase,
};
use crate::models::lit_chars;
use crate::text::{chars_of, extend_chars, join, join_exec, string_of, trim, trim_exec};

verus! {

/// The message for an option that must be positive.
pub open spec fn nonzero_error_text(name: Seq<char>) -> Seq<char> {
    "invalid "@ + name + ": expected > 0"@
}

/// Refuses a zero `value` for the option `name`.
pub fn validate_nonzero(name: &str, value: u64) -> (r: Result<(), String>)
    ensures
        value != 0 ==> r is Ok,
        value == 0 ==> (r matches Err(m) && m@ == nonzero_error_text(name@)),
{
    if value == 0 {
        let mut m = lit_chars("invalid ");
        let n = chars_of(name);
        extend_chars(&mut m, n.as_slice());
        let tail = lit_chars(": expected > 0");
        extend_chars(&mut m, tail.as_slice());
        assert(m@ =~= nonzero_error_text(name@));
        return Err(string_of(m.as_slice()));
    }
    Ok(())
}

/// The views of a list of names.
pub open spec fn str_views(v: Seq<&str>) -> Seq<Seq<char>> {
    v.map_values(|s: &str| s@)
}

/// The message for an output format that is not allowed.
pub open spec fn fmt_error_text(fmt: Seq<char>, allowed: Seq<Seq<char>>) -> Seq<char> {
    "unsupported fmt '"@ + fmt + "': expected "@ + join(allowed, seq!['|'])
}

/// Accepts `fmt` only if it is one of `allowed`.
pub fn validate_fmt(fmt: &str, allowed: &[&str]) -> (r: Result<(), String>)
    ensures
        str_views(allowed@).contains(fmt@) ==> r is Ok,
        !str_views(allowed@).contains(fmt@) ==> (r matches Err(m) && m@ == fmt_error_text(
            fmt@,
            str_views(allowed@),
        )),
{
    let f = chars_of(fmt);
    let mut names: Vec<Vec<char>> = Vec::new();
    let mut i: usize = 0;
    while i < allowed.len()
        invariant
            i <= allowed@.len(),
            f@ == fmt@,
            names.deep_view() == str_views(allowed@).take(i as int),
            forall|j: int| 0 <= j < i ==> allowed@[j]@ != fmt@,
        decreases allowed@.len() - i,
    {
        let a = chars_of(allowed[i]);
        if crate::text::chars_eq(a.as_slice(), f.as_slice()) {
            assert(str_views(allowed@)[i as int] == fmt@);
            return Ok(());
        }
        let ghost old_names = names.deep_view();
        names.push(a);
        proof {
            assert(names[i as int].deep_view() =~= names[i as int]@);
            assert(names.deep_view() =~= old_names.push(allowed@[i as int]@));
            assert(str_views(allowed@).take(i + 1) =~= str_views(allowed@).take(i as int).push(
                allowed@[i as int]@,
            ));
        }
        i = i + 1;
    }
    proof {
        assert(str_views(allowed@).take(i as int) =~= str_views(allowed@));
        assert forall|j: int| 0 <= j < str_views(allowed@).len() implies str_views(allowed@)[j]
            != fmt@ by {}
    }
    let mut m = lit_chars("unsupported fmt '");
    extend_chars(&mut m, f.as_slice());
    let mid = lit_chars("': expected ");
    extend_chars(&mut m, mid.as_slice());
    let bar = vec!['|'];
    let joined = join_exec(&names, bar.as_slice());
    assert(bar@ =~= seq!['|']);
    extend_chars(&mut m, joined.as_slice());
    assert(m@ =~= fmt_error_text(fmt@, str_views(allowed@)));
    Err(string_of(m.as_slice()))
}

/// A language filter is accepted when, trimmed and lowercased, it is not
/// empty and names a supported extension or a supported language.
pub open spec fn lang_filter_ok(lang: Seq<char>) -> bool {
    let n = lowercase(trim(lang));
    n.len() != 0 && (config_for(lowercase(n)) is Some || exists|j: int|
        0 <= j < all_extensions_spec().len() && match config_for(
            lowercase(#[trigger] all_extensions_spec()[j]@),
        ) {
            Some(c) => c.language@ == n,
            None => false,
        })
}

/// Whether a language filter names a supported extension or language.
pub fn validate_lang_filter(lang: &str) -> (r: bool)
    ensures
        r == lang_filter_ok(lang@),
{
    let cs = chars_of(lang);
    let trimmed = trim_exec(cs.as_slice());
    let trimmed_s = string_of(trimmed.as_slice());
    let normalized = to_lowercase(trimmed_s.as_str());
    let nchars = chars_of(normalized.as_str());
    if nchars.len() == 0 {
        return false;
    }
    if config_for_extension(normalized.as_str()).is_some() {
        return true;
    }
    let exts = all_extensions();
    let mut i: usize = 0;
    while i < exts.len()
        invariant
            exts@ == all_extensions_spec(),
            nchars@ == lowercase(trim(lang@)),
            nchars@.len() != 0,
            i <= exts@.len(),
            forall|j: int|
                0 <= j < i ==> match config_for(lowercase(#[trigger] all_extensions_spec()[j]@)) {
                    Some(c) => c.language@ != nchars@,
                    None => true,
                },
        decreases exts@.len() - i,
    {
        match config_for_extension(exts[i]) {
            Some(c) => {
                let l = chars_of(c.language);
                if crate::text::chars_eq(l.as_slice(), nchars.as_slice()) {
                    assert(exts@[i as int] == all_extensions_spec()[i as int]);
                    assert(match config_for(lowercase(all_extensions_spec()[i as int]@)) {
                        Some(c) => c.language@ == lowercase(trim(lang@)),
                        None => false,
                    });
                    return true;
                }
            },
            None => {},
        }
        i = i + 1;
    }
    false
}

} // verus!
