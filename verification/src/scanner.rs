//! Which files of a project the indexer looks at.
use vstd::prelude::*;

use crate::lang::{all_extensions, all_extensions_spec, config_for, config_for_extension, lowercase, to_lowercase};
use crate::models::{lit_chars, lit_string};
use crate::text::{
    chars_of, extend_chars, lemma_replace_removes, opt_view, ends_with, ends_with_exec, replace, replace_char_exec, split,
    split_exec, string_of, str_eq,
};

verus! {

/// A filesystem path, carried through as the platform gives it.
#[verifier::external_type_specification]
#[verifier::external_body]
pub struct ExPathBuf(std::path::PathBuf);

/// `PathBuf::clone`: trusted to give a path equal to the one cloned, as
/// std documents a clone to be a copy of the value.
pub assume_specification[ <std::path::PathBuf as std::clone::Clone>::clone ](p: &std::path::PathBuf) -> (r: std::path::PathBuf)
    ensures
        r == *p,
;

/// A file found by a scan: where it is, its path relative to the root with
/// `/` separators, its extension in lower case, its size in bytes and when
/// it was last modified (seconds since the epoch).
#[derive(Debug, Clone)]
pub struct ScanResult {
    pub path: std::path::PathBuf,
    pub rel_path: String,
    pub extension: String,
    pub size: u64,
    pub mtime: u64,
}

impl ScanResult {
    /// A copy of this result.
    pub fn copy(&self) -> (r: ScanResult)
        ensures
            r == *self,
    {
        ScanResult {
            path: self.path.clone(),
            rel_path: self.rel_path.clone(),
            extension: self.extension.clone(),
            size: self.size,
            mtime: self.mtime,
        }
    }
}

/// The file size above which files are passed over (1 MiB).
pub const DEFAULT_MAX_FILE_SIZE: u64 = 1048576;

/// Directories whose files are passed over unless default ignores are off.
pub const BUILT_IN_IGNORE_DIRS: [&'static str; 11] = [
    "node_modules",
    "vendor",
    ".venv",
    "__pycache__",
    "dist",
    "build",
    "target",
    "out",
    ".git",
    ".svn",
    ".hg",
];

/// File name endings (after a `.`) passed over unless default ignores are off.
pub const BUILT_IN_IGNORE_EXTS: [&'static str; 26] = [
    "min.js", "min.css", "map", "exe", "dll", "so", "dylib", "png", "jpg", "jpeg", "gif", "ico",
    "svg", "webp", "pdf", "zip", "tar", "gz", "bz2", "xz", "7z", "wasm", "o", "a", "lib", "bin",
];

/// How a scan is set up: where it starts, whether `.gitignore` files and
/// the built-in ignores apply, an extra ignore file, a language filter, and
/// the largest file size taken.
pub struct Scanner {
    pub root: std::path::PathBuf,
    pub no_gitignore: bool,
    pub no_default_ignores: bool,
    pub ignore_file: Option<std::path::PathBuf>,
    pub lang_filter: Option<String>,
    pub max_file_size: u64,
}

/// The views of a list of literals.
pub open spec fn lit_views(v: Seq<&'static str>) -> Seq<Seq<char>> {
    v.map_values(|e: &'static str| e@)
}

/// Whether the extension `e` belongs to the language named `l`.
pub open spec fn ext_of_language(e: Seq<char>, l: Seq<char>) -> bool {
    match config_for(lowercase(e)) {
        Some(c) => c.language@ == l,
        None => false,
    }
}

/// The extensions a scan takes: all supported ones without a language
/// filter; with one, those of the language whose extension the filter is,
/// or else those whose language the filter names.
pub open spec fn allowed_exts_spec(lang_filter: Option<Seq<char>>) -> Seq<Seq<char>> {
    match lang_filter {
        None => lit_views(all_extensions_spec()),
        Some(l) => match config_for(lowercase(l)) {
            Some(c) => lit_views(c.extensions@),
            None => lit_views(all_extensions_spec()).filter(|e: Seq<char>| ext_of_language(e, l)),
        },
    }
}

/// Whether a file is passed over by the built-in ignores: a component of
/// its path names an ignored directory, or its name ends in an ignored
/// extension.
pub open spec fn built_in_ignored(components: Seq<Seq<char>>, file_name: Seq<char>) -> bool {
    (exists|i: int| 0 <= i < components.len() && lit_views(BUILT_IN_IGNORE_DIRS@).contains(#[trigger] components[i]))
        || (exists|j: int| 0 <= j < 26 && ends_with(file_name, "."@ + (#[trigger] BUILT_IN_IGNORE_EXTS@[j])@))
}

/// The extension under which a scan takes a file, lower-cased; none when
/// it is passed over.
pub open spec fn accepted_ext_spec(
    no_default_ignores: bool,
    components: Seq<Seq<char>>,
    file_name: Seq<char>,
    extension: Option<Seq<char>>,
    allowed: Seq<Seq<char>>,
) -> Option<Seq<char>> {
    if !no_default_ignores && (exists|i: int| 0 <= i < components.len() && lit_views(BUILT_IN_IGNORE_DIRS@).contains(#[trigger] components[i])) {
        None
    } else {
        match extension {
            None => None,
            Some(e) => {
                let lower = lowercase(e);
                if !no_default_ignores && (exists|j: int| 0 <= j < 26 && ends_with(file_name, "."@ + (#[trigger] BUILT_IN_IGNORE_EXTS@[j])@)) {
                    None
                } else if !allowed.contains(lower) {
                    None
                } else {
                    Some(lower)
                }
            },
        }
    }
}

impl Scanner {
    /// A scan of `root` with `.gitignore` and the built-in ignores on, no
    /// extra ignore file, no language filter and the default size limit.
    pub fn new(root: std::path::PathBuf) -> (r: Scanner)
        ensures
            r.root == root,
            !r.no_gitignore,
            !r.no_default_ignores,
            r.ignore_file is None,
            r.lang_filter is None,
            r.max_file_size == DEFAULT_MAX_FILE_SIZE,
    {
        Scanner {
            root,
            no_gitignore: false,
            no_default_ignores: false,
            ignore_file: None,
            lang_filter: None,
            max_file_size: DEFAULT_MAX_FILE_SIZE,
        }
    }

    /// The same scan, with `.gitignore` files ignored when `v`.
    pub fn no_gitignore(self, v: bool) -> (r: Scanner)
        ensures
            r == (Scanner { no_gitignore: v, ..self }),
    {
        Scanner { no_gitignore: v, ..self }
    }

    /// The same scan, with the built-in ignores off when `v`.
    pub fn no_default_ignores(self, v: bool) -> (r: Scanner)
        ensures
            r == (Scanner { no_default_ignores: v, ..self }),
    {
        Scanner { no_default_ignores: v, ..self }
    }

    /// The same scan, with `path` as an extra ignore file.
    pub fn ignore_file(self, path: std::path::PathBuf) -> (r: Scanner)
        ensures
            r == (Scanner { ignore_file: Some(path), ..self }),
    {
        Scanner { ignore_file: Some(path), ..self }
    }

    /// The same scan, limited to the language or extension `lang`.
    pub fn lang_filter(self, lang: String) -> (r: Scanner)
        ensures
            r == (Scanner { lang_filter: Some(lang), ..self }),
    {
        Scanner { lang_filter: Some(lang), ..self }
    }

    /// The same scan, taking files of at most `size` bytes.
    pub fn max_file_size(self, size: u64) -> (r: Scanner)
        ensures
            r == (Scanner { max_file_size: size, ..self }),
    {
        Scanner { max_file_size: size, ..self }
    }

    /// The extensions this scan takes (see `allowed_exts_spec`).
    pub fn allowed_extensions(&self) -> (r: Vec<&'static str>)
        ensures
            lit_views(r@) == allowed_exts_spec(match self.lang_filter {
                Some(l) => Some(l@),
                None => None,
            }),
    {
        match &self.lang_filter {
            None => all_extensions(),
            Some(lang) => match config_for_extension(lang.as_str()) {
                Some(c) => {
                    assert(config_for(lowercase(lang@)) == Some(c));
                    let mut r: Vec<&'static str> = Vec::new();
                    let mut i: usize = 0;
                    while i < c.extensions.len()
                        invariant
                            i <= c.extensions@.len(),
                            r@ == c.extensions@.take(i as int),
                        decreases c.extensions@.len() - i,
                    {
                        r.push(c.extensions[i]);
                        assert(c.extensions@.take(i + 1) =~= c.extensions@.take(i as int).push(c.extensions@[i as int]));
                        i = i + 1;
                    }
                    assert(c.extensions@.take(i as int) =~= c.extensions@);
                    r
                },
                None => {
                    let all = all_extensions();
                    let ghost av = lit_views(all@);
                    let ghost pred = |e: Seq<char>| ext_of_language(e, lang@);
                    let mut r: Vec<&'static str> = Vec::new();
                    let mut i: usize = 0;
                    proof {
                        reveal(Seq::filter);
                        assert(av.take(0) =~= Seq::<Seq<char>>::empty());
                        assert(lit_views(r@) =~= Seq::<Seq<char>>::empty());
                    }
                    while i < all.len()
                        invariant
                            i <= all@.len(),
                            av == lit_views(all@),
                            pred == (|e: Seq<char>| ext_of_language(e, lang@)),
                            lit_views(r@) == av.take(i as int).filter(pred),
                        decreases all@.len() - i,
                    {
                        proof {
                            reveal(Seq::filter);
                        }
                        let e = all[i];
                        let keep = match config_for_extension(e) {
                            Some(c) => str_eq(c.language, lang.as_str()),
                            None => false,
                        };
                        assert(av.take(i + 1).drop_last() =~= av.take(i as int));
                        assert(av.take(i + 1).last() == e@);
                        let ghost or = r@;
                        if keep {
                            r.push(e);
                            assert(lit_views(r@) =~= lit_views(or).push(e@));
                        }
                        i = i + 1;
                    }
                    assert(av.take(i as int) =~= av);
                    r
                },
            },
        }
    }

    /// The extension, lower-cased, under which this scan takes a file with
    /// path components `components`, name `file_name` and extension
    /// `extension`, given the extensions `allowed`; `None` when it is passed
    /// over.
    pub fn accepted_extension(
        &self,
        components: &[String],
        file_name: &str,
        extension: Option<&str>,
        allowed: &[&'static str],
    ) -> (r: Option<String>)
        ensures
            opt_view(r) == accepted_ext_spec(
                self.no_default_ignores,
                components.deep_view(),
                file_name@,
                match extension {
                    Some(e) => Some(e@),
                    None => None,
                },
                lit_views(allowed@),
            ),
    {
        let dirs = BUILT_IN_IGNORE_DIRS;
        let exts = BUILT_IN_IGNORE_EXTS;
        if !self.no_default_ignores {
            let mut i: usize = 0;
            while i < components.len()
                invariant
                    !self.no_default_ignores,
                    i <= components@.len(),
                    dirs@ == BUILT_IN_IGNORE_DIRS@,
                    forall|q: int| 0 <= q < i ==> !lit_views(BUILT_IN_IGNORE_DIRS@).contains(#[trigger] components.deep_view()[q]),
                decreases components@.len() - i,
            {
                let mut k: usize = 0;
                while k < 11
                    invariant
                        !self.no_default_ignores,
                        k <= 11,
                        i < components@.len(),
                        dirs@ == BUILT_IN_IGNORE_DIRS@,
                        forall|q: int| 0 <= q < k ==> BUILT_IN_IGNORE_DIRS@[q]@ != components.deep_view()[i as int],
                    decreases 11 - k,
                {
                    assert(components.deep_view()[i as int] == components@[i as int]@);
                    if str_eq(dirs[k], components[i].as_str()) {
                        assert(lit_views(BUILT_IN_IGNORE_DIRS@)[k as int] == components.deep_view()[i as int]);
                        assert(lit_views(BUILT_IN_IGNORE_DIRS@).contains(components.deep_view()[i as int]));
                        return None;
                    }
                    k = k + 1;
                }
                assert(!lit_views(BUILT_IN_IGNORE_DIRS@).contains(components.deep_view()[i as int])) by {
                    if lit_views(BUILT_IN_IGNORE_DIRS@).contains(components.deep_view()[i as int]) {
                        let q = choose|q: int| 0 <= q < 11 && lit_views(BUILT_IN_IGNORE_DIRS@)[q] == components.deep_view()[i as int];
                        assert(BUILT_IN_IGNORE_DIRS@[q]@ != components.deep_view()[i as int]);
                    }
                }
                i = i + 1;
            }
        }
        let e = match extension {
            Some(e) => e,
            None => {
                return None;
            },
        };
        let lower = to_lowercase(e);
        if !self.no_default_ignores {
            let name = chars_of(file_name);
            let mut j: usize = 0;
            while j < 26
                invariant
                    !self.no_default_ignores,
                    extension == Some(e),
                    j <= 26,
                    exts@ == BUILT_IN_IGNORE_EXTS@,
                    name@ == file_name@,
                    forall|q: int| 0 <= q < j ==> !ends_with(file_name@, "."@ + (#[trigger] BUILT_IN_IGNORE_EXTS@[q])@),
                decreases 26 - j,
            {
                let mut suffix = lit_chars(".");
                extend_chars(&mut suffix, chars_of(exts[j]).as_slice());
                assert(suffix@ == "."@ + BUILT_IN_IGNORE_EXTS@[j as int]@);
                if ends_with_exec(name.as_slice(), suffix.as_slice()) {
                    assert(ends_with(file_name@, "."@ + BUILT_IN_IGNORE_EXTS@[j as int]@));
                    return None;
                }
                j = j + 1;
            }
        }
        let lv = chars_of(lower.as_str());
        let ghost want = accepted_ext_spec(
            self.no_default_ignores,
            components.deep_view(),
            file_name@,
            match extension {
                Some(e) => Some(e@),
                None => None,
            },
            lit_views(allowed@),
        );
        assert(want == (if lit_views(allowed@).contains(lower@) {
            Some(lower@)
        } else {
            None
        }));
        let mut a: usize = 0;
        while a < allowed.len()
            invariant
                a <= allowed@.len(),
                lv@ == lower@,
                want == (if lit_views(allowed@).contains(lower@) {
                    Some(lower@)
                } else {
                    None
                }),
                want == accepted_ext_spec(
                    self.no_default_ignores,
                    components.deep_view(),
                    file_name@,
                    match extension {
                        Some(e) => Some(e@),
                        None => None,
                    },
                    lit_views(allowed@),
                ),
                forall|q: int| 0 <= q < a ==> lit_views(allowed@)[q] != lower@,
            decreases allowed@.len() - a,
        {
            if str_eq(allowed[a], lower.as_str()) {
                assert(lit_views(allowed@)[a as int] == lower@);
                assert(lit_views(allowed@).contains(lower@));
                return Some(lower);
            }
            a = a + 1;
        }
        None
    }

    /// The extension, lower-cased, under which this scan takes the file at
    /// `rel_path` (relative to the root, `/`-separated) with extension
    /// `extension`, given the extensions `allowed`: its components are the
    /// `/`-separated parts of `rel_path`, so that only directories below
    /// the root count, and its name is the last of them.
    pub fn accepted_rel_path(&self, rel_path: &str, extension: Option<&str>, allowed: &[&'static str]) -> (r: Option<String>)
        ensures
            opt_view(r) == accepted_ext_spec(
                self.no_default_ignores,
                split(rel_path@, seq!['/']),
                split(rel_path@, seq!['/']).last(),
                match extension {
                    Some(e) => Some(e@),
                    None => None,
                },
                lit_views(allowed@),
            ),
    {
        let c = chars_of(rel_path);
        let slash = vec!['/'];
        assert(slash@ =~= seq!['/']);
        let parts = split_exec(c.as_slice(), slash.as_slice());
        proof {
            reveal_with_fuel(split, 2);
        }
        assert(parts.deep_view().len() >= 1);
        let mut comps: Vec<String> = Vec::new();
        let mut i: usize = 0;
        while i < parts.len()
            invariant
                i <= parts@.len(),
                comps@.len() == i,
                forall|q: int| 0 <= q < i ==> #[trigger] comps@[q]@ == parts.deep_view()[q],
            decreases parts@.len() - i,
        {
            assert(parts.deep_view()[i as int] == parts@[i as int]@);
            comps.push(string_of(parts[i].as_slice()));
            i = i + 1;
        }
        assert(comps.deep_view() =~= parts.deep_view());
        let last = parts.len() - 1;
        assert(parts.deep_view()[last as int] == parts@[last as int]@);
        let name = string_of(parts[last].as_slice());
        self.accepted_extension(comps.as_slice(), name.as_str(), extension, allowed)
    }

    /// Whether a file of `size` bytes is small enough for this scan.
    pub fn admits_size(&self, size: u64) -> (r: bool)
        ensures
            r == (size <= self.max_file_size),
    {
        size <= self.max_file_size
    }
}


/// What `std::path::Path::strip_prefix` gives for the path with text
/// `path` and the base with text `root`, as text: the part of `path` below
/// `root`, compared component by component, or `None` when `root` is not a
/// prefix of it.
pub uninterp spec fn stripped_of(path: Seq<char>, root: Seq<char>) -> Option<Seq<char>>;

/// The path with text `path` without its leading `root`
/// (`Path::strip_prefix`, its result as text); `None` when it does not lie
/// under `root`. Trusted: a function of the two texts alone, named
/// `stripped_of`.
#[verifier::external_body]
fn strip_root(path: &str, root: &str) -> (r: Option<String>)
    ensures
        opt_view(r) == stripped_of(path@, root@),
{
    std::path::Path::new(path).strip_prefix(root).ok().map(|p| p.to_string_lossy().into_owned())
}

/// The path `path` relative to `root`, both as text, with `/` separators:
/// the part below `root` (the whole path when `root` is not a prefix of
/// it), with each `\` turned into `/`.
pub fn normalize_path(path: &str, root: &str) -> (r: String)
    ensures
        r@ == replace(
            match stripped_of(path@, root@) {
                Some(rel) => rel,
                None => path@,
            },
            seq!['\\'],
            seq!['/'],
        ),
        !r@.contains('\\'),
{
    let rel = match strip_root(path, root) {
        Some(r) => r,
        None => lit_string(path),
    };
    let c = chars_of(rel.as_str());
    let v = replace_char_exec(c.as_slice(), '\\', '/');
    proof {
        lemma_replace_removes(c@, '\\', '/');
    }
    string_of(v.as_slice())
}

} // verus!
