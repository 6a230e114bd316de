//! Heuristics over names of functions and files: which names suggest a split,
//! a merge or an extracted method, and which files are related.
use vstd::prelude::*;
use vstd::utf8::encode_utf8;
use crate::text::{is_substring, is_prefix, lowercase, to_lowercase, str_contains, str_starts_with, chars_of};
use crate::paths::{parent_of_path, file_stem_of_path, same_parent, same_parent_dir, path_file_stem};

verus! {

/// The characters whose UTF-8 encoding is the first `n` bytes of `s`'s
/// encoding, when `n` falls on a character boundary.
pub open spec fn byte_prefix(s: Seq<char>, n: nat) -> Option<Seq<char>> {
    if exists|k: int| 0 <= k <= s.len() && encode_utf8(s.take(k)).len() == n {
        let k = choose|k: int| 0 <= k <= s.len() && encode_utf8(s.take(k)).len() == n;
        Some(s.take(k))
    } else {
        None
    }
}

/// The UTF-8 length of `s`.
pub open spec fn byte_len(s: Seq<char>) -> nat {
    encode_utf8(s).len()
}

proof fn lemma_encode_take_monotone(s: Seq<char>, k: int, m: int)
    requires
        0 <= k <= m <= s.len(),
    ensures
        encode_utf8(s.take(k)).len() <= encode_utf8(s.take(m)).len(),
        k < m ==> encode_utf8(s.take(k)).len() < encode_utf8(s.take(m)).len(),
    decreases m - k,
{
    if k < m {
        lemma_encode_take_monotone(s, k, m - 1);
        assert(s.take(m) =~= s.take(m - 1) + seq![s[m - 1]]);
        crate::text::lemma_encode_utf8_concat(s.take(m - 1), seq![s[m - 1]]);
        crate::text::lemma_encode_utf8_single(s[m - 1]);
    }
}

/// The first `n` bytes of `s`, as characters, when `n` falls on a character
/// boundary; `None` where slicing `&s[..n]` would panic.
pub fn take_bytes(s: &str, n: usize) -> (res: Option<String>)
    ensures
        match res {
            Some(p) => byte_prefix(s@, n as nat) == Some(p@),
            None => byte_prefix(s@, n as nat) is None,
        },
{
    let chars = chars_of(s);
    let mut res = String::new();
    let mut bytes: usize = 0;
    let mut i: usize = 0;
    assert(s@.take(0) =~= Seq::<char>::empty());
    while i < chars.len() && bytes < n
        invariant
            chars@ == s@,
            i <= chars.len(),
            res@ == s@.take(i as int),
            bytes as nat == encode_utf8(s@.take(i as int)).len(),
            bytes <= n,
        decreases chars.len() - i,
    {
        let c = chars[i];
        let w = crate::text::utf8_width(c);
        proof {
            assert(s@.take(i + 1) =~= s@.take(i as int) + seq![c]);
            crate::text::lemma_encode_utf8_concat(s@.take(i as int), seq![c]);
        }
        if w > n - bytes {
            // the character straddles byte `n`
            proof {
                lemma_no_prefix_at(s@, i as int, n as nat);
            }
            return None;
        }
        crate::text::push_char(&mut res, c);
        assert(res@ =~= s@.take(i + 1));
        bytes = bytes + w;
        i += 1;
    }
    if bytes == n {
        assert(encode_utf8(s@.take(i as int)).len() == n);
        proof {
            lemma_prefix_unique(s@, i as int, n as nat);
        }
        Some(res)
    } else {
        // the string ends before byte `n`
        proof {
            assert(i == chars.len());
            assert(s@.take(i as int) =~= s@);
            assert forall|k: int| 0 <= k <= s@.len() implies encode_utf8(s@.take(k)).len() != n by {
                lemma_encode_take_monotone(s@, k, s@.len() as int);
            }
        }
        None
    }
}

proof fn lemma_prefix_unique(s: Seq<char>, i: int, n: nat)
    requires
        0 <= i <= s.len(),
        encode_utf8(s.take(i)).len() == n,
    ensures
        byte_prefix(s, n) == Some(s.take(i)),
{
    let k = choose|k: int| 0 <= k <= s.len() && encode_utf8(s.take(k)).len() == n;
    if k < i {
        lemma_encode_take_monotone(s, k, i);
    } else if k > i {
        lemma_encode_take_monotone(s, i, k);
    }
}

proof fn lemma_no_prefix_at(s: Seq<char>, i: int, n: nat)
    requires
        0 <= i < s.len(),
        encode_utf8(s.take(i)).len() < n < encode_utf8(s.take(i + 1)).len(),
    ensures
        byte_prefix(s, n) is None,
{
    assert forall|k: int| 0 <= k <= s.len() implies encode_utf8(s.take(k)).len() != n by {
        if k <= i {
            lemma_encode_take_monotone(s, k, i);
        } else {
            lemma_encode_take_monotone(s, i + 1, k);
        }
    }
}

// ---------------------------------------------------------------------------
// Split and merge names
// ---------------------------------------------------------------------------

/// The words whose presence in a name suggests a split-off function.
pub open spec fn split_words() -> Seq<Seq<char>> {
    seq!["part"@, "step"@, "phase"@, "stage"@, "helper"@, "util"@, "validate"@, "process"@, "handle"@]
}

/// The words whose presence in a name suggests a merged function.
pub open spec fn merge_words() -> Seq<Seq<char>> {
    seq!["combined"@, "unified"@, "merged"@, "consolidated"@, "integrated"@]
}

/// `split` has a split word and shares the first five bytes of `original`
/// (which is longer than five bytes), both in lower case.
pub open spec fn shares_split_root(original: Seq<char>, split: Seq<char>) -> bool {
    (exists|i: int| 0 <= i < split_words().len() && is_substring(split, #[trigger] split_words()[i]))
        && byte_len(original) > 5 && match byte_prefix(original, 5) {
        Some(root) => is_substring(split, root),
        None => false,
    }
}

/// A name suggests a split from `original`: one lower-cased name contains
/// the other, or the split name has a split word and holds the first five
/// bytes of the original name.
pub open spec fn potential_split(original: Seq<char>, split: Seq<char>) -> bool {
    let o = lowercase(original);
    let s = lowercase(split);
    is_substring(s, o) || is_substring(o, s) || shares_split_root(o, s)
}

/// Taking the first five bytes of the lower-cased original name is possible
/// whenever a split word is found and the name is longer than five bytes.
pub open spec fn split_root_defined(original: Seq<char>, split: Seq<char>) -> bool {
    let o = lowercase(original);
    let s = lowercase(split);
    (exists|i: int| 0 <= i < split_words().len() && is_substring(s, #[trigger] split_words()[i]))
        && byte_len(o) > 5 ==> byte_prefix(o, 5) is Some
}

fn any_word_in(hay: &str, words: &Vec<&str>) -> (res: bool)
    ensures
        res == exists|i: int| 0 <= i < words@.len() && is_substring(hay@, (#[trigger] words@[i])@),
{
    let mut i: usize = 0;
    while i < words.len()
        invariant
            i <= words.len(),
            forall|k: int| 0 <= k < i ==> !is_substring(hay@, (#[trigger] words@[k])@),
        decreases words.len() - i,
    {
        if str_contains(hay, words[i]) {
            return true;
        }
        i += 1;
    }
    false
}

fn split_word_list() -> (res: Vec<&'static str>)
    ensures
        res@.len() == split_words().len(),
        forall|i: int| 0 <= i < res@.len() ==> (#[trigger] res@[i])@ == split_words()[i],
{
    vec!["part", "step", "phase", "stage", "helper", "util", "validate", "process", "handle"]
}

fn merge_word_list() -> (res: Vec<&'static str>)
    ensures
        res@.len() == merge_words().len(),
        forall|i: int| 0 <= i < res@.len() ==> (#[trigger] res@[i])@ == merge_words()[i],
{
    vec!["combined", "unified", "merged", "consolidated", "integrated"]
}

/// Whether `split_name` suggests a function split from `original_name`.
/// Where the first five bytes of the lower-cased original name end inside a
/// character, slicing them would panic: that input is left out.
pub fn is_potential_split_function(original_name: &str, split_name: &str) -> (res: bool)
    requires
        split_root_defined(original_name@, split_name@),
    ensures
        res == potential_split(original_name@, split_name@),
        is_substring(lowercase(split_name@), lowercase(original_name@)) ==> res,
        is_substring(lowercase(original_name@), lowercase(split_name@)) ==> res,
{
    proof {
        lemma_split_merge_laws(original_name@, split_name@);
        lemma_split_merge_laws(split_name@, original_name@);
    }
    let original_lower = to_lowercase(original_name);
    let split_lower = to_lowercase(split_name);
    if str_contains(split_lower.as_str(), original_lower.as_str()) || str_contains(
        original_lower.as_str(),
        split_lower.as_str(),
    ) {
        return true;
    }
    let words = split_word_list();
    let has_word = any_word_in(split_lower.as_str(), &words);
    proof {
        assert(has_word == exists|i: int| 0 <= i < split_words().len() && is_substring(split_lower@, #[trigger] split_words()[i])) by {
            if has_word {
                let i = choose|i: int| 0 <= i < words@.len() && is_substring(split_lower@, (#[trigger] words@[i])@);
                assert(words@[i]@ == split_words()[i]);
            }
            if exists|i: int| 0 <= i < split_words().len() && is_substring(split_lower@, #[trigger] split_words()[i]) {
                let i = choose|i: int| 0 <= i < split_words().len() && is_substring(split_lower@, #[trigger] split_words()[i]);
                assert(words@[i]@ == split_words()[i]);
            }
        }
    }
    if has_word && crate::text::byte_length(original_lower.as_str()) > 5 {
        match take_bytes(original_lower.as_str(), 5) {
            Some(root) => str_contains(split_lower.as_str(), root.as_str()),
            None => false,
        }
    } else {
        false
    }
}

/// Whether `split_name` suggests a split from `original_name`, or `None`
/// where that question cannot be asked (see `is_potential_split_function`).
pub fn checked_potential_split_function(original_name: &str, split_name: &str) -> (res: Option<bool>)
    ensures
        match res {
            Some(b) => split_root_defined(original_name@, split_name@) && b == potential_split(original_name@, split_name@),
            None => !split_root_defined(original_name@, split_name@),
        },
{
    let original_lower = to_lowercase(original_name);
    let split_lower = to_lowercase(split_name);
    let words = split_word_list();
    let has_word = any_word_in(split_lower.as_str(), &words);
    proof {
        assert(has_word == exists|i: int| 0 <= i < split_words().len() && is_substring(split_lower@, #[trigger] split_words()[i])) by {
            if has_word {
                let i = choose|i: int| 0 <= i < words@.len() && is_substring(split_lower@, (#[trigger] words@[i])@);
                assert(words@[i]@ == split_words()[i]);
            }
            if exists|i: int| 0 <= i < split_words().len() && is_substring(split_lower@, #[trigger] split_words()[i]) {
                let i = choose|i: int| 0 <= i < split_words().len() && is_substring(split_lower@, #[trigger] split_words()[i]);
                assert(words@[i]@ == split_words()[i]);
            }
        }
    }
    if has_word && crate::text::byte_length(original_lower.as_str()) > 5 {
        if take_bytes(original_lower.as_str(), 5).is_none() {
            return None;
        }
    }
    Some(is_potential_split_function(original_name, split_name))
}

/// A name suggests a merge of `source`: one lower-cased name contains the
/// other, or the merged name has a merge word.
pub open spec fn potential_merge(source: Seq<char>, merged: Seq<char>) -> bool {
    let s = lowercase(source);
    let m = lowercase(merged);
    is_substring(m, s) || is_substring(s, m) || exists|i: int| 0 <= i < merge_words().len() && is_substring(
        m,
        #[trigger] merge_words()[i],
    )
}

proof fn lemma_substring_self(s: Seq<char>)
    ensures
        is_substring(s, s),
{
    assert(s.subrange(0, s.len() as int) =~= s);
    assert(crate::text::occurs_at(s, s, 0));
}

/// Names that contain one another (ignoring case) suggest both a split and
/// a merge, in either direction; in particular every name does so of
/// itself.  A merged name holding one of the merge words suggests a merge
/// of any source.
pub proof fn lemma_split_merge_laws(a: Seq<char>, b: Seq<char>)
    ensures
        potential_split(a, a),
        potential_merge(a, a),
        is_substring(lowercase(b), lowercase(a)) ==> potential_split(a, b) && potential_split(b, a)
            && potential_merge(a, b) && potential_merge(b, a),
        (exists|i: int| 0 <= i < merge_words().len() && is_substring(lowercase(b), #[trigger] merge_words()[i]))
            ==> potential_merge(a, b),
{
    lemma_substring_self(lowercase(a));
}

/// Whether `merged_name` suggests a merge that absorbed `source_name`.
pub fn is_potential_merge_function(source_name: &str, merged_name: &str) -> (res: bool)
    ensures
        res == potential_merge(source_name@, merged_name@),
        is_substring(lowercase(merged_name@), lowercase(source_name@)) ==> res,
        is_substring(lowercase(source_name@), lowercase(merged_name@)) ==> res,
{
    proof {
        lemma_split_merge_laws(source_name@, merged_name@);
        lemma_split_merge_laws(merged_name@, source_name@);
    }
    let source_lower = to_lowercase(source_name);
    let merged_lower = to_lowercase(merged_name);
    if str_contains(merged_lower.as_str(), source_lower.as_str()) || str_contains(
        source_lower.as_str(),
        merged_lower.as_str(),
    ) {
        return true;
    }
    let words = merge_word_list();
    let r = any_word_in(merged_lower.as_str(), &words);
    proof {
        if r {
            let i = choose|i: int| 0 <= i < words@.len() && is_substring(merged_lower@, (#[trigger] words@[i])@);
            assert(words@[i]@ == merge_words()[i]);
        }
        if exists|i: int| 0 <= i < merge_words().len() && is_substring(merged_lower@, #[trigger] merge_words()[i]) {
            let i = choose|i: int| 0 <= i < merge_words().len() && is_substring(merged_lower@, #[trigger] merge_words()[i]);
            assert(words@[i]@ == merge_words()[i]);
        }
    }
    r
}

// ---------------------------------------------------------------------------
// Extracted-method names
// ---------------------------------------------------------------------------

/// Words that an extracted method's name often contains.
pub open spec fn extract_words() -> Seq<Seq<char>> {
    seq!["validate"@, "calculate"@, "process"@, "handle"@, "check"@, "parse"@, "format"@, "helper"@]
}

/// Prefixes that an extracted method's name often starts with.
pub open spec fn extract_prefixes() -> Seq<Seq<char>> {
    seq!["do"@, "get"@, "set"@, "is"@, "has"@]
}

/// The lower-cased name contains one of the extract words or starts with
/// one of the extract prefixes.
pub open spec fn extract_method_name(name: Seq<char>) -> bool {
    let n = lowercase(name);
    (exists|i: int| 0 <= i < extract_words().len() && is_substring(n, #[trigger] extract_words()[i]))
        || (exists|i: int| 0 <= i < extract_prefixes().len() && is_prefix(n, #[trigger] extract_prefixes()[i]))
}

/// Whether `name` follows the naming of extracted methods.
pub fn is_extract_method_name_pattern(name: &str) -> (res: bool)
    ensures
        res == extract_method_name(name@),
{
    let n = to_lowercase(name);
    let words: Vec<&str> = vec!["validate", "calculate", "process", "handle", "check", "parse", "format", "helper"];
    let prefixes: Vec<&str> = vec!["do", "get", "set", "is", "has"];
    assert(words@.len() == extract_words().len());
    assert(forall|i: int| 0 <= i < words@.len() ==> (#[trigger] words@[i])@ == extract_words()[i]);
    let a = any_word_in(n.as_str(), &words);
    let mut b = false;
    let mut k: usize = 0;
    while k < prefixes.len()
        invariant
            k <= prefixes.len(),
            prefixes@.len() == extract_prefixes().len(),
            forall|i: int| 0 <= i < prefixes@.len() ==> (#[trigger] prefixes@[i])@ == extract_prefixes()[i],
            b == exists|i: int| 0 <= i < k && is_prefix(n@, #[trigger] extract_prefixes()[i]),
        decreases prefixes.len() - k,
    {
        if str_starts_with(n.as_str(), prefixes[k]) {
            b = true;
        }
        k += 1;
    }
    proof {
        if a {
            let i = choose|i: int| 0 <= i < words@.len() && is_substring(n@, (#[trigger] words@[i])@);
            assert(is_substring(n@, extract_words()[i]));
        }
        if exists|i: int| 0 <= i < extract_words().len() && is_substring(n@, #[trigger] extract_words()[i]) {
            let i = choose|i: int| 0 <= i < extract_words().len() && is_substring(n@, #[trigger] extract_words()[i]);
            assert(is_substring(n@, words@[i]@));
        }
    }
    a || b
}

// ---------------------------------------------------------------------------
// Related files
// ---------------------------------------------------------------------------

/// The stem of a path, or the empty name where it has none.
pub open spec fn stem_or_empty(p: Seq<char>) -> Seq<char> {
    match file_stem_of_path(p) {
        Some(s) => s,
        None => Seq::empty(),
    }
}

/// Two files are related when they share a parent directory, when one stem
/// contains the other, or when both stems are longer than three bytes and
/// their first three bytes agree.
pub open spec fn files_related(file1: Seq<char>, file2: Seq<char>) -> bool {
    let n1 = stem_or_empty(file1);
    let n2 = stem_or_empty(file2);
    same_parent(parent_of_path(file1), parent_of_path(file2)) || is_substring(n1, n2) || is_substring(n2, n1)
        || (byte_len(n1) > 3 && byte_len(n2) > 3 && byte_prefix(n1, 3) == byte_prefix(n2, 3))
}

/// Slicing the first three bytes of both stems is possible whenever it is
/// reached.
pub open spec fn stem_prefixes_defined(file1: Seq<char>, file2: Seq<char>) -> bool {
    let n1 = stem_or_empty(file1);
    let n2 = stem_or_empty(file2);
    byte_len(n1) > 3 && byte_len(n2) > 3 ==> byte_prefix(n1, 3) is Some && byte_prefix(n2, 3) is Some
}

fn stem_string(p: &str) -> (res: String)
    ensures
        res@ == stem_or_empty(p@),
{
    match path_file_stem(p) {
        Some(s) => s,
        None => String::new(),
    }
}

/// Whether two files are related (same directory or similar names).  Where
/// a stem's first three bytes end inside a character, slicing them would
/// panic: that input is left out.
pub fn are_files_related(file1: &str, file2: &str) -> (res: bool)
    requires
        stem_prefixes_defined(file1@, file2@),
    ensures
        res == files_related(file1@, file2@),
{
    if same_parent_dir(file1, file2) {
        return true;
    }
    let n1 = stem_string(file1);
    let n2 = stem_string(file2);
    if str_contains(n1.as_str(), n2.as_str()) || str_contains(n2.as_str(), n1.as_str()) {
        return true;
    }
    if crate::text::byte_length(n1.as_str()) > 3 && crate::text::byte_length(n2.as_str()) > 3 {
        let p1 = take_bytes(n1.as_str(), 3);
        let p2 = take_bytes(n2.as_str(), 3);
        match (p1, p2) {
            (Some(a), Some(b)) => {
                return a == b;
            },
            _ => {
                return false;
            },
        }
    }
    false
}

/// Whether two files are related, or `None` where that question cannot be
/// asked (see `are_files_related`).
pub fn checked_files_related(file1: &str, file2: &str) -> (res: Option<bool>)
    ensures
        match res {
            Some(b) => stem_prefixes_defined(file1@, file2@) && b == files_related(file1@, file2@),
            None => !stem_prefixes_defined(file1@, file2@),
        },
{
    let n1 = stem_string(file1);
    let n2 = stem_string(file2);
    if crate::text::byte_length(n1.as_str()) > 3 && crate::text::byte_length(n2.as_str()) > 3 {
        if take_bytes(n1.as_str(), 3).is_none() || take_bytes(n2.as_str(), 3).is_none() {
            return None;
        }
    }
    Some(are_files_related(file1, file2))
}

} // verus!
