//! File-level refactorings: content fingerprints of files, the overlap of
//! their identifiers, and how a file that found a counterpart was relocated
//! (moved, renamed, or both).
use vstd::prelude::*;
use std::collections::hash_map::DefaultHasher;
use vstd::std_specs::hash::DefaultHasherAdditionalSpecFns;
use crate::text::{
    lines, split_lines, string_views, without_white_space, remove_whitespace, is_white_space,
    char_is_whitespace, chars_of, push_char, digit_char,
};
use crate::paths::{parent_of_path, file_name_of_path, same_parent, same_parent_dir, path_file_name};

verus! {

// ---------------------------------------------------------------------------
// Hashes
// ---------------------------------------------------------------------------

/// What `<str as Hash>::hash` writes into a hasher for `s`.
pub uninterp spec fn str_hash_writes(s: Seq<char>) -> Seq<Seq<u8>>;

/// `<str as std::hash::Hash>::hash` into a `DefaultHasher`: it appends to
/// the hasher's writes those that `str_hash_writes` names for `s`; nothing
/// more is claimed of them.
#[verifier::external_body]
fn hash_str_into(s: &str, state: &mut DefaultHasher)
    ensures
        final(state)@ == old(state)@ + str_hash_writes(s@),
{
    std::hash::Hash::hash(s, state)
}

/// The hash of `s` by a fresh `DefaultHasher`.
pub open spec fn default_hash(s: Seq<char>) -> u64 {
    DefaultHasher::spec_finish(Seq::<Seq<u8>>::empty() + str_hash_writes(s))
}

/// The hexadecimal digit for `d < 16`, in lower case.
pub open spec fn hex_digit(d: nat) -> char {
    if d < 10 { digit_char(d) }
    else if d == 10 { 'a' }
    else if d == 11 { 'b' }
    else if d == 12 { 'c' }
    else if d == 13 { 'd' }
    else if d == 14 { 'e' }
    else { 'f' }
}

/// The lower-case hexadecimal notation of `n`, without leading zeros.
pub open spec fn hex(n: nat) -> Seq<char>
    decreases n,
{
    if n < 16 { seq![hex_digit(n)] } else { hex(n / 16).push(hex_digit(n % 16)) }
}

fn hex_digit_exec(d: u64) -> (c: char)
    requires
        d < 16,
    ensures
        c == hex_digit(d as nat),
{
    if d == 0 { '0' }
    else if d == 1 { '1' }
    else if d == 2 { '2' }
    else if d == 3 { '3' }
    else if d == 4 { '4' }
    else if d == 5 { '5' }
    else if d == 6 { '6' }
    else if d == 7 { '7' }
    else if d == 8 { '8' }
    else if d == 9 { '9' }
    else if d == 10 { 'a' }
    else if d == 11 { 'b' }
    else if d == 12 { 'c' }
    else if d == 13 { 'd' }
    else if d == 14 { 'e' }
    else { 'f' }
}

/// Appends the hexadecimal notation of `n` to `res`.
pub(crate) fn push_hex(res: &mut String, n: u64)
    ensures
        final(res)@ == old(res)@ + hex(n as nat),
    decreases n,
{
    if n >= 16 {
        push_hex(res, n / 16);
    }
    let c = hex_digit_exec(n % 16);
    push_char(res, c);
    assert(final(res)@ =~= old(res)@ + hex(n as nat));
}

/// The hash of `s` by a fresh `DefaultHasher`, in hexadecimal.
pub fn hash_hex(s: &str) -> (res: String)
    ensures
        res@ == hex(default_hash(s@) as nat),
{
    let mut hasher = DefaultHasher::new();
    hash_str_into(s, &mut hasher);
    let h = std::hash::Hasher::finish(&hasher);
    let mut res = String::new();
    push_hex(&mut res, h);
    assert(res@ =~= hex(default_hash(s@) as nat));
    res
}

// ---------------------------------------------------------------------------
// Identifiers
// ---------------------------------------------------------------------------

/// For the regular expression `pattern` and the text `text`: `None` where
/// the pattern does not compile; otherwise, for each successive
/// non-overlapping match, the text of its first group where the group took
/// part in the match.
pub uninterp spec fn regex_first_groups(pattern: Seq<char>, text: Seq<char>) -> Option<Seq<Option<Seq<char>>>>;

pub open spec fn opt_views(v: Seq<Option<String>>) -> Seq<Option<Seq<char>>> {
    Seq::new(v.len(), |i: int| match v[i] { Some(s) => Some(s@), None => None })
}

/// `regex::Regex::new(pattern)`, then for each capture of
/// `Regex::captures_iter(text)` its group 1 (`Captures::get(1)`) as text.
/// What it returns is named `regex_first_groups`; nothing more is claimed.
#[verifier::external_body]
fn regex_group_one(pattern: &str, text: &str) -> (res: Option<Vec<Option<String>>>)
    ensures
        match res {
            Some(v) => regex_first_groups(pattern@, text@) == Some(opt_views(v@)),
            None => regex_first_groups(pattern@, text@) is None,
        },
{
    let re = regex::Regex::new(pattern).ok()?;
    Some(re.captures_iter(text).map(|cap| cap.get(1).map(|m| m.as_str().to_string())).collect())
}

/// The patterns that introduce identifiers: declarations of classes,
/// interfaces, functions, constants and variables.
pub open spec fn identifier_patterns() -> Seq<Seq<char>> {
    seq![
        "class\\s+(\\w+)"@, "interface\\s+(\\w+)"@, "function\\s+(\\w+)"@, "def\\s+(\\w+)"@,
        "fn\\s+(\\w+)"@, "const\\s+(\\w+)"@, "let\\s+(\\w+)"@, "var\\s+(\\w+)"@,
    ]
}

/// Pattern `p` captures `id` on line `l` of `ls`.
pub open spec fn captured(ls: Seq<Seq<char>>, l: int, p: int, id: Seq<char>) -> bool {
    &&& 0 <= l < ls.len()
    &&& 0 <= p < identifier_patterns().len()
    &&& match regex_first_groups(identifier_patterns()[p], ls[l]) {
        Some(gs) => gs.contains(Some(id)),
        None => false,
    }
}

/// `id` is an identifier of `content`: some pattern captures it on some line.
pub open spec fn is_identifier_of(content: Seq<char>, id: Seq<char>) -> bool {
    exists|l: int, p: int| #[trigger] captured(lines(content), l, p, id)
}

/// `id` is captured on a line before `l`, or on line `l` by a pattern
/// before `p`.
pub open spec fn captured_before(ls: Seq<Seq<char>>, l: int, p: int, id: Seq<char>) -> bool {
    exists|l2: int, p2: int| (l2 < l || (l2 == l && p2 < p)) && #[trigger] captured(ls, l2, p2, id)
}

/// No element occurs twice.
pub open spec fn distinct(v: Seq<Seq<char>>) -> bool {
    forall|i: int, j: int| 0 <= i < j < v.len() ==> v[i] != v[j]
}

fn contains_view(v: &Vec<String>, s: &String) -> (res: bool)
    ensures
        res == string_views(v@).contains(s@),
{
    let ghost sv = string_views(v@);
    let mut i: usize = 0;
    while i < v.len()
        invariant
            sv == string_views(v@),
            i <= v.len(),
            forall|k: int| 0 <= k < i ==> sv[k] != s@,
        decreases v.len() - i,
    {
        if v[i] == *s {
            assert(sv[i as int] == s@);
            return true;
        }
        i += 1;
    }
    false
}

/// The identifiers declared in `content`, each once.
pub fn extract_identifiers(content: &str) -> (res: Vec<String>)
    ensures
        distinct(string_views(res@)),
        forall|id: Seq<char>| string_views(res@).contains(id) <==> is_identifier_of(content@, id),
{
    let ls = split_lines(content);
    let ghost lv = lines(content@);
    let patterns = vec![
        "class\\s+(\\w+)", "interface\\s+(\\w+)", "function\\s+(\\w+)", "def\\s+(\\w+)",
        "fn\\s+(\\w+)", "const\\s+(\\w+)", "let\\s+(\\w+)", "var\\s+(\\w+)",
    ];
    assert(crate::cli_support::str_views(patterns@) =~= identifier_patterns());
    let mut res: Vec<String> = Vec::new();
    let mut l: usize = 0;
    while l < ls.len()
        invariant
            string_views(ls@) == lv,
            lv == lines(content@),
            crate::cli_support::str_views(patterns@) == identifier_patterns(),
            l <= ls.len(),
            distinct(string_views(res@)),
            forall|id: Seq<char>| string_views(res@).contains(id) <==> captured_before(lv, l as int, 0, id),
        decreases ls.len() - l,
    {
        let mut p: usize = 0;
        while p < patterns.len()
            invariant
                string_views(ls@) == lv,
                crate::cli_support::str_views(patterns@) == identifier_patterns(),
                l < ls.len(),
                p <= patterns.len(),
                distinct(string_views(res@)),
                forall|id: Seq<char>| string_views(res@).contains(id) <==> captured_before(lv, l as int, p as int, id),
            decreases patterns.len() - p,
        {
            assert(ls@[l as int]@ == lv[l as int]);
            assert(patterns@[p as int]@ == identifier_patterns()[p as int]);
            match regex_group_one(patterns[p], ls[l].as_str()) {
                Some(groups) => {
                    let ghost gv = opt_views(groups@);
                    let ghost base = res@;
                    let mut k: usize = 0;
                    while k < groups.len()
                        invariant
                            gv == opt_views(groups@),
                            k <= groups.len(),
                            distinct(string_views(res@)),
                            forall|id: Seq<char>| string_views(res@).contains(id) <==> (string_views(base).contains(id) || gv.take(k as int).contains(Some(id))),
                        decreases groups.len() - k,
                    {
                        let ghost before = string_views(res@);
                        proof {
                            assert(gv.take(k + 1) =~= gv.take(k as int).push(gv[k as int]));
                            crate::text::lemma_contains_push(gv.take(k as int), gv[k as int]);
                        }
                        match &groups[k] {
                            Some(g) => {
                                assert(gv[k as int] == Some(g@));
                                if !contains_view(&res, g) {
                                    res.push(g.clone());
                                    assert(string_views(res@) =~= before.push(g@));
                                    proof {
                                        crate::text::lemma_contains_push(before, g@);
                                    }
                                }
                            },
                            None => {
                                assert(gv[k as int] is None);
                            },
                        }
                        k += 1;
                    }
                    proof {
                        assert(gv.take(groups.len() as int) =~= gv);
                        assert(regex_first_groups(identifier_patterns()[p as int], lv[l as int]) == Some(gv));
                        assert forall|id: Seq<char>| string_views(res@).contains(id) <==> captured_before(lv, l as int, p + 1, id) by {
                            assert(string_views(res@).contains(id) <==> (string_views(base).contains(id) || gv.contains(Some(id))));
                            assert(string_views(base).contains(id) <==> captured_before(lv, l as int, p as int, id));
                            assert(gv.contains(Some(id)) <==> captured(lv, l as int, p as int, id));
                            if captured_before(lv, l as int, p + 1, id) {
                                let (l2, p2) = choose|l2: int, p2: int| (l2 < l || (l2 == l && p2 < p + 1)) && #[trigger] captured(lv, l2, p2, id);
                                if !(l2 < l || (l2 == l && p2 < p)) {
                                    assert(l2 == l && p2 == p);
                                }
                            }
                            if captured(lv, l as int, p as int, id) {
                                assert(captured_before(lv, l as int, p + 1, id));
                            }
                            if captured_before(lv, l as int, p as int, id) {
                                let (l2, p2) = choose|l2: int, p2: int| (l2 < l || (l2 == l && p2 < p)) && #[trigger] captured(lv, l2, p2, id);
                                assert(captured_before(lv, l as int, p + 1, id));
                            }
                        }
                    }
                },
                None => {
                    proof {
                        assert forall|id: Seq<char>| string_views(res@).contains(id) <==> captured_before(lv, l as int, p + 1, id) by {
                            if captured_before(lv, l as int, p + 1, id) {
                                let (l2, p2) = choose|l2: int, p2: int| (l2 < l || (l2 == l && p2 < p + 1)) && #[trigger] captured(lv, l2, p2, id);
                                if !(l2 < l || (l2 == l && p2 < p)) {
                                    assert(l2 == l && p2 == p);
                                    assert(!captured(lv, l2, p2, id));
                                }
                            }
                        }
                    }
                },
            }
            p += 1;
        }
        proof {
            assert forall|id: Seq<char>| captured_before(lv, l as int, 8, id) <==> captured_before(lv, l + 1, 0, id) by {
                if captured_before(lv, l + 1, 0, id) {
                    let (l2, p2) = choose|l2: int, p2: int| (l2 < l + 1 || (l2 == l + 1 && p2 < 0)) && #[trigger] captured(lv, l2, p2, id);
                    assert(p2 < 8);
                }
                if captured_before(lv, l as int, 8, id) {
                    let (l2, p2) = choose|l2: int, p2: int| (l2 < l || (l2 == l && p2 < 8)) && #[trigger] captured(lv, l2, p2, id);
                    assert(l2 < l + 1);
                }
            }
        }
        l += 1;
    }
    proof {
        assert forall|id: Seq<char>| captured_before(lv, l as int, 0, id) <==> is_identifier_of(content@, id) by {
            if is_identifier_of(content@, id) {
                let (l2, p2) = choose|l2: int, p2: int| #[trigger] captured(lv, l2, p2, id);
                assert(l2 < l);
            }
        }
    }
    res
}

// ---------------------------------------------------------------------------
// Fingerprints
// ---------------------------------------------------------------------------

/// A line is blank when all its characters are white space.
pub open spec fn is_blank(line: Seq<char>) -> bool {
    forall|i: int| 0 <= i < line.len() ==> is_white_space(#[trigger] line[i])
}

/// The number of lines of `ls` that are not blank.
pub open spec fn non_blank_count(ls: Seq<Seq<char>>) -> nat
    decreases ls.len(),
{
    if ls.len() == 0 {
        0
    } else {
        non_blank_count(ls.drop_last()) + if is_blank(ls.last()) { 0nat } else { 1nat }
    }
}

/// Content fingerprint of a file.
#[derive(Debug)]
pub struct ContentFingerprint {
    /// Hash of the content.
    pub content_hash: String,
    /// Hash of the content without white space.
    pub normalized_hash: String,
    /// The identifiers declared in the content, each once.
    pub identifier_set: Vec<String>,
    /// Number of lines.
    pub line_count: usize,
    /// Number of lines that are not blank.
    pub non_empty_line_count: usize,
}

fn line_is_blank(line: &String) -> (res: bool)
    ensures
        res == is_blank(line@),
{
    let cs = chars_of(line.as_str());
    let mut i: usize = 0;
    while i < cs.len()
        invariant
            cs@ == line@,
            i <= cs.len(),
            forall|k: int| 0 <= k < i ==> is_white_space(cs@[k]),
        decreases cs.len() - i,
    {
        if !char_is_whitespace(cs[i]) {
            return false;
        }
        i += 1;
    }
    true
}

/// The fingerprint of a file's content.
pub fn create_fingerprint(content: &str) -> (res: ContentFingerprint)
    ensures
        res.content_hash@ == hex(default_hash(content@) as nat),
        res.normalized_hash@ == hex(default_hash(without_white_space(content@)) as nat),
        distinct(string_views(res.identifier_set@)),
        forall|id: Seq<char>| string_views(res.identifier_set@).contains(id) <==> is_identifier_of(content@, id),
        res.line_count == lines(content@).len(),
        res.non_empty_line_count == non_blank_count(lines(content@)),
        res.non_empty_line_count <= res.line_count,
{
    let content_hash = hash_hex(content);
    let normalized = remove_whitespace(content);
    let normalized_hash = hash_hex(normalized.as_str());
    let identifier_set = extract_identifiers(content);
    let ls = split_lines(content);
    let ghost lv = lines(content@);
    let mut non_empty: usize = 0;
    let mut i: usize = 0;
    while i < ls.len()
        invariant
            string_views(ls@) == lv,
            i <= ls.len(),
            non_empty <= i,
            non_empty == non_blank_count(lv.take(i as int)),
        decreases ls.len() - i,
    {
        assert(lv.take(i + 1).drop_last() =~= lv.take(i as int));
        assert(ls@[i as int]@ == lv[i as int]);
        if !line_is_blank(&ls[i]) {
            non_empty += 1;
        }
        i += 1;
    }
    assert(lv.take(ls.len() as int) =~= lv);
    ContentFingerprint {
        content_hash,
        normalized_hash,
        identifier_set,
        line_count: ls.len(),
        non_empty_line_count: non_empty,
    }
}

/// Removing white space from a concatenation removes it from each part.
proof fn lemma_without_white_space_concat(a: Seq<char>, b: Seq<char>)
    ensures
        without_white_space(a + b) == without_white_space(a) + without_white_space(b),
    decreases b.len(),
{
    if b.len() == 0 {
        assert(a + b =~= a);
        assert(without_white_space(a) + without_white_space(b) =~= without_white_space(a));
    } else {
        lemma_without_white_space_concat(a, b.drop_last());
        assert((a + b).drop_last() =~= a + b.drop_last());
        assert((a + b).last() == b.last());
        if !is_white_space(b.last()) {
            assert(without_white_space(a) + without_white_space(b)
                =~= (without_white_space(a) + without_white_space(b.drop_last())).push(b.last()));
        }
    }
}

/// Text made of white space alone has nothing left without it.
proof fn lemma_without_white_space_blank(w: Seq<char>)
    requires
        forall|i: int| 0 <= i < w.len() ==> is_white_space(#[trigger] w[i]),
    ensures
        without_white_space(w) == Seq::<char>::empty(),
    decreases w.len(),
{
    if w.len() > 0 {
        assert(is_white_space(w[w.len() - 1]));
        lemma_without_white_space_blank(w.drop_last());
    }
}

/// Inserting white space into a content leaves its normalized hash as it
/// was: fingerprints that differ only in white space agree on it.
pub proof fn lemma_normalized_hash_ignores_white_space(a: Seq<char>, w: Seq<char>, b: Seq<char>)
    requires
        forall|i: int| 0 <= i < w.len() ==> is_white_space(#[trigger] w[i]),
    ensures
        without_white_space(a + w + b) == without_white_space(a + b),
        hex(default_hash(without_white_space(a + w + b)) as nat) == hex(default_hash(without_white_space(a + b)) as nat),
{
    lemma_without_white_space_concat(a + w, b);
    lemma_without_white_space_concat(a, w);
    lemma_without_white_space_concat(a, b);
    lemma_without_white_space_blank(w);
    assert(without_white_space(a) + Seq::<char>::empty() =~= without_white_space(a));
}

// ---------------------------------------------------------------------------
// Identifier overlap
// ---------------------------------------------------------------------------

/// The number of elements of `a` that `b` holds.
pub open spec fn shared_count(a: Seq<Seq<char>>, b: Seq<Seq<char>>) -> nat
    decreases a.len(),
{
    if a.len() == 0 {
        0
    } else {
        shared_count(a.drop_last(), b) + if b.contains(a.last()) { 1nat } else { 0nat }
    }
}

/// The number of identifiers that two fingerprints share.
pub fn identifier_overlap(source: &ContentFingerprint, target: &ContentFingerprint) -> (res: usize)
    ensures
        res == shared_count(string_views(source.identifier_set@), string_views(target.identifier_set@)),
{
    let a = &source.identifier_set;
    let ghost av = string_views(a@);
    let ghost bv = string_views(target.identifier_set@);
    let mut count: usize = 0;
    let mut i: usize = 0;
    while i < a.len()
        invariant
            av == string_views(a@),
            bv == string_views(target.identifier_set@),
            i <= a.len(),
            count <= i,
            count == shared_count(av.take(i as int), bv),
        decreases a.len() - i,
    {
        assert(av.take(i + 1).drop_last() =~= av.take(i as int));
        if contains_view(&target.identifier_set, &a[i]) {
            count += 1;
        }
        i += 1;
    }
    assert(av.take(a.len() as int) =~= av);
    count
}

/// The number of identifiers in either of two fingerprints:
/// `|A| + |B| - |A ∩ B|`.
pub fn identifier_union_size(source: &ContentFingerprint, target: &ContentFingerprint) -> (res: usize)
    requires
        source.identifier_set.len() + target.identifier_set.len() <= usize::MAX,
    ensures
        res == source.identifier_set.len() + target.identifier_set.len()
            - shared_count(string_views(source.identifier_set@), string_views(target.identifier_set@)),
{
    let shared = identifier_overlap(source, target);
    proof {
        lemma_shared_count_bound(string_views(source.identifier_set@), string_views(target.identifier_set@));
    }
    source.identifier_set.len() + target.identifier_set.len() - shared
}

/// No more elements are shared than there are.
pub proof fn lemma_shared_count_bound(a: Seq<Seq<char>>, b: Seq<Seq<char>>)
    ensures
        shared_count(a, b) <= a.len(),
    decreases a.len(),
{
    if a.len() > 0 {
        lemma_shared_count_bound(a.drop_last(), b);
    }
}

// ---------------------------------------------------------------------------
// Relocations
// ---------------------------------------------------------------------------

/// How a file that found its counterpart was relocated.
#[derive(Debug, Clone, Copy, PartialEq, Eq, Structural)]
pub enum Relocation {
    /// Same file name in another directory.
    Move,
    /// Another file name in the same directory.
    Rename,
    /// Everything else: both changed, or (for paths equal in both) neither.
    MoveAndRename,
}

/// The relocation of `source` to `target`.
pub open spec fn relocation_of(source: Seq<char>, target: Seq<char>) -> Relocation {
    let same_dir = same_parent(parent_of_path(source), parent_of_path(target));
    let same_name = file_name_of_path(source) == file_name_of_path(target);
    if !same_dir && same_name {
        Relocation::Move
    } else if same_dir && !same_name {
        Relocation::Rename
    } else {
        Relocation::MoveAndRename
    }
}

fn same_file_name(a: &str, b: &str) -> (res: bool)
    ensures
        res == (file_name_of_path(a@) == file_name_of_path(b@)),
{
    let na = path_file_name(a);
    let nb = path_file_name(b);
    match (na, nb) {
        (Some(x), Some(y)) => crate::text::str_eq(x.as_str(), y.as_str()),
        (None, None) => true,
        _ => false,
    }
}

/// What a relocation says: a move keeps the file name and changes the
/// directory, a rename keeps the directory and changes the file name, and
/// the rest is a move with a rename exactly when both or neither changed.
pub proof fn lemma_relocation_laws(source: Seq<char>, target: Seq<char>)
    ensures
        relocation_of(source, target) == Relocation::Move ==> file_name_of_path(source) == file_name_of_path(target)
            && !same_parent(parent_of_path(source), parent_of_path(target)),
        relocation_of(source, target) == Relocation::Rename ==> file_name_of_path(source) != file_name_of_path(target)
            && same_parent(parent_of_path(source), parent_of_path(target)),
        (relocation_of(source, target) == Relocation::MoveAndRename) <==> (same_parent(parent_of_path(source), parent_of_path(target))
            == (file_name_of_path(source) == file_name_of_path(target))),
{
}

/// Classifies the relocation of a file from `source` to `target`.
pub fn classify_relocation(source: &str, target: &str) -> (res: Relocation)
    ensures
        res == relocation_of(source@, target@),
        res == Relocation::Move <==> (file_name_of_path(source@) == file_name_of_path(target@)
            && !same_parent(parent_of_path(source@), parent_of_path(target@))),
        res == Relocation::Rename <==> (file_name_of_path(source@) != file_name_of_path(target@)
            && same_parent(parent_of_path(source@), parent_of_path(target@))),
{
    proof {
        lemma_relocation_laws(source@, target@);
    }
    let same_dir = same_parent_dir(source, target);
    let same_name = same_file_name(source, target);
    if !same_dir && same_name {
        Relocation::Move
    } else if same_dir && !same_name {
        Relocation::Rename
    } else {
        Relocation::MoveAndRename
    }
}

/// The relocation chosen for a source file: the index of its target and how
/// it moved.
#[derive(Debug, Clone, Copy, PartialEq, Eq, Structural)]
pub struct FileRelocation {
    pub source: usize,
    pub target: usize,
    pub kind: Relocation,
}

/// The relocations of an assignment of source files to target files, in
/// source order.
pub open spec fn relocations_of(assignment: Seq<Option<usize>>, sources: Seq<Seq<char>>, targets: Seq<Seq<char>>) -> Seq<FileRelocation>
    decreases assignment.len(),
{
    if assignment.len() == 0 {
        Seq::empty()
    } else {
        let i = assignment.len() - 1;
        let rest = relocations_of(assignment.drop_last(), sources, targets);
        match assignment[i] {
            Some(j) => rest.push(FileRelocation { source: i as usize, target: j, kind: relocation_of(sources[i], targets[j as int]) }),
            None => rest,
        }
    }
}

/// Each planned relocation is that of an assigned source to its target,
/// sources in increasing order, and every assigned source has one.
#[verifier::rlimit(40)]
pub proof fn lemma_relocations_laws(assignment: Seq<Option<usize>>, sources: Seq<Seq<char>>, targets: Seq<Seq<char>>)
    requires
        assignment.len() <= usize::MAX,
    ensures
        forall|k: int| 0 <= k < relocations_of(assignment, sources, targets).len() ==> {
            let r = #[trigger] relocations_of(assignment, sources, targets)[k];
            &&& r.source < assignment.len()
            &&& assignment[r.source as int] == Some(r.target)
            &&& r.kind == relocation_of(sources[r.source as int], targets[r.target as int])
        },
        forall|k: int, m: int| 0 <= k < m < relocations_of(assignment, sources, targets).len()
            ==> relocations_of(assignment, sources, targets)[k].source < relocations_of(assignment, sources, targets)[m].source,
        forall|i: int| 0 <= i < assignment.len() && (#[trigger] assignment[i]) is Some ==> exists|k: int|
            0 <= k < relocations_of(assignment, sources, targets).len()
            && (#[trigger] relocations_of(assignment, sources, targets)[k]).source == i,
    decreases assignment.len(),
{
    if assignment.len() > 0 {
        let prev = assignment.drop_last();
        let n = assignment.len() - 1;
        lemma_relocations_laws(prev, sources, targets);
        let rest = relocations_of(prev, sources, targets);
        let all = relocations_of(assignment, sources, targets);
        assert forall|k: int| 0 <= k < rest.len() implies all[k] == rest[k] by {}
        assert forall|k: int| 0 <= k < all.len() implies {
            let r = #[trigger] all[k];
            &&& r.source < assignment.len()
            &&& assignment[r.source as int] == Some(r.target)
            &&& r.kind == relocation_of(sources[r.source as int], targets[r.target as int])
        } by {
            if k < rest.len() {
                assert(prev[rest[k].source as int] == assignment[rest[k].source as int]);
            }
        }
        assert forall|k: int, m: int| 0 <= k < m < all.len() implies all[k].source < all[m].source by {
            if m >= rest.len() {
                assert(all[k] == rest[k]);
                assert(rest[k].source < prev.len());
            }
        }
        assert forall|i: int| 0 <= i < assignment.len() && (#[trigger] assignment[i]) is Some implies exists|k: int|
            0 <= k < all.len() && (#[trigger] all[k]).source == i by {
            if i < n {
                assert(prev[i] == assignment[i]);
                let k = choose|k: int| 0 <= k < rest.len() && (#[trigger] rest[k]).source == i;
                assert(all[k] == rest[k]);
            } else {
                assert(all[all.len() - 1].source == i);
            }
        }
    }
}

/// The relocation of every assigned source file.
pub fn plan_relocations(assignment: &Vec<Option<usize>>, sources: &Vec<String>, targets: &Vec<String>) -> (res: Vec<FileRelocation>)
    requires
        assignment.len() <= sources.len(),
        forall|i: int| 0 <= i < assignment.len() && (#[trigger] assignment[i]) is Some ==> assignment[i]->0 < targets.len(),
    ensures
        res@ == relocations_of(assignment@, string_views(sources@), string_views(targets@)),
        forall|k: int| 0 <= k < res.len() ==> {
            let r = #[trigger] res@[k];
            &&& r.source < assignment.len()
            &&& assignment@[r.source as int] == Some(r.target)
            &&& r.kind == relocation_of(sources@[r.source as int]@, targets@[r.target as int]@)
        },
        forall|i: int| 0 <= i < assignment.len() && (#[trigger] assignment@[i]) is Some ==> exists|k: int|
            0 <= k < res.len() && (#[trigger] res@[k]).source == i,
{
    proof {
        lemma_relocations_laws(assignment@, string_views(sources@), string_views(targets@));
    }
    let ghost sv = string_views(sources@);
    let ghost tv = string_views(targets@);
    let mut res: Vec<FileRelocation> = Vec::new();
    let mut i: usize = 0;
    while i < assignment.len()
        invariant
            sv == string_views(sources@),
            tv == string_views(targets@),
            assignment.len() <= sources.len(),
            forall|k: int| 0 <= k < assignment.len() && (#[trigger] assignment[k]) is Some ==> assignment[k]->0 < targets.len(),
            i <= assignment.len(),
            res@ == relocations_of(assignment@.take(i as int), sv, tv),
        decreases assignment.len() - i,
    {
        let ghost t = assignment@.take(i + 1);
        assert(t.drop_last() =~= assignment@.take(i as int));
        assert(t[i as int] == assignment@[i as int]);
        match assignment[i] {
            Some(j) => {
                let kind = classify_relocation(sources[i].as_str(), targets[j].as_str());
                res.push(FileRelocation { source: i, target: j, kind });
            },
            None => {},
        }
        i += 1;
    }
    assert(assignment@.take(assignment.len() as int) =~= assignment@);
    res
}

/// Statistics of file refactoring detection.
#[derive(Debug, Clone, Copy, PartialEq, Eq, Structural)]
pub struct FileRefactoringStats {
    pub total_source_files: usize,
    pub total_target_files: usize,
    pub rename_count: usize,
    pub split_count: usize,
    pub merge_count: usize,
    pub move_count: usize,
    pub execution_time_ms: u64,
}

/// The relocations of each kind: renames, and moves with or without a
/// change of name.
pub open spec fn kind_count(rs: Seq<FileRelocation>, rename: bool) -> nat
    decreases rs.len(),
{
    if rs.len() == 0 {
        0
    } else {
        kind_count(rs.drop_last(), rename) + if (rs.last().kind == Relocation::Rename) == rename { 1nat } else { 0nat }
    }
}

/// The statistics of a detection run.
pub fn refactoring_stats(
    total_source_files: usize,
    total_target_files: usize,
    relocations: &Vec<FileRelocation>,
    split_count: usize,
    merge_count: usize,
    execution_time_ms: u64,
) -> (res: FileRefactoringStats)
    ensures
        res.total_source_files == total_source_files,
        res.total_target_files == total_target_files,
        res.rename_count == kind_count(relocations@, true),
        res.move_count == kind_count(relocations@, false),
        res.rename_count + res.move_count == relocations.len(),
        res.split_count == split_count,
        res.merge_count == merge_count,
        res.execution_time_ms == execution_time_ms,
{
    let mut renames: usize = 0;
    let mut moves: usize = 0;
    let mut i: usize = 0;
    while i < relocations.len()
        invariant
            i <= relocations.len(),
            renames == kind_count(relocations@.take(i as int), true),
            moves == kind_count(relocations@.take(i as int), false),
            renames + moves == i,
        decreases relocations.len() - i,
    {
        assert(relocations@.take(i + 1).drop_last() =~= relocations@.take(i as int));
        if relocations[i].kind == Relocation::Rename {
            renames += 1;
        } else {
            moves += 1;
        }
        i += 1;
    }
    assert(relocations@.take(relocations.len() as int) =~= relocations@);
    FileRefactoringStats {
        total_source_files,
        total_target_files,
        rename_count: renames,
        split_count,
        merge_count,
        move_count: moves,
        execution_time_ms,
    }
}

} // verus!
