//! What the command line decides without touching files: output formats,
//! languages and their extensions, file filters, and the escaping of text
//! for the output formats.
use vstd::prelude::*;
use crate::text::{
    is_prefix, is_suffix, is_substring, last_index_of, push_char, str_contains, str_starts_with,
    str_ends_with, str_eq, chars_of, lowercase, to_lowercase, string_from_chars,
};
use crate::paths::{file_name_of_path, extension_of_path, path_file_name, path_extension};

verus! {

// ---------------------------------------------------------------------------
// Output formats
// ---------------------------------------------------------------------------

/// Output formats of the command line.
#[derive(Debug, Clone, Copy, PartialEq, Eq, Structural)]
pub enum OutputFormat {
    Text,
    Json,
    Html,
    Xml,
    JsonCompact,
    Csv,
    Markdown,
}

impl OutputFormat {
    /// Whether the format can carry colour.
    pub fn supports_color(&self) -> (res: bool)
        ensures
            res <==> (*self == OutputFormat::Text || *self == OutputFormat::Html || *self == OutputFormat::Markdown),
    {
        match self {
            OutputFormat::Text | OutputFormat::Html | OutputFormat::Markdown => true,
            _ => false,
        }
    }

    /// The file extension of the format.
    pub fn file_extension(&self) -> (res: &'static str)
        ensures
            res@ == format_extension(*self),
    {
        match self {
            OutputFormat::Text => "txt",
            OutputFormat::Json | OutputFormat::JsonCompact => "json",
            OutputFormat::Html => "html",
            OutputFormat::Xml => "xml",
            OutputFormat::Csv => "csv",
            OutputFormat::Markdown => "md",
        }
    }

    /// The MIME type of the format.
    pub fn mime_type(&self) -> (res: &'static str)
        ensures
            res@ == format_mime_type(*self),
    {
        match self {
            OutputFormat::Text => "text/plain",
            OutputFormat::Json | OutputFormat::JsonCompact => "application/json",
            OutputFormat::Html => "text/html",
            OutputFormat::Xml => "application/xml",
            OutputFormat::Csv => "text/csv",
            OutputFormat::Markdown => "text/markdown",
        }
    }
}

pub open spec fn format_extension(f: OutputFormat) -> Seq<char> {
    match f {
        OutputFormat::Text => "txt"@,
        OutputFormat::Json | OutputFormat::JsonCompact => "json"@,
        OutputFormat::Html => "html"@,
        OutputFormat::Xml => "xml"@,
        OutputFormat::Csv => "csv"@,
        OutputFormat::Markdown => "md"@,
    }
}

pub open spec fn format_mime_type(f: OutputFormat) -> Seq<char> {
    match f {
        OutputFormat::Text => "text/plain"@,
        OutputFormat::Json | OutputFormat::JsonCompact => "application/json"@,
        OutputFormat::Html => "text/html"@,
        OutputFormat::Xml => "application/xml"@,
        OutputFormat::Csv => "text/csv"@,
        OutputFormat::Markdown => "text/markdown"@,
    }
}

// ---------------------------------------------------------------------------
// Languages
// ---------------------------------------------------------------------------

/// Languages of the command line.
#[derive(Debug, Clone, Copy, PartialEq, Eq, Structural)]
pub enum Language {
    Java,
    Python,
    JavaScript,
    Cpp,
    C,
    Auto,
}

pub open spec fn str_views(v: Seq<&str>) -> Seq<Seq<char>> {
    Seq::new(v.len(), |i: int| v[i]@)
}

/// The file extensions of each language.
pub open spec fn language_extensions(l: Language) -> Seq<Seq<char>> {
    match l {
        Language::Java => seq!["java"@],
        Language::Python => seq!["py"@, "pyx"@, "pyi"@],
        Language::JavaScript => seq!["js"@, "jsx"@, "mjs"@, "cjs"@],
        Language::Cpp => seq!["cpp"@, "cxx"@, "cc"@, "hpp"@, "hxx"@, "h"@],
        Language::C => seq!["c"@, "h"@],
        Language::Auto => Seq::empty(),
    }
}

impl Language {
    /// The file extensions of the language.
    pub fn file_extensions(&self) -> (res: Vec<&'static str>)
        ensures
            str_views(res@) == language_extensions(*self),
    {
        let res = match self {
            Language::Java => vec!["java"],
            Language::Python => vec!["py", "pyx", "pyi"],
            Language::JavaScript => vec!["js", "jsx", "mjs", "cjs"],
            Language::Cpp => vec!["cpp", "cxx", "cc", "hpp", "hxx", "h"],
            Language::C => vec!["c", "h"],
            Language::Auto => vec![],
        };
        assert(str_views(res@) =~= language_extensions(*self));
        res
    }
}

/// The configuration actions of the command line.
#[derive(Debug, Clone)]
pub enum ConfigAction {
    Show { section: Option<String> },
    SetValue { key: String, value: String },
    Get { key: String },
    Reset { section: Option<String> },
    List,
    Validate,
}

/// The extensions (in lower case) of the source files the tool analyses.
pub open spec fn source_extensions() -> Seq<Seq<char>> {
    seq![
        "java"@, "py"@, "pyx"@, "pyi"@, "js"@, "jsx"@, "mjs"@, "cjs"@,
        "cpp"@, "cxx"@, "cc"@, "hpp"@, "hxx"@, "h"@, "c"@,
    ]
}

/// A path names a source file: it has an extension, which in lower case is
/// one of `source_extensions`.
pub open spec fn is_source_path(path: Seq<char>) -> bool {
    match extension_of_path(path) {
        Some(e) => source_extensions().contains(lowercase(e)),
        None => false,
    }
}

/// Whether `path` names a source file.
pub fn is_source_file(path: &str) -> (res: bool)
    ensures
        res == is_source_path(path@),
{
    match path_extension(path) {
        Some(e) => {
            let lower = to_lowercase(e.as_str());
            let exts = vec![
                "java", "py", "pyx", "pyi", "js", "jsx", "mjs", "cjs",
                "cpp", "cxx", "cc", "hpp", "hxx", "h", "c",
            ];
            assert(str_views(exts@) =~= source_extensions());
            let mut i: usize = 0;
            while i < exts.len()
                invariant
                    str_views(exts@) == source_extensions(),
                    extension_of_path(path@) == Some(e@),
                    lower@ == lowercase(e@),
                    i <= exts.len(),
                    forall|k: int| 0 <= k < i ==> source_extensions()[k] != lower@,
                decreases exts.len() - i,
            {
                if str_eq(lower.as_str(), exts[i]) {
                    assert(source_extensions()[i as int] == lower@);
                    assert(source_extensions().contains(lower@));
                    assert(extension_of_path(path@) == Some(e@));
                    return true;
                }
                i += 1;
            }
            false
        },
        None => false,
    }
}

// ---------------------------------------------------------------------------
// File filters
// ---------------------------------------------------------------------------

/// The position of the first occurrence of `c` in `s`.
pub open spec fn first_index_of(s: Seq<char>, c: char) -> Option<int>
    decreases s.len(),
{
    if s.len() == 0 {
        None
    } else if s[0] == c {
        Some(0)
    } else {
        match first_index_of(s.drop_first(), c) {
            Some(k) => Some(k + 1),
            None => None,
        }
    }
}

/// `s` without any occurrence of `c`.
pub open spec fn without_char(s: Seq<char>, c: char) -> Seq<char>
    decreases s.len(),
{
    if s.len() == 0 {
        s
    } else if s.last() == c {
        without_char(s.drop_last(), c)
    } else {
        without_char(s.drop_last(), c).push(s.last())
    }
}

/// The simple glob match of the command line.  Without `*`, the text is the
/// pattern or ends with it; with one `*`, the text starts with what comes
/// before it and ends with what comes after it; with more, the text holds
/// the pattern without its stars.
pub open spec fn glob_matches(pattern: Seq<char>, text: Seq<char>) -> bool {
    match first_index_of(pattern, '*') {
        None => text == pattern || is_suffix(text, pattern),
        Some(k) => if last_index_of(pattern, '*') == Some(k) {
            is_prefix(text, pattern.take(k)) && is_suffix(text, pattern.skip(k + 1))
        } else {
            is_substring(text, without_char(pattern, '*'))
        },
    }
}

proof fn lemma_first_index_of(s: Seq<char>, c: char)
    ensures
        match first_index_of(s, c) {
            Some(k) => 0 <= k < s.len() && s[k] == c && forall|j: int| 0 <= j < k ==> s[j] != c,
            None => forall|j: int| 0 <= j < s.len() ==> s[j] != c,
        },
    decreases s.len(),
{
    if s.len() > 0 && s[0] != c {
        lemma_first_index_of(s.drop_first(), c);
        assert forall|j: int| 1 <= j < s.len() implies s[j] == s.drop_first()[j - 1] by {}
    }
}

proof fn lemma_first_index_unique(s: Seq<char>, c: char, k: int)
    requires
        0 <= k < s.len(),
        s[k] == c,
        forall|j: int| 0 <= j < k ==> s[j] != c,
    ensures
        first_index_of(s, c) == Some(k),
    decreases s.len(),
{
    if k > 0 {
        lemma_first_index_unique(s.drop_first(), c, k - 1);
    }
}

proof fn lemma_last_index_unique(s: Seq<char>, c: char, k: int)
    requires
        0 <= k < s.len(),
        s[k] == c,
        forall|j: int| k < j < s.len() ==> s[j] != c,
    ensures
        last_index_of(s, c) == Some(k),
    decreases s.len(),
{
    if s.last() != c {
        lemma_last_index_unique(s.drop_last(), c, k);
    }
}

/// The characters of `v` in `[from, to)`, as a `String`.
fn chars_range(v: &Vec<char>, from: usize, to: usize) -> (res: String)
    requires
        from <= to <= v.len(),
    ensures
        res@ == v@.subrange(from as int, to as int),
{
    let mut res = String::new();
    let mut i: usize = from;
    while i < to
        invariant
            from <= i <= to <= v.len(),
            res@ == v@.subrange(from as int, i as int),
        decreases to - i,
    {
        push_char(&mut res, v[i]);
        assert(v@.subrange(from as int, i + 1) =~= v@.subrange(from as int, i as int).push(v@[i as int]));
        i += 1;
    }
    res
}

/// How simple globs behave: a pattern without `*` matches the text equal
/// to it; a lone `*` matches every text; `*` followed by a star-free suffix
/// matches exactly the texts ending with that suffix; a star-free prefix
/// followed by `*` matches exactly the texts starting with that prefix.
pub proof fn lemma_glob_laws(pattern: Seq<char>, text: Seq<char>)
    requires
        !pattern.contains('*'),
    ensures
        glob_matches(pattern, pattern),
        glob_matches(seq!['*'], text),
        glob_matches(seq!['*'] + pattern, text) == is_suffix(text, pattern),
        glob_matches(pattern + seq!['*'], text) == is_prefix(text, pattern),
{
    lemma_first_index_of(pattern, '*');
    if first_index_of(pattern, '*') is Some {
        let k = first_index_of(pattern, '*')->0;
        assert(pattern[k] == '*');
    }
    let lone = seq!['*'];
    lemma_first_index_unique(lone, '*', 0);
    lemma_last_index_unique(lone, '*', 0);
    assert(lone.take(0) =~= Seq::<char>::empty());
    assert(lone.skip(1) =~= Seq::<char>::empty());
    assert(text.subrange(0, 0) =~= Seq::<char>::empty());
    assert(text.subrange(text.len() as int, text.len() as int) =~= Seq::<char>::empty());
    let front = seq!['*'] + pattern;
    lemma_first_index_unique(front, '*', 0);
    assert forall|j: int| 0 < j < front.len() implies front[j] != '*' by {
        assert(front[j] == pattern[j - 1]);
    }
    lemma_last_index_unique(front, '*', 0);
    assert(front.take(0) =~= Seq::<char>::empty());
    assert(front.skip(1) =~= pattern);
    let back = pattern + seq!['*'];
    let n = pattern.len() as int;
    assert forall|j: int| 0 <= j < n implies back[j] != '*' by {
        assert(back[j] == pattern[j]);
    }
    lemma_first_index_unique(back, '*', n);
    lemma_last_index_unique(back, '*', n);
    assert(back.take(n) =~= pattern);
    assert(back.skip(n + 1) =~= Seq::<char>::empty());
}

/// Simple glob pattern matching.
pub fn glob_match(pattern: &str, text: &str) -> (res: bool)
    ensures
        res == glob_matches(pattern@, text@),
        !pattern@.contains('*') && text@ == pattern@ ==> res,
        pattern@ == seq!['*'] ==> res,
        pattern@.len() > 0 && pattern@[0] == '*' && !pattern@.drop_first().contains('*') ==> (res == is_suffix(text@, pattern@.drop_first())),
        pattern@.len() > 0 && pattern@.last() == '*' && !pattern@.drop_last().contains('*') ==> (res == is_prefix(text@, pattern@.drop_last())),
{
    proof {
        if !pattern@.contains('*') {
            lemma_glob_laws(pattern@, text@);
        }
        if pattern@.len() > 0 && pattern@[0] == '*' && !pattern@.drop_first().contains('*') {
            lemma_glob_laws(pattern@.drop_first(), text@);
            assert(seq!['*'] + pattern@.drop_first() =~= pattern@);
        }
        if pattern@.len() > 0 && pattern@.last() == '*' && !pattern@.drop_last().contains('*') {
            lemma_glob_laws(pattern@.drop_last(), text@);
            assert(pattern@.drop_last() + seq!['*'] =~= pattern@);
        }
        if pattern@ == seq!['*'] {
            lemma_glob_laws(Seq::<char>::empty(), text@);
        }
    }
    let p = chars_of(pattern);
    let mut first: Option<usize> = None;
    let mut stars: usize = 0;
    let mut i: usize = 0;
    while i < p.len()
        invariant
            p@ == pattern@,
            i <= p.len(),
            stars <= i,
            stars == 0 <==> first is None,
            first matches Some(f) ==> f < i && p@[f as int] == '*' && forall|j: int| 0 <= j < f ==> p@[j] != '*',
            first is None ==> forall|j: int| 0 <= j < i ==> p@[j] != '*',
            stars == 1 ==> forall|j: int| first->0 < j < i ==> p@[j] != '*',
            stars >= 2 ==> exists|j: int| first->0 < j < i && p@[j] == '*',
        decreases p.len() - i,
    {
        if p[i] == '*' {
            if first.is_none() {
                first = Some(i);
            }
            stars += 1;
        }
        i += 1;
    }
    match first {
        None => {
            proof {
                lemma_first_index_of(pattern@, '*');
                if first_index_of(pattern@, '*') is Some {
                    let k = first_index_of(pattern@, '*')->0;
                    assert(p@[k] == '*');
                }
            }
            str_eq(text, pattern) || str_ends_with(text, pattern)
        },
        Some(f) => {
            proof {
                lemma_first_index_unique(pattern@, '*', f as int);
            }
            if stars == 1 {
                proof {
                    lemma_last_index_unique(pattern@, '*', f as int);
                }
                let before = chars_range(&p, 0, f);
                let after = chars_range(&p, f + 1, p.len());
                assert(before@ == pattern@.take(f as int));
                assert(after@ == pattern@.skip(f + 1));
                str_starts_with(text, before.as_str()) && str_ends_with(text, after.as_str())
            } else {
                proof {
                    crate::text::lemma_last_index_of(pattern@, '*');
                    let j = choose|j: int| f < j < p.len() && p@[j] == '*';
                    if last_index_of(pattern@, '*') == Some(f as int) {
                        assert(p@[j] != '*');
                    }
                }
                let stripped = remove_char(&p, '*');
                str_contains(text, stripped.as_str())
            }
        },
    }
}

/// The characters of `v` other than `c`, as a `String`.
fn remove_char(v: &Vec<char>, c: char) -> (res: String)
    ensures
        res@ == without_char(v@, c),
{
    let mut res = String::new();
    let mut i: usize = 0;
    while i < v.len()
        invariant
            i <= v.len(),
            res@ == without_char(v@.take(i as int), c),
        decreases v.len() - i,
    {
        assert(v@.take(i + 1).drop_last() =~= v@.take(i as int));
        if v[i] != c {
            push_char(&mut res, v[i]);
        }
        i += 1;
    }
    assert(v@.take(v.len() as int) =~= v@);
    res
}

/// The file name of a path, empty where it has none.
pub open spec fn file_name_or_empty(path: Seq<char>) -> Seq<char> {
    match file_name_of_path(path) {
        Some(n) => n,
        None => Seq::empty(),
    }
}

/// A pattern matches the whole path or its file name.
pub open spec fn pattern_hits(pattern: Seq<char>, path: Seq<char>) -> bool {
    glob_matches(pattern, path) || glob_matches(pattern, file_name_or_empty(path))
}

/// Some pattern of `patterns` matches the path or its file name.
pub open spec fn any_pattern_hits(patterns: Seq<Seq<char>>, path: Seq<char>) -> bool {
    exists|i: int| 0 <= i < patterns.len() && pattern_hits(#[trigger] patterns[i], path)
}

/// A file is kept when no pattern of `exclusions` matches it and either
/// `inclusions` is empty or one of its patterns matches it.
pub open spec fn file_selected(path: Seq<char>, inclusions: Seq<Seq<char>>, exclusions: Seq<Seq<char>>) -> bool {
    !any_pattern_hits(exclusions, path) && (inclusions.len() == 0 || any_pattern_hits(inclusions, path))
}

fn some_pattern_hits(patterns: &Vec<String>, path: &str, name: &str) -> (res: bool)
    requires
        name@ == file_name_or_empty(path@),
    ensures
        res == any_pattern_hits(crate::text::string_views(patterns@), path@),
{
    let ghost pv = crate::text::string_views(patterns@);
    let mut i: usize = 0;
    while i < patterns.len()
        invariant
            pv == crate::text::string_views(patterns@),
            name@ == file_name_or_empty(path@),
            i <= patterns.len(),
            forall|k: int| 0 <= k < i ==> !pattern_hits(#[trigger] pv[k], path@),
        decreases patterns.len() - i,
    {
        if glob_match(patterns[i].as_str(), path) || glob_match(patterns[i].as_str(), name) {
            assert(pattern_hits(pv[i as int], path@));
            return true;
        }
        i += 1;
    }
    false
}

/// Whether a file passes the patterns of `inclusions` and `exclusions`.
pub fn should_include_file(path: &str, inclusions: &Vec<String>, exclusions: &Vec<String>) -> (res: bool)
    ensures
        res == file_selected(path@, crate::text::string_views(inclusions@), crate::text::string_views(exclusions@)),
{
    let name = match path_file_name(path) {
        Some(n) => n,
        None => String::new(),
    };
    if some_pattern_hits(exclusions, path, name.as_str()) {
        return false;
    }
    if inclusions.len() == 0 {
        return true;
    }
    some_pattern_hits(inclusions, path, name.as_str())
}

// ---------------------------------------------------------------------------
// Escaping
// ---------------------------------------------------------------------------

/// The HTML escape of one character.
pub open spec fn html_char(c: char) -> Seq<char> {
    if c == '&' { "&amp;"@ }
    else if c == '<' { "&lt;"@ }
    else if c == '>' { "&gt;"@ }
    else if c == '"' { "&quot;"@ }
    else if c == '\'' { "&#39;"@ }
    else { seq![c] }
}

/// The XML escape of one character.
pub open spec fn xml_char(c: char) -> Seq<char> {
    if c == '&' { "&amp;"@ }
    else if c == '<' { "&lt;"@ }
    else if c == '>' { "&gt;"@ }
    else if c == '"' { "&quot;"@ }
    else if c == '\'' { "&apos;"@ }
    else { seq![c] }
}

/// `s` with every character replaced by its HTML escape.
pub open spec fn html_escaped(s: Seq<char>) -> Seq<char>
    decreases s.len(),
{
    if s.len() == 0 { Seq::empty() } else { html_escaped(s.drop_last()) + html_char(s.last()) }
}

/// `s` with every character replaced by its XML escape.
pub open spec fn xml_escaped(s: Seq<char>) -> Seq<char>
    decreases s.len(),
{
    if s.len() == 0 { Seq::empty() } else { xml_escaped(s.drop_last()) + xml_char(s.last()) }
}

/// `s` with every double quote doubled.
pub open spec fn quotes_doubled(s: Seq<char>) -> Seq<char>
    decreases s.len(),
{
    if s.len() == 0 {
        Seq::empty()
    } else if s.last() == '"' {
        quotes_doubled(s.drop_last()) + seq!['"', '"']
    } else {
        quotes_doubled(s.drop_last()).push(s.last())
    }
}

/// A CSV field: quoted, with its quotes doubled, when it holds a comma, a
/// quote or a line feed; as it is otherwise.
pub open spec fn csv_field(s: Seq<char>) -> Seq<char> {
    if s.contains(',') || s.contains('"') || s.contains('\n') {
        seq!['"'] + quotes_doubled(s) + seq!['"']
    } else {
        s
    }
}

/// No character of `t` opens or closes markup or quotes an attribute.
pub open spec fn markup_free(t: Seq<char>) -> bool {
    forall|i: int| 0 <= i < t.len() ==> #[trigger] t[i] != '<' && t[i] != '>' && t[i] != '"' && t[i] != '\''
}

proof fn lemma_markup_free_concat(a: Seq<char>, b: Seq<char>)
    requires
        markup_free(a),
        markup_free(b),
    ensures
        markup_free(a + b),
{
    assert forall|i: int| 0 <= i < (a + b).len() implies #[trigger] (a + b)[i] != '<' && (a + b)[i] != '>'
        && (a + b)[i] != '"' && (a + b)[i] != '\'' by {
        if i < a.len() {
            assert((a + b)[i] == a[i]);
        } else {
            assert((a + b)[i] == b[i - a.len()]);
        }
    }
}

/// HTML-escaped text holds no `<`, `>`, `"` or `'`.
pub proof fn lemma_html_escape_markup_free(s: Seq<char>)
    ensures
        markup_free(html_escaped(s)),
    decreases s.len(),
{
    reveal_strlit("&amp;");
    reveal_strlit("&lt;");
    reveal_strlit("&gt;");
    reveal_strlit("&quot;");
    reveal_strlit("&#39;");
    if s.len() > 0 {
        lemma_html_escape_markup_free(s.drop_last());
        lemma_markup_free_concat(html_escaped(s.drop_last()), html_char(s.last()));
    }
}

/// XML-escaped text holds no `<`, `>`, `"` or `'`.
pub proof fn lemma_xml_escape_markup_free(s: Seq<char>)
    ensures
        markup_free(xml_escaped(s)),
    decreases s.len(),
{
    reveal_strlit("&amp;");
    reveal_strlit("&lt;");
    reveal_strlit("&gt;");
    reveal_strlit("&quot;");
    reveal_strlit("&apos;");
    if s.len() > 0 {
        lemma_xml_escape_markup_free(s.drop_last());
        lemma_markup_free_concat(xml_escaped(s.drop_last()), xml_char(s.last()));
    }
}

/// Escaping a concatenation escapes each part.
pub proof fn lemma_html_escape_concat(a: Seq<char>, b: Seq<char>)
    ensures
        html_escaped(a + b) == html_escaped(a) + html_escaped(b),
    decreases b.len(),
{
    if b.len() == 0 {
        assert(a + b =~= a);
        assert(html_escaped(a) + html_escaped(b) =~= html_escaped(a));
    } else {
        lemma_html_escape_concat(a, b.drop_last());
        assert((a + b).drop_last() =~= a + b.drop_last());
        assert((a + b).last() == b.last());
        assert(html_escaped(a) + html_escaped(b) =~= html_escaped(a) + html_escaped(b.drop_last()) + html_char(b.last()));
    }
}

/// The text that HTML escapes decode to, read from the left: `&amp;`,
/// `&lt;`, `&gt;`, `&quot;` and `&#39;` each stand for the character they
/// name; every other character stands for itself.
pub open spec fn html_unescaped(t: Seq<char>) -> Seq<char>
    decreases t.len(),
{
    if t.len() == 0 {
        Seq::empty()
    } else if t.len() >= 5 && t.take(5) == seq!['&', 'a', 'm', 'p', ';'] {
        seq!['&'] + html_unescaped(t.skip(5))
    } else if t.len() >= 4 && t.take(4) == seq!['&', 'l', 't', ';'] {
        seq!['<'] + html_unescaped(t.skip(4))
    } else if t.len() >= 4 && t.take(4) == seq!['&', 'g', 't', ';'] {
        seq!['>'] + html_unescaped(t.skip(4))
    } else if t.len() >= 6 && t.take(6) == seq!['&', 'q', 'u', 'o', 't', ';'] {
        seq!['"'] + html_unescaped(t.skip(6))
    } else if t.len() >= 5 && t.take(5) == seq!['&', '#', '3', '9', ';'] {
        seq!['\''] + html_unescaped(t.skip(5))
    } else {
        seq![t[0]] + html_unescaped(t.skip(1))
    }
}

proof fn lemma_unescape_char(c: char, t: Seq<char>)
    ensures
        html_unescaped(html_char(c) + t) == seq![c] + html_unescaped(t),
{
    reveal_strlit("&amp;");
    reveal_strlit("&lt;");
    reveal_strlit("&gt;");
    reveal_strlit("&quot;");
    reveal_strlit("&#39;");
    let e = html_char(c);
    let u = e + t;
    assert(u.skip(e.len() as int) =~= t);
    assert(u.take(e.len() as int) =~= e);
    if c == '&' {
        assert(e =~= seq!['&', 'a', 'm', 'p', ';']);
    } else if c == '<' {
        assert(e =~= seq!['&', 'l', 't', ';']);
        assert(u.len() >= 5 ==> u.take(5)[1] == 'l');
    } else if c == '>' {
        assert(e =~= seq!['&', 'g', 't', ';']);
        assert(u.len() >= 5 ==> u.take(5)[1] == 'g');
        assert(u.take(4)[1] == 'g');
    } else if c == '"' {
        assert(e =~= seq!['&', 'q', 'u', 'o', 't', ';']);
        assert(u.take(5)[1] == 'q');
        assert(u.take(4)[1] == 'q');
    } else if c == '\'' {
        assert(e =~= seq!['&', '#', '3', '9', ';']);
        assert(u.take(5)[1] == '#');
        assert(u.take(4)[1] == '#');
    } else {
        assert(e =~= seq![c]);
        assert(u[0] == c);
        assert(u.len() >= 4 ==> u.take(4)[0] == c);
        assert(u.len() >= 5 ==> u.take(5)[0] == c);
        assert(u.len() >= 6 ==> u.take(6)[0] == c);
    }
}

/// Decoding the HTML escape of a text gives the text back.
pub proof fn lemma_html_unescape_escape(s: Seq<char>)
    ensures
        html_unescaped(html_escaped(s)) == s,
    decreases s.len(),
{
    if s.len() > 0 {
        let c = s[0];
        let rest = s.skip(1);
        assert(s =~= seq![c] + rest);
        lemma_html_escape_concat(seq![c], rest);
        let one = seq![c];
        assert(one.drop_last() =~= Seq::<char>::empty());
        assert(one.last() == c);
        assert(html_escaped(one.drop_last()) == Seq::<char>::empty());
        assert(html_escaped(one) == html_escaped(one.drop_last()) + html_char(one.last()));
        assert(Seq::<char>::empty() + html_char(c) =~= html_char(c));
        lemma_unescape_char(c, html_escaped(rest));
        lemma_html_unescape_escape(rest);
    }
}

/// `t` with each occurrence of `p`, found from the left and without
/// overlap, replaced by `r`, as `str::replace` does for a non-empty `p`.
pub open spec fn replace_all(t: Seq<char>, p: Seq<char>, r: Seq<char>) -> Seq<char>
    decreases t.len(),
{
    if t.len() == 0 {
        Seq::empty()
    } else if 0 < p.len() <= t.len() && t.take(p.len() as int) == p {
        r + replace_all(t.skip(p.len() as int), p, r)
    } else {
        seq![t[0]] + replace_all(t.skip(1), p, r)
    }
}

/// The HTML entity replaced at pass `k` of the decoding by replacement,
/// and the character it is replaced by: `&lt;`, `&gt;`, `&quot;`, `&#39;`,
/// then `&amp;`.
pub open spec fn pass_entity(k: nat) -> (Seq<char>, char) {
    if k == 0 { (seq!['&', 'l', 't', ';'], '<') }
    else if k == 1 { (seq!['&', 'g', 't', ';'], '>') }
    else if k == 2 { (seq!['&', 'q', 'u', 'o', 't', ';'], '"') }
    else if k == 3 { (seq!['&', '#', '3', '9', ';'], '\'') }
    else { (seq!['&', 'a', 'm', 'p', ';'], '&') }
}

/// HTML-escaped text decoded by replacing, in turn, every `&lt;`, `&gt;`,
/// `&quot;` and `&#39;` by the character it names, and then every `&amp;`
/// by `&`.
pub open spec fn html_unescaped_by_replace(t: Seq<char>) -> Seq<char> {
    let t1 = replace_all(t, pass_entity(0).0, seq![pass_entity(0).1]);
    let t2 = replace_all(t1, pass_entity(1).0, seq![pass_entity(1).1]);
    let t3 = replace_all(t2, pass_entity(2).0, seq![pass_entity(2).1]);
    let t4 = replace_all(t3, pass_entity(3).0, seq![pass_entity(3).1]);
    replace_all(t4, pass_entity(4).0, seq![pass_entity(4).1])
}

/// The pass at which the escape of `c` is decoded, if it has one.
spec fn decode_pass(c: char) -> Option<nat> {
    if c == '<' { Some(0) }
    else if c == '>' { Some(1) }
    else if c == '"' { Some(2) }
    else if c == '\'' { Some(3) }
    else if c == '&' { Some(4) }
    else { None }
}

/// What stands for `c` after `k` passes of the decoding.
spec fn staged_char(c: char, k: nat) -> Seq<char> {
    match decode_pass(c) {
        Some(q) => if q < k { seq![c] } else { pass_entity(q).0 },
        None => seq![c],
    }
}

/// Escaped text after `k` passes of the decoding.
spec fn staged(s: Seq<char>, k: nat) -> Seq<char>
    decreases s.len(),
{
    if s.len() == 0 { Seq::empty() } else { staged_char(s[0], k) + staged(s.skip(1), k) }
}

proof fn lemma_replace_plain(u: Seq<char>, t: Seq<char>, p: Seq<char>, r: Seq<char>)
    requires
        p.len() > 0,
        p[0] == '&',
        forall|i: int| 0 <= i < u.len() ==> u[i] != '&',
    ensures
        replace_all(u + t, p, r) == u + replace_all(t, p, r),
    decreases u.len(),
{
    if u.len() > 0 {
        let w = u + t;
        assert(w[0] == u[0]);
        if p.len() <= w.len() {
            assert(w.take(p.len() as int)[0] != p[0]);
        }
        assert(w.skip(1) =~= u.skip(1) + t);
        lemma_replace_plain(u.skip(1), t, p, r);
        assert(seq![u[0]] + (u.skip(1) + replace_all(t, p, r)) =~= u + replace_all(t, p, r));
    }
}

proof fn lemma_replace_chunk(c: char, k: nat, t: Seq<char>)
    requires
        k < 5,
    ensures
        replace_all(staged_char(c, k) + t, pass_entity(k).0, seq![pass_entity(k).1])
            == staged_char(c, k + 1) + replace_all(t, pass_entity(k).0, seq![pass_entity(k).1]),
{
    let p = pass_entity(k).0;
    let r = seq![pass_entity(k).1];
    let w = staged_char(c, k);
    let u = w + t;
    match decode_pass(c) {
        Some(q) => {
            if q < k {
                assert(c != '&');
                lemma_replace_plain(w, t, p, r);
            } else if q == k {
                assert(u.take(p.len() as int) =~= p);
                assert(u.skip(p.len() as int) =~= t);
                assert(staged_char(c, k + 1) == r);
            } else {
                let e = pass_entity(q).0;
                assert(w == e);
                assert(e[1] != p[1]);
                if p.len() <= u.len() {
                    assert(u.take(p.len() as int)[1] == e[1]);
                }
                assert(u[0] == '&');
                assert(u.skip(1) =~= e.skip(1) + t);
                lemma_replace_plain(e.skip(1), t, p, r);
                assert(seq!['&'] + (e.skip(1) + replace_all(t, p, r)) =~= e + replace_all(t, p, r));
                assert(staged_char(c, k + 1) == e);
            }
        },
        None => {
            lemma_replace_plain(w, t, p, r);
        },
    }
}

proof fn lemma_replace_pass(s: Seq<char>, k: nat)
    requires
        k < 5,
    ensures
        replace_all(staged(s, k), pass_entity(k).0, seq![pass_entity(k).1]) == staged(s, k + 1),
    decreases s.len(),
{
    if s.len() > 0 {
        lemma_replace_chunk(s[0], k, staged(s.skip(1), k));
        lemma_replace_pass(s.skip(1), k);
    }
}

proof fn lemma_staged_start(s: Seq<char>)
    ensures
        staged(s, 0) == html_escaped(s),
    decreases s.len(),
{
    reveal_strlit("&amp;");
    reveal_strlit("&lt;");
    reveal_strlit("&gt;");
    reveal_strlit("&quot;");
    reveal_strlit("&#39;");
    if s.len() > 0 {
        let c = s[0];
        let rest = s.skip(1);
        lemma_staged_start(rest);
        assert(s =~= seq![c] + rest);
        lemma_html_escape_concat(seq![c], rest);
        let one = seq![c];
        assert(one.drop_last() =~= Seq::<char>::empty());
        assert(html_escaped(one.drop_last()) == Seq::<char>::empty());
        assert(html_escaped(one) == html_escaped(one.drop_last()) + html_char(one.last()));
        assert(html_escaped(one) =~= html_char(c));
        assert(staged_char(c, 0) =~= html_char(c));
    }
}

proof fn lemma_staged_end(s: Seq<char>)
    ensures
        staged(s, 5) == s,
    decreases s.len(),
{
    if s.len() > 0 {
        lemma_staged_end(s.skip(1));
        assert(staged_char(s[0], 5) == seq![s[0]]);
        assert(seq![s[0]] + s.skip(1) =~= s);
    }
}

/// Decoding the HTML escape of a text by replacing every `&lt;`, `&gt;`,
/// `&quot;` and `&#39;`, and then every `&amp;`, gives the text back.
pub proof fn lemma_html_unescape_by_replace(s: Seq<char>)
    ensures
        html_unescaped_by_replace(html_escaped(s)) == s,
{
    lemma_staged_start(s);
    lemma_replace_pass(s, 0);
    lemma_replace_pass(s, 1);
    lemma_replace_pass(s, 2);
    lemma_replace_pass(s, 3);
    lemma_replace_pass(s, 4);
    lemma_staged_end(s);
}

/// Text without `&`, `<`, `>`, `"` or `'` is its own HTML escape.
pub proof fn lemma_html_escape_plain(s: Seq<char>)
    requires
        markup_free(s),
        !s.contains('&'),
    ensures
        html_escaped(s) == s,
    decreases s.len(),
{
    if s.len() > 0 {
        assert(markup_free(s.drop_last()) && !s.drop_last().contains('&')) by {
            assert forall|i: int| 0 <= i < s.drop_last().len() implies #[trigger] s.drop_last()[i] != '<'
                && s.drop_last()[i] != '>' && s.drop_last()[i] != '"' && s.drop_last()[i] != '\'' by {
                assert(s.drop_last()[i] == s[i]);
            }
            if s.drop_last().contains('&') {
                let k = choose|k: int| 0 <= k < s.drop_last().len() && s.drop_last()[k] == '&';
                assert(s[k] == '&');
            }
        }
        lemma_html_escape_plain(s.drop_last());
        assert(s[s.len() - 1] != '<');
        if s.last() == '&' {
            assert(s.contains('&'));
        }
        assert(s.drop_last().push(s.last()) =~= s);
    }
}

/// Escapes text for HTML.
pub fn html_escape(text: &str) -> (res: String)
    ensures
        res@ == html_escaped(text@),
{
    let t = chars_of(text);
    let mut res = String::new();
    let mut i: usize = 0;
    while i < t.len()
        invariant
            t@ == text@,
            i <= t.len(),
            res@ == html_escaped(t@.take(i as int)),
        decreases t.len() - i,
    {
        assert(t@.take(i + 1).drop_last() =~= t@.take(i as int));
        let c = t[i];
        let ghost before = res@;
        if c == '&' {
            res.append("&amp;");
        } else if c == '<' {
            res.append("&lt;");
        } else if c == '>' {
            res.append("&gt;");
        } else if c == '"' {
            res.append("&quot;");
        } else if c == '\'' {
            res.append("&#39;");
        } else {
            push_char(&mut res, c);
            assert(res@ =~= before + seq![c]);
        }
        i += 1;
    }
    assert(t@.take(t.len() as int) =~= t@);
    res
}

/// Escapes text for XML.
pub fn xml_escape(text: &str) -> (res: String)
    ensures
        res@ == xml_escaped(text@),
{
    let t = chars_of(text);
    let mut res = String::new();
    let mut i: usize = 0;
    while i < t.len()
        invariant
            t@ == text@,
            i <= t.len(),
            res@ == xml_escaped(t@.take(i as int)),
        decreases t.len() - i,
    {
        assert(t@.take(i + 1).drop_last() =~= t@.take(i as int));
        let c = t[i];
        let ghost before = res@;
        if c == '&' {
            res.append("&amp;");
        } else if c == '<' {
            res.append("&lt;");
        } else if c == '>' {
            res.append("&gt;");
        } else if c == '"' {
            res.append("&quot;");
        } else if c == '\'' {
            res.append("&apos;");
        } else {
            push_char(&mut res, c);
            assert(res@ =~= before + seq![c]);
        }
        i += 1;
    }
    assert(t@.take(t.len() as int) =~= t@);
    res
}

fn has_char(t: &Vec<char>, c: char) -> (res: bool)
    ensures
        res == t@.contains(c),
{
    let mut i: usize = 0;
    while i < t.len()
        invariant
            i <= t.len(),
            forall|k: int| 0 <= k < i ==> t@[k] != c,
        decreases t.len() - i,
    {
        if t[i] == c {
            assert(t@[i as int] == c);
            return true;
        }
        i += 1;
    }
    false
}

/// Escapes text as a CSV field.
pub fn csv_escape(text: &str) -> (res: String)
    ensures
        res@ == csv_field(text@),
{
    let t = chars_of(text);
    if has_char(&t, ',') || has_char(&t, '"') || has_char(&t, '\n') {
        let mut res = String::new();
        push_char(&mut res, '"');
        let mut i: usize = 0;
        while i < t.len()
            invariant
                t@ == text@,
                i <= t.len(),
                res@ == seq!['"'] + quotes_doubled(t@.take(i as int)),
            decreases t.len() - i,
        {
            assert(t@.take(i + 1).drop_last() =~= t@.take(i as int));
            let c = t[i];
            if c == '"' {
                push_char(&mut res, '"');
                push_char(&mut res, '"');
            } else {
                push_char(&mut res, c);
            }
            assert(res@ =~= seq!['"'] + quotes_doubled(t@.take(i + 1)));
            i += 1;
        }
        assert(t@.take(t.len() as int) =~= t@);
        push_char(&mut res, '"');
        res
    } else {
        string_from_chars(&t)
    }
}

// ---------------------------------------------------------------------------
// Summaries
// ---------------------------------------------------------------------------

/// How a file changed, by its number of changes.
#[derive(Debug, Clone, Copy, PartialEq, Eq, Structural)]
pub enum ChangeStatus {
    NoChanges,
    MinorChanges,
    MajorChanges,
}

/// No changes, fewer than five (minor), or five and more (major).
pub fn change_status(change_count: usize) -> (res: ChangeStatus)
    ensures
        change_count == 0 ==> res == ChangeStatus::NoChanges,
        0 < change_count < 5 ==> res == ChangeStatus::MinorChanges,
        change_count >= 5 ==> res == ChangeStatus::MajorChanges,
{
    if change_count == 0 {
        ChangeStatus::NoChanges
    } else if change_count < 5 {
        ChangeStatus::MinorChanges
    } else {
        ChangeStatus::MajorChanges
    }
}

} // verus!
