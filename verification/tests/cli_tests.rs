use smart_diff::cli_support::{
    OutputFormat, Language, ChangeStatus, glob_match, should_include_file, is_source_file,
    html_escape, xml_escape, csv_escape, change_status,
};

#[test]
fn output_format_properties() {
    assert!(OutputFormat::Text.supports_color());
    assert!(OutputFormat::Html.supports_color());
    assert!(OutputFormat::Markdown.supports_color());
    assert!(!OutputFormat::Json.supports_color());
    assert_eq!(OutputFormat::JsonCompact.file_extension(), "json");
    assert_eq!(OutputFormat::Markdown.file_extension(), "md");
    assert_eq!(OutputFormat::Text.file_extension(), "txt");
    assert_eq!(OutputFormat::Xml.mime_type(), "application/xml");
    assert_eq!(OutputFormat::Csv.mime_type(), "text/csv");
    assert_eq!(OutputFormat::Json.mime_type(), "application/json");
}

#[test]
fn language_extensions() {
    assert_eq!(Language::Java.file_extensions(), vec!["java"]);
    assert_eq!(Language::Cpp.file_extensions(), vec!["cpp", "cxx", "cc", "hpp", "hxx", "h"]);
    assert_eq!(Language::C.file_extensions(), vec!["c", "h"]);
    assert!(Language::Auto.file_extensions().is_empty());
}

#[test]
fn glob_patterns() {
    assert!(glob_match("*.rs", "main.rs"));
    assert!(!glob_match("*.rs", "main.py"));
    assert!(glob_match("src*", "src/lib.rs"));
    assert!(glob_match("a*b*c", "xxabcxx"));
    assert!(!glob_match("a*b*c", "acb"));
    assert!(glob_match("main.rs", "src/main.rs"));
    assert!(!glob_match("main.rs", "main.rs.bak"));
    assert!(glob_match("ab*b", "ab"));
}

#[test]
fn file_filters() {
    let none: Vec<String> = Vec::new();
    assert!(should_include_file("src/a.rs", &none, &none));
    assert!(!should_include_file("src/a.rs", &none, &vec!["*.rs".to_string()]));
    assert!(should_include_file("src/a.rs", &vec!["*.rs".to_string()], &none));
    assert!(!should_include_file("src/a.py", &vec!["*.rs".to_string()], &none));
    assert!(should_include_file("src/a.rs", &vec!["a.rs".to_string()], &none));
    assert!(!should_include_file("src/a.rs", &vec!["*.rs".to_string()], &vec!["a*".to_string()]));
}

#[test]
fn source_files_by_extension() {
    assert!(is_source_file("Main.java"));
    assert!(is_source_file("lib/util.H"));
    assert!(is_source_file("x.PY"));
    assert!(!is_source_file("README.md"));
    assert!(!is_source_file("Makefile"));
}

#[test]
fn escaping() {
    assert_eq!(html_escape("<a href=\"x\">'&'</a>"), "&lt;a href=&quot;x&quot;&gt;&#39;&amp;&#39;&lt;/a&gt;");
    assert_eq!(xml_escape("it's <b>"), "it&apos;s &lt;b&gt;");
    assert_eq!(csv_escape("plain"), "plain");
    assert_eq!(csv_escape("a,b"), "\"a,b\"");
    assert_eq!(csv_escape("say \"hi\""), "\"say \"\"hi\"\"\"");
    assert_eq!(csv_escape("two\nlines"), "\"two\nlines\"");
}

#[test]
fn change_status_by_count() {
    assert_eq!(change_status(0), ChangeStatus::NoChanges);
    assert_eq!(change_status(4), ChangeStatus::MinorChanges);
    assert_eq!(change_status(5), ChangeStatus::MajorChanges);
}

#[test]
fn escaped_html_has_no_markup() {
    for text in ["<a href='x'>\"&\"</a>", "plain", "", "'\"<>&"] {
        let out = html_escape(text);
        assert!(!out.contains('<') && !out.contains('>') && !out.contains('"') && !out.contains('\''));
        let out = xml_escape(text);
        assert!(!out.contains('<') && !out.contains('>') && !out.contains('"') && !out.contains('\''));
    }
}

#[test]
fn html_escape_of_concatenation() {
    let a = "x < y";
    let b = "'b' & \"c\"";
    let whole = format!("{}{}", a, b);
    assert_eq!(html_escape(&whole), format!("{}{}", html_escape(a), html_escape(b)));
    assert_eq!(html_escape("hello world"), "hello world");
}

#[test]
fn escaped_html_decodes_back() {
    let text = "a<b> & \"c\" 'd' &amp; &lt;";
    let escaped = smart_diff::cli_support::html_escape(text);
    let decoded = escaped
        .replace("&lt;", "<")
        .replace("&gt;", ">")
        .replace("&quot;", "\"")
        .replace("&#39;", "'")
        .replace("&amp;", "&");
    assert_eq!(decoded, text);
}
