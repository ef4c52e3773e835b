use diff2html::parser::{parse, DiffParserConfig};
use diff2html::render::{color_scheme_to_css, deconstruct_line, diff_highlight, escape_for_html,
    filename_diff, get_file_icon, get_html_id, remove_del_elements, remove_ins_elements,
    to_css_class, CSSLineClass};
use diff2html::json::json_from_diff_files;
use diff2html::templates::CSS;
use diff2html::templates::TemplateName;
use diff2html::types::{ColorScheme, DiffFile, DiffStyle, LineType};

fn base_file() -> DiffFile {
    DiffFile::empty()
}

#[test]
fn test_escape_for_html() {
    assert_eq!(escape_for_html("hello"), "hello");
    assert_eq!(escape_for_html("<script>"), "&lt;script&gt;");
    assert_eq!(escape_for_html("a & b"), "a &amp; b");
    assert_eq!(escape_for_html("\"quoted\""), "&quot;quoted&quot;");
    assert_eq!(escape_for_html("it's"), "it&#x27;s");
    assert_eq!(escape_for_html("a/b"), "a&#x2F;b");
}

#[test]
fn test_deconstruct_line_regular() {
    let parts = deconstruct_line("+hello", false, true);
    assert_eq!(parts.prefix, "+");
    assert_eq!(parts.content, "hello");
    let parts = deconstruct_line("-goodbye", false, true);
    assert_eq!(parts.prefix, "-");
    assert_eq!(parts.content, "goodbye");
    let parts = deconstruct_line(" unchanged", false, true);
    assert_eq!(parts.prefix, " ");
    assert_eq!(parts.content, "unchanged");
}

#[test]
fn test_deconstruct_line_combined() {
    let parts = deconstruct_line("++hello", true, true);
    assert_eq!(parts.prefix, "++");
    assert_eq!(parts.content, "hello");
    let parts = deconstruct_line("- goodbye", true, true);
    assert_eq!(parts.prefix, "- ");
    assert_eq!(parts.content, "goodbye");
}

#[test]
fn test_deconstruct_line_escaping() {
    let parts = deconstruct_line("+<html>", false, true);
    assert_eq!(parts.content, "&lt;html&gt;");
    let parts = deconstruct_line("+<html>", false, false);
    assert_eq!(parts.content, "<html>");
}

#[test]
fn test_deconstruct_line_multibyte_chars() {
    let parts = deconstruct_line("+🎉hello", false, true);
    assert_eq!(parts.prefix, "+");
    assert_eq!(parts.content, "🎉hello");
    let parts = deconstruct_line("-中文", false, true);
    assert_eq!(parts.prefix, "-");
    assert_eq!(parts.content, "中文");
    let parts = deconstruct_line("++🚀test", true, true);
    assert_eq!(parts.prefix, "++");
    assert_eq!(parts.content, "🚀test");
    let parts = deconstruct_line("a", false, true);
    assert_eq!(parts.prefix, "a");
    assert_eq!(parts.content, "");
}

#[test]
fn test_filename_diff_same_name() {
    let mut file = base_file();
    file.old_name = "test.txt".to_string();
    file.new_name = "test.txt".to_string();
    assert_eq!(filename_diff(&file), "test.txt");
}

#[test]
fn test_filename_diff_different_file() {
    let mut file = base_file();
    file.old_name = "my/path/to/file.js".to_string();
    file.new_name = "my/path/to/new-file.js".to_string();
    assert_eq!(filename_diff(&file), "my/path/to/{file.js \u{2192} new-file.js}");
}

#[test]
fn test_filename_diff_different_dir() {
    let mut file = base_file();
    file.old_name = "my/path/to/file.js".to_string();
    file.new_name = "my/path/for/file.js".to_string();
    assert_eq!(filename_diff(&file), "my/path/{to \u{2192} for}/file.js");
}

#[test]
fn test_filename_diff_completely_different() {
    let mut file = base_file();
    file.old_name = "old/file.js".to_string();
    file.new_name = "new/other.js".to_string();
    assert_eq!(filename_diff(&file), "old/file.js \u{2192} new/other.js");
}

#[test]
fn test_filename_diff_dev_null() {
    let mut file = base_file();
    file.old_name = "/dev/null".to_string();
    file.new_name = "new-file.txt".to_string();
    assert_eq!(filename_diff(&file), "new-file.txt");
    let mut file = base_file();
    file.old_name = "deleted-file.txt".to_string();
    file.new_name = "/dev/null".to_string();
    assert_eq!(filename_diff(&file), "deleted-file.txt");
}

#[test]
fn test_get_html_id() {
    let mut file = base_file();
    file.old_name = "test.txt".to_string();
    file.new_name = "test.txt".to_string();
    let id = get_html_id(&file);
    assert!(id.starts_with("d2h-"));
    assert_eq!(id.len(), 10);
}

#[test]
fn test_get_file_icon() {
    let mut file = base_file();
    assert_eq!(get_file_icon(&file), "file-changed");
    file.is_new = Some(true);
    assert_eq!(get_file_icon(&file), "file-added");
    file.is_new = None;
    file.is_deleted = Some(true);
    assert_eq!(get_file_icon(&file), "file-deleted");
    file.is_deleted = None;
    file.is_rename = Some(true);
    assert_eq!(get_file_icon(&file), "file-renamed");
    file.is_rename = None;
    file.is_copy = Some(true);
    assert_eq!(get_file_icon(&file), "file-renamed");
    file.is_copy = None;
    file.old_name = "old.txt".to_string();
    file.new_name = "new.txt".to_string();
    assert_eq!(get_file_icon(&file), "file-renamed");
}

#[test]
fn test_color_scheme_to_css() {
    assert_eq!(color_scheme_to_css(ColorScheme::Light), "d2h-light-color-scheme");
    assert_eq!(color_scheme_to_css(ColorScheme::Dark), "d2h-dark-color-scheme");
    assert_eq!(color_scheme_to_css(ColorScheme::Auto), "d2h-auto-color-scheme");
}

#[test]
fn test_to_css_class() {
    assert_eq!(to_css_class(LineType::Context).as_str(), "d2h-cntx");
    assert_eq!(to_css_class(LineType::Insert).as_str(), "d2h-ins");
    assert_eq!(to_css_class(LineType::Delete).as_str(), "d2h-del");
}

#[test]
fn test_css_line_class_display() {
    assert_eq!(CSSLineClass::Inserts.as_str(), "d2h-ins");
    assert_eq!(CSSLineClass::InsertChanges.as_str(), "d2h-ins d2h-change");
}

#[test]
fn test_remove_ins_elements() {
    let input = "hello <ins>world</ins> test";
    assert_eq!(remove_ins_elements(input), "hello  test");
}

#[test]
fn test_remove_del_elements() {
    let input = "hello <del>world</del> test";
    assert_eq!(remove_del_elements(input), "hello  test");
}

#[test]
fn test_template_name_as_str() {
    assert_eq!(TemplateName::GenericWrapper.as_str(), "generic-wrapper");
    assert_eq!(TemplateName::FileSummaryLine.as_str(), "file-summary-line");
    assert_eq!(TemplateName::LineByLineFileDiff.as_str(), "line-by-line-file-diff");
    assert_eq!(TemplateName::SideBySideFileDiff.as_str(), "side-by-side-file-diff");
    assert_eq!(TemplateName::TagFileRenamed.as_str(), "tag-file-renamed");
}

#[test]
fn test_json_serialization() {
    let diff = "diff --git a/test.txt b/test.txt\nindex 1234567..abcdefg 100644\n--- a/test.txt\n+++ b/test.txt\n@@ -1 +1 @@\n-old\n+new\n";
    let files = parse(diff, &DiffParserConfig::default());
    let json = json_from_diff_files(&files);
    assert!(json.contains("\"oldName\""));
    assert!(json.contains("\"newName\""));
    assert!(json.contains("\"addedLines\""));
    assert!(json.contains("\"deletedLines\""));
    assert!(json.contains("\"isGitDiff\""));
    assert!(json.contains("\"isCombined\""));
    assert!(json.contains("\"oldStartLine\""));
    assert!(json.contains("\"newStartLine\""));
    assert!(json.contains("\"type\":\"insert\""));
    assert!(json.contains("\"type\":\"delete\""));
    assert!(json.contains("\"newName\":\"test.txt\""));
}

#[test]
fn test_css_embedded() {
    assert!(!CSS.is_empty());
    assert!(CSS.contains(".d2h-wrapper"));
    assert!(CSS.contains(".d2h-file-header"));
    assert!(CSS.contains("--d2h-bg-color"));
}

#[test]
fn test_diff_highlight_basic() {
    let result = diff_highlight("-old text", "+new text", false, DiffStyle::Word, 10000);
    assert_eq!(result.old_line.prefix, "-");
    assert_eq!(result.new_line.prefix, "+");
    assert!(result.old_line.content.contains("<del>"));
    assert!(result.new_line.content.contains("<ins>"));
}

#[test]
fn test_diff_highlight_long_lines() {
    let result = diff_highlight("-a longer line", "+another longer line", false, DiffStyle::Word, 5);
    assert!(!result.old_line.content.contains("<del>"));
    assert!(!result.new_line.content.contains("<ins>"));
}

#[test]
fn test_too_big_custom_message() {
    let config = DiffParserConfig {
        diff_max_changes: Some(2),
        diff_too_big_message: Some("Too large to show".to_string()),
        ..Default::default()
    };
    let diff = "--- a/f.txt\n+++ b/f.txt\n@@ -1,3 +1,5 @@\n context\n+l1\n+l2\n+l3\n+l4\n";
    let files = diff2html::parse(diff, &config);
    assert_eq!(files.len(), 1);
    assert_eq!(files[0].is_too_big, Some(true));
    assert_eq!(files[0].blocks.len(), 1);
    assert_eq!(files[0].blocks[0].header, "Too large to show");
}
