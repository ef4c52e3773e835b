use diff2html::parser::{parse, DiffParserConfig, escape_for_regexp, get_extension};
use diff2html::types::{Checksum, FileMode, LineType};

#[test]
fn parser_test_parse_simple_diff() {
    let diff = "diff --git a/test.txt b/test.txt\nindex 1234567..abcdefg 100644\n--- a/test.txt\n+++ b/test.txt\n@@ -1,3 +1,4 @@\n line1\n-line2\n+line2 modified\n+new line\n line3\n";
    let files = parse(diff, &DiffParserConfig::default());
    assert_eq!(files.len(), 1);
    let file = &files[0];
    assert_eq!(file.old_name, "test.txt");
    assert_eq!(file.new_name, "test.txt");
    assert!(file.is_git_diff);
    assert!(!file.is_combined);
    assert_eq!(file.added_lines, 2);
    assert_eq!(file.deleted_lines, 1);
    assert_eq!(file.blocks.len(), 1);
    let block = &file.blocks[0];
    assert_eq!(block.old_start_line, 1);
    assert_eq!(block.new_start_line, 1);
    assert_eq!(block.lines.len(), 5);
}

#[test]
fn parser_test_parse_new_file() {
    let diff = "diff --git a/newfile.txt b/newfile.txt\nnew file mode 100644\nindex 0000000..1234567\n--- /dev/null\n+++ b/newfile.txt\n@@ -0,0 +1,2 @@\n+line1\n+line2\n";
    let files = parse(diff, &DiffParserConfig::default());
    assert_eq!(files.len(), 1);
    let file = &files[0];
    assert_eq!(file.new_name, "newfile.txt");
    assert_eq!(file.is_new, Some(true));
    assert_eq!(file.new_file_mode, Some("100644".to_string()));
    assert_eq!(file.added_lines, 2);
}

#[test]
fn parser_test_parse_deleted_file() {
    let diff = "diff --git a/deleted.txt b/deleted.txt\ndeleted file mode 100644\nindex 1234567..0000000\n--- a/deleted.txt\n+++ /dev/null\n@@ -1,2 +0,0 @@\n-line1\n-line2\n";
    let files = parse(diff, &DiffParserConfig::default());
    assert_eq!(files.len(), 1);
    let file = &files[0];
    assert_eq!(file.old_name, "deleted.txt");
    assert_eq!(file.is_deleted, Some(true));
    assert_eq!(file.deleted_lines, 2);
}

#[test]
fn parser_test_parse_rename() {
    let diff = "diff --git a/old.txt b/new.txt\nsimilarity index 95%\nrename from old.txt\nrename to new.txt\nindex 1234567..abcdefg 100644\n";
    let files = parse(diff, &DiffParserConfig::default());
    assert_eq!(files.len(), 1);
    let file = &files[0];
    assert_eq!(file.old_name, "old.txt");
    assert_eq!(file.new_name, "new.txt");
    assert_eq!(file.is_rename, Some(true));
    assert_eq!(file.unchanged_percentage, Some(95));
}

#[test]
fn parser_test_parse_binary_file() {
    let diff = "diff --git a/image.png b/image.png\nindex 1234567..abcdefg 100644\nBinary files a/image.png and b/image.png differ\n";
    let files = parse(diff, &DiffParserConfig::default());
    assert_eq!(files.len(), 1);
    assert_eq!(files[0].is_binary, Some(true));
}

#[test]
fn parser_test_parse_multiple_files() {
    let diff = "diff --git a/file1.txt b/file1.txt\nindex 1234567..abcdefg 100644\n--- a/file1.txt\n+++ b/file1.txt\n@@ -1 +1 @@\n-old\n+new\ndiff --git a/file2.txt b/file2.txt\nindex 1234567..abcdefg 100644\n--- a/file2.txt\n+++ b/file2.txt\n@@ -1 +1 @@\n-foo\n+bar\n";
    let files = parse(diff, &DiffParserConfig::default());
    assert_eq!(files.len(), 2);
    assert_eq!(files[0].new_name, "file1.txt");
    assert_eq!(files[1].new_name, "file2.txt");
}

#[test]
fn test_parse_unified_diff_without_git() {
    let diff = "--- a/test.txt\t2024-01-01 00:00:00.000000000 +0000\n+++ b/test.txt\t2024-01-02 00:00:00.000000000 +0000\n@@ -1,2 +1,2 @@\n unchanged\n-removed\n+added\n";
    let files = parse(diff, &DiffParserConfig::default());
    assert_eq!(files.len(), 1);
    let file = &files[0];
    assert!(!file.is_git_diff);
    assert_eq!(file.old_name, "test.txt");
    assert_eq!(file.new_name, "test.txt");
}

#[test]
fn test_line_types() {
    let diff = "diff --git a/test.txt b/test.txt\n--- a/test.txt\n+++ b/test.txt\n@@ -1,3 +1,3 @@\n context\n-deleted\n+inserted\n";
    let files = parse(diff, &DiffParserConfig::default());
    let lines = &files[0].blocks[0].lines;
    assert_eq!(lines[0].line_type, LineType::Context);
    assert_eq!(lines[0].old_number, Some(1));
    assert_eq!(lines[0].new_number, Some(1));
    assert_eq!(lines[1].line_type, LineType::Delete);
    assert_eq!(lines[1].old_number, Some(2));
    assert_eq!(lines[1].new_number, None);
    assert_eq!(lines[2].line_type, LineType::Insert);
    assert_eq!(lines[2].old_number, None);
    assert_eq!(lines[2].new_number, Some(2));
}

#[test]
fn test_diff_too_big() {
    let diff = "diff --git a/test.txt b/test.txt\n--- a/test.txt\n+++ b/test.txt\n@@ -1,3 +1,5 @@\n context\n+line1\n+line2\n+line3\n+line4\n";
    let config = DiffParserConfig {
        diff_max_changes: Some(2),
        ..Default::default()
    };
    let files = parse(diff, &config);
    assert_eq!(files.len(), 1);
    assert_eq!(files[0].is_too_big, Some(true));
    assert_eq!(files[0].added_lines, 0);
}

#[test]
fn test_escape_for_regexp() {
    assert_eq!(escape_for_regexp("a.b"), "a\\.b");
    assert_eq!(escape_for_regexp("a+b"), "a\\+b");
    assert_eq!(escape_for_regexp("a/b"), "a\\/b");
    assert_eq!(escape_for_regexp("[test]"), "\\[test\\]");
}

#[test]
fn test_get_extension() {
    assert_eq!(get_extension("file.rs", "txt"), "rs");
    assert_eq!(get_extension("file.test.rs", "txt"), "rs");
    assert_eq!(get_extension("noextension", "default"), "default");
}

#[test]
fn test_combined_diff() {
    let diff = "diff --combined file.txt\nindex abc123,def456..789012\n--- a/file.txt\n+++ b/file.txt\n@@@ -1,2 -1,2 +1,3 @@@\n  unchanged\n -deleted from first\n + added in merge\n++added in both\n";
    let files = parse(diff, &DiffParserConfig::default());
    assert_eq!(files.len(), 1);
    let file = &files[0];
    assert!(file.is_combined);
    assert_eq!(file.blocks.len(), 1);
    assert!(file.blocks[0].old_start_line2.is_some());
    assert_eq!(file.blocks[0].old_start_line, 1);
    assert_eq!(file.blocks[0].old_start_line2, Some(1));
    assert_eq!(file.blocks[0].new_start_line, 1);
}

#[test]
fn scenario_single_hunk_counts() {
    let diff = "diff --git a/sample b/sample\nindex 0000001..0ddf2ba\n--- a/sample\n+++ b/sample\n@@ -1 +1 @@\n-test\n+test1r\n";
    let files = parse(diff, &DiffParserConfig::default());
    assert_eq!(files.len(), 1);
    let f = &files[0];
    assert_eq!(f.old_name, "sample");
    assert_eq!(f.new_name, "sample");
    assert_eq!(f.added_lines, 1);
    assert_eq!(f.deleted_lines, 1);
    assert!(f.is_git_diff);
    assert_eq!(f.blocks.len(), 1);
    assert_eq!(f.blocks[0].header, "@@ -1 +1 @@");
    assert_eq!(f.blocks[0].lines[0].line_type, LineType::Delete);
    assert_eq!(f.blocks[0].lines[1].line_type, LineType::Insert);
}

#[test]
fn test_parse_unix_line_endings() {
    let diff = "diff --git a/sample b/sample\n\
                index 0000001..0ddf2ba\n\
                --- a/sample\n\
                +++ b/sample\n\
                @@ -1 +1 @@\n\
                -test\n\
                +test1r\n";
    let result = parse(diff, &DiffParserConfig::default());
    assert_eq!(result.len(), 1);
    assert_eq!(result[0].blocks[0].lines.len(), 2);
}

#[test]
fn test_parse_windows_line_endings() {
    let diff = "diff --git a/sample b/sample\r\n\
                index 0000001..0ddf2ba\r\n\
                --- a/sample\r\n\
                +++ b/sample\r\n\
                @@ -1 +1 @@\r\n\
                -test\r\n\
                +test1r\r\n";
    let result = parse(diff, &DiffParserConfig::default());
    assert_eq!(result.len(), 1);
    assert_eq!(result[0].blocks[0].lines.len(), 2);
}

#[test]
fn test_parse_old_mac_line_endings() {
    let diff = "diff --git a/sample b/sample\r\
                index 0000001..0ddf2ba\r\
                --- a/sample\r\
                +++ b/sample\r\
                @@ -1 +1 @@\r\
                -test\r\
                +test1r\r";
    let result = parse(diff, &DiffParserConfig::default());
    assert_eq!(result.len(), 1);
    assert_eq!(result[0].blocks[0].lines.len(), 2);
}

#[test]
fn test_parse_mixed_line_endings() {
    let diff = "diff --git a/sample b/sample\n\
                index 0000001..0ddf2ba\r\n\
                --- a/sample\r\
                +++ b/sample\r\n\
                @@ -1 +1 @@\n\
                -test\r\
                +test1r\n";
    let result = parse(diff, &DiffParserConfig::default());
    assert_eq!(result.len(), 1);
    assert_eq!(result[0].blocks[0].lines.len(), 2);
}

#[test]
fn test_line_numbers_context() {
    let diff = "diff --git a/test.txt b/test.txt
--- a/test.txt
+++ b/test.txt
@@ -1,3 +1,3 @@
 context1
-old
+new
 context2
";
    let result = parse(diff, &DiffParserConfig::default());

    assert_eq!(result.len(), 1);
    let lines = &result[0].blocks[0].lines;

    assert_eq!(lines[0].old_number, Some(1));
    assert_eq!(lines[0].new_number, Some(1));

    assert_eq!(lines[1].old_number, Some(2));
    assert_eq!(lines[1].new_number, None);

    assert_eq!(lines[2].old_number, None);
    assert_eq!(lines[2].new_number, Some(2));

    assert_eq!(lines[3].old_number, Some(3));
    assert_eq!(lines[3].new_number, Some(3));
}

#[test]
fn test_line_numbers_with_offset() {
    let diff = "diff --git a/test.txt b/test.txt
--- a/test.txt
+++ b/test.txt
@@ -10,3 +20,3 @@
 context
-old
+new
";
    let result = parse(diff, &DiffParserConfig::default());

    let lines = &result[0].blocks[0].lines;
    assert_eq!(lines[0].old_number, Some(10));
    assert_eq!(lines[0].new_number, Some(20));
}

#[test]
fn test_parse_checksums() {
    let diff = "diff --git a/sample b/sample\n\
                index 0000001..0ddf2ba\n\
                --- a/sample\n\
                +++ b/sample\n\
                @@ -1 +1 @@\n\
                -test\n\
                +test1r\n";
    let result = parse(diff, &DiffParserConfig::default());

    let file = &result[0];
    match &file.checksum_before {
        Some(Checksum::Single(s)) => assert_eq!(s, "0000001"),
        _ => panic!("Expected single checksum"),
    }
    assert_eq!(file.checksum_after.as_deref(), Some("0ddf2ba"));
}

#[test]
fn test_parse_with_custom_prefixes() {
    let diff = "diff --git i/sample w/sample\n\
                index 0000001..0ddf2ba\n\
                --- i/sample\n\
                +++ w/sample\n\
                @@ -1 +1 @@\n\
                -test\n\
                +test1r\n";
    let config = DiffParserConfig {
        src_prefix: Some("i/".to_string()),
        dst_prefix: Some("w/".to_string()),
        ..Default::default()
    };
    let result = parse(diff, &config);

    assert_eq!(result[0].old_name, "sample");
    assert_eq!(result[0].new_name, "sample");
}

#[test]
fn test_parse_diff_max_changes() {
    let mut diff = "diff --git a/large.txt b/large.txt\n\
                    --- a/large.txt\n\
                    +++ b/large.txt\n\
                    @@ -1,100 +1,100 @@\n"
        .to_string();
    for i in 0..50 {
        diff.push_str(&format!("-line{}\n", i));
        diff.push_str(&format!("+newline{}\n", i));
    }

    let config = DiffParserConfig {
        diff_max_changes: Some(10),
        ..Default::default()
    };
    let result = parse(&diff, &config);

    assert_eq!(result.len(), 1);
    assert_eq!(result[0].is_too_big, Some(true));
}

#[test]
fn test_parse_empty_diff() {
    let result = parse("", &DiffParserConfig::default());
    assert!(result.is_empty());
}

#[test]
fn test_parse_no_newline_at_eof() {
    let diff = "diff --git a/sample.scala b/sample.scala\n\
                index b583263..8b2fc3e 100644\n\
                --- a/sample.scala\n\
                +++ b/sample.scala\n\
                @@ -1,2 +1,2 @@\n\
                -old\n\
                \\ No newline at end of file\n\
                +new\n";
    let result = parse(diff, &DiffParserConfig::default());

    assert_eq!(result.len(), 1);
    let block = &result[0].blocks[0];
    assert!(!block.lines.is_empty());
}

#[test]
fn test_parse_diff_with_context_in_content() {
    let diff = "--- sample.js\n\
                +++ sample.js\n\
                @@ -1,8 +1,8 @@\n\
                 test\n\
                 \n\
                -- 1\n\
                --- 1\n\
                ---- 1\n\
                 \n\
                ++ 2\n\
                +++ 2\n\
                ++++ 2";
    let result = parse(diff, &DiffParserConfig::default());

    assert_eq!(result.len(), 1);
    let lines = &result[0].blocks[0].lines;
    assert!(lines.iter().any(|l| l.content.contains("-- 1")));
    assert!(lines.iter().any(|l| l.content.contains("--- 1")));
}

#[test]
fn test_parse_unified_diff_multiple_hunks_and_files() {
    let diff = "--- sample.js\n\
                +++ sample.js\n\
                @@ -1 +1,2 @@\n\
                -test\n\
                @@ -10 +20,2 @@\n\
                +test\n\
                --- sample1.js\n\
                +++ sample1.js\n\
                @@ -1 +1,2 @@\n\
                +test1";
    let result = parse(diff, &DiffParserConfig::default());

    assert_eq!(result.len(), 2);
    assert_eq!(result[0].blocks.len(), 2);
    assert_eq!(result[1].blocks.len(), 1);
}

#[test]
fn test_parse_diff_without_proper_hunk_headers() {
    let diff = "--- sample.js\n\
                +++ sample.js\n\
                @@ @@\n\
                 test";
    let result = parse(diff, &DiffParserConfig::default());

    assert_eq!(result.len(), 1);
    assert_eq!(result[0].blocks.len(), 1);
    assert_eq!(result[0].blocks[0].old_start_line, 0);
    assert_eq!(result[0].blocks[0].new_start_line, 0);
}

#[test]
fn test_parse_mode_change() {
    let diff = "diff --git a/script.sh b/script.sh\n\
                old mode 100644\n\
                new mode 100755\n\
                index abc1234..def5678\n\
                --- a/script.sh\n\
                +++ b/script.sh\n\
                @@ -1 +1 @@\n\
                -echo old\n\
                +echo new\n";
    let result = parse(diff, &DiffParserConfig::default());

    assert_eq!(result.len(), 1);
    let file = &result[0];
    match &file.old_mode {
        Some(FileMode::Single(m)) => assert_eq!(m, "100644"),
        _ => panic!("Expected single old mode"),
    }
    assert_eq!(file.new_mode.as_deref(), Some("100755"));
}

#[test]
fn test_parse_nested_diff_content() {
    let diff = "diff --git a/src/offset.js b/src/offset.js\n\
                index cc6ffb4..fa51f18 100644\n\
                --- a/src/offset.js\n\
                +++ b/src/offset.js\n\
                @@ -1,3 +1,3 @@\n\
                +var text = 'diff --git a/test b/test\\n--- a/test\\n+++ b/test';\n\
                 console.log(text);\n\
                -var old = true;\n";
    let result = parse(diff, &DiffParserConfig::default());

    assert_eq!(result.len(), 1);
    assert_eq!(result[0].old_name, "src/offset.js");
}
