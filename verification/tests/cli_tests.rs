use diff2html::cli::{escape_html, generate_git_diff_args};

#[test]
fn test_generate_git_diff_args_default() {
    let args = generate_git_diff_args(&vec![], &vec![]);
    assert_eq!(args, vec!["diff", "--no-color", "-M", "-C", "HEAD"]);
}

#[test]
fn test_generate_git_diff_args_with_extra_args() {
    let extra = vec!["HEAD~1".to_string()];
    let args = generate_git_diff_args(&extra, &vec![]);
    assert_eq!(args, vec!["diff", "--no-color", "HEAD~1"]);
}

#[test]
fn test_generate_git_diff_args_no_color_already_present() {
    let extra = vec!["--no-color".to_string(), "HEAD".to_string()];
    let args = generate_git_diff_args(&extra, &vec![]);
    assert_eq!(args, vec!["diff", "--no-color", "HEAD"]);
}

#[test]
fn test_generate_git_diff_args_with_ignore() {
    let extra = vec!["HEAD".to_string()];
    let ignore = vec!["package-lock.json".to_string(), "yarn.lock".to_string()];
    let args = generate_git_diff_args(&extra, &ignore);
    assert_eq!(
        args,
        vec!["diff", "--no-color", "HEAD", "--", ":(exclude)package-lock.json", ":(exclude)yarn.lock"]
    );
}

#[test]
fn test_generate_git_diff_args_with_separator_present() {
    let extra = vec!["HEAD".to_string(), "--".to_string(), "src/".to_string()];
    let ignore = vec!["node_modules".to_string()];
    let args = generate_git_diff_args(&extra, &ignore);
    assert_eq!(
        args,
        vec!["diff", "--no-color", "HEAD", "--", "src/", ":(exclude)node_modules"]
    );
}

#[test]
fn test_escape_html() {
    assert_eq!(
        escape_html("<script>alert('xss')</script>"),
        "&lt;script&gt;alert(&#x27;xss&#x27;)&lt;/script&gt;"
    );
    assert_eq!(escape_html("a & b"), "a &amp; b");
    assert_eq!(escape_html("\"quoted\""), "&quot;quoted&quot;");
    assert_eq!(escape_html("normal text"), "normal text");
}
