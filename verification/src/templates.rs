use vstd::prelude::*;

verus! {


/// The stylesheet for rendered diffs: layout and colors for the wrapper,
/// the file list, file headers and the line classes.
pub const CSS: &'static str = ".d2h-wrapper {\n  text-align: left;\n}\n:root {\n  --d2h-bg-color: #fff;\n  --d2h-light-color: #24292e;\n  --d2h-dark-color: #e6edf3;\n  --d2h-border-color: #ddd;\n  --d2h-ins-bg-color: #dfd;\n  --d2h-del-bg-color: #fee8e9;\n  --d2h-cntx-bg-color: #fff;\n  --d2h-info-bg-color: #f8fafd;\n  --d2h-change-bg-color: #fffbdd;\n}\n.d2h-file-header {\n  background-color: var(--d2h-bg-color);\n  border-bottom: 1px solid var(--d2h-border-color);\n  font-family: monospace;\n  height: 35px;\n  padding: 5px 10px;\n  display: flex;\n  align-items: center;\n}\n.d2h-file-wrapper {\n  border: 1px solid var(--d2h-border-color);\n  border-radius: 3px;\n  margin-bottom: 1em;\n}\n.d2h-file-name {\n  white-space: nowrap;\n  overflow-x: hidden;\n  text-overflow: ellipsis;\n}\n.d2h-file-list-wrapper {\n  margin-bottom: 10px;\n}\n.d2h-file-list {\n  display: block;\n  list-style: none;\n  padding: 0;\n  margin: 0;\n}\n.d2h-file-list > li {\n  border-bottom: 1px solid var(--d2h-border-color);\n  padding: 5px 10px;\n  margin: 0;\n}\n.d2h-diff-table {\n  border-collapse: collapse;\n  font-family: monospace;\n  font-size: 13px;\n  width: 100%;\n}\n.d2h-code-line,\n.d2h-code-side-line {\n  display: inline-block;\n  white-space: pre;\n  padding: 0 8em 0 0;\n}\n.d2h-code-linenumber,\n.d2h-code-side-linenumber {\n  color: rgba(0, 0, 0, 0.3);\n  text-align: right;\n  width: 3.5em;\n  cursor: pointer;\n}\n.d2h-ins {\n  background-color: var(--d2h-ins-bg-color);\n}\n.d2h-del {\n  background-color: var(--d2h-del-bg-color);\n}\n.d2h-cntx {\n  background-color: var(--d2h-cntx-bg-color);\n}\n.d2h-info {\n  background-color: var(--d2h-info-bg-color);\n  color: rgba(0, 0, 0, 0.3);\n}\n.d2h-ins.d2h-change,\n.d2h-del.d2h-change {\n  background-color: var(--d2h-change-bg-color);\n}\nins.d2h-change,\ndel.d2h-change {\n  text-decoration: none;\n}\nins {\n  background-color: #97f295;\n  text-decoration: none;\n}\ndel {\n  background-color: #ffb6ba;\n  text-decoration: none;\n}\n.d2h-file-side-diff {\n  display: inline-block;\n  overflow-x: scroll;\n  overflow-y: hidden;\n  width: 50%;\n  margin-right: -4px;\n  margin-bottom: -8px;\n}\n.d2h-file-diff {\n  overflow-y: hidden;\n}\n.d2h-tag {\n  display: flex;\n  font-size: 10px;\n  margin-left: 5px;\n  padding: 0 2px;\n  background-color: var(--d2h-bg-color);\n}\n.d2h-dark-color-scheme {\n  background-color: #0d1117;\n  color: var(--d2h-dark-color);\n}\n.d2h-light-color-scheme {\n  background-color: var(--d2h-bg-color);\n  color: var(--d2h-light-color);\n}\n";

/// The names of the HTML templates the renderers draw on.
#[derive(Debug, Clone, Copy, PartialEq, Eq, Structural)]
pub enum TemplateName {
    GenericWrapper,
    FileSummaryWrapper,
    FileSummaryLine,
    LineByLineFileDiff,
    SideBySideFileDiff,
    GenericFilePath,
    GenericLine,
    LineByLineNumbers,
    GenericBlockHeader,
    GenericEmptyDiff,
    IconFile,
    IconFileAdded,
    IconFileChanged,
    IconFileDeleted,
    IconFileRenamed,
    TagFileAdded,
    TagFileChanged,
    TagFileDeleted,
    TagFileRenamed,
}

/// The registry key each template name stands for.
pub open spec fn template_name_str(t: TemplateName) -> Seq<char> {
    match t {
        TemplateName::GenericWrapper => "generic-wrapper"@,
        TemplateName::FileSummaryWrapper => "file-summary-wrapper"@,
        TemplateName::FileSummaryLine => "file-summary-line"@,
        TemplateName::LineByLineFileDiff => "line-by-line-file-diff"@,
        TemplateName::SideBySideFileDiff => "side-by-side-file-diff"@,
        TemplateName::GenericFilePath => "generic-file-path"@,
        TemplateName::GenericLine => "generic-line"@,
        TemplateName::LineByLineNumbers => "line-by-line-numbers"@,
        TemplateName::GenericBlockHeader => "generic-block-header"@,
        TemplateName::GenericEmptyDiff => "generic-empty-diff"@,
        TemplateName::IconFile => "icon-file"@,
        TemplateName::IconFileAdded => "icon-file-added"@,
        TemplateName::IconFileChanged => "icon-file-changed"@,
        TemplateName::IconFileDeleted => "icon-file-deleted"@,
        TemplateName::IconFileRenamed => "icon-file-renamed"@,
        TemplateName::TagFileAdded => "tag-file-added"@,
        TemplateName::TagFileChanged => "tag-file-changed"@,
        TemplateName::TagFileDeleted => "tag-file-deleted"@,
        TemplateName::TagFileRenamed => "tag-file-renamed"@,
    }
}

impl TemplateName {
    /// The string name used in the template registry.
    pub fn as_str(&self) -> (r: &'static str)
        ensures
            r@ == template_name_str(*self),
    {
        match self {
            TemplateName::GenericWrapper => "generic-wrapper",
            TemplateName::FileSummaryWrapper => "file-summary-wrapper",
            TemplateName::FileSummaryLine => "file-summary-line",
            TemplateName::LineByLineFileDiff => "line-by-line-file-diff",
            TemplateName::SideBySideFileDiff => "side-by-side-file-diff",
            TemplateName::GenericFilePath => "generic-file-path",
            TemplateName::GenericLine => "generic-line",
            TemplateName::LineByLineNumbers => "line-by-line-numbers",
            TemplateName::GenericBlockHeader => "generic-block-header",
            TemplateName::GenericEmptyDiff => "generic-empty-diff",
            TemplateName::IconFile => "icon-file",
            TemplateName::IconFileAdded => "icon-file-added",
            TemplateName::IconFileChanged => "icon-file-changed",
            TemplateName::IconFileDeleted => "icon-file-deleted",
            TemplateName::IconFileRenamed => "icon-file-renamed",
            TemplateName::TagFileAdded => "tag-file-added",
            TemplateName::TagFileChanged => "tag-file-changed",
            TemplateName::TagFileDeleted => "tag-file-deleted",
            TemplateName::TagFileRenamed => "tag-file-renamed",
        }
    }
}

} // verus!
