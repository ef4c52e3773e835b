use vstd::prelude::*;

verus! {

/// The kind of a line inside a hunk.
#[derive(Debug, Clone, Copy, PartialEq, Eq, Structural)]
pub enum LineType {
    Insert,
    Delete,
    Context,
}

/// Mathematical model of a [`DiffLine`].
#[verifier::ext_equal]
pub ghost struct DiffLineModel {
    pub line_type: LineType,
    pub content: Seq<char>,
    pub old_number: Option<u32>,
    pub new_number: Option<u32>,
}

/// A single line in a diff hunk, with the numbers it carries on each side.
#[derive(Debug, Clone, PartialEq, Eq)]
pub struct DiffLine {
    pub line_type: LineType,
    pub content: String,
    pub old_number: Option<u32>,
    pub new_number: Option<u32>,
}

impl View for DiffLine {
    type V = DiffLineModel;

    open spec fn view(&self) -> DiffLineModel {
        DiffLineModel {
            line_type: self.line_type,
            content: self.content@,
            old_number: self.old_number,
            new_number: self.new_number,
        }
    }
}

impl DeepView for DiffLine {
    type V = DiffLineModel;

    open spec fn deep_view(&self) -> DiffLineModel {
        self.view()
    }
}

/// Mathematical model of a [`DiffBlock`].
#[verifier::ext_equal]
pub ghost struct DiffBlockModel {
    pub old_start_line: u32,
    pub old_start_line2: Option<u32>,
    pub new_start_line: u32,
    pub header: Seq<char>,
    pub lines: Seq<DiffLineModel>,
}

/// One hunk of a diff file: a header line and the content lines under it.
#[derive(Debug, Clone, PartialEq, Eq)]
pub struct DiffBlock {
    pub old_start_line: u32,
    pub old_start_line2: Option<u32>,
    pub new_start_line: u32,
    pub header: String,
    pub lines: Vec<DiffLine>,
}

impl View for DiffBlock {
    type V = DiffBlockModel;

    open spec fn view(&self) -> DiffBlockModel {
        DiffBlockModel {
            old_start_line: self.old_start_line,
            old_start_line2: self.old_start_line2,
            new_start_line: self.new_start_line,
            header: self.header@,
            lines: self.lines.deep_view(),
        }
    }
}

impl DeepView for DiffBlock {
    type V = DiffBlockModel;

    open spec fn deep_view(&self) -> DiffBlockModel {
        self.view()
    }
}

/// Mathematical model of a [`FileMode`].
#[verifier::ext_equal]
pub ghost enum FileModeModel {
    Single(Seq<char>),
    Multiple(Seq<Seq<char>>),
}

/// A file mode: one mode string, or several for combined diffs.
#[derive(Debug, Clone, PartialEq, Eq)]
pub enum FileMode {
    Single(String),
    Multiple(Vec<String>),
}

impl View for FileMode {
    type V = FileModeModel;

    open spec fn view(&self) -> FileModeModel {
        match self {
            FileMode::Single(s) => FileModeModel::Single(s@),
            FileMode::Multiple(v) => FileModeModel::Multiple(v.deep_view()),
        }
    }
}

impl DeepView for FileMode {
    type V = FileModeModel;

    open spec fn deep_view(&self) -> FileModeModel {
        self.view()
    }
}

/// Mathematical model of a [`Checksum`].
#[verifier::ext_equal]
pub ghost enum ChecksumModel {
    Single(Seq<char>),
    Multiple(Seq<Seq<char>>),
}

/// A blob checksum: one value, or several for combined diffs.
#[derive(Debug, Clone, PartialEq, Eq)]
pub enum Checksum {
    Single(String),
    Multiple(Vec<String>),
}

impl View for Checksum {
    type V = ChecksumModel;

    open spec fn view(&self) -> ChecksumModel {
        match self {
            Checksum::Single(s) => ChecksumModel::Single(s@),
            Checksum::Multiple(v) => ChecksumModel::Multiple(v.deep_view()),
        }
    }
}

impl DeepView for Checksum {
    type V = ChecksumModel;

    open spec fn deep_view(&self) -> ChecksumModel {
        self.view()
    }
}

/// Mathematical model of a [`DiffFile`].
#[verifier::ext_equal]
pub ghost struct DiffFileModel {
    pub old_name: Seq<char>,
    pub new_name: Seq<char>,
    pub added_lines: u32,
    pub deleted_lines: u32,
    pub is_combined: bool,
    pub is_git_diff: bool,
    pub language: Seq<char>,
    pub blocks: Seq<DiffBlockModel>,
    pub old_mode: Option<FileModeModel>,
    pub new_mode: Option<Seq<char>>,
    pub deleted_file_mode: Option<Seq<char>>,
    pub new_file_mode: Option<Seq<char>>,
    pub is_deleted: Option<bool>,
    pub is_new: Option<bool>,
    pub is_copy: Option<bool>,
    pub is_rename: Option<bool>,
    pub is_binary: Option<bool>,
    pub is_too_big: Option<bool>,
    pub unchanged_percentage: Option<u32>,
    pub changed_percentage: Option<u32>,
    pub checksum_before: Option<ChecksumModel>,
    pub checksum_after: Option<Seq<char>>,
    pub mode: Option<Seq<char>>,
}

/// One file entry of a parsed diff, with its metadata and hunks.
#[derive(Debug, Clone, PartialEq, Eq)]
pub struct DiffFile {
    pub old_name: String,
    pub new_name: String,
    pub added_lines: u32,
    pub deleted_lines: u32,
    pub is_combined: bool,
    pub is_git_diff: bool,
    pub language: String,
    pub blocks: Vec<DiffBlock>,
    pub old_mode: Option<FileMode>,
    pub new_mode: Option<String>,
    pub deleted_file_mode: Option<String>,
    pub new_file_mode: Option<String>,
    pub is_deleted: Option<bool>,
    pub is_new: Option<bool>,
    pub is_copy: Option<bool>,
    pub is_rename: Option<bool>,
    pub is_binary: Option<bool>,
    pub is_too_big: Option<bool>,
    pub unchanged_percentage: Option<u32>,
    pub changed_percentage: Option<u32>,
    pub checksum_before: Option<Checksum>,
    pub checksum_after: Option<String>,
    pub mode: Option<String>,
}

impl View for DiffFile {
    type V = DiffFileModel;

    open spec fn view(&self) -> DiffFileModel {
        DiffFileModel {
            old_name: self.old_name@,
            new_name: self.new_name@,
            added_lines: self.added_lines,
            deleted_lines: self.deleted_lines,
            is_combined: self.is_combined,
            is_git_diff: self.is_git_diff,
            language: self.language@,
            blocks: self.blocks.deep_view(),
            old_mode: self.old_mode.deep_view(),
            new_mode: match self.new_mode {
                Some(ref s) => Some(s@),
                None => None,
            },
            deleted_file_mode: match self.deleted_file_mode {
                Some(ref s) => Some(s@),
                None => None,
            },
            new_file_mode: match self.new_file_mode {
                Some(ref s) => Some(s@),
                None => None,
            },
            is_deleted: self.is_deleted,
            is_new: self.is_new,
            is_copy: self.is_copy,
            is_rename: self.is_rename,
            is_binary: self.is_binary,
            is_too_big: self.is_too_big,
            unchanged_percentage: self.unchanged_percentage,
            changed_percentage: self.changed_percentage,
            checksum_before: self.checksum_before.deep_view(),
            checksum_after: match self.checksum_after {
                Some(ref s) => Some(s@),
                None => None,
            },
            mode: match self.mode {
                Some(ref s) => Some(s@),
                None => None,
            },
        }
    }
}

impl DeepView for DiffFile {
    type V = DiffFileModel;

    open spec fn deep_view(&self) -> DiffFileModel {
        self.view()
    }
}

/// The model of a freshly created file record: all counters zero, all
/// optional metadata absent.
pub open spec fn empty_file_model() -> DiffFileModel {
    DiffFileModel {
        old_name: Seq::empty(),
        new_name: Seq::empty(),
        added_lines: 0,
        deleted_lines: 0,
        is_combined: false,
        is_git_diff: false,
        language: Seq::empty(),
        blocks: Seq::empty(),
        old_mode: None,
        new_mode: None,
        deleted_file_mode: None,
        new_file_mode: None,
        is_deleted: None,
        is_new: None,
        is_copy: None,
        is_rename: None,
        is_binary: None,
        is_too_big: None,
        unchanged_percentage: None,
        changed_percentage: None,
        checksum_before: None,
        checksum_after: None,
        mode: None,
    }
}

impl DiffFile {
    /// A fresh file record with empty names and no metadata.
    pub fn empty() -> (r: DiffFile)
        ensures
            r@ == empty_file_model(),
    {
        let r = DiffFile {
            old_name: String::new(),
            new_name: String::new(),
            added_lines: 0,
            deleted_lines: 0,
            is_combined: false,
            is_git_diff: false,
            language: String::new(),
            blocks: Vec::new(),
            old_mode: None,
            new_mode: None,
            deleted_file_mode: None,
            new_file_mode: None,
            is_deleted: None,
            is_new: None,
            is_copy: None,
            is_rename: None,
            is_binary: None,
            is_too_big: None,
            unchanged_percentage: None,
            changed_percentage: None,
            checksum_before: None,
            checksum_after: None,
            mode: None,
        };
        proof {
            assert(r@.blocks =~= empty_file_model().blocks);
            assert(r@ =~= empty_file_model());
        }
        r
    }
}

/// Output layout for HTML rendering.
#[derive(Debug, Clone, Copy, PartialEq, Eq, Structural)]
pub enum OutputFormat {
    LineByLine,
    SideBySide,
}

/// Line matching algorithm choice.
#[derive(Debug, Clone, Copy, PartialEq, Eq, Structural)]
pub enum LineMatchingType {
    Lines,
    Words,
    Disabled,
}

/// Granularity of in-line change highlighting.
#[derive(Debug, Clone, Copy, PartialEq, Eq, Structural)]
pub enum DiffStyle {
    Word,
    Char,
}

/// Color scheme for rendered output.
#[derive(Debug, Clone, Copy, PartialEq, Eq, Structural)]
pub enum ColorScheme {
    Auto,
    Dark,
    Light,
}

} // verus!
