pub mod cli;
pub mod json;
pub mod parser;
pub mod rematch;
pub mod render;
pub mod templates;
pub mod text;
pub mod types;

pub use json::json_from_diff_files;
pub use parser::{parse, DiffParserConfig};
pub use rematch::{levenshtein, match_lines, match_lines_with_config, string_distance, MatchConfig};
pub use render::{color_scheme_to_css, deconstruct_line, diff_highlight, escape_for_html,
    filename_diff, get_file_icon, get_html_id, prefix_length, remove_del_elements,
    remove_ins_elements, to_css_class, CSSLineClass, DiffLineParts, FileListConfig,
    FileListRenderer, HighlightedLines};
pub use templates::TemplateName;
pub use types::{Checksum, ColorScheme, DiffBlock, DiffFile, DiffLine, DiffStyle, FileMode,
    LineMatchingType, LineType, OutputFormat};
