use vstd::prelude::*;

use crate::text::{chars_of, starts_with, string_of};

verus! {

/// Where the diff text comes from.
#[derive(Debug, Clone, Copy, PartialEq, Eq, Structural)]
pub enum InputType {
    File,
    Command,
    Stdin,
}

/// Where the rendered output goes.
#[derive(Debug, Clone, Copy, PartialEq, Eq, Structural)]
pub enum OutputType {
    Preview,
    Stdout,
}

/// The output format of the command line tool.
#[derive(Debug, Clone, Copy, PartialEq, Eq, Structural)]
pub enum FormatType {
    Html,
    Json,
}

/// The HTML layout the command line tool renders.
#[derive(Debug, Clone, Copy, PartialEq, Eq, Structural)]
pub enum StyleType {
    Line,
    Side,
}

/// The in-line highlighting granularity asked for on the command line.
#[derive(Debug, Clone, Copy, PartialEq, Eq, Structural)]
pub enum DiffStyleType {
    Word,
    Char,
}

/// The color scheme asked for on the command line.
#[derive(Debug, Clone, Copy, PartialEq, Eq, Structural)]
pub enum ColorSchemeType {
    Auto,
    Light,
    Dark,
}

/// How the file summary list is shown.
#[derive(Debug, Clone, Copy, PartialEq, Eq, Structural)]
pub enum SummaryType {
    Closed,
    Open,
    Hidden,
}

/// The line matching algorithm asked for on the command line.
#[derive(Debug, Clone, Copy, PartialEq, Eq, Structural)]
pub enum LineMatchingType {
    Disabled,
    Lines,
    Words,
}

/// Settings of the command line tool that concern input and output
/// handling rather than parsing or rendering.
#[derive(Debug)]
pub struct CliConfig {
    /// Input source type.
    pub input_type: InputType,
    /// Output format.
    pub format_type: FormatType,
    /// Output destination type.
    pub output_type: OutputType,
    /// Output file path, overriding the destination type when set.
    pub output_file: Option<String>,
    /// HTML page title.
    pub page_title: String,
    /// HTML page header.
    pub page_header: String,
    /// Custom HTML wrapper template path.
    pub html_wrapper_template: Option<String>,
    /// Whether the file list summary starts open.
    pub show_files_open: bool,
    /// Whether the file content toggle is enabled.
    pub file_content_toggle: bool,
    /// Whether side-by-side panes scroll together.
    pub synchronised_scroll: bool,
    /// Whether syntax highlighting is enabled.
    pub highlight_code: bool,
    /// Color scheme for the HTML output.
    pub color_scheme: ColorSchemeType,
    /// Paths excluded from the diff.
    pub ignore: Vec<String>,
    /// Extra arguments handed to `git diff`.
    pub extra_args: Vec<String>,
}

/// True when some element of `args` is exactly `w`.
pub open spec fn has_arg(args: Seq<Seq<char>>, w: Seq<char>) -> bool {
    exists|k: int| 0 <= k < args.len() && args[k] == w
}

/// The argument list handed to `git`: `diff`, a `--no-color` unless one
/// is already given, the caller's arguments or the default set, and an
/// exclude pathspec per ignored path behind a `--` separator.
pub open spec fn git_args_model(extra: Seq<Seq<char>>, ignore: Seq<Seq<char>>) -> Seq<Seq<char>> {
    let base = seq!["diff"@];
    let b2 = if !has_arg(extra, "--no-color"@) {
        base.push("--no-color"@)
    } else {
        base
    };
    let b3 = if extra.len() == 0 {
        b2 + seq!["-M"@, "-C"@, "HEAD"@]
    } else {
        b2 + extra
    };
    if ignore.len() > 0 {
        let b4 = if !has_arg(extra, "--"@) {
            b3.push("--"@)
        } else {
            b3
        };
        b4 + ignore.map_values(|p: Seq<char>| ":(exclude)"@ + p)
    } else {
        b3
    }
}

/// True when some element of `args` equals the literal `w`.
fn push_str(v: &mut Vec<String>, s: String)
    ensures
        final(v).deep_view() == old(v).deep_view().push(s@),
{
    let ghost v0 = v.deep_view();
    let ghost sm = s@;
    v.push(s);
    proof {
        let a = v.deep_view();
        let b = v0.push(sm);
        assert forall|k: int| 0 <= k < a.len() implies a[k] == b[k] by {
            if k < a.len() - 1 {
                assert(v@[k] == old(v)@[k]);
            } else {
                assert(v@[k]@ == sm);
            }
        }
        assert(a =~= b);
    }
}

fn contains_arg(args: &Vec<String>, w: &str) -> (r: bool)
    ensures
        r == has_arg(args.deep_view(), w@),
{
    let mut i: usize = 0;
    while i < args.len()
        invariant
            i <= args@.len(),
            forall|k: int| 0 <= k < i ==> args.deep_view()[k] != w@,
        decreases args@.len() - i,
    {
        if args[i].as_str().unicode_len() == w.unicode_len() {
            let ac = chars_of(args[i].as_str());
            let wc = chars_of(w);
            let mut same = true;
            let mut j: usize = 0;
            proof {
                assert(ac@.take(0) =~= wc@.take(0));
            }
            while j < ac.len()
                invariant
                    j <= ac@.len(),
                    ac@.len() == wc@.len(),
                    same == (ac@.take(j as int) == wc@.take(j as int)),
                decreases ac@.len() - j,
            {
                proof {
                    assert(ac@.take(j + 1).drop_last() =~= ac@.take(j as int));
                    assert(wc@.take(j + 1).drop_last() =~= wc@.take(j as int));
                    if ac@.take(j as int) == wc@.take(j as int) && ac@[j as int] == wc@[j as int] {
                        assert(ac@.take(j + 1) =~= wc@.take(j + 1));
                    }
                    if ac@.take(j + 1) == wc@.take(j + 1) {
                        assert(ac@.take(j + 1)[j as int] == ac@[j as int]);
                        assert(ac@.take(j + 1).drop_last() == ac@.take(j as int));
                    }
                }
                same = same && ac[j] == wc[j];
                j = j + 1;
            }
            proof {
                assert(ac@.take(ac@.len() as int) =~= ac@);
                assert(wc@.take(wc@.len() as int) =~= wc@);
                assert(args.deep_view()[i as int] == args@[i as int]@);
            }
            if same {
                return true;
            }
        } else {
            proof {
                assert(args.deep_view()[i as int] == args@[i as int]@);
            }
        }
        i = i + 1;
    }
    false
}

/// Builds the argument list handed to `git diff` from the caller's extra
/// arguments and ignore paths.
pub fn generate_git_diff_args(extra_args: &Vec<String>, ignore: &Vec<String>) -> (r: Vec<String>)
    ensures
        r.deep_view() == git_args_model(extra_args.deep_view(), ignore.deep_view()),
{
    let ghost em = extra_args.deep_view();
    let mut args: Vec<String> = Vec::new();
    push_str(&mut args, string_of(&chars_of("diff")));
    proof {
        assert(args.deep_view() =~= seq!["diff"@]);
    }
    if !contains_arg(extra_args, "--no-color") {
        push_str(&mut args, string_of(&chars_of("--no-color")));
    }
    let ghost b2 = args.deep_view();
    if extra_args.len() == 0 {
        push_str(&mut args, string_of(&chars_of("-M")));
        push_str(&mut args, string_of(&chars_of("-C")));
        push_str(&mut args, string_of(&chars_of("HEAD")));
        proof {
            assert(args.deep_view() =~= b2 + seq!["-M"@, "-C"@, "HEAD"@]);
        }
    } else {
        let mut i: usize = 0;
        while i < extra_args.len()
            invariant
                i <= extra_args@.len(),
                em == extra_args.deep_view(),
                args.deep_view() == b2 + em.take(i as int),
            decreases extra_args@.len() - i,
        {
            proof {
                assert(em[i as int] == extra_args@[i as int]@);
            }
            push_str(&mut args, extra_args[i].clone());
            i = i + 1;
            proof {
                assert(args.deep_view() =~= b2 + em.take(i as int));
            }
        }
        proof {
            assert(em.take(em.len() as int) =~= em);
        }
    }
    let ghost b3 = args.deep_view();
    if ignore.len() > 0 {
        if !contains_arg(extra_args, "--") {
            push_str(&mut args, string_of(&chars_of("--")));
        }
        let ghost b4 = args.deep_view();
        let ghost im = ignore.deep_view();
        let mut i: usize = 0;
        while i < ignore.len()
            invariant
                i <= ignore@.len(),
                im == ignore.deep_view(),
                args.deep_view() == b4 + im.take(i as int).map_values(
                    |p: Seq<char>| ":(exclude)"@ + p,
                ),
            decreases ignore@.len() - i,
        {
            let mut t = string_of(&chars_of(":(exclude)"));
            vstd::string::StringExecFns::append(&mut t, ignore[i].as_str());
            proof {
                assert(ignore.deep_view()[i as int] == ignore@[i as int]@);
            }
            push_str(&mut args, t);
            i = i + 1;
            proof {
                assert(args.deep_view() =~= b4 + im.take(i as int).map_values(
                    |p: Seq<char>| ":(exclude)"@ + p,
                ));
            }
        }
        proof {
            assert(im.take(im.len() as int) =~= im);
        }
    }
    args
}

/// Escapes the characters HTML treats specially, so that user-supplied
/// text cannot inject markup: `& < > "` and the single quote each become
/// their entity.
pub open spec fn html_escape_char(c: char) -> Seq<char> {
    if c == '&' {
        "&amp;"@
    } else if c == '<' {
        "&lt;"@
    } else if c == '>' {
        "&gt;"@
    } else if c == '"' {
        "&quot;"@
    } else if c == '\u{27}' {
        "&#x27;"@
    } else {
        seq![c]
    }
}

/// `s` with every special character replaced by its HTML entity.
pub open spec fn html_escaped(s: Seq<char>) -> Seq<char>
    decreases s.len(),
{
    if s.len() == 0 {
        Seq::empty()
    } else {
        html_escaped(s.drop_last()) + html_escape_char(s.last())
    }
}

/// Escapes `s` for safe embedding in an HTML page.
pub fn escape_html(s: &str) -> (r: String)
    ensures
        r@ == html_escaped(s@),
{
    let cs = chars_of(s);
    let mut r = String::new();
    let mut i: usize = 0;
    proof {
        assert(cs@.take(0) =~= Seq::<char>::empty());
    }
    while i < cs.len()
        invariant
            i <= cs@.len(),
            cs@ == s@,
            r@ == html_escaped(cs@.take(i as int)),
        decreases cs@.len() - i,
    {
        let c = cs[i];
        proof {
            assert(cs@.take(i + 1).drop_last() =~= cs@.take(i as int));
            assert(cs@.take(i + 1).last() == cs@[i as int]);
        }
        if c == '&' {
            vstd::string::StringExecFns::append(&mut r, "&amp;");
        } else if c == '<' {
            vstd::string::StringExecFns::append(&mut r, "&lt;");
        } else if c == '>' {
            vstd::string::StringExecFns::append(&mut r, "&gt;");
        } else if c == '"' {
            vstd::string::StringExecFns::append(&mut r, "&quot;");
        } else if c == '\u{27}' {
            vstd::string::StringExecFns::append(&mut r, "&#x27;");
        } else {
            crate::text::push_char(&mut r, c);
            proof {
                assert(r@ =~= html_escaped(cs@.take(i as int)) + seq![c]);
            }
        }
        i = i + 1;
    }
    proof {
        assert(cs@.take(cs@.len() as int) =~= cs@);
    }
    r
}

} // verus!
