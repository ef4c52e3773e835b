use vstd::prelude::*;

use crate::render::{dc, digit_ch};
use crate::text::{chars_of, push_char, string_of, vec_range};
use crate::types::{Checksum, ChecksumModel, DiffBlock, DiffBlockModel, DiffFile, DiffFileModel,
    DiffLine, DiffLineModel, FileMode, FileModeModel, LineType};

verus! {

/// The lower-case hex digit character for `d`.
pub open spec fn hx(d: int) -> char {
    if d < 10 {
        dc(d)
    } else if d == 10 {
        'a'
    } else if d == 11 {
        'b'
    } else if d == 12 {
        'c'
    } else if d == 13 {
        'd'
    } else if d == 14 {
        'e'
    } else {
        'f'
    }
}

/// What a character becomes inside a JSON string: itself, a named
/// escape, or a `\u00XX` escape for the remaining control characters.
pub open spec fn jesc_char(c: char) -> Seq<char> {
    if c == '"' {
        seq!['\u{5c}', '"']
    } else if c == '\u{5c}' {
        seq!['\u{5c}', '\u{5c}']
    } else if c == '\u{8}' {
        seq!['\u{5c}', 'b']
    } else if c == '\u{c}' {
        seq!['\u{5c}', 'f']
    } else if c == '\n' {
        seq!['\u{5c}', 'n']
    } else if c == '\r' {
        seq!['\u{5c}', 'r']
    } else if c == '\t' {
        seq!['\u{5c}', 't']
    } else if (c as u32) < 0x20 {
        seq!['\u{5c}', 'u', '0', '0'] + seq![hx((c as u32) as int / 16), hx((c as u32) as int % 16)]
    } else {
        seq![c]
    }
}

/// The body of a JSON string: every character escaped as needed.
pub open spec fn jesc(s: Seq<char>) -> Seq<char>
    decreases s.len(),
{
    if s.len() == 0 {
        Seq::empty()
    } else {
        jesc(s.drop_last()) + jesc_char(s.last())
    }
}

/// A JSON string literal for `s`.
pub open spec fn jstr(s: Seq<char>) -> Seq<char> {
    seq!['"'] + jesc(s) + seq!['"']
}

/// The decimal digits of `n`, most significant first.
pub open spec fn dec_of(n: int) -> Seq<char>
    decreases n,
    when n >= 0
{
    if n < 10 {
        seq![dc(n)]
    } else {
        dec_of(n / 10) + seq![dc(n % 10)]
    }
}

/// A JSON number or `null`.
pub open spec fn jnum(n: Option<u32>) -> Seq<char> {
    match n {
        Some(v) => dec_of(v as int),
        None => "null"@,
    }
}

/// A JSON boolean.
pub open spec fn jbool(b: bool) -> Seq<char> {
    if b {
        "true"@
    } else {
        "false"@
    }
}

/// JSON array elements joined with commas.
pub open spec fn join_commas(elems: Seq<Seq<char>>) -> Seq<char>
    decreases elems.len(),
{
    if elems.len() == 0 {
        Seq::empty()
    } else if elems.len() == 1 {
        elems[0]
    } else {
        join_commas(elems.drop_last()) + seq![','] + elems.last()
    }
}

/// The JSON object a parsed line serializes to.
pub open spec fn ser_line(l: DiffLineModel) -> Seq<char> {
    "{\"type\":"@ + (match l.line_type {
        LineType::Insert => "\"insert\""@,
        LineType::Delete => "\"delete\""@,
        LineType::Context => "\"context\""@,
    }) + ",\"content\":"@ + jstr(l.content) + ",\"oldNumber\":"@ + jnum(l.old_number)
        + ",\"newNumber\":"@ + jnum(l.new_number) + "}"@
}

/// The JSON object a hunk serializes to.
pub open spec fn ser_block(b: DiffBlockModel) -> Seq<char> {
    "{\"oldStartLine\":"@ + dec_of(b.old_start_line as int) + (match b.old_start_line2 {
        Some(v) => ",\"oldStartLine2\":"@ + dec_of(v as int),
        None => Seq::empty(),
    }) + ",\"newStartLine\":"@ + dec_of(b.new_start_line as int) + ",\"header\":"@ + jstr(b.header)
        + ",\"lines\":["@ + join_commas(b.lines.map_values(|l: DiffLineModel| ser_line(l))) + "]}"@
}

/// The JSON value a file mode serializes to: a bare string, or an array.
pub open spec fn ser_filemode(m: FileModeModel) -> Seq<char> {
    match m {
        FileModeModel::Single(s) => jstr(s),
        FileModeModel::Multiple(v) => "["@ + join_commas(v.map_values(|s: Seq<char>| jstr(s)))
            + "]"@,
    }
}

/// The JSON value a checksum serializes to: a bare string, or an array.
pub open spec fn ser_checksum(m: ChecksumModel) -> Seq<char> {
    match m {
        ChecksumModel::Single(s) => jstr(s),
        ChecksumModel::Multiple(v) => "["@ + join_commas(v.map_values(|s: Seq<char>| jstr(s)))
            + "]"@,
    }
}

/// An optional string member, absent where the field is unset.
pub open spec fn opt_str(key: Seq<char>, o: Option<Seq<char>>) -> Seq<char> {
    match o {
        Some(s) => key + jstr(s),
        None => Seq::empty(),
    }
}

/// An optional boolean member, absent where the field is unset.
pub open spec fn opt_bool(key: Seq<char>, o: Option<bool>) -> Seq<char> {
    match o {
        Some(b) => key + jbool(b),
        None => Seq::empty(),
    }
}

/// An optional number member, absent where the field is unset.
pub open spec fn opt_num(key: Seq<char>, o: Option<u32>) -> Seq<char> {
    match o {
        Some(v) => key + dec_of(v as int),
        None => Seq::empty(),
    }
}

/// An optional file-mode member, absent where the field is unset.
pub open spec fn opt_filemode(key: Seq<char>, o: Option<FileModeModel>) -> Seq<char> {
    match o {
        Some(m) => key + ser_filemode(m),
        None => Seq::empty(),
    }
}

/// An optional checksum member, absent where the field is unset.
pub open spec fn opt_checksum(key: Seq<char>, o: Option<ChecksumModel>) -> Seq<char> {
    match o {
        Some(m) => key + ser_checksum(m),
        None => Seq::empty(),
    }
}

/// The mandatory members of a serialized file entry, in declaration
/// order, through the closing bracket of `blocks`.
pub open spec fn ser_file_head(f: DiffFileModel) -> Seq<char> {
    "{\"oldName\":"@ + jstr(f.old_name) + ",\"newName\":"@ + jstr(f.new_name) + ",\"addedLines\":"@
        + dec_of(f.added_lines as int) + ",\"deletedLines\":"@ + dec_of(f.deleted_lines as int)
        + ",\"isCombined\":"@ + jbool(f.is_combined) + ",\"isGitDiff\":"@ + jbool(f.is_git_diff)
        + ",\"language\":"@ + jstr(f.language) + ",\"blocks\":["@ + join_commas(
        f.blocks.map_values(|b: DiffBlockModel| ser_block(b)),
    ) + "]"@
}

/// The first run of optional members of a serialized file entry.
pub open spec fn ser_file_opts_a(f: DiffFileModel) -> Seq<char> {
    (opt_filemode(",\"oldMode\":"@, f.old_mode) + opt_str(",\"newMode\":"@, f.new_mode) + opt_str(
        ",\"deletedFileMode\":"@,
        f.deleted_file_mode,
    ) + opt_str(",\"newFileMode\":"@, f.new_file_mode)) + (opt_bool(",\"isDeleted\":"@,
        f.is_deleted,
    ) + opt_bool(",\"isNew\":"@, f.is_new) + opt_bool(",\"isCopy\":"@, f.is_copy) + opt_bool(
        ",\"isRename\":"@,
        f.is_rename,
    ))
}

/// The second run of optional members of a serialized file entry.
pub open spec fn ser_file_opts_b(f: DiffFileModel) -> Seq<char> {
    opt_bool(",\"isBinary\":"@, f.is_binary) + opt_bool(",\"isTooBig\":"@, f.is_too_big) + opt_num(
        ",\"unchangedPercentage\":"@,
        f.unchanged_percentage,
    ) + opt_num(",\"changedPercentage\":"@, f.changed_percentage) + opt_checksum(
        ",\"checksumBefore\":"@,
        f.checksum_before,
    ) + opt_str(",\"checksumAfter\":"@, f.checksum_after) + opt_str(",\"mode\":"@, f.mode)
}

/// The optional members of a serialized file entry, each absent when its
/// field is unset.
pub open spec fn ser_file_opts(f: DiffFileModel) -> Seq<char> {
    ser_file_opts_a(f) + ser_file_opts_b(f)
}

/// The JSON object a file entry serializes to, fields in declaration
/// order, optional fields absent when unset.
pub open spec fn ser_file(f: DiffFileModel) -> Seq<char> {
    ser_file_head(f) + ser_file_opts(f) + "}"@
}

/// The JSON array a list of file entries serializes to.
pub open spec fn ser_files(fs: Seq<DiffFileModel>) -> Seq<char> {
    "["@ + join_commas(fs.map_values(|f: DiffFileModel| ser_file(f))) + "]"@
}

/// Appends the characters of `e` to `out`.
fn emit(out: &mut Vec<char>, e: &Vec<char>)
    ensures
        final(out)@ == old(out)@ + e@,
{
    let mut j: usize = 0;
    let ghost o0 = out@;
    while j < e.len()
        invariant
            j <= e@.len(),
            out@ == o0 + e@.take(j as int),
        decreases e@.len() - j,
    {
        out.push(e[j]);
        j = j + 1;
        proof {
            assert(out@ =~= o0 + e@.take(j as int));
        }
    }
    proof {
        assert(e@.take(e@.len() as int) =~= e@);
        assert(out@ =~= o0 + e@);
    }
}

/// The lower-case hex digit character for `d`.
fn hex_ch(d: u32) -> (r: char)
    requires
        d < 16,
    ensures
        r == hx(d as int),
{
    match d {
        0 => '0',
        1 => '1',
        2 => '2',
        3 => '3',
        4 => '4',
        5 => '5',
        6 => '6',
        7 => '7',
        8 => '8',
        9 => '9',
        10 => 'a',
        11 => 'b',
        12 => 'c',
        13 => 'd',
        14 => 'e',
        _ => 'f',
    }
}

/// Appends the JSON string literal for `s` to `out`.
fn w_jstr(out: &mut Vec<char>, s: &String)
    ensures
        final(out)@ == old(out)@ + jstr(s@),
{
    let cs = chars_of(s.as_str());
    out.push('"');
    let ghost o0 = out@;
    let mut i: usize = 0;
    proof {
        assert(cs@.take(0) =~= Seq::<char>::empty());
        assert(o0 =~= old(out)@ + seq!['"'] + jesc(cs@.take(0)));
    }
    while i < cs.len()
        invariant
            i <= cs@.len(),
            cs@ == s@,
            out@ == old(out)@ + seq!['"'] + jesc(cs@.take(i as int)),
        decreases cs@.len() - i,
    {
        let c = cs[i];
        proof {
            assert(cs@.take(i + 1).drop_last() =~= cs@.take(i as int));
            assert(cs@.take(i + 1).last() == cs@[i as int]);
        }
        if c == '"' {
            out.push('\u{5c}');
            out.push('"');
        } else if c == '\u{5c}' {
            out.push('\u{5c}');
            out.push('\u{5c}');
        } else if c == '\u{8}' {
            out.push('\u{5c}');
            out.push('b');
        } else if c == '\u{c}' {
            out.push('\u{5c}');
            out.push('f');
        } else if c == '\n' {
            out.push('\u{5c}');
            out.push('n');
        } else if c == '\r' {
            out.push('\u{5c}');
            out.push('r');
        } else if c == '\t' {
            out.push('\u{5c}');
            out.push('t');
        } else if (c as u32) < 0x20 {
            out.push('\u{5c}');
            out.push('u');
            out.push('0');
            out.push('0');
            out.push(hex_ch((c as u32) / 16));
            out.push(hex_ch((c as u32) % 16));
        } else {
            out.push(c);
        }
        i = i + 1;
        proof {
            assert(out@ =~= old(out)@ + seq!['"'] + jesc(cs@.take(i as int)));
        }
    }
    out.push('"');
    proof {
        assert(cs@.take(cs@.len() as int) =~= cs@);
        assert(out@ =~= old(out)@ + jstr(s@));
    }
}

/// Appends the decimal digits of `n` to `out`.
fn w_dec(out: &mut Vec<char>, n: u32)
    ensures
        final(out)@ == old(out)@ + dec_of(n as int),
    decreases n,
{
    if n < 10 {
        out.push(digit_ch(n as usize));
        proof {
            assert(out@ =~= old(out)@ + dec_of(n as int));
        }
    } else {
        w_dec(out, n / 10);
        out.push(digit_ch((n % 10) as usize));
        proof {
            assert(out@ =~= old(out)@ + dec_of(n as int));
        }
    }
}

/// Appends a JSON number or `null` to `out`.
fn w_jnum(out: &mut Vec<char>, n: Option<u32>)
    ensures
        final(out)@ == old(out)@ + jnum(n),
{
    match n {
        Some(v) => w_dec(out, v),
        None => emit(out, &chars_of("null")),
    }
}

/// Appends a JSON boolean to `out`.
fn w_jbool(out: &mut Vec<char>, b: bool)
    ensures
        final(out)@ == old(out)@ + jbool(b),
{
    if b {
        emit(out, &chars_of("true"));
    } else {
        emit(out, &chars_of("false"));
    }
}

/// Appends the JSON object for one line to `out`.
fn w_line(out: &mut Vec<char>, l: &DiffLine)
    ensures
        final(out)@ == old(out)@ + ser_line(l@),
{
    emit(out, &chars_of("{\"type\":"));
    match l.line_type {
        LineType::Insert => emit(out, &chars_of("\"insert\"")),
        LineType::Delete => emit(out, &chars_of("\"delete\"")),
        LineType::Context => emit(out, &chars_of("\"context\"")),
    }
    emit(out, &chars_of(",\"content\":"));
    w_jstr(out, &l.content);
    emit(out, &chars_of(",\"oldNumber\":"));
    w_jnum(out, l.old_number);
    emit(out, &chars_of(",\"newNumber\":"));
    w_jnum(out, l.new_number);
    emit(out, &chars_of("}"));
    proof {
        assert(out@ =~= old(out)@ + ser_line(l@));
    }
}

/// Appends the JSON object for one hunk to `out`.
#[verifier::rlimit(100)]
#[verifier::spinoff_prover]
fn w_block(out: &mut Vec<char>, b: &DiffBlock)
    ensures
        final(out)@ == old(out)@ + ser_block(b@),
{
    emit(out, &chars_of("{\"oldStartLine\":"));
    w_dec(out, b.old_start_line);
    match b.old_start_line2 {
        Some(v) => {
            emit(out, &chars_of(",\"oldStartLine2\":"));
            w_dec(out, v);
        },
        None => {},
    }
    emit(out, &chars_of(",\"newStartLine\":"));
    w_dec(out, b.new_start_line);
    emit(out, &chars_of(",\"header\":"));
    w_jstr(out, &b.header);
    emit(out, &chars_of(",\"lines\":["));
    let ghost base = out@;
    let ghost lm = b.lines.deep_view().map_values(|l: DiffLineModel| ser_line(l));
    let mut i: usize = 0;
    while i < b.lines.len()
        invariant
            i <= b.lines@.len(),
            lm == b.lines.deep_view().map_values(|l: DiffLineModel| ser_line(l)),
            lm.len() == b.lines@.len(),
            out@ == base + join_commas(lm.take(i as int)),
        decreases b.lines@.len() - i,
    {
        if i > 0 {
            out.push(',');
        }
        proof {
            assert(b.lines.deep_view()[i as int] == b.lines@[i as int]@);
            assert(lm[i as int] == ser_line(b.lines@[i as int]@));
            assert(lm.take(i + 1).drop_last() =~= lm.take(i as int));
            assert(lm.take(i + 1).last() == lm[i as int]);
        }
        w_line(out, &b.lines[i]);
        i = i + 1;
        proof {
            if i == 1 {
                assert(join_commas(lm.take(1)) == lm.take(1)[0]);
                assert(out@ =~= base + join_commas(lm.take(i as int)));
            } else {
                assert(out@ =~= base + join_commas(lm.take(i as int)));
            }
        }
    }
    emit(out, &chars_of("]}"));
    proof {
        assert(lm.take(lm.len() as int) =~= lm);
        assert(out@ =~= old(out)@ + ser_block(b@));
    }
}

/// Appends the JSON array of quoted strings to `out`.
fn w_str_array(out: &mut Vec<char>, v: &Vec<String>)
    ensures
        final(out)@ == old(out)@ + "["@ + join_commas(
            v.deep_view().map_values(|s: Seq<char>| jstr(s)),
        ) + "]"@,
{
    emit(out, &chars_of("["));
    let ghost base = out@;
    let ghost lm = v.deep_view().map_values(|s: Seq<char>| jstr(s));
    let mut i: usize = 0;
    while i < v.len()
        invariant
            i <= v@.len(),
            lm == v.deep_view().map_values(|s: Seq<char>| jstr(s)),
            lm.len() == v@.len(),
            out@ == base + join_commas(lm.take(i as int)),
        decreases v@.len() - i,
    {
        if i > 0 {
            out.push(',');
        }
        proof {
            assert(v.deep_view()[i as int] == v@[i as int]@);
            assert(lm[i as int] == jstr(v@[i as int]@));
            assert(lm.take(i + 1).drop_last() =~= lm.take(i as int));
            assert(lm.take(i + 1).last() == lm[i as int]);
        }
        w_jstr(out, &v[i]);
        i = i + 1;
        proof {
            assert(out@ =~= base + join_commas(lm.take(i as int)));
        }
    }
    emit(out, &chars_of("]"));
    proof {
        assert(lm.take(lm.len() as int) =~= lm);
        assert(out@ =~= old(out)@ + "["@ + join_commas(lm) + "]"@);
    }
}

/// Appends an optional string member to `out`.
fn w_opt_str(out: &mut Vec<char>, key: &str, o: &Option<String>)
    ensures
        final(out)@ == old(out)@ + opt_str(key@, o.deep_view()),
{
    match o {
        Some(s) => {
            emit(out, &chars_of(key));
            w_jstr(out, s);
            proof {
                assert(out@ =~= old(out)@ + opt_str(key@, o.deep_view()));
            }
        },
        None => {},
    }
}

/// Appends an optional boolean member to `out`.
fn w_opt_bool(out: &mut Vec<char>, key: &str, o: Option<bool>)
    ensures
        final(out)@ == old(out)@ + opt_bool(key@, o),
{
    match o {
        Some(b) => {
            emit(out, &chars_of(key));
            w_jbool(out, b);
            proof {
                assert(out@ =~= old(out)@ + opt_bool(key@, o));
            }
        },
        None => {},
    }
}

/// Appends an optional number member to `out`.
fn w_opt_num(out: &mut Vec<char>, key: &str, o: Option<u32>)
    ensures
        final(out)@ == old(out)@ + opt_num(key@, o),
{
    match o {
        Some(v) => {
            emit(out, &chars_of(key));
            w_dec(out, v);
            proof {
                assert(out@ =~= old(out)@ + opt_num(key@, o));
            }
        },
        None => {},
    }
}

/// Appends an optional file-mode member to `out`.
fn w_opt_filemode(out: &mut Vec<char>, key: &str, o: &Option<FileMode>)
    ensures
        final(out)@ == old(out)@ + opt_filemode(key@, o.deep_view()),
{
    match o {
        Some(FileMode::Single(s)) => {
            emit(out, &chars_of(key));
            w_jstr(out, s);
            proof {
                assert(out@ =~= old(out)@ + opt_filemode(key@, o.deep_view()));
            }
        },
        Some(FileMode::Multiple(v)) => {
            emit(out, &chars_of(key));
            w_str_array(out, v);
            proof {
                assert(v.deep_view().map_values(|s: Seq<char>| jstr(s)) =~= v.deep_view()
                    .map_values(|s: Seq<char>| jstr(s)));
                assert(out@ =~= old(out)@ + opt_filemode(key@, o.deep_view()));
            }
        },
        None => {},
    }
}

/// Appends an optional checksum member to `out`.
fn w_opt_checksum(out: &mut Vec<char>, key: &str, o: &Option<Checksum>)
    ensures
        final(out)@ == old(out)@ + opt_checksum(key@, o.deep_view()),
{
    match o {
        Some(Checksum::Single(s)) => {
            emit(out, &chars_of(key));
            w_jstr(out, s);
            proof {
                assert(out@ =~= old(out)@ + opt_checksum(key@, o.deep_view()));
            }
        },
        Some(Checksum::Multiple(v)) => {
            emit(out, &chars_of(key));
            w_str_array(out, v);
            proof {
                assert(out@ =~= old(out)@ + opt_checksum(key@, o.deep_view()));
            }
        },
        None => {},
    }
}

/// Appends the mandatory members of one file entry to `out`.
#[verifier::rlimit(100)]
#[verifier::spinoff_prover]
fn w_file_head(out: &mut Vec<char>, f: &DiffFile)
    ensures
        final(out)@ == old(out)@ + ser_file_head(f@),
{
    emit(out, &chars_of("{\"oldName\":"));
    w_jstr(out, &f.old_name);
    emit(out, &chars_of(",\"newName\":"));
    w_jstr(out, &f.new_name);
    emit(out, &chars_of(",\"addedLines\":"));
    w_dec(out, f.added_lines);
    emit(out, &chars_of(",\"deletedLines\":"));
    w_dec(out, f.deleted_lines);
    emit(out, &chars_of(",\"isCombined\":"));
    w_jbool(out, f.is_combined);
    emit(out, &chars_of(",\"isGitDiff\":"));
    w_jbool(out, f.is_git_diff);
    emit(out, &chars_of(",\"language\":"));
    w_jstr(out, &f.language);
    emit(out, &chars_of(",\"blocks\":["));
    let ghost base = out@;
    let ghost lm = f.blocks.deep_view().map_values(|b: DiffBlockModel| ser_block(b));
    let mut i: usize = 0;
    while i < f.blocks.len()
        invariant
            i <= f.blocks@.len(),
            lm == f.blocks.deep_view().map_values(|b: DiffBlockModel| ser_block(b)),
            lm.len() == f.blocks@.len(),
            out@ == base + join_commas(lm.take(i as int)),
        decreases f.blocks@.len() - i,
    {
        if i > 0 {
            out.push(',');
        }
        proof {
            assert(f.blocks.deep_view()[i as int] == f.blocks@[i as int]@);
            assert(lm[i as int] == ser_block(f.blocks@[i as int]@));
            assert(lm.take(i + 1).drop_last() =~= lm.take(i as int));
            assert(lm.take(i + 1).last() == lm[i as int]);
        }
        w_block(out, &f.blocks[i]);
        i = i + 1;
        proof {
            assert(out@ =~= base + join_commas(lm.take(i as int)));
        }
    }
    emit(out, &chars_of("]"));
    proof {
        assert(lm.take(lm.len() as int) =~= lm);
        assert(out@ =~= old(out)@ + ser_file_head(f@));
    }
}

/// Appends the first run of optional members of one file entry.
#[verifier::rlimit(100)]
#[verifier::spinoff_prover]
fn w_file_opts_a(out: &mut Vec<char>, f: &DiffFile)
    ensures
        final(out)@ == old(out)@ + ser_file_opts_a(f@),
{
    w_opt_filemode(out, ",\"oldMode\":", &f.old_mode);
    w_opt_str(out, ",\"newMode\":", &f.new_mode);
    w_opt_str(out, ",\"deletedFileMode\":", &f.deleted_file_mode);
    w_opt_str(out, ",\"newFileMode\":", &f.new_file_mode);
    let ghost mid = out@;
    proof {
        assert(mid =~= old(out)@ + (opt_filemode(",\"oldMode\":"@, f@.old_mode) + opt_str(
            ",\"newMode\":"@,
            f@.new_mode,
        ) + opt_str(",\"deletedFileMode\":"@, f@.deleted_file_mode) + opt_str(
            ",\"newFileMode\":"@,
            f@.new_file_mode,
        )));
    }
    w_opt_bool(out, ",\"isDeleted\":", f.is_deleted);
    w_opt_bool(out, ",\"isNew\":", f.is_new);
    w_opt_bool(out, ",\"isCopy\":", f.is_copy);
    w_opt_bool(out, ",\"isRename\":", f.is_rename);
    proof {
        assert(out@ =~= mid + (opt_bool(",\"isDeleted\":"@, f@.is_deleted) + opt_bool(
            ",\"isNew\":"@,
            f@.is_new,
        ) + opt_bool(",\"isCopy\":"@, f@.is_copy) + opt_bool(",\"isRename\":"@, f@.is_rename)));
        assert(out@ =~= old(out)@ + ser_file_opts_a(f@));
    }
}

/// Appends the second run of optional members of one file entry.
#[verifier::rlimit(100)]
#[verifier::spinoff_prover]
fn w_file_opts_b(out: &mut Vec<char>, f: &DiffFile)
    ensures
        final(out)@ == old(out)@ + ser_file_opts_b(f@),
{
    w_opt_bool(out, ",\"isBinary\":", f.is_binary);
    w_opt_bool(out, ",\"isTooBig\":", f.is_too_big);
    w_opt_num(out, ",\"unchangedPercentage\":", f.unchanged_percentage);
    w_opt_num(out, ",\"changedPercentage\":", f.changed_percentage);
    w_opt_checksum(out, ",\"checksumBefore\":", &f.checksum_before);
    w_opt_str(out, ",\"checksumAfter\":", &f.checksum_after);
    w_opt_str(out, ",\"mode\":", &f.mode);
    proof {
        assert(out@ =~= old(out)@ + ser_file_opts_b(f@));
    }
}

/// Appends the optional members of one file entry to `out`.
fn w_file_opts(out: &mut Vec<char>, f: &DiffFile)
    ensures
        final(out)@ == old(out)@ + ser_file_opts(f@),
{
    w_file_opts_a(out, f);
    w_file_opts_b(out, f);
    proof {
        assert(out@ =~= old(out)@ + ser_file_opts(f@));
    }
}

/// Appends the JSON object for one file entry to `out`.
fn w_file(out: &mut Vec<char>, f: &DiffFile)
    ensures
        final(out)@ == old(out)@ + ser_file(f@),
{
    w_file_head(out, f);
    w_file_opts(out, f);
    emit(out, &chars_of("}"));
    proof {
        assert(out@ =~= old(out)@ + ser_file(f@));
    }
}

/// Serializes parsed diff files to their JSON array, with camel-case
/// member names and optional members absent when unset.
#[verifier::rlimit(100)]
pub fn json_from_diff_files(diff_files: &Vec<DiffFile>) -> (r: String)
    ensures
        r@ == ser_files(diff_files.deep_view()),
{
    let mut out: Vec<char> = Vec::new();
    emit(&mut out, &chars_of("["));
    let ghost base = out@;
    let ghost lm = diff_files.deep_view().map_values(|f: DiffFileModel| ser_file(f));
    let mut i: usize = 0;
    while i < diff_files.len()
        invariant
            i <= diff_files@.len(),
            lm == diff_files.deep_view().map_values(|f: DiffFileModel| ser_file(f)),
            lm.len() == diff_files@.len(),
            out@ == base + join_commas(lm.take(i as int)),
        decreases diff_files@.len() - i,
    {
        if i > 0 {
            out.push(',');
        }
        proof {
            assert(diff_files.deep_view()[i as int] == diff_files@[i as int]@);
            assert(lm[i as int] == ser_file(diff_files@[i as int]@));
            assert(lm.take(i + 1).drop_last() =~= lm.take(i as int));
            assert(lm.take(i + 1).last() == lm[i as int]);
        }
        w_file(&mut out, &diff_files[i]);
        i = i + 1;
        proof {
            assert(out@ =~= base + join_commas(lm.take(i as int)));
        }
    }
    emit(&mut out, &chars_of("]"));
    proof {
        assert(lm.take(lm.len() as int) =~= lm);
        assert(out@ =~= ser_files(diff_files.deep_view()));
    }
    string_of(&out)
}

} // verus!
