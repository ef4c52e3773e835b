use vstd::prelude::*;

use crate::text::{all_digits, chars_of, check_at, dec_val, digit_val, find_char, find_char_from,
    is_digit, is_space, matches_at, parse_u32, read_u32, starts_with, string_of, utf8_len,
    utf8_len_chars, vec_range, check_space, normalize_newlines, remove_all, remove_all_chars,
    cr_to_lf, crlf_to_lf, split_lines, split_lines_chars, string_of_range};
use crate::types::{Checksum, ChecksumModel, DiffBlock, DiffBlockModel, DiffFile, DiffFileModel,
    DiffLine, DiffLineModel, FileMode, FileModeModel, LineType, empty_file_model};

verus! {

/// Mathematical model of a [`DiffParserConfig`].
#[verifier::ext_equal]
pub ghost struct ParserConfigModel {
    pub src_prefix: Option<Seq<char>>,
    pub dst_prefix: Option<Seq<char>>,
    pub diff_max_changes: Option<u32>,
    pub diff_max_line_length: Option<usize>,
    pub diff_too_big_message: Option<Seq<char>>,
}

/// Configuration for the diff parser.
#[derive(Debug)]
pub struct DiffParserConfig {
    /// Prefix to strip from source file paths, beyond the default set.
    pub src_prefix: Option<String>,
    /// Prefix to strip from destination file paths, beyond the default set.
    pub dst_prefix: Option<String>,
    /// Number of changed lines after which a file is marked too big.
    pub diff_max_changes: Option<u32>,
    /// Line byte length after which a file is marked too big.
    pub diff_max_line_length: Option<usize>,
    /// Message installed for files that are too big, in place of the
    /// default one.
    pub diff_too_big_message: Option<String>,
}

impl View for DiffParserConfig {
    type V = ParserConfigModel;

    open spec fn view(&self) -> ParserConfigModel {
        ParserConfigModel {
            src_prefix: match self.src_prefix {
                Some(ref s) => Some(s@),
                None => None,
            },
            dst_prefix: match self.dst_prefix {
                Some(ref s) => Some(s@),
                None => None,
            },
            diff_max_changes: self.diff_max_changes,
            diff_max_line_length: self.diff_max_line_length,
            diff_too_big_message: match self.diff_too_big_message {
                Some(ref s) => Some(s@),
                None => None,
            },
        }
    }
}

impl Default for DiffParserConfig {
    fn default() -> (r: Self)
        ensures
            r@.src_prefix is None,
            r@.dst_prefix is None,
            r@.diff_max_changes is None,
            r@.diff_max_line_length is None,
            r@.diff_too_big_message is None,
    {
        DiffParserConfig {
            src_prefix: None,
            dst_prefix: None,
            diff_max_changes: None,
            diff_max_line_length: None,
            diff_too_big_message: None,
        }
    }
}

/// `s` with one surrounding double quote removed from each end, where one
/// stands and enough characters remain.
pub open spec fn strip_quotes(s: Seq<char>) -> Seq<char> {
    if s.len() == 0 {
        s
    } else {
        let s1 = if s[0] == '"' && s.len() >= 2 {
            s.drop_first()
        } else {
            s
        };
        if s1.last() == '"' && s1.len() >= 2 {
            s1.drop_last()
        } else {
            s1
        }
    }
}

/// The characters of `v` with surrounding quotes removed.
pub fn strip_quotes_chars(v: &Vec<char>) -> (r: Vec<char>)
    ensures
        r@ == strip_quotes(v@),
{
    let len = v.len();
    if len == 0 {
        return Vec::new();
    }
    let lo: usize = if v[0] == '"' && len >= 2 {
        1
    } else {
        0
    };
    let hi: usize = if v[len - 1] == '"' && len - lo >= 2 {
        len - 1
    } else {
        len
    };
    proof {
        let s = v@;
        let s1 = if s[0] == '"' && s.len() >= 2 {
            s.drop_first()
        } else {
            s
        };
        assert(s1 =~= v@.subrange(lo as int, len as int));
        assert(s1.last() == v@[len - 1]);
        if s1.last() == '"' && s1.len() >= 2 {
            assert(s1.drop_last() =~= v@.subrange(lo as int, hi as int));
        } else {
            assert(s1 =~= v@.subrange(lo as int, hi as int));
        }
    }
    vec_range(v, lo, hi)
}

/// The path prefixes a diff strips by default: `a/ b/ i/ w/ c/ o/`.
pub open spec fn base_prefixes() -> Seq<Seq<char>> {
    seq!["a/"@, "b/"@, "i/"@, "w/"@, "c/"@, "o/"@]
}

/// The default prefixes, with the configured one appended where present.
pub open spec fn prefix_list(extra: Option<Seq<char>>) -> Seq<Seq<char>> {
    match extra {
        Some(e) => base_prefixes().push(e),
        None => base_prefixes(),
    }
}

/// `s` with the first prefix of `ps` it starts with removed.
pub open spec fn strip_prefix_first(s: Seq<char>, ps: Seq<Seq<char>>) -> Seq<char>
    decreases ps.len(),
{
    if ps.len() == 0 {
        s
    } else if starts_with(s, ps[0]) {
        s.skip(ps[0].len() as int)
    } else {
        strip_prefix_first(s, ps.drop_first())
    }
}

/// Builds the configured prefix list as vectors of characters.
pub fn prefix_list_chars(extra: &Option<String>) -> (r: Vec<Vec<char>>)
    ensures
        r.deep_view() == prefix_list(
            match extra {
                Some(e) => Some(e@),
                None => None,
            },
        ),
{
    let mut r: Vec<Vec<char>> = Vec::new();
    r.push(chars_of("a/"));
    r.push(chars_of("b/"));
    r.push(chars_of("i/"));
    r.push(chars_of("w/"));
    r.push(chars_of("c/"));
    r.push(chars_of("o/"));
    match extra {
        Some(e) => {
            r.push(chars_of(e.as_str()));
            proof {
                assert(r.deep_view() =~~= base_prefixes().push(e@));
            }
        },
        None => {
            proof {
                assert(r.deep_view() =~~= base_prefixes());
            }
        },
    }
    r
}

/// `v` with the first prefix of `ps` it starts with removed.
pub fn strip_prefix_first_chars(v: &Vec<char>, ps: &Vec<Vec<char>>) -> (r: Vec<char>)
    ensures
        r@ == strip_prefix_first(v@, ps.deep_view()),
{
    let mut i: usize = 0;
    proof {
        assert(ps.deep_view().skip(0) =~= ps.deep_view());
    }
    while i < ps.len()
        invariant
            i <= ps@.len(),
            strip_prefix_first(v@, ps.deep_view()) == strip_prefix_first(
                v@,
                ps.deep_view().skip(i as int),
            ),
        decreases ps@.len() - i,
    {
        let ghost tail = ps.deep_view().skip(i as int);
        proof {
            assert(tail[0] == ps.deep_view()[i as int]);
            assert(tail.drop_first() =~= ps.deep_view().skip(i + 1));
            assert(ps.deep_view()[i as int] =~= ps@[i as int]@);
        }
        if check_at(v, 0, &ps[i]) {
            proof {
                assert(starts_with(v@, tail[0]));
            }
            return vec_range(v, ps[i].len(), v.len());
        }
        proof {
            assert(!starts_with(v@, tail[0]));
        }
        i = i + 1;
    }
    proof {
        assert(ps.deep_view().skip(ps.deep_view().len() as int) =~= Seq::<Seq<char>>::empty());
    }
    vec_range(v, 0, v.len())
}

/// The first position at or after `from` whose character is no white
/// space, or the length of `s`.
pub open spec fn skip_spaces(s: Seq<char>, from: int) -> int
    decreases s.len() - from,
    when 0 <= from <= s.len()
{
    if from >= s.len() {
        s.len() as int
    } else if is_space(s[from]) {
        skip_spaces(s, from + 1)
    } else {
        from
    }
}

/// The first position at or after `from` whose character is no decimal
/// digit, or the length of `s`.
pub open spec fn digits_end(s: Seq<char>, from: int) -> int
    decreases s.len() - from,
    when 0 <= from <= s.len()
{
    if from >= s.len() {
        s.len() as int
    } else if is_digit(s[from]) {
        digits_end(s, from + 1)
    } else {
        from
    }
}

/// Bounds on `skip_spaces` and `digits_end`.
pub proof fn lemma_scan_bounds(s: Seq<char>, from: int)
    requires
        0 <= from <= s.len(),
    ensures
        from <= skip_spaces(s, from) <= s.len(),
        from <= digits_end(s, from) <= s.len(),
    decreases s.len() - from,
{
    if from < s.len() {
        lemma_scan_bounds(s, from + 1);
    }
}

/// Finds `skip_spaces(v@, from)`.
pub fn skip_spaces_chars(v: &Vec<char>, from: usize) -> (r: usize)
    requires
        from <= v@.len(),
    ensures
        r == skip_spaces(v@, from as int),
        from <= r <= v@.len(),
{
    proof {
        lemma_scan_bounds(v@, from as int);
    }
    let mut i: usize = from;
    while i < v.len() && check_space(v[i])
        invariant
            from <= i <= v@.len(),
            skip_spaces(v@, from as int) == skip_spaces(v@, i as int),
        decreases v@.len() - i,
    {
        i = i + 1;
    }
    i
}

/// Finds `digits_end(v@, from)`.
pub fn digits_end_chars(v: &Vec<char>, from: usize) -> (r: usize)
    requires
        from <= v@.len(),
    ensures
        r == digits_end(v@, from as int),
        from <= r <= v@.len(),
{
    proof {
        lemma_scan_bounds(v@, from as int);
    }
    let mut i: usize = from;
    while i < v.len() && v[i] >= '0' && v[i] <= '9'
        invariant
            from <= i <= v@.len(),
            digits_end(v@, from as int) == digits_end(v@, i as int),
        decreases v@.len() - i,
    {
        i = i + 1;
    }
    i
}

/// True when a time-zone suffix ` +HHMM` or ` -HHMM` stands at `p`.
pub open spec fn zone_at(s: Seq<char>, p: int) -> bool {
    &&& 0 <= p
    &&& p + 6 <= s.len()
    &&& s[p] == ' '
    &&& (s[p + 1] == '+' || s[p + 1] == '-')
    &&& all_digits(s, p + 2, p + 6)
}

/// True when a timestamp of the form `YYYY-MM-DD HH:MM:SS`, optionally
/// followed by a fraction, then a time zone, stands at `j`.
pub open spec fn date_at(s: Seq<char>, j: int) -> bool {
    &&& 0 <= j
    &&& j + 19 <= s.len()
    &&& all_digits(s, j, j + 4)
    &&& s[j + 4] == '-'
    &&& all_digits(s, j + 5, j + 7)
    &&& s[j + 7] == '-'
    &&& all_digits(s, j + 8, j + 10)
    &&& s[j + 10] == ' '
    &&& all_digits(s, j + 11, j + 13)
    &&& s[j + 13] == ':'
    &&& all_digits(s, j + 14, j + 16)
    &&& s[j + 16] == ':'
    &&& all_digits(s, j + 17, j + 19)
    &&& zone_at(
        s,
        if j + 19 < s.len() && s[j + 19] == '.' && digits_end(s, j + 20) > j + 20 {
            digits_end(s, j + 20)
        } else {
            j + 19
        },
    )
}

/// True when a white-space run followed by a timestamp begins at `i`.
pub open spec fn ts_at(s: Seq<char>, i: int) -> bool {
    &&& 0 <= i < s.len()
    &&& is_space(s[i])
    &&& date_at(s, skip_spaces(s, i))
}

/// Decides `all_digits(v@, from, to)`.
pub fn check_digits(v: &Vec<char>, from: usize, to: usize) -> (r: bool)
    requires
        from <= to <= v@.len(),
    ensures
        r == all_digits(v@, from as int, to as int),
{
    let mut i: usize = from;
    while i < to
        invariant
            from <= i <= to <= v@.len(),
            forall|k: int| from <= k < i ==> is_digit(#[trigger] v@[k]),
        decreases to - i,
    {
        if !(v[i] >= '0' && v[i] <= '9') {
            return false;
        }
        i = i + 1;
    }
    true
}

/// Decides `date_at(v@, j)`.
pub fn check_date_at(v: &Vec<char>, j: usize) -> (r: bool)
    requires
        j <= v@.len(),
    ensures
        r == date_at(v@, j as int),
{
    if v.len() < 19 || j > v.len() - 19 {
        return false;
    }
    if !(check_digits(v, j, j + 4) && v[j + 4] == '-' && check_digits(v, j + 5, j + 7) && v[j + 7]
        == '-' && check_digits(v, j + 8, j + 10) && v[j + 10] == ' ' && check_digits(
        v,
        j + 11,
        j + 13,
    ) && v[j + 13] == ':' && check_digits(v, j + 14, j + 16) && v[j + 16] == ':' && check_digits(
        v,
        j + 17,
        j + 19,
    )) {
        return false;
    }
    let p: usize = if j + 19 < v.len() && v[j + 19] == '.' {
        let de = digits_end_chars(v, j + 20);
        if de > j + 20 {
            de
        } else {
            j + 19
        }
    } else {
        j + 19
    };
    proof {
        if !(j + 19 < v@.len() && v@[j as int + 19] == '.' && digits_end(v@, j as int + 20) > j
            + 20) {
            assert(p == j + 19);
        }
    }
    if v.len() < 6 || p > v.len() - 6 {
        return false;
    }
    v[p] == ' ' && (v[p + 1] == '+' || v[p + 1] == '-') && check_digits(v, p + 2, p + 6)
}

/// The first position of `s` where a timestamp suffix begins, or the
/// length of `s` where there is none.
pub open spec fn ts_scan(s: Seq<char>, from: int) -> int
    decreases s.len() - from,
    when 0 <= from <= s.len()
{
    if from >= s.len() {
        s.len() as int
    } else if ts_at(s, from) {
        from
    } else {
        ts_scan(s, from + 1)
    }
}

/// Bounds and meaning of `ts_scan`.
pub proof fn lemma_ts_scan(s: Seq<char>, from: int)
    requires
        0 <= from <= s.len(),
    ensures
        from <= ts_scan(s, from) <= s.len(),
        ts_scan(s, from) < s.len() ==> ts_at(s, ts_scan(s, from)),
        forall|k: int| from <= k < ts_scan(s, from) ==> !ts_at(s, k),
    decreases s.len() - from,
{
    if from < s.len() && !ts_at(s, from) {
        lemma_ts_scan(s, from + 1);
    }
}

/// `s` cut off at the first position where a white-space run followed by
/// a timestamp begins.
pub open spec fn strip_timestamp(s: Seq<char>) -> Seq<char> {
    s.take(ts_scan(s, 0))
}

/// `v` with any trailing timestamp suffix removed.
pub fn strip_timestamp_chars(v: &Vec<char>) -> (r: Vec<char>)
    ensures
        r@ == strip_timestamp(v@),
{
    proof {
        lemma_ts_scan(v@, 0);
    }
    let mut i: usize = 0;
    while i < v.len() && !(check_space(v[i]) && check_date_at(v, skip_spaces_chars(v, i)))
        invariant
            i <= v@.len(),
            ts_scan(v@, 0) == ts_scan(v@, i as int),
        decreases v@.len() - i,
    {
        i = i + 1;
    }
    vec_range(v, 0, i)
}

/// The file name a diff path stands for: quotes stripped, the first known
/// prefix removed, any timestamp suffix cut off.
pub open spec fn normalize_name(s: Seq<char>, extra: Option<Seq<char>>) -> Seq<char> {
    strip_timestamp(strip_prefix_first(strip_quotes(s), prefix_list(extra)))
}

/// Extracts a file name from `v` with the given configured extra prefix.
pub fn normalize_name_chars(v: &Vec<char>, extra: &Option<String>) -> (r: Vec<char>)
    ensures
        r@ == normalize_name(
            v@,
            match extra {
                Some(e) => Some(e@),
                None => None,
            },
        ),
{
    let q = strip_quotes_chars(v);
    let ps = prefix_list_chars(extra);
    let p = strip_prefix_first_chars(&q, &ps);
    strip_timestamp_chars(&p)
}

/// The name on a `--- ` or `+++ ` header line: the text after the marker,
/// normalized; an empty sequence where the line does not fit the shape.
pub open spec fn header_filename(
    line: Seq<char>,
    marker: Seq<char>,
    extra: Option<Seq<char>>,
) -> Seq<char> {
    if starts_with(line, marker) && line.len() > marker.len() {
        normalize_name(line.skip(marker.len() as int), extra)
    } else {
        Seq::empty()
    }
}

/// Extracts the file name of a `--- ` or `+++ ` header line.
pub fn header_filename_chars(line: &Vec<char>, marker: &Vec<char>, extra: &Option<String>) -> (r:
    Vec<char>)
    ensures
        r@ == header_filename(
            line@,
            marker@,
            match extra {
                Some(e) => Some(e@),
                None => None,
            },
        ),
{
    if check_at(line, 0, marker) && line.len() > marker.len() {
        let rest = vec_range(line, marker.len(), line.len());
        normalize_name_chars(&rest, extra)
    } else {
        Vec::new()
    }
}

/// The position after the last `.` of `s`, or `-1` where `s` has none.
pub open spec fn last_dot(s: Seq<char>) -> int
    decreases s.len(),
{
    if s.len() == 0 {
        -1
    } else if s.last() == '.' {
        s.len() - 1
    } else {
        last_dot(s.drop_last())
    }
}

/// The language a file name suggests: the text after its last dot, or the
/// previous language where the name has no dot.
pub open spec fn extension_of(name: Seq<char>, language: Seq<char>) -> Seq<char> {
    if last_dot(name) >= 0 {
        name.skip(last_dot(name) + 1)
    } else {
        language
    }
}

/// `last_dot` lies below the length and marks the last dot.
pub proof fn lemma_last_dot(s: Seq<char>)
    ensures
        -1 <= last_dot(s) < s.len(),
        last_dot(s) >= 0 ==> s[last_dot(s)] == '.',
        forall|k: int| last_dot(s) < k < s.len() ==> s[k] != '.',
    decreases s.len(),
{
    if s.len() > 0 && s.last() != '.' {
        lemma_last_dot(s.drop_last());
        assert(forall|k: int|
            last_dot(s) < k < s.len() - 1 ==> s.drop_last()[k] == s[k] && s[k] != '.');
    }
}

/// The extension of `name`, or `language` where it has none.
pub fn extension_chars(name: &Vec<char>, language: &Vec<char>) -> (r: Vec<char>)
    ensures
        r@ == extension_of(name@, language@),
{
    proof {
        lemma_last_dot(name@);
    }
    let mut i: usize = name.len();
    proof {
        assert(name@.take(name@.len() as int) =~= name@);
    }
    while i > 0
        invariant
            i <= name@.len(),
            last_dot(name@) == last_dot(name@.take(i as int)),
        decreases i,
    {
        proof {
            let t = name@.take(i as int);
            assert(t.last() == name@[i - 1]);
            assert(t.drop_last() =~= name@.take(i - 1));
        }
        if name[i - 1] == '.' {
            proof {
                assert(last_dot(name@) == i - 1);
            }
            return vec_range(name, i, name.len());
        }
        i = i - 1;
    }
    proof {
        assert(name@.take(0) =~= Seq::<char>::empty());
        assert(last_dot(name@) == -1);
    }
    let mut r: Vec<char> = Vec::new();
    let mut k: usize = 0;
    while k < language.len()
        invariant
            k <= language@.len(),
            r@ == language@.take(k as int),
        decreases language@.len() - k,
    {
        r.push(language[k]);
        k = k + 1;
        proof {
            assert(r@ =~= language@.take(k as int));
        }
    }
    proof {
        assert(r@ =~= language@);
    }
    r
}

/// True when `c` may start a diff path prefix: one of `a b c i o w`.
pub open spec fn is_pfx_char(c: char) -> bool {
    c == 'a' || c == 'b' || c == 'c' || c == 'i' || c == 'o' || c == 'w'
}

/// True when `c` is a lower-case hex-like word character `[0-9a-z]`.
pub open spec fn is_word_char(c: char) -> bool {
    is_digit(c) || ('a' <= c <= 'z')
}

/// The first position at or after `from` whose character is no word
/// character, or the length of `s`.
pub open spec fn word_end(s: Seq<char>, from: int) -> int
    decreases s.len() - from,
    when 0 <= from <= s.len()
{
    if from >= s.len() {
        s.len() as int
    } else if is_word_char(s[from]) {
        word_end(s, from + 1)
    } else {
        from
    }
}

/// Bounds on `word_end`.
pub proof fn lemma_word_end(s: Seq<char>, from: int)
    requires
        0 <= from <= s.len(),
    ensures
        from <= word_end(s, from) <= s.len(),
    decreases s.len() - from,
{
    if from < s.len() {
        lemma_word_end(s, from + 1);
    }
}

/// Finds `word_end(v@, from)`.
pub fn word_end_chars(v: &Vec<char>, from: usize) -> (r: usize)
    requires
        from <= v@.len(),
    ensures
        r == word_end(v@, from as int),
        from <= r <= v@.len(),
{
    proof {
        lemma_word_end(v@, from as int);
    }
    let mut i: usize = from;
    while i < v.len() && ((v[i] >= '0' && v[i] <= '9') || (v[i] >= 'a' && v[i] <= 'z'))
        invariant
            from <= i <= v@.len(),
            word_end(v@, from as int) == word_end(v@, i as int),
        decreases v@.len() - i,
    {
        i = i + 1;
    }
    i
}

/// Decides `starts_with(line@, p@)` for a pattern given as a literal.
pub fn starts_lit(line: &Vec<char>, p: &str) -> (r: bool)
    ensures
        r == starts_with(line@, p@),
{
    let pc = chars_of(p);
    check_at(line, 0, &pc)
}

/// The six digits after the fixed marker `p`, where the line carries them.
pub open spec fn mode_capture(line: Seq<char>, p: Seq<char>) -> Option<Seq<char>> {
    if starts_with(line, p) && line.len() >= p.len() + 6 && all_digits(
        line,
        p.len() as int,
        p.len() + 6int,
    ) {
        Some(line.subrange(p.len() as int, p.len() + 6int))
    } else {
        None
    }
}

/// Extracts six mode digits after the marker `p`.
pub fn mode_capture_chars(line: &Vec<char>, p: &Vec<char>) -> (r: Option<Vec<char>>)
    ensures
        r.deep_view() == mode_capture(line@, p@),
{
    if check_at(line, 0, p) && line.len() >= 6 && p.len() <= line.len() - 6 && check_digits(
        line,
        p.len(),
        p.len() + 6,
    ) {
        Some(vec_range(line, p.len(), p.len() + 6))
    } else {
        None
    }
}

/// The name after the fixed marker `p`, with one leading quote removed
/// where the rest is long enough, as the rename and copy lines carry it.
pub open spec fn name_capture(line: Seq<char>, p: Seq<char>) -> Option<Seq<char>> {
    if starts_with(line, p) && line.len() > p.len() {
        let rest = line.skip(p.len() as int);
        if rest.len() >= 2 && rest[0] == '"' {
            Some(rest.drop_first())
        } else {
            Some(rest)
        }
    } else {
        None
    }
}

/// Extracts the name after the marker `p`.
pub fn name_capture_chars(line: &Vec<char>, p: &Vec<char>) -> (r: Option<Vec<char>>)
    ensures
        r.deep_view() == name_capture(line@, p@),
{
    if check_at(line, 0, p) && line.len() > p.len() {
        let ghost rest = line@.skip(p@.len() as int);
        if line.len() - p.len() >= 2 && line[p.len()] == '"' {
            proof {
                assert(rest[0] == line@[p@.len() as int]);
                assert(rest.drop_first() =~= line@.subrange(p@.len() + 1int, line@.len() as int));
            }
            Some(vec_range(line, p.len() + 1, line.len()))
        } else {
            proof {
                assert(rest =~= line@.subrange(p@.len() as int, line@.len() as int));
            }
            Some(vec_range(line, p.len(), line.len()))
        }
    } else {
        None
    }
}

/// The percentage after the marker `p` and before a `%` sign: present
/// where the line fits the shape, and the number itself where it fits in
/// a `u32`.
pub open spec fn pct_capture(line: Seq<char>, p: Seq<char>) -> Option<Option<u32>> {
    if starts_with(line, p) {
        let d = digits_end(line, p.len() as int);
        if d > p.len() && d < line.len() && line[d] == '%' {
            Some(parse_u32(line, p.len() as int, d))
        } else {
            None
        }
    } else {
        None
    }
}

/// Extracts the percentage after the marker `p`.
pub fn pct_capture_chars(line: &Vec<char>, p: &Vec<char>) -> (r: Option<Option<u32>>)
    ensures
        r == pct_capture(line@, p@),
{
    if check_at(line, 0, p) {
        let d = digits_end_chars(line, p.len());
        if d > p.len() && d < line.len() && line[d] == '%' {
            proof {
                lemma_scan_bounds(line@, p@.len() as int);
                assert forall|k: int| p@.len() <= k < d implies is_digit(#[trigger] line@[k]) by {
                    lemma_digits_end_digits(line@, p@.len() as int, k);
                }
            }
            Some(read_u32(line, p.len(), d))
        } else {
            None
        }
    } else {
        None
    }
}

/// Characters before `digits_end` are digits.
pub proof fn lemma_digits_end_digits(s: Seq<char>, from: int, k: int)
    requires
        0 <= from <= s.len(),
        from <= k < digits_end(s, from),
    ensures
        is_digit(s[k]),
    decreases k - from,
{
    lemma_scan_bounds(s, from);
    if k > from {
        lemma_digits_end_digits(s, from + 1, k);
    }
}

/// The captures of a plain `index <a>..<b> [mode]` line: the two
/// checksums and the optional six-digit mode.
pub open spec fn index_capture(line: Seq<char>) -> Option<(Seq<char>, Seq<char>, Option<
    Seq<char>,
>)> {
    if starts_with(line, "index "@) {
        let e1 = word_end(line, 6);
        if e1 > 6 && e1 + 2 <= line.len() && line[e1] == '.' && line[e1 + 1] == '.' {
            let e2 = word_end(line, e1 + 2);
            if e2 > e1 + 2 {
                let tz = skip_spaces(line, e2);
                let m = if tz + 6 <= line.len() && all_digits(line, tz, tz + 6) {
                    Some(line.subrange(tz, tz + 6))
                } else {
                    None
                };
                Some((line.subrange(6, e1), line.subrange(e1 + 2, e2), m))
            } else {
                None
            }
        } else {
            None
        }
    } else {
        None
    }
}

/// Extracts the captures of a plain `index` line.
pub fn index_capture_chars(line: &Vec<char>) -> (r: Option<(Vec<char>, Vec<char>, Option<
    Vec<char>,
>)>)
    ensures
        r.deep_view() == index_capture(line@),
{
    if starts_lit(line, "index ") {
        proof {
            reveal_strlit("index ");
        }
        let e1 = word_end_chars(line, 6);
        if e1 > 6 && line.len() >= 2 && e1 <= line.len() - 2 && line[e1] == '.' && line[e1 + 1]
            == '.' {
            let e2 = word_end_chars(line, e1 + 2);
            if e2 > e1 + 2 {
                let tz = skip_spaces_chars(line, e2);
                let m: Option<Vec<char>> = if line.len() >= 6 && tz <= line.len() - 6
                    && check_digits(line, tz, tz + 6) {
                    Some(vec_range(line, tz, tz + 6))
                } else {
                    None
                };
                let r = Some((vec_range(line, 6, e1), vec_range(line, e1 + 2, e2), m));
                proof {
                    assert(r.deep_view() =~~= index_capture(line@));
                }
                r
            } else {
                None
            }
        } else {
            None
        }
    } else {
        None
    }
}

/// The captures of a combined `index <a>,<b>..<c>` line.
pub open spec fn combined_index_capture(line: Seq<char>) -> Option<(Seq<char>, Seq<char>, Seq<
    char,
>)> {
    if starts_with(line, "index "@) {
        let e1 = word_end(line, 6);
        if e1 > 6 && e1 < line.len() && line[e1] == ',' {
            let e2 = word_end(line, e1 + 1);
            if e2 > e1 + 1 && e2 + 2 <= line.len() && line[e2] == '.' && line[e2 + 1] == '.' {
                let e3 = word_end(line, e2 + 2);
                if e3 > e2 + 2 {
                    Some(
                        (
                            line.subrange(6, e1),
                            line.subrange(e1 + 1, e2),
                            line.subrange(e2 + 2, e3),
                        ),
                    )
                } else {
                    None
                }
            } else {
                None
            }
        } else {
            None
        }
    } else {
        None
    }
}

/// Extracts the captures of a combined `index` line.
pub fn combined_index_capture_chars(line: &Vec<char>) -> (r: Option<(Vec<char>, Vec<char>, Vec<
    char,
>)>)
    ensures
        r.deep_view() == combined_index_capture(line@),
{
    if starts_lit(line, "index ") {
        proof {
            reveal_strlit("index ");
        }
        let e1 = word_end_chars(line, 6);
        if e1 > 6 && e1 < line.len() && line[e1] == ',' {
            let e2 = word_end_chars(line, e1 + 1);
            if e2 > e1 + 1 && line.len() >= 2 && e2 <= line.len() - 2 && line[e2] == '.' && line[e2
                + 1] == '.' {
                let e3 = word_end_chars(line, e2 + 2);
                if e3 > e2 + 2 {
                    let r = Some(
                        (
                            vec_range(line, 6, e1),
                            vec_range(line, e1 + 1, e2),
                            vec_range(line, e2 + 2, e3),
                        ),
                    );
                    proof {
                        assert(r.deep_view() =~~= combined_index_capture(line@));
                    }
                    r
                } else {
                    None
                }
            } else {
                None
            }
        } else {
            None
        }
    } else {
        None
    }
}

/// The captures of a combined `mode <a>,<b>..<c>` line of six digits each.
pub open spec fn combined_mode_capture(line: Seq<char>) -> Option<(Seq<char>, Seq<char>, Seq<
    char,
>)> {
    if starts_with(line, "mode "@) && line.len() >= 25 && all_digits(line, 5, 11) && line[11]
        == ',' && all_digits(line, 12, 18) && line[18] == '.' && line[19] == '.' && all_digits(
        line,
        20,
        26,
    ) && line.len() >= 26 {
        Some((line.subrange(5, 11), line.subrange(12, 18), line.subrange(20, 26)))
    } else {
        None
    }
}

/// Extracts the captures of a combined `mode` line.
pub fn combined_mode_capture_chars(line: &Vec<char>) -> (r: Option<(Vec<char>, Vec<char>, Vec<
    char,
>)>)
    ensures
        r.deep_view() == combined_mode_capture(line@),
{
    proof {
        reveal_strlit("mode ");
    }
    if starts_lit(line, "mode ") && line.len() >= 26 && check_digits(line, 5, 11) && line[11]
        == ',' && check_digits(line, 12, 18) && line[18] == '.' && line[19] == '.' && check_digits(
        line,
        20,
        26,
    ) {
        let r = Some((vec_range(line, 5, 11), vec_range(line, 12, 18), vec_range(line, 20, 26)));
        proof {
            assert(r.deep_view() =~~= combined_mode_capture(line@));
        }
        r
    } else {
        None
    }
}

/// The start lines of a hunk header `@@ -old[,n] +new[,n] @@...`, each
/// `None` where its number does not fit in a `u32`.
pub open spec fn hunk_capture(line: Seq<char>) -> Option<(Option<u32>, Option<u32>)> {
    if starts_with(line, "@@ -"@) {
        let e1 = digits_end(line, 4);
        if e1 > 4 {
            let p1 = if e1 < line.len() && line[e1] == ',' && digits_end(line, e1 + 1) > e1 + 1 {
                digits_end(line, e1 + 1)
            } else {
                e1
            };
            if p1 + 2 <= line.len() && line[p1] == ' ' && line[p1 + 1] == '+' {
                let e2 = digits_end(line, p1 + 2);
                if e2 > p1 + 2 {
                    let p2 = if e2 < line.len() && line[e2] == ',' && digits_end(line, e2 + 1) > e2
                        + 1 {
                        digits_end(line, e2 + 1)
                    } else {
                        e2
                    };
                    if p2 + 3 <= line.len() && line[p2] == ' ' && line[p2 + 1] == '@' && line[p2
                        + 2] == '@' {
                        Some((parse_u32(line, 4, e1), parse_u32(line, p1 + 2, e2)))
                    } else {
                        None
                    }
                } else {
                    None
                }
            } else {
                None
            }
        } else {
            None
        }
    } else {
        None
    }
}

/// Extracts the start lines of a plain hunk header.
pub fn hunk_capture_chars(line: &Vec<char>) -> (r: Option<(Option<u32>, Option<u32>)>)
    ensures
        r == hunk_capture(line@),
{
    if !starts_lit(line, "@@ -") {
        return None;
    }
    proof {
        reveal_strlit("@@ -");
    }
    let e1 = digits_end_chars(line, 4);
    if !(e1 > 4) {
        return None;
    }
    let p1: usize = if e1 < line.len() && line[e1] == ',' {
        let d = digits_end_chars(line, e1 + 1);
        if d > e1 + 1 {
            d
        } else {
            e1
        }
    } else {
        e1
    };
    if !(line.len() >= 2 && p1 <= line.len() - 2 && line[p1] == ' ' && line[p1 + 1] == '+') {
        return None;
    }
    let e2 = digits_end_chars(line, p1 + 2);
    if !(e2 > p1 + 2) {
        return None;
    }
    let p2: usize = if e2 < line.len() && line[e2] == ',' {
        let d = digits_end_chars(line, e2 + 1);
        if d > e2 + 1 {
            d
        } else {
            e2
        }
    } else {
        e2
    };
    if !(line.len() >= 3 && p2 <= line.len() - 3 && line[p2] == ' ' && line[p2 + 1] == '@'
        && line[p2 + 2] == '@') {
        return None;
    }
    proof {
        assert forall|k: int| 4 <= k < e1 implies is_digit(#[trigger] line@[k]) by {
            lemma_digits_end_digits(line@, 4, k);
        }
        assert forall|k: int| p1 + 2 <= k < e2 implies is_digit(#[trigger] line@[k]) by {
            lemma_digits_end_digits(line@, p1 + 2, k);
        }
    }
    Some((read_u32(line, 4, e1), read_u32(line, p1 + 2, e2)))
}

/// The start lines of a combined hunk header
/// `@@@ -old1[,n] -old2[,n] +new[,n] @@@...`.
pub open spec fn combined_hunk_capture(line: Seq<char>) -> Option<(Option<u32>, Option<u32>, Option<
    u32,
>)> {
    if starts_with(line, "@@@ -"@) {
        let e1 = digits_end(line, 5);
        if e1 > 5 {
            let p1 = if e1 < line.len() && line[e1] == ',' && digits_end(line, e1 + 1) > e1 + 1 {
                digits_end(line, e1 + 1)
            } else {
                e1
            };
            if p1 + 2 <= line.len() && line[p1] == ' ' && line[p1 + 1] == '-' {
                let e2 = digits_end(line, p1 + 2);
                if e2 > p1 + 2 {
                    let p2 = if e2 < line.len() && line[e2] == ',' && digits_end(line, e2 + 1) > e2
                        + 1 {
                        digits_end(line, e2 + 1)
                    } else {
                        e2
                    };
                    if p2 + 2 <= line.len() && line[p2] == ' ' && line[p2 + 1] == '+' {
                        let e3 = digits_end(line, p2 + 2);
                        if e3 > p2 + 2 {
                            let p3 = if e3 < line.len() && line[e3] == ',' && digits_end(
                                line,
                                e3 + 1,
                            ) > e3 + 1 {
                                digits_end(line, e3 + 1)
                            } else {
                                e3
                            };
                            if p3 + 4 <= line.len() && line[p3] == ' ' && line[p3 + 1] == '@'
                                && line[p3 + 2] == '@' && line[p3 + 3] == '@' {
                                Some(
                                    (
                                        parse_u32(line, 5, e1),
                                        parse_u32(line, p1 + 2, e2),
                                        parse_u32(line, p2 + 2, e3),
                                    ),
                                )
                            } else {
                                None
                            }
                        } else {
                            None
                        }
                    } else {
                        None
                    }
                } else {
                    None
                }
            } else {
                None
            }
        } else {
            None
        }
    } else {
        None
    }
}

/// Extracts the start lines of a combined hunk header.
pub fn combined_hunk_capture_chars(line: &Vec<char>) -> (r: Option<(Option<u32>, Option<u32>,
    Option<u32>)>)
    ensures
        r == combined_hunk_capture(line@),
{
    if !starts_lit(line, "@@@ -") {
        return None;
    }
    proof {
        reveal_strlit("@@@ -");
    }
    let e1 = digits_end_chars(line, 5);
    if !(e1 > 5) {
        return None;
    }
    let p1: usize = if e1 < line.len() && line[e1] == ',' {
        let d = digits_end_chars(line, e1 + 1);
        if d > e1 + 1 {
            d
        } else {
            e1
        }
    } else {
        e1
    };
    if !(line.len() >= 2 && p1 <= line.len() - 2 && line[p1] == ' ' && line[p1 + 1] == '-') {
        return None;
    }
    let e2 = digits_end_chars(line, p1 + 2);
    if !(e2 > p1 + 2) {
        return None;
    }
    let p2: usize = if e2 < line.len() && line[e2] == ',' {
        let d = digits_end_chars(line, e2 + 1);
        if d > e2 + 1 {
            d
        } else {
            e2
        }
    } else {
        e2
    };
    if !(line.len() >= 2 && p2 <= line.len() - 2 && line[p2] == ' ' && line[p2 + 1] == '+') {
        return None;
    }
    let e3 = digits_end_chars(line, p2 + 2);
    if !(e3 > p2 + 2) {
        return None;
    }
    let p3: usize = if e3 < line.len() && line[e3] == ',' {
        let d = digits_end_chars(line, e3 + 1);
        if d > e3 + 1 {
            d
        } else {
            e3
        }
    } else {
        e3
    };
    if !(line.len() >= 4 && p3 <= line.len() - 4 && line[p3] == ' ' && line[p3 + 1] == '@'
        && line[p3 + 2] == '@' && line[p3 + 3] == '@') {
        return None;
    }
    proof {
        assert forall|k: int| 5 <= k < e1 implies is_digit(#[trigger] line@[k]) by {
            lemma_digits_end_digits(line@, 5, k);
        }
        assert forall|k: int| p1 + 2 <= k < e2 implies is_digit(#[trigger] line@[k]) by {
            lemma_digits_end_digits(line@, p1 + 2, k);
        }
        assert forall|k: int| p2 + 2 <= k < e3 implies is_digit(#[trigger] line@[k]) by {
            lemma_digits_end_digits(line@, p2 + 2, k);
        }
    }
    Some((read_u32(line, 5, e1), read_u32(line, p1 + 2, e2), read_u32(line, p2 + 2, e3)))
}

/// The position just past the separator `"? "?` standing at `k`, or `-1`
/// where none stands there.
pub open spec fn gds_sep_end(s: Seq<char>, k: int) -> int {
    if 0 <= k && k < s.len() && s[k] == '"' && k + 1 < s.len() && s[k + 1] == ' ' {
        if k + 2 < s.len() && s[k + 2] == '"' {
            k + 3
        } else {
            k + 2
        }
    } else if 0 <= k && k < s.len() && s[k] == ' ' {
        if k + 1 < s.len() && s[k + 1] == '"' {
            k + 2
        } else {
            k + 1
        }
    } else {
        -1
    }
}

/// True when the second path of a `diff --git` line stands at `m`.
pub open spec fn gds_snd_ok(s: Seq<char>, m: int) -> bool {
    0 <= m && m + 3 <= s.len() && is_pfx_char(s[m]) && s[m + 1] == '/'
}

/// Scans downward for the longest first path of a `diff --git` line, as a
/// greedy match does, and returns the two paths.
pub open spec fn gds_scan(s: Seq<char>, k: int) -> Option<(Seq<char>, Seq<char>)>
    decreases k,
{
    if k < 3 {
        None
    } else {
        let m = gds_sep_end(s, k);
        if m >= 0 && gds_snd_ok(s, m) {
            Some((s.take(k), s.skip(m)))
        } else {
            gds_scan(s, k - 1)
        }
    }
}

/// The two provisional paths of a `diff --git "a/x" "b/y"` line, where it
/// fits the shape.
pub open spec fn gds_names(line: Seq<char>) -> Option<(Seq<char>, Seq<char>)> {
    if starts_with(line, "diff --git "@) {
        let rest = line.skip(11);
        let s = if rest.len() > 0 && rest[0] == '"' {
            rest.drop_first()
        } else {
            rest
        };
        if s.len() >= 7 && is_pfx_char(s[0]) && s[1] == '/' {
            gds_scan(s, s.len() - 4)
        } else {
            None
        }
    } else {
        None
    }
}

/// Decides `is_pfx_char`.
fn check_pfx_char(c: char) -> (r: bool)
    ensures
        r == is_pfx_char(c),
{
    c == 'a' || c == 'b' || c == 'c' || c == 'i' || c == 'o' || c == 'w'
}

/// Extracts the two provisional paths of a `diff --git` line.
pub fn gds_names_chars(line: &Vec<char>) -> (r: Option<(Vec<char>, Vec<char>)>)
    ensures
        r.deep_view() == gds_names(line@),
{
    if !starts_lit(line, "diff --git ") {
        return None;
    }
    proof {
        reveal_strlit("diff --git ");
    }
    let q: usize = if line.len() > 11 && line[11] == '"' {
        12
    } else {
        11
    };
    let s = vec_range(line, q, line.len());
    proof {
        let rest = line@.skip(11);
        assert(rest.len() == line@.len() - 11);
        if rest.len() > 0 {
            assert(rest[0] == line@[11]);
            assert(rest.drop_first() =~= line@.subrange(12, line@.len() as int));
        }
        assert(rest =~= line@.subrange(11, line@.len() as int));
    }
    if !(s.len() >= 7 && check_pfx_char(s[0]) && s[1] == '/') {
        return None;
    }
    let mut k: usize = s.len() - 4;
    loop
        invariant
            3 <= k,
            k + 4 <= s@.len(),
            gds_names(line@) == gds_scan(s@, k as int),
        decreases k,
    {
        let m: Option<usize> = if s[k] == '"' && k + 1 < s.len() && s[k + 1] == ' ' {
            if k + 2 < s.len() && s[k + 2] == '"' {
                Some(k + 3)
            } else {
                Some(k + 2)
            }
        } else if s[k] == ' ' {
            if k + 1 < s.len() && s[k + 1] == '"' {
                Some(k + 2)
            } else {
                Some(k + 1)
            }
        } else {
            None
        };
        proof {
            match m {
                Some(x) => assert(x == gds_sep_end(s@, k as int)),
                None => assert(gds_sep_end(s@, k as int) == -1),
            }
        }
        if let Some(mu) = m {
            if s.len() >= 3 && mu <= s.len() - 3 && check_pfx_char(s[mu]) && s[mu + 1] == '/' {
                let r = Some((vec_range(&s, 0, k), vec_range(&s, mu, s.len())));
                proof {
                    assert(s@.take(k as int) =~= s@.subrange(0, k as int));
                    assert(s@.skip(mu as int) =~= s@.subrange(mu as int, s@.len() as int));
                    assert(r.deep_view() =~~= gds_scan(s@, k as int));
                }
                return r;
            }
        }
        if k == 3 {
            proof {
                assert(gds_scan(s@, 2) == None::<(Seq<char>, Seq<char>)>);
            }
            return None;
        }
        k = k - 1;
    }
}

/// The position just past the separator `"? and "?` standing at `k`, or
/// `-1` where none stands there.
pub open spec fn ubs_sep_end(s: Seq<char>, k: int) -> int {
    if 0 <= k && k < s.len() && s[k] == '"' && matches_at(s, k + 1, " and "@) {
        if k + 6 < s.len() && s[k + 6] == '"' {
            k + 7
        } else {
            k + 6
        }
    } else if matches_at(s, k, " and "@) {
        if k + 5 < s.len() && s[k + 5] == '"' {
            k + 6
        } else {
            k + 5
        }
    } else {
        -1
    }
}

/// Scans downward for the longest second path of a `Binary files` line,
/// ending right before its `"? differ` tail.
pub open spec fn ubs_tail_scan(s: Seq<char>, e: int, lo: int) -> int
    decreases e - lo + 1,
    when lo >= 1
{
    if e < lo {
        -1
    } else if s.len() >= e + 8 && s[e] == '"' && matches_at(s, e + 1, " differ"@) {
        e
    } else if matches_at(s, e, " differ"@) {
        e
    } else {
        ubs_tail_scan(s, e - 1, lo)
    }
}

/// Scans downward for the longest first path of a
/// `Binary files "?a/x"? and "?b/y"? differ` line and returns both paths.
pub open spec fn ubs_scan(s: Seq<char>, k: int) -> Option<(Seq<char>, Seq<char>)>
    decreases k,
{
    if k < 3 {
        None
    } else {
        let m = ubs_sep_end(s, k);
        if m >= 0 && gds_snd_ok(s, m) && ubs_tail_scan(s, s.len() - 7, m + 3) >= 0 {
            Some((s.take(k), s.subrange(m, ubs_tail_scan(s, s.len() - 7, m + 3))))
        } else {
            ubs_scan(s, k - 1)
        }
    }
}

/// The two provisional paths of a prefixed `Binary files ... differ` line.
pub open spec fn ubs_names(line: Seq<char>) -> Option<(Seq<char>, Seq<char>)> {
    if starts_with(line, "Binary files "@) {
        let rest = line.skip(13);
        let s = if rest.len() > 0 && rest[0] == '"' {
            rest.drop_first()
        } else {
            rest
        };
        if s.len() >= 15 && is_pfx_char(s[0]) && s[1] == '/' {
            ubs_scan(s, s.len() - 11)
        } else {
            None
        }
    } else {
        None
    }
}

/// Finds `ubs_tail_scan(v@, e0, lo)`.
fn ubs_tail_scan_chars(v: &Vec<char>, e0: usize, lo: usize) -> (r: Option<usize>)
    requires
        lo >= 1,
        e0 < v@.len(),
    ensures
        match r {
            Some(x) => x == ubs_tail_scan(v@, e0 as int, lo as int),
            None => ubs_tail_scan(v@, e0 as int, lo as int) == -1,
        },
{
    let pd = chars_of(" differ");
    let mut e: usize = e0;
    loop
        invariant
            e <= e0 < v@.len(),
            lo >= 1,
            pd@ == " differ"@,
            ubs_tail_scan(v@, e0 as int, lo as int) == ubs_tail_scan(v@, e as int, lo as int),
        decreases e,
    {
        if e < lo {
            return None;
        }
        if v.len() >= 8 && e <= v.len() - 8 && v[e] == '"' && check_at(v, e + 1, &pd) {
            proof {
                assert(v@.len() >= e + 8);
            }
            return Some(e);
        }
        if check_at(v, e, &pd) {
            proof {
                if v@.len() >= e + 8 && v@[e as int] == '"' && matches_at(v@, e + 1, " differ"@) {
                    assert(false);
                }
            }
            return Some(e);
        }
        if e == 0 {
            return None;
        }
        e = e - 1;
    }
}

/// Extracts the two provisional paths of a prefixed `Binary files` line.
pub fn ubs_names_chars(line: &Vec<char>) -> (r: Option<(Vec<char>, Vec<char>)>)
    ensures
        r.deep_view() == ubs_names(line@),
{
    if !starts_lit(line, "Binary files ") {
        return None;
    }
    proof {
        reveal_strlit("Binary files ");
        reveal_strlit(" and ");
        reveal_strlit(" differ");
    }
    let q: usize = if line.len() > 13 && line[13] == '"' {
        14
    } else {
        13
    };
    let s = vec_range(line, q, line.len());
    proof {
        let rest = line@.skip(13);
        assert(rest.len() == line@.len() - 13);
        if rest.len() > 0 {
            assert(rest[0] == line@[13]);
            assert(rest.drop_first() =~= line@.subrange(14, line@.len() as int));
        }
        assert(rest =~= line@.subrange(13, line@.len() as int));
    }
    if !(s.len() >= 15 && check_pfx_char(s[0]) && s[1] == '/') {
        return None;
    }
    let pa = chars_of(" and ");
    let mut k: usize = s.len() - 11;
    loop
        invariant
            3 <= k,
            k + 11 <= s@.len(),
            s@.len() <= usize::MAX,
            s@.len() >= 15,
            pa@ == " and "@,
            ubs_names(line@) == ubs_scan(s@, k as int),
        decreases k,
    {
        let m: Option<usize> = if s[k] == '"' && check_at(&s, k + 1, &pa) {
            if k + 6 < s.len() && s[k + 6] == '"' {
                Some(k + 7)
            } else {
                Some(k + 6)
            }
        } else if check_at(&s, k, &pa) {
            if k + 5 < s.len() && s[k + 5] == '"' {
                Some(k + 6)
            } else {
                Some(k + 5)
            }
        } else {
            None
        };
        proof {
            reveal_strlit(" and ");
            if s@[k as int] == '"' && matches_at(s@, k + 1, " and "@) && matches_at(
                s@,
                k as int,
                " and "@,
            ) {
                assert(s@.subrange(k as int, k + 5)[0] == s@[k as int]);
                assert(" and "@[0] == ' ');
                assert(false);
            }
            match m {
                Some(x) => assert(x == ubs_sep_end(s@, k as int)),
                None => assert(ubs_sep_end(s@, k as int) == -1),
            }
        }
        if let Some(mu) = m {
            if s.len() >= 3 && mu <= s.len() - 3 && check_pfx_char(s[mu]) && s[mu + 1] == '/' {
                let t = ubs_tail_scan_chars(&s, s.len() - 7, mu + 3);
                if let Some(tu) = t {
                    proof {
                        lemma_ubs_tail_bounds(s@, s@.len() - 7, mu + 3);
                    }
                    let r = Some((vec_range(&s, 0, k), vec_range(&s, mu, tu)));
                    proof {
                        assert(s@.take(k as int) =~= s@.subrange(0, k as int));
                        assert(r.deep_view() =~~= ubs_scan(s@, k as int));
                    }
                    return r;
                }
            }
        }
        if k == 3 {
            proof {
                assert(ubs_scan(s@, 2) == None::<(Seq<char>, Seq<char>)>);
            }
            return None;
        }
        k = k - 1;
    }
}

/// What `ubs_tail_scan` returns is `-1` or lies in `[lo, e]`.
pub proof fn lemma_ubs_tail_bounds(s: Seq<char>, e: int, lo: int)
    requires
        lo >= 1,
    ensures
        ubs_tail_scan(s, e, lo) == -1 || (lo <= ubs_tail_scan(s, e, lo) <= e
            && ubs_tail_scan(s, e, lo) <= s.len()),
    decreases e - lo + 1,
{
    if e >= lo {
        if s.len() >= e + 8 && s[e] == '"' && matches_at(s, e + 1, " differ"@) {
        } else if matches_at(s, e, " differ"@) {
        } else {
            lemma_ubs_tail_bounds(s, e - 1, lo);
        }
    }
}

/// Scans downward for the longest first capture of an unprefixed
/// `Binary files <a> and <b> differ` line; both captures may be empty.
pub open spec fn bf_scan(s: Seq<char>, k: int) -> Option<(Seq<char>, Seq<char>)>
    decreases k + 1,
{
    if k < 0 {
        None
    } else if matches_at(s, k, " and "@) && ubs_tail_scan(s, s.len() - 7, k + 5) >= 0 {
        Some((s.take(k), s.subrange(k + 5, ubs_tail_scan(s, s.len() - 7, k + 5))))
    } else {
        bf_scan(s, k - 1)
    }
}

/// The two captures of a `Binary files <a> and <b> differ` line, where it
/// fits that shape.
pub open spec fn bf_names(line: Seq<char>) -> Option<(Seq<char>, Seq<char>)> {
    if starts_with(line, "Binary files "@) {
        let s = line.skip(13);
        if s.len() >= 12 {
            bf_scan(s, s.len() - 12)
        } else {
            None
        }
    } else {
        None
    }
}

/// Extracts the two captures of an unprefixed `Binary files` line.
pub fn bf_names_chars(line: &Vec<char>) -> (r: Option<(Vec<char>, Vec<char>)>)
    ensures
        r.deep_view() == bf_names(line@),
{
    if !starts_lit(line, "Binary files ") {
        return None;
    }
    proof {
        reveal_strlit("Binary files ");
        reveal_strlit(" and ");
        reveal_strlit(" differ");
    }
    let s = vec_range(line, 13, line.len());
    proof {
        assert(line@.skip(13) =~= line@.subrange(13, line@.len() as int));
        assert(s@ == line@.skip(13));
    }
    if s.len() < 12 {
        return None;
    }
    let pa = chars_of(" and ");
    let mut k: usize = s.len() - 12;
    loop
        invariant
            k + 12 <= s@.len(),
            s@.len() >= 12,
            pa@ == " and "@,
            bf_names(line@) == bf_scan(s@, k as int),
        decreases k + 1,
    {
        if check_at(&s, k, &pa) {
            let t = ubs_tail_scan_chars(&s, s.len() - 7, k + 5);
            if let Some(tu) = t {
                proof {
                    lemma_ubs_tail_bounds(s@, s@.len() - 7, k + 5);
                }
                let r = Some((vec_range(&s, 0, k), vec_range(&s, k + 5, tu)));
                proof {
                    assert(s@.take(k as int) =~= s@.subrange(0, k as int));
                    assert(r.deep_view() =~~= bf_scan(s@, k as int));
                }
                return r;
            }
        }
        if k == 0 {
            proof {
                assert(bf_scan(s@, -1) == None::<(Seq<char>, Seq<char>)>);
            }
            return None;
        }
        k = k - 1;
    }
}

/// True when a `--- ` / `+++ ` / `@@` header triplet appears at or after
/// `idx` before the next `diff` line, within the window the parser scans.
pub open spec fn hunk_header_ahead(lines: Seq<Seq<char>>, idx: int) -> bool
    decreases lines.len() - idx,
    when idx >= 0
{
    if idx >= lines.len() - 3 {
        false
    } else if starts_with(lines[idx], "diff"@) {
        false
    } else if starts_with(lines[idx], "--- "@) && starts_with(lines[idx + 1], "+++ "@)
        && starts_with(lines[idx + 2], "@@"@) {
        true
    } else {
        hunk_header_ahead(lines, idx + 1)
    }
}

/// Decides `hunk_header_ahead(lines.deep_view(), idx)`.
pub fn check_hunk_header_ahead(lines: &Vec<Vec<char>>, idx: usize) -> (r: bool)
    ensures
        r == hunk_header_ahead(lines.deep_view(), idx as int),
{
    let pd = chars_of("diff");
    let po = chars_of("--- ");
    let pn = chars_of("+++ ");
    let ph = chars_of("@@");
    let mut i: usize = idx;
    loop
        invariant
            i >= idx,
            pd@ == "diff"@,
            po@ == "--- "@,
            pn@ == "+++ "@,
            ph@ == "@@"@,
            hunk_header_ahead(lines.deep_view(), idx as int) == hunk_header_ahead(
                lines.deep_view(),
                i as int,
            ),
        decreases lines@.len() - i,
    {
        if lines.len() < 3 || i >= lines.len() - 3 {
            return false;
        }
        proof {
            assert(lines.deep_view()[i as int] =~= lines@[i as int]@);
            assert(lines.deep_view()[i + 1] =~= lines@[i + 1]@);
            assert(lines.deep_view()[i + 2] =~= lines@[i + 2]@);
        }
        if check_at(&lines[i], 0, &pd) {
            return false;
        }
        if check_at(&lines[i], 0, &po) && check_at(&lines[i + 1], 0, &pn) && check_at(
            &lines[i + 2],
            0,
            &ph,
        ) {
            return true;
        }
        i = i + 1;
    }
}

/// The parser's state between lines: finished files, the file and hunk
/// being built, the running line counters, and the provisional names
/// taken from a `diff --git` line.
#[verifier::ext_equal]
pub ghost struct StateModel {
    pub files: Seq<DiffFileModel>,
    pub current_file: Option<DiffFileModel>,
    pub current_block: Option<DiffBlockModel>,
    pub old_line: Option<u32>,
    pub old_line2: Option<u32>,
    pub new_line: Option<u32>,
    pub possible_old_name: Option<Seq<char>>,
    pub possible_new_name: Option<Seq<char>>,
}

/// The state the parser starts in: nothing parsed yet.
pub open spec fn init_state() -> StateModel {
    StateModel {
        files: Seq::empty(),
        current_file: None,
        current_block: None,
        old_line: None,
        old_line2: None,
        new_line: None,
        possible_old_name: None,
        possible_new_name: None,
    }
}

/// `x + 1`, held at `u32::MAX` where it would overflow.
pub open spec fn sat_inc(x: u32) -> u32 {
    if x < u32::MAX {
        (x + 1) as u32
    } else {
        x
    }
}

/// The number a counter contributes to a hunk: its value, or zero where
/// the header gave none.
pub open spec fn opt0(x: Option<u32>) -> u32 {
    match x {
        Some(v) => v,
        None => 0,
    }
}

/// Closes the open hunk: it moves into the open file's block list; with
/// no open file it is dropped.
pub open spec fn save_block_p(f: Option<DiffFileModel>, b: Option<DiffBlockModel>) -> (Option<
    DiffFileModel,
>, Option<DiffBlockModel>) {
    match b {
        None => (f, None),
        Some(bb) => match f {
            None => (None, None),
            Some(ff) => (Some(DiffFileModel { blocks: ff.blocks.push(bb), ..ff }), None),
        },
    }
}

/// Closes the open file: empty names fall back to the provisional ones,
/// and the file joins the output only when its new name is non-empty.
pub open spec fn save_file_p(
    files: Seq<DiffFileModel>,
    f: Option<DiffFileModel>,
    po: Option<Seq<char>>,
    pn: Option<Seq<char>>,
) -> Seq<DiffFileModel> {
    match f {
        None => files,
        Some(f0) => {
            let f1 = if f0.old_name.len() == 0 && po is Some {
                DiffFileModel { old_name: po->0, ..f0 }
            } else {
                f0
            };
            let f2 = if f1.new_name.len() == 0 && pn is Some {
                DiffFileModel { new_name: pn->0, ..f1 }
            } else {
                f1
            };
            if f2.new_name.len() > 0 {
                files.push(f2)
            } else {
                files
            }
        },
    }
}

/// Opens a hunk on `line`: the open one is closed first; the line is read
/// as a plain or combined hunk header, setting the counters, and any line
/// that fits neither resets them to zero.
pub open spec fn start_block_p(
    f: Option<DiffFileModel>,
    b: Option<DiffBlockModel>,
    ol: Option<u32>,
    ol2: Option<u32>,
    nl: Option<u32>,
    line: Seq<char>,
) -> (Option<DiffFileModel>, Option<DiffBlockModel>, Option<u32>, Option<u32>, Option<u32>) {
    let (f1, b1) = save_block_p(f, b);
    let q = match f1 {
        Some(ff) => match hunk_capture(line) {
            Some(c) => (Some(DiffFileModel { is_combined: false, ..ff }), c.0, None, c.1),
            None => match combined_hunk_capture(line) {
                Some(c) => (Some(DiffFileModel { is_combined: true, ..ff }), c.0, c.1, c.2),
                None => (
                    Some(DiffFileModel { is_combined: false, ..ff }),
                    Some(0u32),
                    None,
                    Some(0u32),
                ),
            },
        },
        None => (None, ol, ol2, nl),
    };
    let blk = DiffBlockModel {
        old_start_line: opt0(q.1),
        old_start_line2: q.2,
        new_start_line: opt0(q.3),
        header: line,
        lines: Seq::empty(),
    };
    (q.0, Some(blk), q.1, q.2, q.3)
}

/// Classifies a content line by its prefix and appends it to the open
/// hunk, advancing the counters its type consumes.
pub open spec fn create_line_p(
    f: DiffFileModel,
    b: DiffBlockModel,
    ol: u32,
    nl: u32,
    line: Seq<char>,
) -> (DiffFileModel, DiffBlockModel, u32, u32) {
    let added = if f.is_combined {
        starts_with(line, "+ "@) || starts_with(line, " +"@) || starts_with(line, "++"@)
    } else {
        starts_with(line, "+"@)
    };
    let deleted = if f.is_combined {
        starts_with(line, "- "@) || starts_with(line, " -"@) || starts_with(line, "--"@)
    } else {
        starts_with(line, "-"@)
    };
    if added {
        let dl = DiffLineModel {
            line_type: LineType::Insert,
            content: line,
            old_number: None,
            new_number: Some(nl),
        };
        (
            DiffFileModel { added_lines: sat_inc(f.added_lines), ..f },
            DiffBlockModel { lines: b.lines.push(dl), ..b },
            ol,
            sat_inc(nl),
        )
    } else if deleted {
        let dl = DiffLineModel {
            line_type: LineType::Delete,
            content: line,
            old_number: Some(ol),
            new_number: None,
        };
        (
            DiffFileModel { deleted_lines: sat_inc(f.deleted_lines), ..f },
            DiffBlockModel { lines: b.lines.push(dl), ..b },
            sat_inc(ol),
            nl,
        )
    } else {
        let dl = DiffLineModel {
            line_type: LineType::Context,
            content: line,
            old_number: Some(ol),
            new_number: Some(nl),
        };
        (f, DiffBlockModel { lines: b.lines.push(dl), ..b }, sat_inc(ol), sat_inc(nl))
    }
}

/// Applies one git metadata line to the open file.  The second component
/// names the header of a hunk to open, for the binary markers.
pub open spec fn metadata_p(
    f: DiffFileModel,
    line: Seq<char>,
    dneh: bool,
    cfg: ParserConfigModel,
) -> (DiffFileModel, Option<Seq<char>>) {
    if mode_capture(line, "old mode "@) is Some {
        (
            DiffFileModel {
                old_mode: Some(FileModeModel::Single(mode_capture(line, "old mode "@)->0)),
                ..f
            },
            None,
        )
    } else if mode_capture(line, "new mode "@) is Some {
        (DiffFileModel { new_mode: Some(mode_capture(line, "new mode "@)->0), ..f }, None)
    } else if mode_capture(line, "deleted file mode "@) is Some {
        (
            DiffFileModel {
                deleted_file_mode: Some(mode_capture(line, "deleted file mode "@)->0),
                is_deleted: Some(true),
                ..f
            },
            None,
        )
    } else if mode_capture(line, "new file mode "@) is Some {
        (
            DiffFileModel {
                new_file_mode: Some(mode_capture(line, "new file mode "@)->0),
                is_new: Some(true),
                ..f
            },
            None,
        )
    } else if name_capture(line, "copy from "@) is Some {
        let f1 = if dneh {
            DiffFileModel { old_name: name_capture(line, "copy from "@)->0, ..f }
        } else {
            f
        };
        (DiffFileModel { is_copy: Some(true), ..f1 }, None)
    } else if name_capture(line, "copy to "@) is Some {
        let f1 = if dneh {
            DiffFileModel { new_name: name_capture(line, "copy to "@)->0, ..f }
        } else {
            f
        };
        (DiffFileModel { is_copy: Some(true), ..f1 }, None)
    } else if name_capture(line, "rename from "@) is Some {
        let f1 = if dneh {
            DiffFileModel { old_name: name_capture(line, "rename from "@)->0, ..f }
        } else {
            f
        };
        (DiffFileModel { is_rename: Some(true), ..f1 }, None)
    } else if name_capture(line, "rename to "@) is Some {
        let f1 = if dneh {
            DiffFileModel { new_name: name_capture(line, "rename to "@)->0, ..f }
        } else {
            f
        };
        (DiffFileModel { is_rename: Some(true), ..f1 }, None)
    } else if bf_names(line) is Some {
        let c = bf_names(line)->0;
        (
            DiffFileModel {
                is_binary: Some(true),
                old_name: normalize_name(c.0, cfg.src_prefix),
                new_name: normalize_name(c.1, cfg.dst_prefix),
                ..f
            },
            Some("Binary file"@),
        )
    } else if starts_with(line, "GIT binary patch"@) {
        (DiffFileModel { is_binary: Some(true), ..f }, Some(line))
    } else if pct_capture(line, "similarity index "@) is Some {
        (
            DiffFileModel { unchanged_percentage: pct_capture(line, "similarity index "@)->0, ..f },
            None,
        )
    } else if pct_capture(line, "dissimilarity index "@) is Some {
        (
            DiffFileModel {
                changed_percentage: pct_capture(line, "dissimilarity index "@)->0,
                ..f
            },
            None,
        )
    } else if index_capture(line) is Some {
        let c = index_capture(line)->0;
        (
            DiffFileModel {
                checksum_before: Some(ChecksumModel::Single(c.0)),
                checksum_after: Some(c.1),
                mode: c.2,
                ..f
            },
            None,
        )
    } else if combined_index_capture(line) is Some {
        let c = combined_index_capture(line)->0;
        (
            DiffFileModel {
                checksum_before: Some(ChecksumModel::Multiple(seq![c.1, c.2])),
                checksum_after: Some(c.0),
                ..f
            },
            None,
        )
    } else if combined_mode_capture(line) is Some {
        let c = combined_mode_capture(line)->0;
        (
            DiffFileModel {
                old_mode: Some(FileModeModel::Multiple(seq![c.1, c.2])),
                new_mode: Some(c.0),
                ..f
            },
            None,
        )
    } else {
        (f, None)
    }
}

/// Closes any open hunk and opens a fresh one on `line`, over the whole
/// state.
pub open spec fn start_block_st(st: StateModel, line: Seq<char>) -> StateModel {
    let q = start_block_p(
        st.current_file,
        st.current_block,
        st.old_line,
        st.old_line2,
        st.new_line,
        line,
    );
    StateModel {
        current_file: q.0,
        current_block: q.1,
        old_line: q.2,
        old_line2: q.3,
        new_line: q.4,
        ..st
    }
}

/// Closes the open hunk and file and begins a fresh file record.
pub open spec fn start_file_st(st: StateModel) -> StateModel {
    let (f1, b1) = save_block_p(st.current_file, st.current_block);
    let files2 = save_file_p(st.files, f1, st.possible_old_name, st.possible_new_name);
    StateModel {
        files: files2,
        current_file: Some(empty_file_model()),
        current_block: b1,
        possible_old_name: None,
        possible_new_name: None,
        ..st
    }
}

/// The hunk-header, content and metadata stages of one line.
pub open spec fn step_hunk_onward(
    lines: Seq<Seq<char>>,
    i: int,
    st: StateModel,
    cfg: ParserConfigModel,
) -> StateModel {
    let line = lines[i];
    if st.current_file is Some && (starts_with(line, "@@"@) || (st.current_file->0.is_git_diff
        && st.current_file->0.old_name.len() > 0 && st.current_file->0.new_name.len() > 0
        && st.current_block is None)) {
        start_block_st(st, line)
    } else if st.current_block is Some && line.len() > 0 && (line[0] == '+' || line[0] == '-'
        || line[0] == ' ') {
        if st.current_file is Some && st.old_line is Some && st.new_line is Some {
            let q = create_line_p(
                st.current_file->0,
                st.current_block->0,
                st.old_line->0,
                st.new_line->0,
                line,
            );
            StateModel {
                current_file: Some(q.0),
                current_block: Some(q.1),
                old_line: Some(q.2),
                new_line: Some(q.3),
                ..st
            }
        } else {
            st
        }
    } else {
        match st.current_file {
            None => st,
            Some(f) => {
                let dneh = !hunk_header_ahead(lines, i);
                let m = metadata_p(f, line, dneh, cfg);
                let st2 = StateModel { current_file: Some(m.0), ..st };
                match m.1 {
                    Some(h) => start_block_st(st2, h),
                    None => st2,
                }
            },
        }
    }
}

/// The file-header stage of one line, falling through to the later
/// stages where it does not consume the line.
pub open spec fn step_headers(
    lines: Seq<Seq<char>>,
    i: int,
    st: StateModel,
    cfg: ParserConfigModel,
) -> StateModel {
    let line = lines[i];
    let is_old = starts_with(line, "--- "@);
    let is_new = starts_with(line, "+++ "@);
    let prev_is_old = i > 0 && starts_with(lines[i - 1], "--- "@);
    let next_is_new = i + 1 < lines.len() && starts_with(lines[i + 1], "+++ "@);
    let header_ctx = ((is_old && next_is_new) || (is_new && prev_is_old)) && st.current_file
        is Some;
    if header_ctx && st.current_file->0.old_name.len() == 0 && is_old {
        let f = st.current_file->0;
        let name = header_filename(line, "--- "@, cfg.src_prefix);
        StateModel {
            current_file: Some(
                DiffFileModel { old_name: name, language: extension_of(name, f.language), ..f },
            ),
            ..st
        }
    } else if header_ctx && st.current_file->0.new_name.len() == 0 && is_new {
        let f = st.current_file->0;
        let name = header_filename(line, "+++ "@, cfg.dst_prefix);
        StateModel {
            current_file: Some(
                DiffFileModel { new_name: name, language: extension_of(name, f.language), ..f },
            ),
            ..st
        }
    } else {
        step_hunk_onward(lines, i, st, cfg)
    }
}

/// What one input line does to the parser's state, in the priority order
/// the parser applies: file starts, the too-big guard, file headers, hunk
/// headers, content lines, and git metadata.
pub open spec fn step(
    lines: Seq<Seq<char>>,
    i: int,
    st: StateModel,
    cfg: ParserConfigModel,
) -> StateModel {
    let line = lines[i];
    if line.len() == 0 || line[0] == '*' {
        st
    } else if starts_with(line, "diff --git"@) || starts_with(line, "diff --combined"@) {
        let st1 = start_file_st(st);
        let names = match gds_names(line) {
            Some(c) => (
                Some(normalize_name(c.0, cfg.dst_prefix)),
                Some(normalize_name(c.1, cfg.src_prefix)),
            ),
            None => (st1.possible_old_name, st1.possible_new_name),
        };
        StateModel {
            current_file: Some(DiffFileModel { is_git_diff: true, ..empty_file_model() }),
            possible_old_name: names.0,
            possible_new_name: names.1,
            ..st1
        }
    } else if starts_with(line, "Binary files"@) && (st.current_file is None
        || !st.current_file->0.is_git_diff) {
        let st1 = start_file_st(st);
        let names = match ubs_names(line) {
            Some(c) => (
                Some(normalize_name(c.0, cfg.dst_prefix)),
                Some(normalize_name(c.1, cfg.src_prefix)),
            ),
            None => (st1.possible_old_name, st1.possible_new_name),
        };
        StateModel {
            current_file: Some(DiffFileModel { is_binary: Some(true), ..empty_file_model() }),
            possible_old_name: names.0,
            possible_new_name: names.1,
            ..st1
        }
    } else {
        let fresh = step_fresh_cond(lines, i, st);
        let st1 = if fresh {
            start_file_st(st)
        } else {
            st
        };
        if st1.current_file is Some && st1.current_file->0.is_too_big == Some(true) {
            st1
        } else {
            let toobig = st1.current_file is Some && ((cfg.diff_max_changes is Some
                && st1.current_file->0.added_lines + st1.current_file->0.deleted_lines
                > cfg.diff_max_changes->0) || (cfg.diff_max_line_length is Some && utf8_len(line)
                > cfg.diff_max_line_length->0));
            if toobig {
                let f = st1.current_file->0;
                let f2 = DiffFileModel {
                    is_too_big: Some(true),
                    added_lines: 0,
                    deleted_lines: 0,
                    blocks: Seq::empty(),
                    ..f
                };
                let msg = match cfg.diff_too_big_message {
                    Some(m) => m,
                    None => "Diff too big to be displayed"@,
                };
                start_block_st(
                    StateModel { current_file: Some(f2), current_block: None, ..st1 },
                    msg,
                )
            } else {
                step_headers(lines, i, st1, cfg)
            }
        }
    }
}

/// The parser's state after its first `n` lines.
pub open spec fn run_to(
    lines: Seq<Seq<char>>,
    cfg: ParserConfigModel,
    n: int,
) -> StateModel
    decreases n,
    when n >= 0
{
    if n <= 0 {
        init_state()
    } else {
        step(lines, n - 1, run_to(lines, cfg, n - 1), cfg)
    }
}

/// The lines the parser scans: the input with the no-newline markers
/// removed and line endings normalized, split at every newline.
pub open spec fn input_lines(input: Seq<char>) -> Seq<Seq<char>> {
    split_lines(cr_to_lf(crlf_to_lf(remove_all(input, "\\ No newline at end of file"@))))
}

/// What `parse` returns on `input`: the files the state machine has
/// gathered once every line is consumed and the open hunk and file are
/// closed.
pub open spec fn parse_model(input: Seq<char>, cfg: ParserConfigModel) -> Seq<DiffFileModel> {
    let lines = input_lines(input);
    let st = run_to(lines, cfg, lines.len() as int);
    let (f1, b1) = save_block_p(st.current_file, st.current_block);
    save_file_p(st.files, f1, st.possible_old_name, st.possible_new_name)
}

/// Closes the open hunk into the open file.
fn do_save_block(f: Option<DiffFile>, b: Option<DiffBlock>) -> (r: (Option<DiffFile>, Option<
    DiffBlock,
>))
    ensures
        (r.0.deep_view(), r.1.deep_view()) == save_block_p(f.deep_view(), b.deep_view()),
{
    match b {
        None => (f, None),
        Some(bb) => match f {
            None => (None, None),
            Some(ff) => {
                let ghost blocks0 = ff.blocks.deep_view();
                let mut ff2 = ff;
                ff2.blocks.push(bb);
                proof {
                    let a = ff2.blocks.deep_view();
                    let bq = blocks0.push(bb@);
                    assert forall|k: int| 0 <= k < a.len() implies a[k] == bq[k] by {
                        if k < a.len() - 1 {
                            assert(ff2.blocks@[k] == ff.blocks@[k]);
                        } else {
                            assert(ff2.blocks@[k] == bb);
                        }
                    }
                    assert(a =~= bq);
                    assert((Some(ff2).deep_view(), None::<DiffBlock>.deep_view())
                        =~~= save_block_p(Some(ff).deep_view(), Some(bb).deep_view()));
                }
                (Some(ff2), None)
            },
        },
    }
}

/// Closes the open file into the output list.
fn do_save_file(
    files: Vec<DiffFile>,
    f: Option<DiffFile>,
    po: Option<String>,
    pn: Option<String>,
) -> (r: Vec<DiffFile>)
    ensures
        r.deep_view() == save_file_p(files.deep_view(), f.deep_view(), po.deep_view(), pn.deep_view()),
{
    match f {
        None => files,
        Some(f0) => {
            let ghost m0 = f0@;
            let mut f1 = f0;
            let mut po2 = po;
            if f1.old_name.as_str().is_empty() && po2.is_some() {
                match po2 {
                    Some(n) => {
                        f1.old_name = n;
                        po2 = None;
                    },
                    None => (),
                }
            }
            let mut f2 = f1;
            if f2.new_name.as_str().is_empty() && pn.is_some() {
                match pn {
                    Some(n) => {
                        f2.new_name = n;
                    },
                    None => (),
                }
            }
            if !f2.new_name.as_str().is_empty() {
                let ghost files0 = files.deep_view();
                let mut files2 = files;
                files2.push(f2);
                proof {
                    let a = files2.deep_view();
                    let bq = save_file_p(files0, Some(f0).deep_view(), po.deep_view(), pn.deep_view());
                    assert(bq =~~= files0.push(f2@));
                    assert forall|k: int| 0 <= k < a.len() implies a[k] == bq[k] by {
                        if k < a.len() - 1 {
                        } else {
                            assert(files2@[k] == f2);
                        }
                    }
                    assert(a =~= bq);
                }
                files2
            } else {
                proof {
                    assert(files.deep_view() =~~= save_file_p(
                        files.deep_view(),
                        Some(f0).deep_view(),
                        po.deep_view(),
                        pn.deep_view(),
                    ));
                }
                files
            }
        },
    }
}

/// Closes any open hunk and opens a fresh one on `line`.
fn do_start_block(
    f: Option<DiffFile>,
    b: Option<DiffBlock>,
    ol: Option<u32>,
    ol2: Option<u32>,
    nl: Option<u32>,
    line: &Vec<char>,
) -> (r: (Option<DiffFile>, Option<DiffBlock>, Option<u32>, Option<u32>, Option<u32>))
    ensures
        (r.0.deep_view(), r.1.deep_view(), r.2, r.3, r.4) == start_block_p(
            f.deep_view(),
            b.deep_view(),
            ol,
            ol2,
            nl,
            line@,
        ),
{
    let (f1, _b1) = do_save_block(f, b);
    let (f2, o, o2, n): (Option<DiffFile>, Option<u32>, Option<u32>, Option<u32>) = match f1 {
        Some(ff) => {
            match hunk_capture_chars(line) {
                Some(c) => {
                    let mut ff2 = ff;
                    ff2.is_combined = false;
                    (Some(ff2), c.0, None, c.1)
                },
                None => match combined_hunk_capture_chars(line) {
                    Some(c) => {
                        let mut ff2 = ff;
                        ff2.is_combined = true;
                        (Some(ff2), c.0, c.1, c.2)
                    },
                    None => {
                        let mut ff2 = ff;
                        ff2.is_combined = false;
                        (Some(ff2), Some(0), None, Some(0))
                    },
                },
            }
        },
        None => (None, ol, ol2, nl),
    };
    let blk = DiffBlock {
        old_start_line: match o {
            Some(v) => v,
            None => 0,
        },
        old_start_line2: o2,
        new_start_line: match n {
            Some(v) => v,
            None => 0,
        },
        header: string_of(line),
        lines: Vec::new(),
    };
    proof {
        assert(blk@.lines =~= Seq::<DiffLineModel>::empty());
        assert((f2.deep_view(), Some(blk).deep_view(), o, o2, n) =~~= start_block_p(
            f.deep_view(),
            b.deep_view(),
            ol,
            ol2,
            nl,
            line@,
        ));
    }
    (f2, Some(blk), o, o2, n)
}

/// Classifies a content line and appends it to the open hunk.
fn do_create_line(f: DiffFile, b: DiffBlock, ol: u32, nl: u32, line: &Vec<char>) -> (r: (
    DiffFile,
    DiffBlock,
    u32,
    u32,
))
    ensures
        (r.0@, r.1@, r.2, r.3) == create_line_p(f@, b@, ol, nl, line@),
{
    let added = if f.is_combined {
        starts_lit(line, "+ ") || starts_lit(line, " +") || starts_lit(line, "++")
    } else {
        starts_lit(line, "+")
    };
    let deleted = if f.is_combined {
        starts_lit(line, "- ") || starts_lit(line, " -") || starts_lit(line, "--")
    } else {
        starts_lit(line, "-")
    };
    let content = string_of(line);
    let mut f2 = f;
    let mut b2 = b;
    let ghost lines0 = b.lines.deep_view();
    let mut ol2 = ol;
    let mut nl2 = nl;
    let dl: DiffLine;
    if added {
        f2.added_lines = if f2.added_lines < u32::MAX {
            f2.added_lines + 1
        } else {
            f2.added_lines
        };
        dl = DiffLine {
            line_type: LineType::Insert,
            content,
            old_number: None,
            new_number: Some(nl),
        };
        nl2 = if nl < u32::MAX {
            nl + 1
        } else {
            nl
        };
    } else if deleted {
        f2.deleted_lines = if f2.deleted_lines < u32::MAX {
            f2.deleted_lines + 1
        } else {
            f2.deleted_lines
        };
        dl = DiffLine {
            line_type: LineType::Delete,
            content,
            old_number: Some(ol),
            new_number: None,
        };
        ol2 = if ol < u32::MAX {
            ol + 1
        } else {
            ol
        };
    } else {
        dl = DiffLine {
            line_type: LineType::Context,
            content,
            old_number: Some(ol),
            new_number: Some(nl),
        };
        ol2 = if ol < u32::MAX {
            ol + 1
        } else {
            ol
        };
        nl2 = if nl < u32::MAX {
            nl + 1
        } else {
            nl
        };
    }
    b2.lines.push(dl);
    proof {
        let a = b2.lines.deep_view();
        let bq = lines0.push(dl@);
        assert forall|k: int| 0 <= k < a.len() implies a[k] == bq[k] by {
            if k < a.len() - 1 {
                assert(b2.lines@[k] == b.lines@[k]);
            } else {
                assert(b2.lines@[k] == dl);
            }
        }
        assert(a =~= bq);
        assert((f2@, b2@, ol2, nl2) =~~= create_line_p(f@, b@, ol, nl, line@));
    }
    (f2, b2, ol2, nl2)
}

/// Applies one git metadata line to the open file; the second result
/// names the header of a hunk to open, for the binary markers.
#[verifier::rlimit(100)]
fn do_metadata(f: DiffFile, line: &Vec<char>, dneh: bool, config: &DiffParserConfig) -> (r: (
    DiffFile,
    Option<Vec<char>>,
))
    ensures
        (r.0@, r.1.deep_view()) == metadata_p(f@, line@, dneh, config@),
{
    let mut f2 = f;
    if let Some(d) = mode_capture_chars(line, &chars_of("old mode ")) {
        f2.old_mode = Some(FileMode::Single(string_of(&d)));
        proof {
            assert((f2@, None::<Vec<char>>.deep_view()) =~~= metadata_p(f@, line@, dneh, config@));
        }
        return (f2, None);
    }
    if let Some(d) = mode_capture_chars(line, &chars_of("new mode ")) {
        f2.new_mode = Some(string_of(&d));
        proof {
            assert((f2@, None::<Vec<char>>.deep_view()) =~~= metadata_p(f@, line@, dneh, config@));
        }
        return (f2, None);
    }
    if let Some(d) = mode_capture_chars(line, &chars_of("deleted file mode ")) {
        f2.deleted_file_mode = Some(string_of(&d));
        f2.is_deleted = Some(true);
        proof {
            assert((f2@, None::<Vec<char>>.deep_view()) =~~= metadata_p(f@, line@, dneh, config@));
        }
        return (f2, None);
    }
    if let Some(d) = mode_capture_chars(line, &chars_of("new file mode ")) {
        f2.new_file_mode = Some(string_of(&d));
        f2.is_new = Some(true);
        proof {
            assert((f2@, None::<Vec<char>>.deep_view()) =~~= metadata_p(f@, line@, dneh, config@));
        }
        return (f2, None);
    }
    if let Some(d) = name_capture_chars(line, &chars_of("copy from ")) {
        if dneh {
            f2.old_name = string_of(&d);
        }
        f2.is_copy = Some(true);
        proof {
            assert((f2@, None::<Vec<char>>.deep_view()) =~~= metadata_p(f@, line@, dneh, config@));
        }
        return (f2, None);
    }
    if let Some(d) = name_capture_chars(line, &chars_of("copy to ")) {
        if dneh {
            f2.new_name = string_of(&d);
        }
        f2.is_copy = Some(true);
        proof {
            assert((f2@, None::<Vec<char>>.deep_view()) =~~= metadata_p(f@, line@, dneh, config@));
        }
        return (f2, None);
    }
    if let Some(d) = name_capture_chars(line, &chars_of("rename from ")) {
        if dneh {
            f2.old_name = string_of(&d);
        }
        f2.is_rename = Some(true);
        proof {
            assert((f2@, None::<Vec<char>>.deep_view()) =~~= metadata_p(f@, line@, dneh, config@));
        }
        return (f2, None);
    }
    if let Some(d) = name_capture_chars(line, &chars_of("rename to ")) {
        if dneh {
            f2.new_name = string_of(&d);
        }
        f2.is_rename = Some(true);
        proof {
            assert((f2@, None::<Vec<char>>.deep_view()) =~~= metadata_p(f@, line@, dneh, config@));
        }
        return (f2, None);
    }
    if let Some(c) = bf_names_chars(line) {
        proof {
            assert(c.0.deep_view() =~= c.0@);
            assert(c.1.deep_view() =~= c.1@);
        }
        f2.is_binary = Some(true);
        let n1 = normalize_name_chars(&c.0, &config.src_prefix);
        let n2 = normalize_name_chars(&c.1, &config.dst_prefix);
        f2.old_name = string_of(&n1);
        f2.new_name = string_of(&n2);
        let h = chars_of("Binary file");
        proof {
            assert(h.deep_view() =~= "Binary file"@);
            assert((f2@, Some(h).deep_view()) =~~= metadata_p(f@, line@, dneh, config@));
        }
        return (f2, Some(h));
    }
    if starts_lit(line, "GIT binary patch") {
        f2.is_binary = Some(true);
        let h = vec_range(line, 0, line.len());
        proof {
            assert(h@ =~= line@);
            assert((f2@, Some(h).deep_view()) =~~= metadata_p(f@, line@, dneh, config@));
        }
        return (f2, Some(h));
    }
    if let Some(v) = pct_capture_chars(line, &chars_of("similarity index ")) {
        f2.unchanged_percentage = v;
        proof {
            assert((f2@, None::<Vec<char>>.deep_view()) =~~= metadata_p(f@, line@, dneh, config@));
        }
        return (f2, None);
    }
    if let Some(v) = pct_capture_chars(line, &chars_of("dissimilarity index ")) {
        f2.changed_percentage = v;
        proof {
            assert((f2@, None::<Vec<char>>.deep_view()) =~~= metadata_p(f@, line@, dneh, config@));
        }
        return (f2, None);
    }
    if let Some(c) = index_capture_chars(line) {
        f2.checksum_before = Some(Checksum::Single(string_of(&c.0)));
        f2.checksum_after = Some(string_of(&c.1));
        f2.mode = match c.2 {
            Some(m) => Some(string_of(&m)),
            None => None,
        };
        proof {
            assert((f2@, None::<Vec<char>>.deep_view()) =~~= metadata_p(f@, line@, dneh, config@));
        }
        return (f2, None);
    }
    if let Some(c) = combined_index_capture_chars(line) {
        let mut cs: Vec<String> = Vec::new();
        cs.push(string_of(&c.1));
        cs.push(string_of(&c.2));
        f2.checksum_before = Some(Checksum::Multiple(cs));
        f2.checksum_after = Some(string_of(&c.0));
        proof {
            assert((f2@, None::<Vec<char>>.deep_view()) =~~= metadata_p(f@, line@, dneh, config@));
        }
        return (f2, None);
    }
    if let Some(c) = combined_mode_capture_chars(line) {
        let mut ms: Vec<String> = Vec::new();
        ms.push(string_of(&c.1));
        ms.push(string_of(&c.2));
        f2.old_mode = Some(FileMode::Multiple(ms));
        f2.new_mode = Some(string_of(&c.0));
        proof {
            assert((f2@, None::<Vec<char>>.deep_view()) =~~= metadata_p(f@, line@, dneh, config@));
        }
        return (f2, None);
    }
    proof {
        assert((f2@, None::<Vec<char>>.deep_view()) =~~= metadata_p(f@, line@, dneh, config@));
    }
    (f2, None)
}

/// The parser state the locals of `parse` stand for.
pub open spec fn whole_state(
    files: Seq<DiffFileModel>,
    cf: Option<DiffFileModel>,
    cb: Option<DiffBlockModel>,
    ol: Option<u32>,
    ol2: Option<u32>,
    nl: Option<u32>,
    po: Option<Seq<char>>,
    pn: Option<Seq<char>>,
) -> StateModel {
    StateModel {
        files: files,
        current_file: cf,
        current_block: cb,
        old_line: ol,
        old_line2: ol2,
        new_line: nl,
        possible_old_name: po,
        possible_new_name: pn,
    }
}

/// Parses unified diff text into a list of file records.  The input may
/// mix `\n`, `\r\n` and `\r` line endings; malformed constructs never
/// fail, they degrade into the nearest sensible reading.
#[verifier::rlimit(100)]
pub fn parse(diff_input: &str, config: &DiffParserConfig) -> (r: Vec<DiffFile>)
    ensures
        r.deep_view() == parse_model(diff_input@, config@),
{
    let cs = chars_of(diff_input);
    let marker = chars_of("\\ No newline at end of file");
    proof {
        reveal_strlit("\\ No newline at end of file");
    }
    let cleaned = remove_all_chars(&cs, &marker);
    let normd = normalize_newlines(&cleaned);
    let lines = split_lines_chars(&normd);
    let ghost lm = input_lines(diff_input@);
    proof {
        assert(lines.deep_view() == lm);
    }
    let mut files: Vec<DiffFile> = Vec::new();
    let mut current_file: Option<DiffFile> = None;
    let mut current_block: Option<DiffBlock> = None;
    let mut old_line: Option<u32> = None;
    let mut old_line2: Option<u32> = None;
    let mut new_line: Option<u32> = None;
    let mut possible_old: Option<String> = None;
    let mut possible_new: Option<String> = None;
    proof {
        assert(whole_state(
            files.deep_view(),
            current_file.deep_view(),
            current_block.deep_view(),
            old_line,
            old_line2,
            new_line,
            possible_old.deep_view(),
            possible_new.deep_view(),
        ) =~~= run_to(lm, config@, 0));
    }
    let mut i: usize = 0;
    while i < lines.len()
        invariant
            i <= lines@.len(),
            lm == lines.deep_view(),
            whole_state(
                files.deep_view(),
                current_file.deep_view(),
                current_block.deep_view(),
                old_line,
                old_line2,
                new_line,
                possible_old.deep_view(),
                possible_new.deep_view(),
            ) == run_to(lm, config@, i as int),
        decreases lines@.len() - i,
    {
        let ghost st0 = run_to(lm, config@, i as int);
        let line = &lines[i];
        proof {
            assert(lines@[i as int]@ =~= lm[i as int]);
            if i > 0 {
                assert(lines@[i - 1]@ =~= lm[i - 1]);
            }
            if i + 1 < lines.len() {
                assert(lines@[i + 1]@ =~= lm[i + 1]);
            }
            if i + 2 < lines.len() {
                assert(lines@[i + 2]@ =~= lm[i + 2]);
            }
        }
        if line.len() == 0 || line[0] == '*' {
            proof {
                assert(whole_state(
                    files.deep_view(),
                    current_file.deep_view(),
                    current_block.deep_view(),
                    old_line,
                    old_line2,
                    new_line,
                    possible_old.deep_view(),
                    possible_new.deep_view(),
                ) == step(lm, i as int, st0, config@));
            }
        } else if starts_lit(line, "diff --git") || starts_lit(line, "diff --combined") {
            let (fa, ba) = do_save_block(current_file, current_block);
            files = do_save_file(files, fa, possible_old, possible_new);
            current_block = ba;
            possible_old = None;
            possible_new = None;
            match gds_names_chars(line) {
                Some(c) => {
                    proof {
                        assert(c.0.deep_view() =~= c.0@);
                        assert(c.1.deep_view() =~= c.1@);
                    }
                    let n1 = normalize_name_chars(&c.0, &config.dst_prefix);
                    let n2 = normalize_name_chars(&c.1, &config.src_prefix);
                    possible_old = Some(string_of(&n1));
                    possible_new = Some(string_of(&n2));
                },
                None => {},
            }
            let mut nf = DiffFile::empty();
            nf.is_git_diff = true;
            current_file = Some(nf);
            proof {
                assert(whole_state(
                    files.deep_view(),
                    current_file.deep_view(),
                    current_block.deep_view(),
                    old_line,
                    old_line2,
                    new_line,
                    possible_old.deep_view(),
                    possible_new.deep_view(),
                ) =~~= step(lm, i as int, st0, config@));
            }
        } else if starts_lit(line, "Binary files") && (match &current_file {
            None => true,
            Some(f) => !f.is_git_diff,
        }) {
            let (fa, ba) = do_save_block(current_file, current_block);
            files = do_save_file(files, fa, possible_old, possible_new);
            current_block = ba;
            possible_old = None;
            possible_new = None;
            match ubs_names_chars(line) {
                Some(c) => {
                    proof {
                        assert(c.0.deep_view() =~= c.0@);
                        assert(c.1.deep_view() =~= c.1@);
                    }
                    let n1 = normalize_name_chars(&c.0, &config.dst_prefix);
                    let n2 = normalize_name_chars(&c.1, &config.src_prefix);
                    possible_old = Some(string_of(&n1));
                    possible_new = Some(string_of(&n2));
                },
                None => {},
            }
            let mut nf = DiffFile::empty();
            nf.is_binary = Some(true);
            current_file = Some(nf);
            proof {
                assert(whole_state(
                    files.deep_view(),
                    current_file.deep_view(),
                    current_block.deep_view(),
                    old_line,
                    old_line2,
                    new_line,
                    possible_old.deep_view(),
                    possible_new.deep_view(),
                ) =~~= step(lm, i as int, st0, config@));
            }
        } else {
            let fresh = match &current_file {
                None => true,
                Some(f) => !f.is_git_diff && starts_lit(line, "--- ") && i + 1 < lines.len()
                    && starts_lit(&lines[i + 1], "+++ ") && i + 2 < lines.len() && starts_lit(
                    &lines[i + 2],
                    "@@",
                ),
            };
            if fresh {
                let (fa, ba) = do_save_block(current_file, current_block);
                files = do_save_file(files, fa, possible_old, possible_new);
                current_block = ba;
                possible_old = None;
                possible_new = None;
                current_file = Some(DiffFile::empty());
            }
            let ghost st1 = if step_fresh_cond(lm, i as int, st0) {
                start_file_st(st0)
            } else {
                st0
            };
            proof {
                assert(whole_state(
                    files.deep_view(),
                    current_file.deep_view(),
                    current_block.deep_view(),
                    old_line,
                    old_line2,
                    new_line,
                    possible_old.deep_view(),
                    possible_new.deep_view(),
                ) =~~= st1);
            }
            let big_already = match &current_file {
                Some(f) => match f.is_too_big {
                    Some(true) => true,
                    _ => false,
                },
                None => false,
            };
            if big_already {
                proof {
                    assert(whole_state(
                        files.deep_view(),
                        current_file.deep_view(),
                        current_block.deep_view(),
                        old_line,
                        old_line2,
                        new_line,
                        possible_old.deep_view(),
                        possible_new.deep_view(),
                    ) == step(lm, i as int, st0, config@));
                }
            } else {
                let toobig = match &current_file {
                    Some(f) => {
                        let many = match config.diff_max_changes {
                            Some(mx) => (f.added_lines as u64) + (f.deleted_lines as u64) > (
                            mx as u64),
                            None => false,
                        };
                        let long = match config.diff_max_line_length {
                            Some(mx) => utf8_len_chars(line) > (mx as u128),
                            None => false,
                        };
                        many || long
                    },
                    None => false,
                };
                if toobig {
                    match current_file {
                        Some(mut f) => {
                            f.is_too_big = Some(true);
                            f.added_lines = 0;
                            f.deleted_lines = 0;
                            f.blocks = Vec::new();
                            proof {
                                assert(f.blocks.deep_view() =~= Seq::<DiffBlockModel>::empty());
                            }
                            current_file = Some(f);
                        },
                        None => {
                            current_file = None;
                        },
                    }
                    current_block = None;
                    let msg: Vec<char> = match &config.diff_too_big_message {
                        Some(m) => chars_of(m.as_str()),
                        None => chars_of("Diff too big to be displayed"),
                    };
                    let q = do_start_block(
                        current_file,
                        current_block,
                        old_line,
                        old_line2,
                        new_line,
                        &msg,
                    );
                    current_file = q.0;
                    current_block = q.1;
                    old_line = q.2;
                    old_line2 = q.3;
                    new_line = q.4;
                    proof {
                        assert(whole_state(
                            files.deep_view(),
                            current_file.deep_view(),
                            current_block.deep_view(),
                            old_line,
                            old_line2,
                            new_line,
                            possible_old.deep_view(),
                            possible_new.deep_view(),
                        ) =~~= step(lm, i as int, st0, config@));
                    }
                } else {
                    let is_old = starts_lit(line, "--- ");
                    let is_new = starts_lit(line, "+++ ");
                    let prev_is_old = i > 0 && starts_lit(&lines[i - 1], "--- ");
                    let next_is_new = i + 1 < lines.len() && starts_lit(&lines[i + 1], "+++ ");
                    let header_ctx = ((is_old && next_is_new) || (is_new && prev_is_old))
                        && current_file.is_some();
                    let mut handled = false;
                    if header_ctx {
                        match current_file {
                            Some(mut f) => {
                                if f.old_name.as_str().is_empty() && is_old {
                                    let name = header_filename_chars(
                                        line,
                                        &chars_of("--- "),
                                        &config.src_prefix,
                                    );
                                    let lang = chars_of(f.language.as_str());
                                    let ext = extension_chars(&name, &lang);
                                    f.old_name = string_of(&name);
                                    f.language = string_of(&ext);
                                    handled = true;
                                } else if f.new_name.as_str().is_empty() && is_new {
                                    let name = header_filename_chars(
                                        line,
                                        &chars_of("+++ "),
                                        &config.dst_prefix,
                                    );
                                    let lang = chars_of(f.language.as_str());
                                    let ext = extension_chars(&name, &lang);
                                    f.new_name = string_of(&name);
                                    f.language = string_of(&ext);
                                    handled = true;
                                }
                                current_file = Some(f);
                            },
                            None => {
                                current_file = None;
                            },
                        }
                    }
                    if handled {
                        proof {
                            assert(whole_state(
                                files.deep_view(),
                                current_file.deep_view(),
                                current_block.deep_view(),
                                old_line,
                                old_line2,
                                new_line,
                                possible_old.deep_view(),
                                possible_new.deep_view(),
                            ) =~~= step(lm, i as int, st0, config@));
                        }
                    } else {
                        let can_hunk = match &current_file {
                            Some(f) => starts_lit(line, "@@") || (f.is_git_diff
                                && !f.old_name.as_str().is_empty()
                                && !f.new_name.as_str().is_empty() && current_block.is_none()),
                            None => false,
                        };
                        if can_hunk {
                            let q = do_start_block(
                                current_file,
                                current_block,
                                old_line,
                                old_line2,
                                new_line,
                                line,
                            );
                            current_file = q.0;
                            current_block = q.1;
                            old_line = q.2;
                            old_line2 = q.3;
                            new_line = q.4;
                            proof {
                                assert(whole_state(
                                    files.deep_view(),
                                    current_file.deep_view(),
                                    current_block.deep_view(),
                                    old_line,
                                    old_line2,
                                    new_line,
                                    possible_old.deep_view(),
                                    possible_new.deep_view(),
                                ) =~~= start_block_st(st1, lm[i as int]));
                                assert(step_hunk_onward(lm, i as int, st1, config@)
                                    == start_block_st(st1, lm[i as int]));
                            }
                        } else if current_block.is_some() && (line[0] == '+' || line[0] == '-'
                            || line[0] == ' ') {
                            match (current_file, current_block, old_line, new_line) {
                                (Some(f), Some(b), Some(olv), Some(nlv)) => {
                                    let q = do_create_line(f, b, olv, nlv, line);
                                    current_file = Some(q.0);
                                    current_block = Some(q.1);
                                    old_line = Some(q.2);
                                    new_line = Some(q.3);
                                },
                                (cf, cb, olv, nlv) => {
                                    current_file = cf;
                                    current_block = cb;
                                    old_line = olv;
                                    new_line = nlv;
                                },
                            }
                            proof {
                                assert(whole_state(
                                    files.deep_view(),
                                    current_file.deep_view(),
                                    current_block.deep_view(),
                                    old_line,
                                    old_line2,
                                    new_line,
                                    possible_old.deep_view(),
                                    possible_new.deep_view(),
                                ) =~~= step_hunk_onward(lm, i as int, st1, config@));
                            }
                        } else {
                            match current_file {
                                None => {
                                    current_file = None;
                                },
                                Some(f) => {
                                    let dneh = !check_hunk_header_ahead(&lines, i);
                                    let m = do_metadata(f, line, dneh, config);
                                    current_file = Some(m.0);
                                    let ghost st2 = StateModel {
                                        current_file: Some(m.0@),
                                        ..st1
                                    };
                                    match m.1 {
                                        Some(h) => {
                                            let q = do_start_block(
                                                current_file,
                                                current_block,
                                                old_line,
                                                old_line2,
                                                new_line,
                                                &h,
                                            );
                                            current_file = q.0;
                                            current_block = q.1;
                                            old_line = q.2;
                                            old_line2 = q.3;
                                            new_line = q.4;
                                            proof {
                                                assert(h.deep_view() =~= h@);
                                                assert(whole_state(
                                                    files.deep_view(),
                                                    current_file.deep_view(),
                                                    current_block.deep_view(),
                                                    old_line,
                                                    old_line2,
                                                    new_line,
                                                    possible_old.deep_view(),
                                                    possible_new.deep_view(),
                                                ) =~~= start_block_st(st2, h@));
                                                assert(step_hunk_onward(lm, i as int, st1, config@)
                                                    == start_block_st(st2, h@));
                                            }
                                        },
                                        None => {
                                            proof {
                                                assert(whole_state(
                                                    files.deep_view(),
                                                    current_file.deep_view(),
                                                    current_block.deep_view(),
                                                    old_line,
                                                    old_line2,
                                                    new_line,
                                                    possible_old.deep_view(),
                                                    possible_new.deep_view(),
                                                ) =~~= step_hunk_onward(lm, i as int, st1, config@));
                                            }
                                        },
                                    }
                                },
                            }
                        }
                        proof {
                            assert(whole_state(
                                files.deep_view(),
                                current_file.deep_view(),
                                current_block.deep_view(),
                                old_line,
                                old_line2,
                                new_line,
                                possible_old.deep_view(),
                                possible_new.deep_view(),
                            ) =~~= step(lm, i as int, st0, config@));
                        }
                    }
                }
            }
        }
        proof {
            assert(run_to(lm, config@, i + 1) == step(lm, i as int, st0, config@));
        }
        i = i + 1;
    }
    let (f1, _b1) = do_save_block(current_file, current_block);
    let out = do_save_file(files, f1, possible_old, possible_new);
    proof {
        assert(lm.len() == lines@.len());
        assert(out.deep_view() == parse_model(diff_input@, config@));
    }
    out
}

/// The condition under which the parser opens a fresh file record for a
/// line that is no explicit file start.
pub open spec fn step_fresh_cond(lines: Seq<Seq<char>>, i: int, st: StateModel) -> bool {
    st.current_file is None || (!st.current_file->0.is_git_diff && starts_with(
        lines[i],
        "--- "@,
    ) && i + 1 < lines.len() && starts_with(lines[i + 1], "+++ "@) && i + 2 < lines.len()
        && starts_with(lines[i + 2], "@@"@))
}

proof fn lemma_skip_spaces_prefix(s: Seq<char>, t: int, k: int)
    requires
        0 <= k <= t <= s.len(),
        skip_spaces(s.take(t), k) < t,
    ensures
        skip_spaces(s, k) == skip_spaces(s.take(t), k),
    decreases t - k,
{
    let r = s.take(t);
    if k < t && is_space(r[k]) {
        lemma_skip_spaces_prefix(s, t, k + 1);
    }
}

proof fn lemma_digits_end_prefix(s: Seq<char>, t: int, k: int)
    requires
        0 <= k <= t <= s.len(),
        digits_end(s.take(t), k) < t,
    ensures
        digits_end(s, k) == digits_end(s.take(t), k),
    decreases t - k,
{
    let r = s.take(t);
    if k < t && is_digit(r[k]) {
        lemma_digits_end_prefix(s, t, k + 1);
    }
}

proof fn lemma_date_prefix(s: Seq<char>, t: int, j: int)
    requires
        0 <= t <= s.len(),
        date_at(s.take(t), j),
    ensures
        date_at(s, j),
{
    let r = s.take(t);
    assert(j + 19 <= t);
    assert forall|k: int| j <= k < j + 19 implies s[k] == r[k] by {}
    if j + 19 < r.len() && r[j + 19] == '.' && digits_end(r, j + 20) > j + 20 {
        let de = digits_end(r, j + 20);
        assert(zone_at(r, de));
        assert(de + 6 <= t);
        lemma_scan_bounds(r, j + 20);
        lemma_digits_end_prefix(s, t, j + 20);
        assert(digits_end(s, j + 20) == de);
        assert forall|k: int| de <= k < de + 6 implies s[k] == r[k] by {}
        assert forall|k: int| de + 2 <= k < de + 6 implies is_digit(#[trigger] s[k]) by {
            assert(s[k] == r[k]);
            assert(is_digit(r[k]));
        }
        assert(zone_at(s, de));
        assert(date_at(s, j));
    } else {
        assert(zone_at(r, j + 19));
        assert(j + 25 <= t);
        assert(r[j + 19] == ' ');
        assert(s[j + 19] == ' ');
        assert(!(s[j + 19] == '.'));
        assert forall|k: int| j + 19 <= k < j + 25 implies s[k] == r[k] by {}
        assert forall|k: int| j + 21 <= k < j + 25 implies is_digit(#[trigger] s[k]) by {
            assert(s[k] == r[k]);
            assert(is_digit(r[k]));
        }
        assert(zone_at(s, j + 19));
        assert(date_at(s, j));
    }
}

proof fn lemma_ts_at_prefix(s: Seq<char>, t: int, k: int)
    requires
        0 <= t <= s.len(),
        ts_at(s.take(t), k),
    ensures
        ts_at(s, k),
{
    let r = s.take(t);
    let j = skip_spaces(r, k);
    lemma_scan_bounds(r, k);
    assert(date_at(r, j));
    assert(j + 19 <= t);
    lemma_skip_spaces_prefix(s, t, k);
    lemma_date_prefix(s, t, j);
}

/// Law: cutting a timestamp suffix off is idempotent — a second pass over
/// an already-stripped name changes nothing.
pub proof fn lemma_strip_timestamp_idempotent(s: Seq<char>)
    ensures
        strip_timestamp(strip_timestamp(s)) == strip_timestamp(s),
{
    let t = ts_scan(s, 0);
    lemma_ts_scan(s, 0);
    let r = s.take(t);
    lemma_ts_scan(r, 0);
    if ts_scan(r, 0) < r.len() {
        lemma_ts_at_prefix(s, t, ts_scan(r, 0));
        assert(false);
    }
    assert(r.take(ts_scan(r, 0)) =~= r);
}

proof fn lemma_strip_prefix_no_match(s: Seq<char>, ps: Seq<Seq<char>>)
    requires
        forall|k: int| 0 <= k < ps.len() ==> !starts_with(s, #[trigger] ps[k]),
    ensures
        strip_prefix_first(s, ps) == s,
    decreases ps.len(),
{
    if ps.len() > 0 {
        assert(!starts_with(s, ps[0]));
        assert(forall|k: int|
            0 <= k < ps.drop_first().len() ==> !starts_with(s, #[trigger] ps.drop_first()[k]));
        lemma_strip_prefix_no_match(s, ps.drop_first());
    }
}

/// Law: stripping the known path prefixes and a timestamp suffix is
/// idempotent, for every name whose once-stripped form no longer begins
/// with a known prefix: a second normalization pass is a no-op.
pub proof fn lemma_normalize_idempotent(s: Seq<char>, extra: Option<Seq<char>>)
    requires
        forall|k: int|
            0 <= k < prefix_list(extra).len() ==> !starts_with(
                strip_timestamp(strip_prefix_first(s, prefix_list(extra))),
                #[trigger] prefix_list(extra)[k],
            ),
    ensures
        strip_timestamp(
            strip_prefix_first(
                strip_timestamp(strip_prefix_first(s, prefix_list(extra))),
                prefix_list(extra),
            ),
        ) == strip_timestamp(strip_prefix_first(s, prefix_list(extra))),
{
    let ps = prefix_list(extra);
    let n1 = strip_timestamp(strip_prefix_first(s, ps));
    lemma_strip_prefix_no_match(n1, ps);
    lemma_strip_timestamp_idempotent(strip_prefix_first(s, ps));
}

/// The file extension a path suggests, or the previous language where
/// the path has no dot.
pub fn get_extension(filename: &str, language: &str) -> (r: String)
    ensures
        r@ == extension_of(filename@, language@),
{
    let f = chars_of(filename);
    let l = chars_of(language);
    let e = extension_chars(&f, &l);
    string_of(&e)
}

/// The escaped form of a character that is special in a pattern.
pub open spec fn regexp_escape_char(c: char) -> Seq<char> {
    if c == '-' || c == '[' || c == ']' || c == '/' || c == '{' || c == '}' || c == '(' || c == ')'
        || c == '*' || c == '+' || c == '?' || c == '.' || c == '\u{5c}' || c == '^' || c == '$'
        || c == '|' {
        seq!['\u{5c}', c]
    } else {
        seq![c]
    }
}

/// `s` with every pattern-special character preceded by a backslash.
pub open spec fn regexp_escaped(s: Seq<char>) -> Seq<char>
    decreases s.len(),
{
    if s.len() == 0 {
        Seq::empty()
    } else {
        regexp_escaped(s.drop_last()) + regexp_escape_char(s.last())
    }
}

/// Escapes the characters that are special in a pattern.
pub fn escape_for_regexp(s: &str) -> (r: String)
    ensures
        r@ == regexp_escaped(s@),
{
    let cs = chars_of(s);
    let mut out: Vec<char> = Vec::new();
    let mut i: usize = 0;
    proof {
        assert(cs@.take(0) =~= Seq::<char>::empty());
    }
    while i < cs.len()
        invariant
            i <= cs@.len(),
            out@ == regexp_escaped(cs@.take(i as int)),
        decreases cs@.len() - i,
    {
        let c = cs[i];
        proof {
            assert(cs@.take(i + 1).drop_last() =~= cs@.take(i as int));
            assert(cs@.take(i + 1).last() == cs@[i as int]);
        }
        if c == '-' || c == '[' || c == ']' || c == '/' || c == '{' || c == '}' || c == '(' || c
            == ')' || c == '*' || c == '+' || c == '?' || c == '.' || c == '\u{5c}' || c == '^'
            || c == '$' || c == '|' {
            out.push('\u{5c}');
            out.push(c);
            proof {
                assert(out@ =~= regexp_escaped(cs@.take(i + 1)));
            }
        } else {
            out.push(c);
            proof {
                assert(out@ =~= regexp_escaped(cs@.take(i + 1)));
            }
        }
        i = i + 1;
    }
    proof {
        assert(cs@.take(cs@.len() as int) =~= cs@);
    }
    string_of(&out)
}

/// Decides `hunk_header_ahead` from outside the crate: true when a
/// header triplet follows before the next file boundary.
pub fn exist_hunk_header(lines: &Vec<Vec<char>>, start_idx: usize) -> (r: bool)
    ensures
        r == hunk_header_ahead(lines.deep_view(), start_idx as int),
{
    check_hunk_header_ahead(lines, start_idx)
}

/// True when `l` may stand inside a hunk: empty (skipped), or marked as
/// an insertion, a deletion or context.
pub open spec fn is_content_line(l: Seq<char>) -> bool {
    l.len() == 0 || l[0] == '+' || l[0] == '-' || l[0] == ' '
}

/// The number of lines among the first `n` that a single-hunk diff marks
/// with `+` or `-`, its header triplet excluded.
pub open spec fn plus_minus_count(lines: Seq<Seq<char>>, n: int) -> int
    decreases n,
    when n >= 3
{
    if n <= 3 {
        0
    } else {
        plus_minus_count(lines, n - 1) + (if lines[n - 1].len() > 0 && (lines[n - 1][0] == '+'
            || lines[n - 1][0] == '-') {
            1int
        } else {
            0int
        })
    }
}

proof fn lemma_pm_nonneg(lines: Seq<Seq<char>>, n: int)
    requires
        n >= 3,
    ensures
        plus_minus_count(lines, n) >= 0,
    decreases n,
{
    if n > 3 {
        lemma_pm_nonneg(lines, n - 1);
    }
}

proof fn lemma_pm_count_bounds(lines: Seq<Seq<char>>, m: int, n: int)
    requires
        3 <= m <= n,
    ensures
        0 <= plus_minus_count(lines, m) <= plus_minus_count(lines, n),
    decreases n - m,
{
    lemma_pm_nonneg(lines, m);
    if n > m {
        lemma_pm_count_bounds(lines, m, n - 1);
    }
}

/// The facts `lemma_p1_run` carries through a single-hunk diff.
pub open spec fn p1_inv(
    lines: Seq<Seq<char>>,
    cfg: ParserConfigModel,
    st: StateModel,
    n: int,
) -> bool {
    &&& st.files =~= Seq::<DiffFileModel>::empty()
    &&& st.possible_old_name is None
    &&& st.possible_new_name is None
    &&& st.current_file is Some
    &&& !st.current_file->0.is_git_diff
    &&& !st.current_file->0.is_combined
    &&& st.current_file->0.is_too_big is None
    &&& st.current_file->0.old_name == header_filename(lines[0], "--- "@, cfg.src_prefix)
    &&& st.current_file->0.new_name == header_filename(lines[1], "+++ "@, cfg.dst_prefix)
    &&& st.current_file->0.blocks =~= Seq::<DiffBlockModel>::empty()
    &&& st.current_file->0.added_lines + st.current_file->0.deleted_lines == plus_minus_count(
        lines,
        n,
    )
    &&& st.current_block is Some
    &&& st.old_line is Some
    &&& st.new_line is Some
}

/// True when the line sequence is a well-formed single-file unified diff
/// with one hunk, under a configuration without size limits: a `--- ` /
/// `+++ ` header pair carrying non-empty names, one well-formed hunk
/// header, and only content lines after it.
pub open spec fn single_hunk_diff(lines: Seq<Seq<char>>, cfg: ParserConfigModel) -> bool {
    &&& cfg.diff_max_changes is None
    &&& cfg.diff_max_line_length is None
    &&& lines.len() >= 3
    &&& starts_with(lines[0], "--- "@)
    &&& starts_with(lines[1], "+++ "@)
    &&& header_filename(lines[0], "--- "@, cfg.src_prefix).len() > 0
    &&& header_filename(lines[1], "+++ "@, cfg.dst_prefix).len() > 0
    &&& (match hunk_capture(lines[2]) {
        Some(c) => c.0 is Some && c.1 is Some,
        None => false,
    })
    &&& (forall|i: int| 3 <= i < lines.len() ==> is_content_line(#[trigger] lines[i]))
    &&& plus_minus_count(lines, lines.len() as int) < u32::MAX
}

proof fn lemma_not_prefix_by_first(l: Seq<char>, p: Seq<char>, c: char)
    requires
        l.len() > 0,
        l[0] == c,
        p.len() > 0,
        p[0] != c,
    ensures
        !starts_with(l, p),
{
    if starts_with(l, p) {
        assert(l.subrange(0, p.len() as int)[0] == l[0]);
    }
}

/// The branch facts one content or header line never trips: it is no
/// file start and no binary marker.
proof fn lemma_line_starts(l: Seq<char>, c: char)
    requires
        l.len() > 0,
        l[0] == c,
        c == '+' || c == '-' || c == ' ' || c == '@',
    ensures
        !starts_with(l, "diff --git"@),
        !starts_with(l, "diff --combined"@),
        !starts_with(l, "Binary files"@),
        c != '@' ==> !starts_with(l, "@@"@),
        c != '-' ==> !starts_with(l, "--- "@),
        c != '+' ==> !starts_with(l, "+++ "@),
{
    reveal_strlit("diff --git");
    reveal_strlit("diff --combined");
    reveal_strlit("Binary files");
    reveal_strlit("@@");
    reveal_strlit("--- ");
    reveal_strlit("+++ ");
    lemma_not_prefix_by_first(l, "diff --git"@, c);
    lemma_not_prefix_by_first(l, "diff --combined"@, c);
    lemma_not_prefix_by_first(l, "Binary files"@, c);
    if c != '@' {
        lemma_not_prefix_by_first(l, "@@"@, c);
    }
    if c != '-' {
        lemma_not_prefix_by_first(l, "--- "@, c);
    }
    if c != '+' {
        lemma_not_prefix_by_first(l, "+++ "@, c);
    }
}

/// The parser's state after the header triplet and `n - 3` content lines
/// of a single-hunk diff: one open file carrying the header names, one
/// open hunk, and the `+`/`-` lines seen so far counted exactly.
proof fn lemma_p1_run(lines: Seq<Seq<char>>, cfg: ParserConfigModel, n: int)
    requires
        single_hunk_diff(lines, cfg),
        3 <= n <= lines.len(),
    ensures
        p1_inv(lines, cfg, run_to(lines, cfg, n), n),
    decreases n,
{
    if n == 3 {
        lemma_p1_base(lines, cfg);
    } else {
        lemma_p1_run(lines, cfg, n - 1);
        lemma_p1_step(lines, cfg, n);
    }
}

#[verifier::rlimit(100)]
#[verifier::spinoff_prover]
proof fn lemma_p1_base(lines: Seq<Seq<char>>, cfg: ParserConfigModel)
    requires
        single_hunk_diff(lines, cfg),
    ensures
        p1_inv(lines, cfg, run_to(lines, cfg, 3), 3),
{
    reveal_strlit("--- ");
    reveal_strlit("+++ ");
    reveal_strlit("@@");
    reveal_strlit("@@ -");
    {
        let st0 = init_state();
        assert(run_to(lines, cfg, 0) == st0);
        let l0 = lines[0];
        assert(l0.len() >= 4 && l0[0] == '-') by {
            assert(l0.subrange(0, 4)[0] == l0[0]);
            assert("--- "@[0] == '-');
        }
        lemma_line_starts(l0, '-');
        let st1 = run_to(lines, cfg, 1);
        assert(st1 == step(lines, 0, st0, cfg));
        assert(st1.current_file is Some);
        assert(st1.current_file->0.old_name == header_filename(lines[0], "--- "@, cfg.src_prefix));
        let l1 = lines[1];
        assert(l1.len() >= 4 && l1[0] == '+') by {
            assert(l1.subrange(0, 4)[0] == l1[0]);
            assert("+++ "@[0] == '+');
        }
        lemma_line_starts(l1, '+');
        let st2 = run_to(lines, cfg, 2);
        assert(st2 == step(lines, 1, st1, cfg));
        assert(st2.current_file is Some);
        assert(st2.current_file->0.new_name == header_filename(lines[1], "+++ "@, cfg.dst_prefix));
        let l2 = lines[2];
        assert(starts_with(l2, "@@ -"@));
        assert(l2.len() >= 4 && l2[0] == '@') by {
            assert(l2.subrange(0, 4)[0] == l2[0]);
            assert("@@ -"@[0] == '@');
        }
        lemma_line_starts(l2, '@');
        assert(starts_with(l2, "@@"@)) by {
            assert(l2.subrange(0, 4)[0] == l2[0]);
            assert(l2.subrange(0, 4)[1] == l2[1]);
            assert(l2.subrange(0, 2) =~= "@@"@);
        }
        let st3 = run_to(lines, cfg, 3);
        assert(st3 == step(lines, 2, st2, cfg));
        assert(st3.current_block is Some);
    }
}

#[verifier::rlimit(100)]
#[verifier::spinoff_prover]
proof fn lemma_p1_step(lines: Seq<Seq<char>>, cfg: ParserConfigModel, n: int)
    requires
        single_hunk_diff(lines, cfg),
        4 <= n <= lines.len(),
        p1_inv(lines, cfg, run_to(lines, cfg, n - 1), n - 1),
    ensures
        p1_inv(lines, cfg, run_to(lines, cfg, n), n),
{
    reveal_strlit("--- ");
    reveal_strlit("+++ ");
    reveal_strlit("@@");
    reveal_strlit("@@ -");
    reveal_strlit("+");
    reveal_strlit("-");
    {
        lemma_pm_count_bounds(lines, n, lines.len() as int);
        lemma_pm_count_bounds(lines, n - 1, n);
        let st = run_to(lines, cfg, n - 1);
        let l = lines[n - 1];
        assert(is_content_line(l));
        assert(run_to(lines, cfg, n) == step(lines, n - 1, st, cfg));
        if l.len() == 0 {
            assert(step(lines, n - 1, st, cfg) == st);
        } else {
            let c = l[0];
            lemma_line_starts(l, c);
            assert(!step_fresh_cond(lines, n - 1, st)) by {
                if c == '-' && starts_with(l, "--- "@) && n < lines.len() && starts_with(
                    lines[n],
                    "+++ "@,
                ) && n + 1 < lines.len() && starts_with(lines[n + 1], "@@"@) {
                    let l2 = lines[n + 1];
                    assert(is_content_line(l2));
                    assert(l2.len() >= 2 && l2[0] == '@') by {
                        assert(l2.subrange(0, 2)[0] == l2[0]);
                        assert("@@"@[0] == '@');
                    }
                    assert(false);
                }
            }
            if c == '+' {
                assert(starts_with(l, "+"@)) by {
                    assert(l.subrange(0, 1) =~= "+"@);
                }
                assert(!starts_with(l, "-"@)) by {
                    lemma_not_prefix_by_first(l, "-"@, c);
                }
            } else if c == '-' {
                assert(starts_with(l, "-"@)) by {
                    assert(l.subrange(0, 1) =~= "-"@);
                }
                assert(!starts_with(l, "+"@)) by {
                    lemma_not_prefix_by_first(l, "+"@, c);
                }
            } else {
                assert(!starts_with(l, "+"@)) by {
                    lemma_not_prefix_by_first(l, "+"@, c);
                }
                assert(!starts_with(l, "-"@)) by {
                    lemma_not_prefix_by_first(l, "-"@, c);
                }
            }
        }
    }
}

/// Law: a well-formed single-file unified diff with one hunk parses to
/// exactly one file record holding exactly one hunk, whose added and
/// deleted counts sum to the number of `+` and `-` lines in the hunk.
pub proof fn lemma_single_hunk_parse(input: Seq<char>, cfg: ParserConfigModel)
    requires
        single_hunk_diff(input_lines(input), cfg),
    ensures
        parse_model(input, cfg).len() == 1,
        parse_model(input, cfg)[0].blocks.len() == 1,
        parse_model(input, cfg)[0].added_lines + parse_model(input, cfg)[0].deleted_lines
            == plus_minus_count(input_lines(input), input_lines(input).len() as int),
{
    let lines = input_lines(input);
    lemma_p1_run(lines, cfg, lines.len() as int);
    let st = run_to(lines, cfg, lines.len() as int);
    let q = save_block_p(st.current_file, st.current_block);
    assert(q.0 is Some);
    assert(q.0->0.blocks.len() == 1);
    let files = save_file_p(st.files, q.0, st.possible_old_name, st.possible_new_name);
    assert(files.len() == 1);
}

} // verus!
