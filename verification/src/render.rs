use vstd::prelude::*;

use crate::text::{char_utf8_len, chars_of, check_at, find_char_from, matches_at, push_char,
    starts_with, string_of, utf8_len, vec_range};
use crate::types::{ColorScheme, DiffFile, DiffStyle, LineType};

verus! {

/// Mathematical model of a [`DiffLineParts`].
#[verifier::ext_equal]
pub ghost struct DiffLinePartsModel {
    pub prefix: Seq<char>,
    pub content: Seq<char>,
}

/// A diff line split into its prefix character(s) and its content.
#[derive(Debug, Clone, PartialEq, Eq)]
pub struct DiffLineParts {
    pub prefix: String,
    pub content: String,
}

impl View for DiffLineParts {
    type V = DiffLinePartsModel;

    open spec fn view(&self) -> DiffLinePartsModel {
        DiffLinePartsModel { prefix: self.prefix@, content: self.content@ }
    }
}

/// Mathematical model of a [`HighlightedLines`].
#[verifier::ext_equal]
pub ghost struct HighlightedLinesModel {
    pub old_line: DiffLinePartsModel,
    pub new_line: DiffLinePartsModel,
}

/// A pair of lines after in-line change highlighting.
#[derive(Debug, Clone, PartialEq, Eq)]
pub struct HighlightedLines {
    pub old_line: DiffLineParts,
    pub new_line: DiffLineParts,
}

impl View for HighlightedLines {
    type V = HighlightedLinesModel;

    open spec fn view(&self) -> HighlightedLinesModel {
        HighlightedLinesModel { old_line: self.old_line@, new_line: self.new_line@ }
    }
}

/// CSS class names for diff line types.
#[derive(Debug, Clone, Copy, PartialEq, Eq, Structural)]
pub enum CSSLineClass {
    Inserts,
    Deletes,
    Context,
    Info,
    InsertChanges,
    DeleteChanges,
}

/// The CSS class string each line class stands for.
pub open spec fn css_class_str(c: CSSLineClass) -> Seq<char> {
    match c {
        CSSLineClass::Inserts => "d2h-ins"@,
        CSSLineClass::Deletes => "d2h-del"@,
        CSSLineClass::Context => "d2h-cntx"@,
        CSSLineClass::Info => "d2h-info"@,
        CSSLineClass::InsertChanges => "d2h-ins d2h-change"@,
        CSSLineClass::DeleteChanges => "d2h-del d2h-change"@,
    }
}

impl CSSLineClass {
    /// The CSS class string for this line class.
    pub fn as_str(&self) -> (r: &'static str)
        ensures
            r@ == css_class_str(*self),
    {
        match self {
            CSSLineClass::Inserts => "d2h-ins",
            CSSLineClass::Deletes => "d2h-del",
            CSSLineClass::Context => "d2h-cntx",
            CSSLineClass::Info => "d2h-info",
            CSSLineClass::InsertChanges => "d2h-ins d2h-change",
            CSSLineClass::DeleteChanges => "d2h-del d2h-change",
        }
    }
}

/// The CSS class a parsed line type is rendered with.
pub fn to_css_class(line_type: LineType) -> (r: CSSLineClass)
    ensures
        r == match line_type {
            LineType::Context => CSSLineClass::Context,
            LineType::Insert => CSSLineClass::Inserts,
            LineType::Delete => CSSLineClass::Deletes,
        },
{
    match line_type {
        LineType::Context => CSSLineClass::Context,
        LineType::Insert => CSSLineClass::Inserts,
        LineType::Delete => CSSLineClass::Deletes,
    }
}

/// The CSS class string of a color scheme.
pub open spec fn color_scheme_css(c: ColorScheme) -> Seq<char> {
    match c {
        ColorScheme::Dark => "d2h-dark-color-scheme"@,
        ColorScheme::Auto => "d2h-auto-color-scheme"@,
        ColorScheme::Light => "d2h-light-color-scheme"@,
    }
}

/// The CSS class a color scheme is rendered with.
pub fn color_scheme_to_css(color_scheme: ColorScheme) -> (r: &'static str)
    ensures
        r@ == color_scheme_css(color_scheme),
{
    match color_scheme {
        ColorScheme::Dark => "d2h-dark-color-scheme",
        ColorScheme::Auto => "d2h-auto-color-scheme",
        ColorScheme::Light => "d2h-light-color-scheme",
    }
}

/// The number of prefix characters a diff line carries: two in combined
/// diffs, one otherwise.
pub fn prefix_length(is_combined: bool) -> (n: usize)
    ensures
        n == if is_combined {
            2int
        } else {
            1int
        },
{
    if is_combined {
        2
    } else {
        1
    }
}

/// The entity each HTML-special character becomes under
/// [`escape_for_html`].
pub open spec fn html_body_escape_char(c: char) -> Seq<char> {
    if c == '&' {
        "&amp;"@
    } else if c == '<' {
        "&lt;"@
    } else if c == '>' {
        "&gt;"@
    } else if c == '"' {
        "&quot;"@
    } else if c == '\u{27}' {
        "&#x27;"@
    } else if c == '/' {
        "&#x2F;"@
    } else {
        seq![c]
    }
}

/// `s` with every HTML-special character, the slash included, replaced by
/// its entity.
pub open spec fn html_body_escaped(s: Seq<char>) -> Seq<char>
    decreases s.len(),
{
    if s.len() == 0 {
        Seq::empty()
    } else {
        html_body_escaped(s.drop_last()) + html_body_escape_char(s.last())
    }
}

/// Escapes `s` for safe rendering inside diff HTML.
pub fn escape_for_html(s: &str) -> (r: String)
    ensures
        r@ == html_body_escaped(s@),
{
    let cs = chars_of(s);
    let r = escape_chars_for_html(&cs);
    string_of(&r)
}

/// Escapes the characters of `v` for safe rendering inside diff HTML.
pub fn escape_chars_for_html(v: &Vec<char>) -> (r: Vec<char>)
    ensures
        r@ == html_body_escaped(v@),
{
    let mut r: Vec<char> = Vec::new();
    let mut i: usize = 0;
    proof {
        assert(v@.take(0) =~= Seq::<char>::empty());
    }
    while i < v.len()
        invariant
            i <= v@.len(),
            r@ == html_body_escaped(v@.take(i as int)),
        decreases v@.len() - i,
    {
        let c = v[i];
        proof {
            assert(v@.take(i + 1).drop_last() =~= v@.take(i as int));
            assert(v@.take(i + 1).last() == v@[i as int]);
        }
        let e: Vec<char> = if c == '&' {
            chars_of("&amp;")
        } else if c == '<' {
            chars_of("&lt;")
        } else if c == '>' {
            chars_of("&gt;")
        } else if c == '"' {
            chars_of("&quot;")
        } else if c == '\u{27}' {
            chars_of("&#x27;")
        } else if c == '/' {
            chars_of("&#x2F;")
        } else {
            let mut one: Vec<char> = Vec::new();
            one.push(c);
            proof {
                assert(one@ =~= seq![c]);
            }
            one
        };
        let mut j: usize = 0;
        let ghost r0 = r@;
        while j < e.len()
            invariant
                j <= e@.len(),
                r@ == r0 + e@.take(j as int),
            decreases e@.len() - j,
        {
            r.push(e[j]);
            j = j + 1;
            proof {
                assert(r@ =~= r0 + e@.take(j as int));
            }
        }
        proof {
            assert(e@.take(e@.len() as int) =~= e@);
        }
        i = i + 1;
    }
    proof {
        assert(v@.take(v@.len() as int) =~= v@);
    }
    r
}

/// The number of characters at the head of `s` that occupy exactly `n`
/// bytes, or `-1` where byte `n` is no character boundary.
pub open spec fn byte_split_chars(s: Seq<char>, n: int) -> int {
    if n == 1 {
        if s.len() >= 1 && char_utf8_len(s[0]) == 1 {
            1
        } else {
            -1
        }
    } else {
        if s.len() >= 1 && char_utf8_len(s[0]) == 2 {
            1
        } else if s.len() >= 2 && char_utf8_len(s[0]) == 1 && char_utf8_len(s[1]) == 1 {
            2
        } else {
            -1
        }
    }
}

/// How a line splits into prefix and content: at the prefix byte width
/// where that lands on a character boundary, else the whole line becomes
/// the prefix with empty content.
pub open spec fn deconstruct_model(s: Seq<char>, is_combined: bool, escape: bool)
    -> DiffLinePartsModel {
    let n: int = if is_combined {
        2
    } else {
        1
    };
    let k = byte_split_chars(s, n);
    if k >= 0 {
        let content = s.skip(k);
        DiffLinePartsModel {
            prefix: s.take(k),
            content: if escape {
                html_body_escaped(content)
            } else {
                content
            },
        }
    } else {
        DiffLinePartsModel { prefix: s, content: Seq::empty() }
    }
}

/// Splits a diff line into its prefix character(s) and its content,
/// optionally escaping the content for HTML.
pub fn deconstruct_line(line: &str, is_combined: bool, escape: bool) -> (r: DiffLineParts)
    ensures
        r@ == deconstruct_model(line@, is_combined, escape),
{
    let cs = chars_of(line);
    let n = prefix_length(is_combined);
    let k: usize = if n == 1 {
        if cs.len() >= 1 && char_width_one(cs[0]) {
            1
        } else {
            0
        }
    } else {
        if cs.len() >= 1 && char_width_two(cs[0]) {
            1
        } else if cs.len() >= 2 && char_width_one(cs[0]) && char_width_one(cs[1]) {
            2
        } else {
            0
        }
    };
    let ghost sk = byte_split_chars(cs@, n as int);
    if k > 0 {
        proof {
            assert(sk == k as int);
        }
        let prefix = vec_range(&cs, 0, k);
        let content = vec_range(&cs, k, cs.len());
        proof {
            assert(cs@.take(k as int) =~= cs@.subrange(0, k as int));
            assert(cs@.skip(k as int) =~= cs@.subrange(k as int, cs@.len() as int));
        }
        let content_s = if escape {
            let e = escape_chars_for_html(&content);
            string_of(&e)
        } else {
            string_of(&content)
        };
        DiffLineParts { prefix: string_of(&prefix), content: content_s }
    } else {
        proof {
            assert(sk == -1);
        }
        DiffLineParts { prefix: string_of(&cs), content: string_of(&Vec::new()) }
    }
}

/// True when `c` is a one-byte character in UTF-8.
fn char_width_one(c: char) -> (r: bool)
    ensures
        r == (char_utf8_len(c) == 1),
{
    (c as u32) < 0x80
}

/// True when `c` is a two-byte character in UTF-8.
fn char_width_two(c: char) -> (r: bool)
    ensures
        r == (char_utf8_len(c) == 2),
{
    (c as u32) >= 0x80 && (c as u32) < 0x800
}

/// True when `s` holds `dev/null`.
pub open spec fn is_dev_null(s: Seq<char>) -> bool {
    exists|k: int| 0 <= k && matches_at(s, k, "dev/null"@)
}

/// Decides `is_dev_null(v@)`.
pub fn check_dev_null(v: &Vec<char>) -> (r: bool)
    ensures
        r == is_dev_null(v@),
{
    let p = chars_of("dev/null");
    let mut i: usize = 0;
    while i < v.len()
        invariant
            i <= v@.len(),
            p@ == "dev/null"@,
            forall|k: int| 0 <= k < i ==> !matches_at(v@, k, "dev/null"@),
        decreases v@.len() - i,
    {
        if check_at(v, i, &p) {
            return true;
        }
        i = i + 1;
    }
    proof {
        reveal_strlit("dev/null");
        if is_dev_null(v@) {
            let k = choose|k: int| 0 <= k && matches_at(v@, k, "dev/null"@);
            assert(!matches_at(v@, k, "dev/null"@));
        }
    }
    false
}

/// `s` with every backslash turned into a forward slash.
pub open spec fn unified_path(s: Seq<char>) -> Seq<char> {
    s.map_values(|c: char| if c == '\u{5c}' { '/' } else { c })
}

/// The characters of `v` with path separators unified.
pub fn unify_path_chars(v: &Vec<char>) -> (r: Vec<char>)
    ensures
        r@ == unified_path(v@),
{
    let mut r: Vec<char> = Vec::new();
    let mut i: usize = 0;
    while i < v.len()
        invariant
            i <= v@.len(),
            r@ == v@.take(i as int).map_values(|c: char| if c == '\u{5c}' { '/' } else { c }),
        decreases v@.len() - i,
    {
        let c = v[i];
        r.push(if c == '\u{5c}' { '/' } else { c });
        i = i + 1;
        proof {
            assert(r@ =~= v@.take(i as int).map_values(
                |c: char| if c == '\u{5c}' { '/' } else { c },
            ));
        }
    }
    proof {
        assert(v@.take(v@.len() as int) =~= v@);
    }
    r
}

/// The pieces of `s` split at every `c`, starting at `from`.
pub open spec fn split_on_from(s: Seq<char>, c: char, from: int) -> Seq<Seq<char>>
    decreases s.len() - from,
    when 0 <= from <= s.len()
{
    let k0 = crate::text::find_char(s, c, from);
    let k = if k0 < from {
        from
    } else if k0 > s.len() {
        s.len() as int
    } else {
        k0
    };
    if k == s.len() {
        seq![s.subrange(from, k)]
    } else {
        seq![s.subrange(from, k)] + split_on_from(s, c, k + 1)
    }
}

/// The pieces of `s` split at every `c`: always at least one piece.
pub open spec fn split_on(s: Seq<char>, c: char) -> Seq<Seq<char>> {
    split_on_from(s, c, 0)
}

/// A split has at least one piece.
pub proof fn lemma_split_on_len(s: Seq<char>, c: char, from: int)
    requires
        0 <= from <= s.len(),
    ensures
        split_on_from(s, c, from).len() >= 1,
    decreases s.len() - from,
{
    crate::text::lemma_find_char(s, c, from);
    let k = crate::text::find_char(s, c, from);
    if k != s.len() {
        lemma_split_on_len(s, c, k + 1);
    }
}

/// The pieces of `v` split at every `c`.
pub fn split_on_chars(v: &Vec<char>, c: char) -> (r: Vec<Vec<char>>)
    ensures
        r.deep_view() == split_on(v@, c),
        r@.len() >= 1,
{
    let mut r: Vec<Vec<char>> = Vec::new();
    let mut start: usize = 0;
    loop
        invariant
            start <= v@.len(),
            split_on(v@, c) == r.deep_view() + split_on_from(v@, c, start as int),
        decreases v@.len() - start,
    {
        let k = find_char_from(v, c, start);
        proof {
            crate::text::lemma_find_char(v@, c, start as int);
        }
        let piece = vec_range(v, start, k);
        let ghost r0 = r.deep_view();
        r.push(piece);
        proof {
            assert(piece.deep_view() =~= piece@);
            assert(r.deep_view() =~~= r0 + seq![v@.subrange(start as int, k as int)]);
        }
        if k == v.len() {
            proof {
                assert(split_on_from(v@, c, start as int) == seq![v@.subrange(
                    start as int,
                    k as int,
                )]);
                assert(r.deep_view() =~~= split_on(v@, c));
            }
            return r;
        }
        proof {
            assert(split_on_from(v@, c, start as int) == seq![v@.subrange(
                start as int,
                k as int,
            )] + split_on_from(v@, c, k + 1));
            assert(r.deep_view() + split_on_from(v@, c, k + 1) =~= r0 + split_on_from(
                v@,
                c,
                start as int,
            ));
        }
        start = k + 1;
    }
}

/// The pieces joined with `c` between each adjacent pair.
pub open spec fn join_on(parts: Seq<Seq<char>>, c: char) -> Seq<char>
    decreases parts.len(),
{
    if parts.len() == 0 {
        Seq::empty()
    } else if parts.len() == 1 {
        parts[0]
    } else {
        join_on(parts.drop_last(), c) + seq![c] + parts.last()
    }
}

/// Joins `parts[lo..hi]` with `c` between each adjacent pair.
pub fn join_range(parts: &Vec<Vec<char>>, lo: usize, hi: usize, c: char) -> (r: Vec<char>)
    requires
        lo <= hi <= parts@.len(),
    ensures
        r@ == join_on(parts.deep_view().subrange(lo as int, hi as int), c),
{
    let mut r: Vec<char> = Vec::new();
    let mut i: usize = lo;
    proof {
        assert(parts.deep_view().subrange(lo as int, lo as int) =~= Seq::<Seq<char>>::empty());
    }
    while i < hi
        invariant
            lo <= i <= hi <= parts@.len(),
            r@ == join_on(parts.deep_view().subrange(lo as int, i as int), c),
        decreases hi - i,
    {
        let ghost r0 = r@;
        if i > lo {
            r.push(c);
        }
        let piece = &parts[i];
        let mut j: usize = 0;
        let ghost r1 = r@;
        while j < piece.len()
            invariant
                j <= piece@.len(),
                r@ == r1 + piece@.take(j as int),
            decreases piece@.len() - j,
        {
            r.push(piece[j]);
            j = j + 1;
            proof {
                assert(r@ =~= r1 + piece@.take(j as int));
            }
        }
        i = i + 1;
        proof {
            let sub = parts.deep_view().subrange(lo as int, i as int);
            assert(piece@.take(piece@.len() as int) =~= piece@);
            assert(sub.drop_last() =~= parts.deep_view().subrange(lo as int, i - 1));
            assert(sub.last() =~= parts@[i - 1]@);
            if i - 1 > lo {
                assert(r@ =~= join_on(sub.drop_last(), c) + seq![c] + sub.last());
            } else {
                assert(r@ =~= sub.last());
                assert(sub.len() == 1);
            }
        }
    }
    r
}

/// The end of the common leading path components, bounded by `j` and `k`.
pub open spec fn common_prefix_end(o: Seq<Seq<char>>, n: Seq<Seq<char>>, i: int, j: int, k: int)
    -> int
    decreases j - i,
    when 0 <= i
{
    if i < j && i < k && 0 <= i < o.len() && 0 <= i < n.len() && o[i] == n[i] {
        common_prefix_end(o, n, i + 1, j, k)
    } else {
        i
    }
}

/// The ends of the common trailing path components, scanned downward.
pub open spec fn common_suffix_ends(o: Seq<Seq<char>>, n: Seq<Seq<char>>, i: int, j: int, k: int)
    -> (int, int)
    decreases j - i,
    when i >= 0
{
    if j > i && k > i && 0 <= j < o.len() && 0 <= k < n.len() && o[j] == n[k] {
        common_suffix_ends(o, n, i, j - 1, k - 1)
    } else {
        (j, k)
    }
}

/// The display name of a file entry: the new path, with a rename shown as
/// `prefix/{old \u{2192} new}/suffix` around the common components.
pub open spec fn filename_diff_model(oldn: Seq<char>, newn: Seq<char>) -> Seq<char> {
    let o = unified_path(oldn);
    let n = unified_path(newn);
    if o != n && !is_dev_null(o) && !is_dev_null(n) {
        let op = split_on(o, '/');
        let np = split_on(n, '/');
        let i = common_prefix_end(op, np, 0, op.len() - 1, np.len() - 1);
        let jk = common_suffix_ends(op, np, i, op.len() - 1, np.len() - 1);
        let pfx = join_on(np.subrange(0, i), '/');
        let sfx = join_on(np.subrange(jk.1 + 1, np.len() as int), '/');
        let old_rem = join_on(op.subrange(i, jk.0 + 1), '/');
        let new_rem = join_on(np.subrange(i, jk.1 + 1), '/');
        let core = "{"@ + old_rem + " \u{2192} "@ + new_rem + "}"@;
        if pfx.len() > 0 && sfx.len() > 0 {
            pfx + "/"@ + core + "/"@ + sfx
        } else if pfx.len() > 0 {
            pfx + "/"@ + core
        } else if sfx.len() > 0 {
            core + "/"@ + sfx
        } else {
            o + " \u{2192} "@ + n
        }
    } else if !is_dev_null(n) {
        n
    } else {
        o
    }
}

/// Appends the characters of `e` to `r`.
fn extend_chars(r: &mut Vec<char>, e: &Vec<char>)
    ensures
        final(r)@ == old(r)@ + e@,
{
    let mut j: usize = 0;
    let ghost r0 = r@;
    while j < e.len()
        invariant
            j <= e@.len(),
            r@ == r0 + e@.take(j as int),
        decreases e@.len() - j,
    {
        r.push(e[j]);
        j = j + 1;
        proof {
            assert(r@ =~= r0 + e@.take(j as int));
        }
    }
    proof {
        assert(e@.take(e@.len() as int) =~= e@);
        assert(r@ =~= r0 + e@);
    }
}

/// The pretty name of a file entry, showing a rename as
/// `prefix/{old \u{2192} new}/suffix`.
pub fn filename_diff(file: &DiffFile) -> (r: String)
    ensures
        r@ == filename_diff_model(file@.old_name, file@.new_name),
{
    let oc = chars_of(file.old_name.as_str());
    let nc = chars_of(file.new_name.as_str());
    let o = unify_path_chars(&oc);
    let n = unify_path_chars(&nc);
    let o_is_null = check_dev_null(&o);
    let n_is_null = check_dev_null(&n);
    let mut same = o.len() == n.len();
    if same {
        let mut x: usize = 0;
        while x < o.len() && o[x] == n[x]
            invariant
                x <= o@.len(),
                o@.len() == n@.len(),
                forall|y: int| 0 <= y < x ==> o@[y] == n@[y],
            decreases o@.len() - x,
        {
            x = x + 1;
        }
        if x < o.len() {
            same = false;
        } else {
            proof {
                assert(o@ =~= n@);
            }
        }
    }
    proof {
        if o@.len() != n@.len() {
            assert(o@ != n@);
        }
    }
    if !same && !o_is_null && !n_is_null {
        let op = split_on_chars(&o, '/');
        let np = split_on_chars(&n, '/');
        let ghost opm = op.deep_view();
        let ghost npm = np.deep_view();
        let olast = op.len() - 1;
        let nlast = np.len() - 1;
        let mut i: usize = 0;
        while i < olast && i < nlast && vec_eq(&op[i], &np[i])
            invariant
                i <= olast,
                i <= nlast,
                olast == opm.len() - 1,
                nlast == npm.len() - 1,
                opm == op.deep_view(),
                npm == np.deep_view(),
                common_prefix_end(opm, npm, 0, olast as int, nlast as int) == common_prefix_end(
                    opm,
                    npm,
                    i as int,
                    olast as int,
                    nlast as int,
                ),
            decreases olast - i,
        {
            proof {
                assert(opm[i as int] =~= op@[i as int]@);
                assert(npm[i as int] =~= np@[i as int]@);
            }
            i = i + 1;
        }
        proof {
            if i < olast && i < nlast {
                assert(opm[i as int] =~= op@[i as int]@);
                assert(npm[i as int] =~= np@[i as int]@);
            }
            assert(common_prefix_end(opm, npm, i as int, olast as int, nlast as int) == i);
        }
        let mut j: usize = olast;
        let mut k: usize = nlast;
        while j > i && k > i && vec_eq(&op[j], &np[k])
            invariant
                i <= j <= olast,
                i <= k <= nlast,
                olast == opm.len() - 1,
                nlast == npm.len() - 1,
                opm == op.deep_view(),
                npm == np.deep_view(),
                common_suffix_ends(opm, npm, i as int, olast as int, nlast as int)
                    == common_suffix_ends(opm, npm, i as int, j as int, k as int),
            decreases j,
        {
            proof {
                assert(opm[j as int] =~= op@[j as int]@);
                assert(npm[k as int] =~= np@[k as int]@);
            }
            j = j - 1;
            k = k - 1;
        }
        proof {
            if j > i && k > i {
                assert(opm[j as int] =~= op@[j as int]@);
                assert(npm[k as int] =~= np@[k as int]@);
            }
            assert(common_suffix_ends(opm, npm, i as int, j as int, k as int) == (
                j as int,
                k as int,
            ));
        }
        let pfx = join_range(&np, 0, i, '/');
        let sfx = join_range(&np, k + 1, np.len(), '/');
        let old_rem = join_range(&op, i, j + 1, '/');
        let new_rem = join_range(&np, i, k + 1, '/');
        let mut core: Vec<char> = Vec::new();
        extend_chars(&mut core, &chars_of("{"));
        extend_chars(&mut core, &old_rem);
        extend_chars(&mut core, &chars_of(" \u{2192} "));
        extend_chars(&mut core, &new_rem);
        extend_chars(&mut core, &chars_of("}"));
        let mut out: Vec<char> = Vec::new();
        if pfx.len() > 0 && sfx.len() > 0 {
            extend_chars(&mut out, &pfx);
            extend_chars(&mut out, &chars_of("/"));
            extend_chars(&mut out, &core);
            extend_chars(&mut out, &chars_of("/"));
            extend_chars(&mut out, &sfx);
        } else if pfx.len() > 0 {
            extend_chars(&mut out, &pfx);
            extend_chars(&mut out, &chars_of("/"));
            extend_chars(&mut out, &core);
        } else if sfx.len() > 0 {
            extend_chars(&mut out, &core);
            extend_chars(&mut out, &chars_of("/"));
            extend_chars(&mut out, &sfx);
        } else {
            extend_chars(&mut out, &o);
            extend_chars(&mut out, &chars_of(" \u{2192} "));
            extend_chars(&mut out, &n);
        }
        proof {
            assert(out@ =~= filename_diff_model(file@.old_name, file@.new_name));
        }
        string_of(&out)
    } else if !n_is_null {
        string_of(&n)
    } else {
        string_of(&o)
    }
}

/// Decides equality of two character vectors.
fn vec_eq(a: &Vec<char>, b: &Vec<char>) -> (r: bool)
    ensures
        r == (a@ == b@),
{
    if a.len() != b.len() {
        return false;
    }
    let mut i: usize = 0;
    while i < a.len()
        invariant
            i <= a@.len(),
            a@.len() == b@.len(),
            forall|k: int| 0 <= k < i ==> a@[k] == b@[k],
        decreases a@.len() - i,
    {
        if a[i] != b[i] {
            return false;
        }
        i = i + 1;
    }
    proof {
        assert(a@ =~= b@);
    }
    true
}

/// The icon name a file's status selects.
pub open spec fn file_icon_str(f: crate::types::DiffFileModel) -> Seq<char> {
    if f.is_rename == Some(true) || f.is_copy == Some(true) {
        "file-renamed"@
    } else if f.is_new == Some(true) {
        "file-added"@
    } else if f.is_deleted == Some(true) {
        "file-deleted"@
    } else if f.new_name != f.old_name {
        "file-renamed"@
    } else {
        "file-changed"@
    }
}

/// The icon template name for a file, after its status flags.
pub fn get_file_icon(file: &DiffFile) -> (r: &'static str)
    ensures
        r@ == file_icon_str(file@),
{
    let renamed = match file.is_rename {
        Some(true) => true,
        _ => false,
    } || match file.is_copy {
        Some(true) => true,
        _ => false,
    };
    if renamed {
        "file-renamed"
    } else if match file.is_new {
        Some(true) => true,
        _ => false,
    } {
        "file-added"
    } else if match file.is_deleted {
        Some(true) => true,
        _ => false,
    } {
        "file-deleted"
    } else if !file.new_name.eq(&file.old_name) {
        "file-renamed"
    } else {
        "file-changed"
    }
}

/// A rolling 31-multiplier hash of a name, reduced modulo two to the
/// sixty-fourth.
pub open spec fn name_hash(s: Seq<char>) -> int
    decreases s.len(),
{
    if s.len() == 0 {
        0
    } else {
        (name_hash(s.drop_last()) * 31 + (s.last() as u32)) % 0x1_0000_0000_0000_0000
    }
}

/// The decimal digit character for `d`.
pub open spec fn dc(d: int) -> char {
    if d == 0 {
        '0'
    } else if d == 1 {
        '1'
    } else if d == 2 {
        '2'
    } else if d == 3 {
        '3'
    } else if d == 4 {
        '4'
    } else if d == 5 {
        '5'
    } else if d == 6 {
        '6'
    } else if d == 7 {
        '7'
    } else if d == 8 {
        '8'
    } else {
        '9'
    }
}

/// The character for the decimal digit `d`.
pub fn digit_ch(d: usize) -> (r: char)
    requires
        d < 10,
    ensures
        r == dc(d as int),
{
    match d {
        0 => '0',
        1 => '1',
        2 => '2',
        3 => '3',
        4 => '4',
        5 => '5',
        6 => '6',
        7 => '7',
        8 => '8',
        _ => '9',
    }
}

/// Six zero-padded decimal digits of `n`.
pub open spec fn six_digits(n: int) -> Seq<char> {
    seq![
        dc((n / 100000) % 10),
        dc((n / 10000) % 10),
        dc((n / 1000) % 10),
        dc((n / 100) % 10),
        dc((n / 10) % 10),
        dc(n % 10),
    ]
}

/// The HTML id of a file entry: `d2h-` followed by six digits drawn from
/// a hash of its display name.
pub open spec fn html_id_model(old_name: Seq<char>, new_name: Seq<char>) -> Seq<char> {
    "d2h-"@ + six_digits(name_hash(filename_diff_model(old_name, new_name)) % 1000000)
}

/// A stable HTML id for a file entry.
pub fn get_html_id(file: &DiffFile) -> (r: String)
    ensures
        r@ == html_id_model(file@.old_name, file@.new_name),
{
    let fd = filename_diff(file);
    let cs = chars_of(fd.as_str());
    let mut h: u128 = 0;
    let mut i: usize = 0;
    proof {
        assert(cs@.take(0) =~= Seq::<char>::empty());
    }
    while i < cs.len()
        invariant
            i <= cs@.len(),
            h == name_hash(cs@.take(i as int)),
            h < 0x1_0000_0000_0000_0000,
        decreases cs@.len() - i,
    {
        let c = cs[i];
        proof {
            assert(cs@.take(i + 1).drop_last() =~= cs@.take(i as int));
            assert(cs@.take(i + 1).last() == cs@[i as int]);
        }
        h = (h * 31 + (c as u32 as u128)) % 0x1_0000_0000_0000_0000u128;
        i = i + 1;
    }
    proof {
        assert(cs@.take(cs@.len() as int) =~= cs@);
    }
    let m = (h % 1000000) as usize;
    let mut out: Vec<char> = Vec::new();
    extend_chars(&mut out, &chars_of("d2h-"));
    out.push(digit_ch((m / 100000) % 10));
    out.push(digit_ch((m / 10000) % 10));
    out.push(digit_ch((m / 1000) % 10));
    out.push(digit_ch((m / 100) % 10));
    out.push(digit_ch((m / 10) % 10));
    out.push(digit_ch(m % 10));
    proof {
        assert(out@ =~= html_id_model(file@.old_name, file@.new_name));
    }
    string_of(&out)
}

/// The first position at or after `from` where `pat` occurs in `s`, or
/// `-1` where it never does.
pub open spec fn find_sub(s: Seq<char>, pat: Seq<char>, from: int) -> int
    decreases s.len() - from,
    when 0 <= from && pat.len() > 0
{
    if from + pat.len() > s.len() {
        -1
    } else if matches_at(s, from, pat) {
        from
    } else {
        find_sub(s, pat, from + 1)
    }
}

/// What `find_sub` returns is `-1` or a match position.
pub proof fn lemma_find_sub(s: Seq<char>, pat: Seq<char>, from: int)
    requires
        0 <= from,
        pat.len() > 0,
    ensures
        find_sub(s, pat, from) == -1 || (from <= find_sub(s, pat, from) && find_sub(s, pat, from)
            + pat.len() <= s.len() && matches_at(s, find_sub(s, pat, from), pat)),
        forall|k: int| from <= k < find_sub(s, pat, from) ==> !matches_at(s, k, pat),
    decreases s.len() - from,
{
    if from + pat.len() <= s.len() && !matches_at(s, from, pat) {
        lemma_find_sub(s, pat, from + 1);
    }
}

/// Finds the first occurrence of `pat` at or after `from`.
fn find_sub_chars(v: &Vec<char>, pat: &Vec<char>, from: usize) -> (r: Option<usize>)
    requires
        pat@.len() > 0,
    ensures
        match r {
            Some(x) => x == find_sub(v@, pat@, from as int),
            None => find_sub(v@, pat@, from as int) == -1,
        },
{
    let mut i: usize = from;
    loop
        invariant
            from <= i,
            pat@.len() > 0,
            find_sub(v@, pat@, from as int) == find_sub(v@, pat@, i as int),
        decreases v@.len() + pat@.len() + 1 - i,
    {
        if v.len() < pat.len() || i > v.len() - pat.len() {
            return None;
        }
        if check_at(v, i, pat) {
            return Some(i);
        }
        i = i + 1;
    }
}

/// Where the tag opened at `i` ends: past the closing tag, or `-1` where
/// the element never closes.
pub open spec fn tag_end(s: Seq<char>, open: Seq<char>, close: Seq<char>, i: int) -> int {
    let q = crate::text::find_char(s, '>', i + open.len());
    if q >= s.len() {
        -1
    } else {
        let d = find_sub(s, close, q + 1);
        if d < 0 {
            -1
        } else {
            d + close.len()
        }
    }
}

/// `s` from `i` on, with every `open...>` element through its `close`
/// removed, scanning left to right without overlap.
pub open spec fn strip_tags_from(s: Seq<char>, open: Seq<char>, close: Seq<char>, i: int) -> Seq<
    char,
>
    decreases s.len() - i,
    when 0 <= i
{
    if i >= s.len() {
        Seq::empty()
    } else if matches_at(s, i, open) && tag_end(s, open, close, i) >= 0 {
        let e = tag_end(s, open, close, i);
        let e2 = if e <= i {
            i + 1
        } else if e > s.len() {
            s.len() as int
        } else {
            e
        };
        strip_tags_from(s, open, close, e2)
    } else {
        seq![s[i]] + strip_tags_from(s, open, close, i + 1)
    }
}

/// Removes every `open...close` element from the characters of `v`.
fn strip_tags_chars(v: &Vec<char>, open: &Vec<char>, close: &Vec<char>) -> (r: Vec<char>)
    requires
        open@.len() > 0,
        close@.len() > 0,
    ensures
        r@ == strip_tags_from(v@, open@, close@, 0),
{
    let mut r: Vec<char> = Vec::new();
    let mut i: usize = 0;
    while i < v.len()
        invariant
            i <= v@.len(),
            open@.len() > 0,
            close@.len() > 0,
            strip_tags_from(v@, open@, close@, 0) == r@ + strip_tags_from(
                v@,
                open@,
                close@,
                i as int,
            ),
        decreases v@.len() - i,
    {
        let mut consumed = false;
        if check_at(v, i, open) {
            let q = find_char_from(v, '>', i + open.len());
            if q < v.len() {
                match find_sub_chars(v, close, q + 1) {
                    Some(d) => {
                        proof {
                            lemma_find_sub(v@, close@, q + 1);
                        }
                        let e = d + close.len();
                        proof {
                            assert(tag_end(v@, open@, close@, i as int) == e);
                            assert(e > i);
                            assert(e <= v@.len());
                        }
                        i = e;
                        consumed = true;
                    },
                    None => {
                        proof {
                            assert(tag_end(v@, open@, close@, i as int) == -1);
                        }
                    },
                }
            }
        }
        if !consumed {
            let ghost tail = strip_tags_from(v@, open@, close@, i as int);
            r.push(v[i]);
            i = i + 1;
            proof {
                assert(r@ + strip_tags_from(v@, open@, close@, i as int) =~= r@.drop_last()
                    + tail);
            }
        }
    }
    proof {
        assert(strip_tags_from(v@, open@, close@, v@.len() as int) == Seq::<char>::empty());
        assert(r@ =~= r@ + Seq::<char>::empty());
    }
    r
}

/// `s` with every `<ins>` element removed.
pub open spec fn ins_removed(s: Seq<char>) -> Seq<char> {
    strip_tags_from(s, "<ins"@, "</ins>"@, 0)
}

/// `s` with every `<del>` element removed.
pub open spec fn del_removed(s: Seq<char>) -> Seq<char> {
    strip_tags_from(s, "<del"@, "</del>"@, 0)
}

/// Removes `<ins>` elements from an HTML string.
pub fn remove_ins_elements(line: &str) -> (r: String)
    ensures
        r@ == ins_removed(line@),
{
    let cs = chars_of(line);
    proof {
        reveal_strlit("<ins");
        reveal_strlit("</ins>");
    }
    let out = strip_tags_chars(&cs, &chars_of("<ins"), &chars_of("</ins>"));
    string_of(&out)
}

/// Removes `<del>` elements from an HTML string.
pub fn remove_del_elements(line: &str) -> (r: String)
    ensures
        r@ == del_removed(line@),
{
    let cs = chars_of(line);
    proof {
        reveal_strlit("<del");
        reveal_strlit("</del>");
    }
    let out = strip_tags_chars(&cs, &chars_of("<del"), &chars_of("</del>"));
    string_of(&out)
}

/// What the word-level sequence diff of two strings yields: a list of
/// changes, each tagged equal (0), deleted (1) or inserted (2) with the
/// text it covers.  The result depends on the two strings alone.
pub uninterp spec fn word_changes_of(a: Seq<char>, b: Seq<char>) -> Seq<(u8, Seq<char>)>;

/// What the character-level sequence diff of two strings yields, tagged
/// as in [`word_changes_of`].
pub uninterp spec fn char_changes_of(a: Seq<char>, b: Seq<char>) -> Seq<(u8, Seq<char>)>;

/// Relies on similar's `TextDiff::from_words` and `iter_all_changes`: the
/// change list is computed from the two strings alone; each change's tag
/// and text are carried over one for one.
#[verifier::external_body]
fn word_changes(a: &str, b: &str) -> (r: Vec<(u8, String)>)
    ensures
        r.deep_view() == word_changes_of(a@, b@),
{
    let diff = similar::TextDiff::from_words(a, b);
    diff.iter_all_changes().map(|c| {
        let tag: u8 = match c.tag() {
            similar::ChangeTag::Equal => 0,
            similar::ChangeTag::Delete => 1,
            similar::ChangeTag::Insert => 2,
        };
        (tag, c.value().to_string())
    }).collect()
}

/// Relies on similar's `TextDiff::from_chars` and `iter_all_changes`, as
/// [`word_changes`] does for words.
#[verifier::external_body]
fn char_changes(a: &str, b: &str) -> (r: Vec<(u8, String)>)
    ensures
        r.deep_view() == char_changes_of(a@, b@),
{
    let diff = similar::TextDiff::from_chars(a, b);
    diff.iter_all_changes().map(|c| {
        let tag: u8 = match c.tag() {
            similar::ChangeTag::Equal => 0,
            similar::ChangeTag::Delete => 1,
            similar::ChangeTag::Insert => 2,
        };
        (tag, c.value().to_string())
    }).collect()
}

/// The highlighted joint line a change list renders to: deleted text in
/// `<del>`, inserted text in `<ins>`, everything HTML-escaped.
pub open spec fn hl_of(changes: Seq<(u8, Seq<char>)>) -> Seq<char>
    decreases changes.len(),
{
    if changes.len() == 0 {
        Seq::empty()
    } else {
        let c = changes.last();
        hl_of(changes.drop_last()) + if c.0 == 1 {
            "<del>"@ + html_body_escaped(c.1) + "</del>"@
        } else if c.0 == 2 {
            "<ins>"@ + html_body_escaped(c.1) + "</ins>"@
        } else {
            html_body_escaped(c.1)
        }
    }
}

/// What highlighting two diff lines yields: lines too long stay plain;
/// otherwise the old side keeps the deletions and the new side the
/// insertions of the joint highlighted text.
pub open spec fn diff_highlight_model(
    l1: Seq<char>,
    l2: Seq<char>,
    is_combined: bool,
    style: DiffStyle,
    max_len: int,
) -> HighlightedLinesModel {
    let p1 = deconstruct_model(l1, is_combined, false);
    let p2 = deconstruct_model(l2, is_combined, false);
    if utf8_len(p1.content) > max_len || utf8_len(p2.content) > max_len {
        HighlightedLinesModel {
            old_line: DiffLinePartsModel {
                prefix: p1.prefix,
                content: html_body_escaped(p1.content),
            },
            new_line: DiffLinePartsModel {
                prefix: p2.prefix,
                content: html_body_escaped(p2.content),
            },
        }
    } else {
        let changes = if style == DiffStyle::Char {
            char_changes_of(p1.content, p2.content)
        } else {
            word_changes_of(p1.content, p2.content)
        };
        let hl = hl_of(changes);
        HighlightedLinesModel {
            old_line: DiffLinePartsModel { prefix: p1.prefix, content: ins_removed(hl) },
            new_line: DiffLinePartsModel { prefix: p2.prefix, content: del_removed(hl) },
        }
    }
}

/// Highlights the differences between two diff lines, wrapping deleted
/// and inserted stretches in `<del>` and `<ins>` tags.
pub fn diff_highlight(
    diff_line1: &str,
    diff_line2: &str,
    is_combined: bool,
    diff_style: DiffStyle,
    max_line_length_highlight: usize,
) -> (r: HighlightedLines)
    ensures
        r@ == diff_highlight_model(
            diff_line1@,
            diff_line2@,
            is_combined,
            diff_style,
            max_line_length_highlight as int,
        ),
{
    let p1 = deconstruct_line(diff_line1, is_combined, false);
    let p2 = deconstruct_line(diff_line2, is_combined, false);
    let c1 = chars_of(p1.content.as_str());
    let c2 = chars_of(p2.content.as_str());
    if crate::text::utf8_len_chars(&c1) > max_line_length_highlight as u128
        || crate::text::utf8_len_chars(&c2) > max_line_length_highlight as u128 {
        let e1 = escape_chars_for_html(&c1);
        let e2 = escape_chars_for_html(&c2);
        return HighlightedLines {
            old_line: DiffLineParts { prefix: p1.prefix, content: string_of(&e1) },
            new_line: DiffLineParts { prefix: p2.prefix, content: string_of(&e2) },
        };
    }
    let changes: Vec<(u8, String)> = if diff_style == DiffStyle::Char {
        char_changes(p1.content.as_str(), p2.content.as_str())
    } else {
        word_changes(p1.content.as_str(), p2.content.as_str())
    };
    let ghost cm = changes.deep_view();
    let mut hl: Vec<char> = Vec::new();
    let mut i: usize = 0;
    proof {
        assert(cm.take(0) =~= Seq::<(u8, Seq<char>)>::empty());
    }
    while i < changes.len()
        invariant
            i <= changes@.len(),
            cm == changes.deep_view(),
            hl@ == hl_of(cm.take(i as int)),
        decreases changes@.len() - i,
    {
        proof {
            assert(cm.take(i + 1).drop_last() =~= cm.take(i as int));
            assert(cm.take(i + 1).last() == cm[i as int]);
            assert(cm[i as int].0 == changes@[i as int].0);
            assert(cm[i as int].1 == changes@[i as int].1@);
        }
        let tag = changes[i].0;
        let val = chars_of(changes[i].1.as_str());
        let esc = escape_chars_for_html(&val);
        if tag == 1 {
            extend_chars(&mut hl, &chars_of("<del>"));
            extend_chars(&mut hl, &esc);
            extend_chars(&mut hl, &chars_of("</del>"));
        } else if tag == 2 {
            extend_chars(&mut hl, &chars_of("<ins>"));
            extend_chars(&mut hl, &esc);
            extend_chars(&mut hl, &chars_of("</ins>"));
        } else {
            extend_chars(&mut hl, &esc);
        }
        proof {
            assert(hl@ =~= hl_of(cm.take(i + 1)));
        }
        i = i + 1;
    }
    proof {
        assert(cm.take(cm.len() as int) =~= cm);
    }
    let hs = string_of(&hl);
    let old_content = remove_ins_elements(hs.as_str());
    let new_content = remove_del_elements(hs.as_str());
    HighlightedLines {
        old_line: DiffLineParts { prefix: p1.prefix, content: old_content },
        new_line: DiffLineParts { prefix: p2.prefix, content: new_content },
    }
}

/// Configuration for the file list renderer.
#[derive(Debug, Clone)]
pub struct FileListConfig {
    /// Color scheme of the summary list.
    pub color_scheme: ColorScheme,
}

impl Default for FileListConfig {
    fn default() -> (r: Self)
        ensures
            r.color_scheme == ColorScheme::Light,
    {
        FileListConfig { color_scheme: ColorScheme::Light }
    }
}

/// Renders the summary list of changed files.
pub struct FileListRenderer {
    /// The renderer's configuration.
    pub config: FileListConfig,
}

impl FileListRenderer {
    /// A renderer with the given configuration.
    pub fn new(config: FileListConfig) -> (r: Self)
        ensures
            r.config.color_scheme == config.color_scheme,
    {
        FileListRenderer { config }
    }
}

impl Default for FileListRenderer {
    fn default() -> (r: Self)
        ensures
            r.config.color_scheme == ColorScheme::Light,
    {
        FileListRenderer { config: FileListConfig { color_scheme: ColorScheme::Light } }
    }
}

} // verus!
