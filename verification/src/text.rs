use vstd::prelude::*;
use vstd::string::StrSliceExecFns;

verus! {

/// Relies on `String::push`: appends one character at the end of the string.
#[verifier::external_body]
pub(crate) fn push_char(s: &mut String, c: char)
    ensures
        final(s)@ == old(s)@.push(c),
{
    s.push(c);
}

/// The characters of `s`, in order, as a vector.
pub fn chars_of(s: &str) -> (r: Vec<char>)
    ensures
        r@ == s@,
{
    let n = s.unicode_len();
    let mut r: Vec<char> = Vec::new();
    let mut i: usize = 0;
    while i < n
        invariant
            n == s@.len(),
            i <= n,
            r@ == s@.take(i as int),
        decreases n - i,
    {
        r.push(s.get_char(i));
        i = i + 1;
        proof {
            assert(r@ =~= s@.take(i as int));
        }
    }
    proof {
        assert(r@ =~= s@);
    }
    r
}

/// A string holding exactly the characters of `v`, in order.
pub fn string_of(v: &Vec<char>) -> (r: String)
    ensures
        r@ == v@,
{
    let mut r = String::new();
    let mut i: usize = 0;
    while i < v.len()
        invariant
            i <= v@.len(),
            r@ == v@.take(i as int),
        decreases v@.len() - i,
    {
        push_char(&mut r, v[i]);
        i = i + 1;
        proof {
            assert(r@ =~= v@.take(i as int));
        }
    }
    proof {
        assert(r@ =~= v@);
    }
    r
}

/// A string holding the characters `v[from..to]`.
pub fn string_of_range(v: &Vec<char>, from: usize, to: usize) -> (r: String)
    requires
        from <= to <= v@.len(),
    ensures
        r@ == v@.subrange(from as int, to as int),
{
    let mut r = String::new();
    let mut i: usize = from;
    while i < to
        invariant
            from <= i <= to <= v@.len(),
            r@ == v@.subrange(from as int, i as int),
        decreases to - i,
    {
        push_char(&mut r, v[i]);
        i = i + 1;
        proof {
            assert(r@ =~= v@.subrange(from as int, i as int));
        }
    }
    r
}

/// True when `p` is a prefix of `s` starting at position `at`.
pub open spec fn matches_at(s: Seq<char>, at: int, p: Seq<char>) -> bool {
    &&& 0 <= at
    &&& at + p.len() <= s.len()
    &&& s.subrange(at, at + p.len()) == p
}

/// True when `p` is a prefix of `s`.
pub open spec fn starts_with(s: Seq<char>, p: Seq<char>) -> bool {
    matches_at(s, 0, p)
}

/// Decides `matches_at(s@, at, p@)`.
pub fn check_at(s: &Vec<char>, at: usize, p: &Vec<char>) -> (r: bool)
    ensures
        r == matches_at(s@, at as int, p@),
{
    if s.len() < at || s.len() - at < p.len() {
        proof {
            assert(!matches_at(s@, at as int, p@));
        }
        return false;
    }
    let mut i: usize = 0;
    while i < p.len()
        invariant
            at + p@.len() <= s@.len(),
            s@.len() <= usize::MAX,
            i <= p@.len(),
            forall|j: int| 0 <= j < i ==> s@[at + j] == p@[j],
        decreases p@.len() - i,
    {
        if s[at + i] != p[i] {
            proof {
                assert(s@.subrange(at as int, at + p@.len())[i as int] != p@[i as int]);
            }
            return false;
        }
        i = i + 1;
    }
    proof {
        assert(s@.subrange(at as int, at + p@.len()) =~= p@);
    }
    true
}

/// The characters `v[from..to]` as a vector of their own.
pub fn vec_range(v: &Vec<char>, from: usize, to: usize) -> (r: Vec<char>)
    requires
        from <= to <= v@.len(),
    ensures
        r@ == v@.subrange(from as int, to as int),
{
    let mut r: Vec<char> = Vec::new();
    let mut i: usize = from;
    while i < to
        invariant
            from <= i <= to <= v@.len(),
            r@ == v@.subrange(from as int, i as int),
        decreases to - i,
    {
        r.push(v[i]);
        i = i + 1;
        proof {
            assert(r@ =~= v@.subrange(from as int, i as int));
        }
    }
    r
}

/// The number of bytes the UTF-8 encoding of `c` occupies.
pub open spec fn char_utf8_len(c: char) -> int {
    if (c as u32) < 0x80 {
        1
    } else if (c as u32) < 0x800 {
        2
    } else if (c as u32) < 0x10000 {
        3
    } else {
        4
    }
}

/// The number of bytes the UTF-8 encoding of `s` occupies.
pub open spec fn utf8_len(s: Seq<char>) -> int
    decreases s.len(),
{
    if s.len() == 0 {
        0
    } else {
        utf8_len(s.drop_last()) + char_utf8_len(s.last())
    }
}

/// The UTF-8 byte length of a sequence is at least zero.
pub proof fn lemma_utf8_len_nonneg(s: Seq<char>)
    ensures
        utf8_len(s) >= 0,
        utf8_len(s) <= 4 * s.len(),
    decreases s.len(),
{
    if s.len() > 0 {
        lemma_utf8_len_nonneg(s.drop_last());
    }
}

/// Computes the UTF-8 byte length of the characters of `v`.
pub fn utf8_len_chars(v: &Vec<char>) -> (r: u128)
    ensures
        r == utf8_len(v@),
{
    let mut r: u128 = 0;
    let mut i: usize = 0;
    proof {
        assert(v@.take(0) =~= Seq::<char>::empty());
    }
    while i < v.len()
        invariant
            i <= v@.len(),
            r == utf8_len(v@.take(i as int)),
            r <= 4 * i,
        decreases v@.len() - i,
    {
        let c = v[i];
        let cl: u128 = if (c as u32) < 0x80 {
            1
        } else if (c as u32) < 0x800 {
            2
        } else if (c as u32) < 0x10000 {
            3
        } else {
            4
        };
        proof {
            assert(v@.take(i + 1).drop_last() =~= v@.take(i as int));
            assert(v@.take(i + 1).last() == v@[i as int]);
        }
        r = r + cl;
        i = i + 1;
    }
    proof {
        assert(v@.take(v@.len() as int) =~= v@);
    }
    r
}

/// True when `c` is a decimal digit.
pub open spec fn is_digit(c: char) -> bool {
    '0' <= c <= '9'
}

/// The numeric value of a decimal digit.
pub open spec fn digit_val(c: char) -> int {
    c as int - '0' as int
}

/// True when every character of `s[from..to]` is a decimal digit.
pub open spec fn all_digits(s: Seq<char>, from: int, to: int) -> bool {
    forall|k: int| from <= k < to ==> is_digit(#[trigger] s[k])
}

/// The value of the decimal digits `s[from..to]`, most significant first.
pub open spec fn dec_val(s: Seq<char>, from: int, to: int) -> int
    decreases to - from,
{
    if to <= from {
        0
    } else {
        dec_val(s, from, to - 1) * 10 + digit_val(s[to - 1])
    }
}

/// A digit run's value is non-negative and grows with its length.
pub proof fn lemma_dec_val_mono(s: Seq<char>, from: int, mid: int, to: int)
    requires
        from <= mid <= to,
        all_digits(s, from, to),
    ensures
        0 <= dec_val(s, from, mid) <= dec_val(s, from, to),
    decreases to - mid,
{
    if mid == to {
        lemma_dec_val_nonneg(s, from, to);
    } else {
        lemma_dec_val_mono(s, from, mid, to - 1);
        lemma_dec_val_nonneg(s, from, to - 1);
    }
}

proof fn lemma_dec_val_nonneg(s: Seq<char>, from: int, to: int)
    requires
        all_digits(s, from, to),
    ensures
        dec_val(s, from, to) >= 0,
    decreases to - from,
{
    if to > from {
        lemma_dec_val_nonneg(s, from, to - 1);
    }
}

/// The value of `s[from..to]` read as a decimal `u32`, or `None` where a
/// character is no digit or the value does not fit.
pub open spec fn parse_u32(s: Seq<char>, from: int, to: int) -> Option<u32> {
    if all_digits(s, from, to) && dec_val(s, from, to) <= u32::MAX {
        Some(dec_val(s, from, to) as u32)
    } else {
        None
    }
}

/// Reads `v[from..to]` as a decimal `u32`.
pub fn read_u32(v: &Vec<char>, from: usize, to: usize) -> (r: Option<u32>)
    requires
        from <= to <= v@.len(),
        all_digits(v@, from as int, to as int),
    ensures
        r == parse_u32(v@, from as int, to as int),
{
    let mut acc: u64 = 0;
    let mut i: usize = from;
    while i < to
        invariant
            from <= i <= to <= v@.len(),
            all_digits(v@, from as int, to as int),
            acc == dec_val(v@, from as int, i as int),
            acc <= u32::MAX,
        decreases to - i,
    {
        let c = v[i];
        proof {
            assert(is_digit(v@[i as int]));
        }
        let d: u64 = (c as u32 as u64) - ('0' as u32 as u64);
        let next: u64 = acc * 10 + d;
        i = i + 1;
        if next > u32::MAX as u64 {
            proof {
                lemma_dec_val_mono(v@, from as int, i as int, to as int);
            }
            return None;
        }
        acc = next;
    }
    Some(acc as u32)
}

/// The position of the first `c` at or after `from` in `s`, or the length
/// of `s` where there is none.
pub open spec fn find_char(s: Seq<char>, c: char, from: int) -> int
    decreases s.len() - from,
{
    if from < 0 {
        0
    } else if from >= s.len() {
        s.len() as int
    } else if s[from] == c {
        from
    } else {
        find_char(s, c, from + 1)
    }
}

/// What `find_char` returns lies between `from` and the length, and marks
/// the first occurrence.
pub proof fn lemma_find_char(s: Seq<char>, c: char, from: int)
    requires
        0 <= from <= s.len(),
    ensures
        from <= find_char(s, c, from) <= s.len(),
        find_char(s, c, from) < s.len() ==> s[find_char(s, c, from)] == c,
        forall|k: int| from <= k < find_char(s, c, from) ==> s[k] != c,
    decreases s.len() - from,
{
    if from < s.len() && s[from] != c {
        lemma_find_char(s, c, from + 1);
    }
}

/// The position of the first `c` at or after `from` in `v`.
pub fn find_char_from(v: &Vec<char>, c: char, from: usize) -> (r: usize)
    requires
        from <= v@.len(),
    ensures
        r == find_char(v@, c, from as int),
        from <= r <= v@.len(),
{
    proof {
        lemma_find_char(v@, c, from as int);
    }
    let mut i: usize = from;
    while i < v.len() && v[i] != c
        invariant
            from <= i <= v@.len(),
            find_char(v@, c, from as int) == find_char(v@, c, i as int),
        decreases v@.len() - i,
    {
        i = i + 1;
    }
    i
}

/// `s` with every occurrence of the non-empty pattern `p` removed,
/// scanning left to right without overlap, as `str::replace` with an
/// empty replacement does.
pub open spec fn remove_all(s: Seq<char>, p: Seq<char>) -> Seq<char>
    decreases s.len(),
    when p.len() > 0
{
    if s.len() == 0 {
        s
    } else if matches_at(s, 0, p) {
        remove_all(s.skip(p.len() as int), p)
    } else {
        seq![s[0]] + remove_all(s.drop_first(), p)
    }
}

/// The characters of `v` with every occurrence of `p` removed.
pub fn remove_all_chars(v: &Vec<char>, p: &Vec<char>) -> (r: Vec<char>)
    requires
        p@.len() > 0,
    ensures
        r@ == remove_all(v@, p@),
{
    let mut r: Vec<char> = Vec::new();
    let mut i: usize = 0;
    proof {
        assert(v@.skip(0) =~= v@);
    }
    while i < v.len()
        invariant
            i <= v@.len(),
            p@.len() > 0,
            remove_all(v@, p@) == r@ + remove_all(v@.skip(i as int), p@),
        decreases v@.len() - i,
    {
        let ghost tail = v@.skip(i as int);
        if check_at(v, i, p) {
            proof {
                assert(tail.len() > 0);
                assert(tail.subrange(0, p@.len() as int) =~= v@.subrange(
                    i as int,
                    i + p@.len(),
                ));
                assert(matches_at(tail, 0, p@));
                assert(tail.skip(p@.len() as int) =~= v@.skip(i + p@.len()));
            }
            i = i + p.len();
        } else {
            proof {
                if tail.len() > 0 && matches_at(tail, 0, p@) {
                    assert(tail.subrange(0, p@.len() as int) =~= v@.subrange(
                        i as int,
                        i + p@.len(),
                    ));
                }
                assert(tail.len() > 0);
                assert(tail[0] == v@[i as int]);
                assert(tail.drop_first() =~= v@.skip(i + 1));
                assert(r@ + seq![v@[i as int]] + remove_all(v@.skip(i + 1), p@) == r@
                    + remove_all(tail, p@));
            }
            r.push(v[i]);
            i = i + 1;
        }
    }
    proof {
        assert(v@.skip(v@.len() as int) =~= Seq::<char>::empty());
        assert(remove_all(Seq::<char>::empty(), p@) == Seq::<char>::empty());
        assert(r@ =~= r@ + Seq::<char>::empty());
    }
    r
}

/// `s` with each `\r\n` pair turned into a single `\n`.
pub open spec fn crlf_to_lf(s: Seq<char>) -> Seq<char>
    decreases s.len(),
{
    if s.len() == 0 {
        s
    } else if s.len() >= 2 && s[0] == '\r' && s[1] == '\n' {
        seq!['\n'] + crlf_to_lf(s.skip(2))
    } else {
        seq![s[0]] + crlf_to_lf(s.drop_first())
    }
}

/// `s` with every remaining `\r` turned into `\n`.
pub open spec fn cr_to_lf(s: Seq<char>) -> Seq<char> {
    s.map_values(|c: char| if c == '\r' { '\n' } else { c })
}

/// The characters of `v` with line endings normalized: `\r\n` and bare
/// `\r` both become `\n`.
pub fn normalize_newlines(v: &Vec<char>) -> (r: Vec<char>)
    ensures
        r@ == cr_to_lf(crlf_to_lf(v@)),
{
    let mut m: Vec<char> = Vec::new();
    let mut i: usize = 0;
    proof {
        assert(v@.skip(0) =~= v@);
    }
    while i < v.len()
        invariant
            i <= v@.len(),
            crlf_to_lf(v@) == m@ + crlf_to_lf(v@.skip(i as int)),
        decreases v@.len() - i,
    {
        let ghost tail = v@.skip(i as int);
        proof {
            assert(tail.len() > 0);
            assert(tail[0] == v@[i as int]);
            if tail.len() >= 2 {
                assert(tail[1] == v@[i + 1]);
            }
        }
        if v[i] == '\r' && i + 1 < v.len() && v[i + 1] == '\n' {
            proof {
                assert(tail.skip(2) =~= v@.skip(i + 2));
            }
            m.push('\n');
            i = i + 2;
        } else {
            proof {
                assert(tail.drop_first() =~= v@.skip(i + 1));
            }
            m.push(v[i]);
            i = i + 1;
        }
    }
    proof {
        assert(v@.skip(v@.len() as int) =~= Seq::<char>::empty());
        assert(crlf_to_lf(Seq::<char>::empty()) == Seq::<char>::empty());
        assert(m@ =~= m@ + Seq::<char>::empty());
        assert(m@ == crlf_to_lf(v@));
    }
    let mut r: Vec<char> = Vec::new();
    let mut i: usize = 0;
    while i < m.len()
        invariant
            i <= m@.len(),
            m@ == crlf_to_lf(v@),
            r@ == m@.take(i as int).map_values(|c: char| if c == '\r' { '\n' } else { c }),
        decreases m@.len() - i,
    {
        let c = m[i];
        r.push(if c == '\r' { '\n' } else { c });
        i = i + 1;
        proof {
            assert(r@ =~= m@.take(i as int).map_values(
                |c: char| if c == '\r' { '\n' } else { c },
            ));
        }
    }
    proof {
        assert(m@.take(m@.len() as int) =~= m@);
    }
    r
}

/// The pieces of `s` split at every `\n`: one piece more than there are
/// newlines, empty pieces kept.
pub open spec fn split_lines_from(s: Seq<char>, from: int) -> Seq<Seq<char>>
    decreases s.len() - from,
    when 0 <= from <= s.len()
{
    let k0 = find_char(s, '\n', from);
    let k = if k0 < from {
        from
    } else if k0 > s.len() {
        s.len() as int
    } else {
        k0
    };
    if k == s.len() {
        seq![s.subrange(from, k)]
    } else {
        seq![s.subrange(from, k)] + split_lines_from(s, k + 1)
    }
}

/// The lines of `s`: the pieces between its `\n` characters.
pub open spec fn split_lines(s: Seq<char>) -> Seq<Seq<char>> {
    split_lines_from(s, 0)
}

/// The lines of `v`, each as a vector of its own.
pub fn split_lines_chars(v: &Vec<char>) -> (r: Vec<Vec<char>>)
    ensures
        r.deep_view() == split_lines(v@),
{
    let mut r: Vec<Vec<char>> = Vec::new();
    let mut start: usize = 0;
    loop
        invariant
            start <= v@.len(),
            split_lines(v@) == r.deep_view() + split_lines_from(v@, start as int),
        decreases v@.len() - start,
    {
        let k = find_char_from(v, '\n', start);
        proof {
            lemma_find_char(v@, '\n', start as int);
        }
        let piece = vec_range(v, start, k);
        let ghost r0 = r.deep_view();
        r.push(piece);
        proof {
            assert(piece.deep_view() =~= piece@);
            assert(r.deep_view() =~~= r0 + seq![v@.subrange(start as int, k as int)]);
        }
        if k == v.len() {
            proof {
                assert(split_lines_from(v@, start as int) == seq![v@.subrange(
                    start as int,
                    k as int,
                )]);
                assert(r.deep_view() =~~= split_lines(v@));
            }
            return r;
        }
        proof {
            assert(split_lines_from(v@, start as int) == seq![v@.subrange(
                start as int,
                k as int,
            )] + split_lines_from(v@, k + 1));
            assert(r.deep_view() + split_lines_from(v@, k + 1) =~= r0 + split_lines_from(
                v@,
                start as int,
            ));
        }
        start = k + 1;
    }
}

/// True when `c` is one of the characters `str::trim` removes: the
/// Unicode white-space characters.
pub open spec fn is_space(c: char) -> bool {
    c == ' ' || c == '\t' || c == '\n' || c == '\u{B}' || c == '\u{C}' || c == '\r' || c
        == '\u{85}' || c == '\u{A0}' || c == '\u{1680}' || ('\u{2000}' <= c <= '\u{200A}') || c
        == '\u{2028}' || c == '\u{2029}' || c == '\u{202F}' || c == '\u{205F}' || c == '\u{3000}'
}

/// Decides `is_space(c)`.
pub fn check_space(c: char) -> (r: bool)
    ensures
        r == is_space(c),
{
    c == ' ' || c == '\t' || c == '\n' || c == '\u{B}' || c == '\u{C}' || c == '\r' || c
        == '\u{85}' || c == '\u{A0}' || c == '\u{1680}' || (c >= '\u{2000}' && c <= '\u{200A}') || c
        == '\u{2028}' || c == '\u{2029}' || c == '\u{202F}' || c == '\u{205F}' || c == '\u{3000}'
}

} // verus!
