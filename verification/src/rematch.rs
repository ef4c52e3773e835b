use vstd::prelude::*;

use crate::text::{chars_of, check_space, is_space, utf8_len, utf8_len_chars, vec_range};

verus! {

/// The smaller of two naturals.
pub open spec fn min2(a: nat, b: nat) -> nat {
    if a <= b {
        a
    } else {
        b
    }
}

/// The smallest of three naturals.
pub open spec fn min3(a: nat, b: nat, c: nat) -> nat {
    min2(min2(a, b), c)
}

/// The Levenshtein edit distance between two character sequences: the least
/// number of single-character insertions, deletions and substitutions that
/// turns one into the other.
pub open spec fn lev(a: Seq<char>, b: Seq<char>) -> nat
    decreases a.len() + b.len(),
{
    if a.len() == 0 {
        b.len()
    } else if b.len() == 0 {
        a.len()
    } else {
        min3(
            lev(a, b.drop_last()) + 1,
            lev(a.drop_last(), b) + 1,
            lev(a.drop_last(), b.drop_last()) + if a.last() == b.last() {
                0nat
            } else {
                1nat
            },
        )
    }
}

/// The edit distance never exceeds the longer input's length.
pub proof fn lemma_lev_le_max(a: Seq<char>, b: Seq<char>)
    ensures
        lev(a, b) <= if a.len() >= b.len() {
            a.len()
        } else {
            b.len()
        },
    decreases a.len() + b.len(),
{
    if a.len() == 0 || b.len() == 0 {
    } else {
        lemma_lev_le_max(a.drop_last(), b.drop_last());
        lemma_lev_le_max(a, b.drop_last());
        lemma_lev_le_max(a.drop_last(), b);
    }
}

/// The distance of a sequence to itself is zero.
pub proof fn lemma_lev_self(a: Seq<char>)
    ensures
        lev(a, a) == 0,
    decreases a.len(),
{
    if a.len() > 0 {
        lemma_lev_self(a.drop_last());
    }
}

/// The distance of the empty sequence to `s` is the length of `s`, counted
/// in Unicode scalar values.
pub proof fn lemma_lev_empty(s: Seq<char>)
    ensures
        lev(Seq::<char>::empty(), s) == s.len(),
        lev(s, Seq::<char>::empty()) == s.len(),
{
    if s.len() == 0 {
        assert(s =~= Seq::<char>::empty());
    }
}

/// The edit distance is symmetric.
pub proof fn lemma_lev_sym(a: Seq<char>, b: Seq<char>)
    ensures
        lev(a, b) == lev(b, a),
    decreases a.len() + b.len(),
{
    if a.len() == 0 || b.len() == 0 {
        lemma_lev_empty(a);
        lemma_lev_empty(b);
    } else {
        lemma_lev_sym(a.drop_last(), b.drop_last());
        lemma_lev_sym(a, b.drop_last());
        lemma_lev_sym(a.drop_last(), b);
    }
}

/// The Levenshtein distance over the characters of two vectors.
pub fn levenshtein_chars(a: &Vec<char>, b: &Vec<char>) -> (r: usize)
    requires
        a@.len() < usize::MAX,
        b@.len() < usize::MAX,
    ensures
        r == lev(a@, b@),
{
    let alen = a.len();
    let blen = b.len();
    let mut v0: Vec<usize> = Vec::new();
    let mut k: usize = 0;
    while k <= alen
        invariant
            k <= alen + 1,
            alen == a@.len() < usize::MAX,
            v0@.len() == k,
            forall|j: int| 0 <= j < k ==> v0@[j] == j,
        decreases alen + 1 - k,
    {
        v0.push(k);
        k = k + 1;
    }
    let mut v1: Vec<usize> = Vec::new();
    let mut k: usize = 0;
    while k <= alen
        invariant
            k <= alen + 1,
            alen == a@.len() < usize::MAX,
            v1@.len() == k,
        decreases alen + 1 - k,
    {
        v1.push(0);
        k = k + 1;
    }

    proof {
        assert forall|j: int| 0 <= j <= alen implies v0@[j] == lev(
            a@.take(j),
            b@.take(0),
        ) by {
            assert(b@.take(0) =~= Seq::<char>::empty());
            lemma_lev_empty(a@.take(j));
        }
    }

    let mut i: usize = 0;
    while i < blen
        invariant
            i <= blen,
            alen == a@.len() < usize::MAX,
            blen == b@.len() < usize::MAX,
            v0@.len() == alen + 1,
            v1@.len() == alen + 1,
            forall|j: int| 0 <= j <= alen ==> v0@[j] == lev(a@.take(j), b@.take(i as int)),
        decreases blen - i,
    {
        v1.set(0, i + 1);
        proof {
            assert(a@.take(0) =~= Seq::<char>::empty());
            lemma_lev_empty(b@.take(i + 1));
        }
        let mut j: usize = 0;
        while j < alen
            invariant
                i < blen,
                j <= alen,
                alen == a@.len() < usize::MAX,
                blen == b@.len() < usize::MAX,
                v0@.len() == alen + 1,
                v1@.len() == alen + 1,
                forall|jj: int| 0 <= jj <= alen ==> v0@[jj] == lev(a@.take(jj), b@.take(i as int)),
                forall|jj: int|
                    0 <= jj <= j ==> v1@[jj] == lev(a@.take(jj), b@.take(i + 1)),
            decreases alen - j,
        {
            proof {
                let pa = a@.take(j + 1);
                let pb = b@.take(i + 1);
                assert(pa.drop_last() =~= a@.take(j as int));
                assert(pb.drop_last() =~= b@.take(i as int));
                lemma_lev_le_max(pa, pb.drop_last());
                lemma_lev_le_max(pa.drop_last(), pb);
                lemma_lev_le_max(pa.drop_last(), pb.drop_last());
            }
            let deletion_cost = v0[j + 1] + 1;
            let insertion_cost = v1[j] + 1;
            let substitution_cost = if b[i] == a[j] {
                v0[j]
            } else {
                v0[j] + 1
            };
            let m2 = if deletion_cost <= insertion_cost {
                deletion_cost
            } else {
                insertion_cost
            };
            let m3 = if m2 <= substitution_cost {
                m2
            } else {
                substitution_cost
            };
            v1.set(j + 1, m3);
            proof {
                let pa = a@.take(j + 1);
                let pb = b@.take(i + 1);
                assert(pa.drop_last() =~= a@.take(j as int));
                assert(pb.drop_last() =~= b@.take(i as int));
                assert(pa.last() == a@[j as int]);
                assert(pb.last() == b@[i as int]);
                assert(lev(pa, pb) == min3(
                    lev(pa, pb.drop_last()) + 1,
                    lev(pa.drop_last(), pb) + 1,
                    lev(pa.drop_last(), pb.drop_last()) + if pa.last() == pb.last() {
                        0nat
                    } else {
                        1nat
                    },
                ));
            }
            j = j + 1;
        }
        let mut tmp = v0;
        v0 = v1;
        v1 = tmp;
        i = i + 1;
    }
    proof {
        assert(a@.take(alen as int) =~= a@);
        assert(b@.take(blen as int) =~= b@);
    }
    v0[alen]
}

/// The Levenshtein edit distance between two strings, counted over Unicode
/// scalar values rather than bytes.
pub fn levenshtein(a: &str, b: &str) -> (r: usize)
    requires
        a@.len() < usize::MAX,
        b@.len() < usize::MAX,
    ensures
        r == lev(a@, b@),
{
    let ac = chars_of(a);
    let bc = chars_of(b);
    levenshtein_chars(&ac, &bc)
}

/// `s` with its leading white space removed.
pub open spec fn trim_front(s: Seq<char>) -> Seq<char>
    decreases s.len(),
{
    if s.len() > 0 && is_space(s[0]) {
        trim_front(s.drop_first())
    } else {
        s
    }
}

/// `s` with its trailing white space removed.
pub open spec fn trim_back(s: Seq<char>) -> Seq<char>
    decreases s.len(),
{
    if s.len() > 0 && is_space(s.last()) {
        trim_back(s.drop_last())
    } else {
        s
    }
}

/// `s` with white space removed from both ends, as `str::trim` does.
pub open spec fn trimmed(s: Seq<char>) -> Seq<char> {
    trim_back(trim_front(s))
}

/// Trimming never makes a sequence longer.
pub proof fn lemma_trim_len(s: Seq<char>)
    ensures
        trim_front(s).len() <= s.len(),
        trim_back(s).len() <= s.len(),
        trimmed(s).len() <= s.len(),
    decreases s.len(),
{
    if s.len() > 0 {
        lemma_trim_len(s.drop_first());
        lemma_trim_len(s.drop_last());
        if !(s.len() > 0 && is_space(s[0])) {
            lemma_trim_back_of(s);
        }
    }
}

proof fn lemma_trim_back_of(s: Seq<char>)
    ensures
        trim_back(s).len() <= s.len(),
    decreases s.len(),
{
    if s.len() > 0 && is_space(s.last()) {
        lemma_trim_back_of(s.drop_last());
    }
}

/// The characters of `v` with white space removed from both ends.
pub fn trimmed_chars(v: &Vec<char>) -> (r: Vec<char>)
    ensures
        r@ == trimmed(v@),
{
    let len = v.len();
    proof {
        assert(v@.subrange(0, len as int) =~= v@);
    }
    let mut lo: usize = 0;
    while lo < len && check_space(v[lo])
        invariant
            lo <= len,
            len == v@.len(),
            trim_front(v@) == trim_front(v@.subrange(lo as int, len as int)),
        decreases len - lo,
    {
        proof {
            let s = v@.subrange(lo as int, len as int);
            assert(s[0] == v@[lo as int]);
            assert(s.drop_first() =~= v@.subrange(lo + 1, len as int));
        }
        lo = lo + 1;
    }
    proof {
        let s = v@.subrange(lo as int, len as int);
        if s.len() > 0 {
            assert(s[0] == v@[lo as int]);
        }
        assert(trim_front(v@) == s);
    }
    let mut hi: usize = len;
    while hi > lo && check_space(v[hi - 1])
        invariant
            lo <= hi <= len,
            len == v@.len(),
            trim_front(v@) == v@.subrange(lo as int, len as int),
            trim_back(v@.subrange(lo as int, len as int)) == trim_back(
                v@.subrange(lo as int, hi as int),
            ),
        decreases hi,
    {
        proof {
            let s = v@.subrange(lo as int, hi as int);
            assert(s.last() == v@[hi - 1]);
            assert(s.drop_last() =~= v@.subrange(lo as int, hi - 1));
        }
        hi = hi - 1;
    }
    proof {
        let s = v@.subrange(lo as int, hi as int);
        if s.len() > 0 {
            assert(s.last() == v@[hi - 1]);
        }
        assert(trimmed(v@) == s);
    }
    vec_range(v, lo, hi)
}

/// The normalized distance between two strings, as an exact rational: the
/// numerator is the Levenshtein distance of the trimmed strings, the
/// denominator the sum of their trimmed lengths.  A zero denominator stands
/// for the distance zero.
pub open spec fn dist_of(x: Seq<char>, y: Seq<char>) -> (nat, nat) {
    (lev(trimmed(x), trimmed(y)), (trimmed(x).len() + trimmed(y).len()) as nat)
}

/// True when the rational `d1` is strictly below `d2`, reading a zero
/// denominator as the value zero.
pub open spec fn dist_lt(d1: (nat, nat), d2: (nat, nat)) -> bool {
    if d1.1 == 0 {
        d2.1 != 0 && d2.0 > 0
    } else if d2.1 == 0 {
        false
    } else {
        d1.0 * d2.1 < d2.0 * d1.1
    }
}

/// The normalized Levenshtein distance between two strings: the edit
/// distance of the trimmed strings over the sum of their trimmed lengths,
/// returned as a (numerator, denominator) pair.  Both-empty strings give
/// denominator zero, which stands for the distance zero.
pub fn string_distance(a: &str, b: &str) -> (r: (usize, usize))
    requires
        a@.len() <= usize::MAX / 2,
        b@.len() <= usize::MAX / 2,
    ensures
        r.0 == dist_of(a@, b@).0,
        r.1 == dist_of(a@, b@).1,
{
    let ac = chars_of(a);
    let bc = chars_of(b);
    proof {
        lemma_trim_len(a@);
        lemma_trim_len(b@);
    }
    let at = trimmed_chars(&ac);
    let bt = trimmed_chars(&bc);
    let n = levenshtein_chars(&at, &bt);
    (n, at.len() + bt.len())
}

/// Decides `dist_lt` on two rationals held as machine integers.
pub fn dist_lt_exec(d1: (usize, usize), d2: (usize, usize)) -> (r: bool)
    ensures
        r == dist_lt((d1.0 as nat, d1.1 as nat), (d2.0 as nat, d2.1 as nat)),
{
    if d1.1 == 0 {
        d2.1 != 0 && d2.0 > 0
    } else if d2.1 == 0 {
        false
    } else {
        let x1 = d1.0 as u128;
        let y1 = d1.1 as u128;
        let x2 = d2.0 as u128;
        let y2 = d2.1 as u128;
        proof {
            assert(x1 * y2 <= 0xffff_ffff_ffff_ffffu128 * 0xffff_ffff_ffff_ffffu128 && x2 * y1
                <= 0xffff_ffff_ffff_ffffu128 * 0xffff_ffff_ffff_ffffu128) by (nonlinear_arith)
                requires
                    x1 <= 0xffff_ffff_ffff_ffffu128,
                    y1 <= 0xffff_ffff_ffff_ffffu128,
                    x2 <= 0xffff_ffff_ffff_ffffu128,
                    y2 <= 0xffff_ffff_ffff_ffffu128,
            ;
        }
        x1 * y2 < x2 * y1
    }
}

/// The distance between elements `i` of `a` and `j` of `b`.
pub open spec fn pair_dist(a: Seq<Seq<char>>, b: Seq<Seq<char>>, i: int, j: int) -> (nat, nat) {
    dist_of(a[i], b[j])
}

/// Scans the pairs of `a` and `b` in row-major order from `(i, j)`,
/// carrying `(bi, bj)` as the best pair seen so far; a later pair displaces
/// the best only when its distance is strictly smaller, so the first
/// minimum wins.
pub open spec fn best_from(
    a: Seq<Seq<char>>,
    b: Seq<Seq<char>>,
    i: int,
    j: int,
    bi: int,
    bj: int,
) -> (int, int)
    decreases a.len() - i, b.len() - j,
    when 0 <= i && 0 <= j && j <= b.len()
{
    if i >= a.len() {
        (bi, bj)
    } else if j >= b.len() {
        best_from(a, b, i + 1, 0, bi, bj)
    } else if dist_lt(pair_dist(a, b, i, j), pair_dist(a, b, bi, bj)) {
        best_from(a, b, i, j + 1, i, j)
    } else {
        best_from(a, b, i, j + 1, bi, bj)
    }
}

/// The first pair of `a` and `b` with the smallest distance, in row-major
/// order.
pub open spec fn best_pair(a: Seq<Seq<char>>, b: Seq<Seq<char>>) -> (int, int) {
    best_from(a, b, 0, 1, 0, 0)
}

/// True when every element of `s` is at most half of `usize::MAX`
/// characters long, so that a pair of lengths can be added without
/// overflow.
pub open spec fn lens_bounded(s: Seq<Seq<char>>) -> bool {
    forall|i: int| 0 <= i < s.len() ==> (#[trigger] s[i]).len() <= usize::MAX / 2
}

/// The distance between `a[i]` and `b[j]`, as machine integers.
fn compute_pair_dist(a: &Vec<String>, b: &Vec<String>, i: usize, j: usize) -> (r: (usize, usize))
    requires
        i < a@.len(),
        j < b@.len(),
        lens_bounded(a.deep_view()),
        lens_bounded(b.deep_view()),
    ensures
        r.0 == pair_dist(a.deep_view(), b.deep_view(), i as int, j as int).0,
        r.1 == pair_dist(a.deep_view(), b.deep_view(), i as int, j as int).1,
{
    proof {
        assert(a.deep_view()[i as int] == a@[i as int]@);
        assert(b.deep_view()[j as int] == b@[j as int]@);
    }
    string_distance(a[i].as_str(), b[j].as_str())
}

/// The best-matching pair of the slices `a[alo..ahi]` and `b[blo..bhi]`:
/// the row-major-first pair at the smallest normalized distance, returned
/// as absolute indices into `a` and `b`.
pub fn find_best_pair(
    a: &Vec<String>,
    b: &Vec<String>,
    alo: usize,
    ahi: usize,
    blo: usize,
    bhi: usize,
) -> (r: (usize, usize))
    requires
        alo < ahi <= a@.len(),
        blo < bhi <= b@.len(),
        lens_bounded(a.deep_view()),
        lens_bounded(b.deep_view()),
    ensures
        alo <= r.0 < ahi,
        blo <= r.1 < bhi,
        (r.0 - alo, r.1 - blo) == best_pair(
            a.deep_view().subrange(alo as int, ahi as int),
            b.deep_view().subrange(blo as int, bhi as int),
        ),
{
    let ghost sa = a.deep_view().subrange(alo as int, ahi as int);
    let ghost sb = b.deep_view().subrange(blo as int, bhi as int);
    let mut bi: usize = alo;
    let mut bj: usize = blo;
    let mut bd: (usize, usize) = compute_pair_dist(a, b, alo, blo);
    proof {
        assert(sa[0] == a.deep_view()[alo as int]);
        assert(sb[0] == b.deep_view()[blo as int]);
    }
    let mut i: usize = alo;
    let mut j: usize = blo + 1;
    while j < bhi
        invariant
            i == alo,
            alo < ahi <= a@.len(),
            blo < j <= bhi <= b@.len(),
            alo <= bi < ahi,
            blo <= bj < bhi,
            lens_bounded(a.deep_view()),
            lens_bounded(b.deep_view()),
            sa == a.deep_view().subrange(alo as int, ahi as int),
            sb == b.deep_view().subrange(blo as int, bhi as int),
            bd.0 == pair_dist(sa, sb, bi - alo, bj - blo).0,
            bd.1 == pair_dist(sa, sb, bi - alo, bj - blo).1,
            best_pair(sa, sb) == best_from(
                sa,
                sb,
                i - alo,
                j - blo,
                bi - alo,
                bj - blo,
            ),
        decreases bhi - j,
    {
        let d = compute_pair_dist(a, b, i, j);
        proof {
            assert(sa[i - alo] == a.deep_view()[i as int]);
            assert(sb[j - blo] == b.deep_view()[j as int]);
        }
        if dist_lt_exec(d, bd) {
            bi = i;
            bj = j;
            bd = d;
        }
        j = j + 1;
    }
    let mut i: usize = alo + 1;
    while i < ahi
        invariant
            alo < i <= ahi <= a@.len(),
            blo < bhi <= b@.len(),
            alo <= bi < ahi,
            blo <= bj < bhi,
            lens_bounded(a.deep_view()),
            lens_bounded(b.deep_view()),
            sa == a.deep_view().subrange(alo as int, ahi as int),
            sb == b.deep_view().subrange(blo as int, bhi as int),
            bd.0 == pair_dist(sa, sb, bi - alo, bj - blo).0,
            bd.1 == pair_dist(sa, sb, bi - alo, bj - blo).1,
            best_pair(sa, sb) == best_from(
                sa,
                sb,
                i - alo,
                0,
                bi - alo,
                bj - blo,
            ),
        decreases ahi - i,
    {
        let mut j: usize = blo;
        while j < bhi
            invariant
                alo < i < ahi <= a@.len(),
                blo <= j <= bhi <= b@.len(),
                alo <= bi < ahi,
                blo <= bj < bhi,
                lens_bounded(a.deep_view()),
                lens_bounded(b.deep_view()),
                sa == a.deep_view().subrange(alo as int, ahi as int),
                sb == b.deep_view().subrange(blo as int, bhi as int),
                bd.0 == pair_dist(sa, sb, bi - alo, bj - blo).0,
                bd.1 == pair_dist(sa, sb, bi - alo, bj - blo).1,
                best_pair(sa, sb) == best_from(
                    sa,
                    sb,
                    i - alo,
                    j - blo,
                    bi - alo,
                    bj - blo,
                ),
            decreases bhi - j,
        {
            let d = compute_pair_dist(a, b, i, j);
            proof {
                assert(sa[i - alo] == a.deep_view()[i as int]);
                assert(sb[j - blo] == b.deep_view()[j as int]);
            }
            if dist_lt_exec(d, bd) {
                bi = i;
                bj = j;
                bd = d;
            }
            j = j + 1;
        }
        i = i + 1;
    }
    (bi, bj)
}

/// `x` clamped into `[0, hi]`.
pub open spec fn clip(x: int, hi: int) -> int {
    if x < 0 {
        0
    } else if x > hi {
        hi
    } else {
        x
    }
}

/// The groups the line matcher produces for `a` and `b`: it finds the
/// best-matching pair, splits both sequences around it, and recurses on
/// the left and right remainders; sequences too small to split, or with
/// one side empty, stay together as a single group.
pub open spec fn spec_match(a: Seq<Seq<char>>, b: Seq<Seq<char>>) -> Seq<
    (Seq<Seq<char>>, Seq<Seq<char>>),
>
    decreases a.len() + b.len(),
{
    if a.len() == 0 || b.len() == 0 || a.len() + b.len() < 3 {
        seq![(a, b)]
    } else {
        let p = best_pair(a, b);
        let bi = clip(p.0, a.len() - 1);
        let bj = clip(p.1, b.len() - 1);
        let mid = seq![(seq![a[bi]], seq![b[bj]])];
        let left = if bi > 0 || bj > 0 {
            spec_match(a.take(bi), b.take(bj))
        } else {
            Seq::empty()
        };
        let right = if a.len() > bi + 1 || b.len() > bj + 1 {
            spec_match(a.skip(bi + 1), b.skip(bj + 1))
        } else {
            Seq::empty()
        };
        left + mid + right
    }
}

/// The elements `v[lo..hi]`, cloned into a vector of their own.
fn clone_range(v: &Vec<String>, lo: usize, hi: usize) -> (r: Vec<String>)
    requires
        lo <= hi <= v@.len(),
    ensures
        r.deep_view() == v.deep_view().subrange(lo as int, hi as int),
{
    let mut r: Vec<String> = Vec::new();
    let mut i: usize = lo;
    while i < hi
        invariant
            lo <= i <= hi <= v@.len(),
            r@.len() == i - lo,
            forall|k: int| 0 <= k < r@.len() ==> r@[k] == v@[lo + k],
        decreases hi - i,
    {
        r.push(v[i].clone());
        i = i + 1;
    }
    proof {
        assert forall|k: int| 0 <= k < r@.len() implies r.deep_view()[k] == v.deep_view().subrange(
            lo as int,
            hi as int,
        )[k] by {
            assert(r@[k] == v@[lo + k]);
        }
        assert(r.deep_view() =~= v.deep_view().subrange(lo as int, hi as int));
    }
    r
}

/// Matches `a[alo..ahi]` against `b[blo..bhi]` and appends the resulting
/// groups to `acc`.
fn group_rec(
    a: &Vec<String>,
    b: &Vec<String>,
    alo: usize,
    ahi: usize,
    blo: usize,
    bhi: usize,
    acc: &mut Vec<(Vec<String>, Vec<String>)>,
)
    requires
        alo <= ahi <= a@.len(),
        blo <= bhi <= b@.len(),
        lens_bounded(a.deep_view()),
        lens_bounded(b.deep_view()),
    ensures
        final(acc).deep_view() == old(acc).deep_view() + spec_match(
            a.deep_view().subrange(alo as int, ahi as int),
            b.deep_view().subrange(blo as int, bhi as int),
        ),
    decreases (ahi - alo) + (bhi - blo),
{
    let ghost sa = a.deep_view().subrange(alo as int, ahi as int);
    let ghost sb = b.deep_view().subrange(blo as int, bhi as int);
    if alo == ahi || blo == bhi || ((ahi - alo) as u128) + ((bhi - blo) as u128) < 3 {
        let ga = clone_range(a, alo, ahi);
        let gb = clone_range(b, blo, bhi);
        acc.push((ga, gb));
        proof {
            assert(final(acc).deep_view() =~~= old(acc).deep_view() + spec_match(sa, sb));
        }
        return;
    }
    let r = find_best_pair(a, b, alo, ahi, blo, bhi);
    let bi = r.0;
    let bj = r.1;
    let ghost rbi = bi - alo;
    let ghost rbj = bj - blo;
    proof {
        assert(clip(rbi, sa.len() - 1) == rbi);
        assert(clip(rbj, sb.len() - 1) == rbj);
    }
    let ghost acc0 = acc.deep_view();
    if bi > alo || bj > blo {
        group_rec(a, b, alo, bi, blo, bj, acc);
        proof {
            assert(a.deep_view().subrange(alo as int, bi as int) =~= sa.take(rbi));
            assert(b.deep_view().subrange(blo as int, bj as int) =~= sb.take(rbj));
        }
    }
    let ghost acc1 = acc.deep_view();
    let mut ma: Vec<String> = Vec::new();
    ma.push(a[bi].clone());
    let mut mb: Vec<String> = Vec::new();
    mb.push(b[bj].clone());
    acc.push((ma, mb));
    proof {
        assert(sa[rbi] == a.deep_view()[bi as int]);
        assert(sb[rbj] == b.deep_view()[bj as int]);
        assert(acc.deep_view() =~~= acc1 + seq![(seq![sa[rbi]], seq![sb[rbj]])]);
    }
    let ghost acc2 = acc.deep_view();
    if ahi > bi + 1 || bhi > bj + 1 {
        group_rec(a, b, bi + 1, ahi, bj + 1, bhi, acc);
        proof {
            assert(a.deep_view().subrange(bi + 1, ahi as int) =~= sa.skip(rbi + 1));
            assert(b.deep_view().subrange(bj + 1, bhi as int) =~= sb.skip(rbj + 1));
        }
    }
    proof {
        assert(final(acc).deep_view() =~~= acc0 + spec_match(sa, sb));
    }
}

/// Groups two ordered sequences of lines into aligned (old, new) pairs by
/// recursively pairing the most similar lines; the concatenation of the
/// groups reconstructs both inputs in order.
pub fn match_lines(a: &Vec<String>, b: &Vec<String>) -> (r: Vec<(Vec<String>, Vec<String>)>)
    requires
        lens_bounded(a.deep_view()),
        lens_bounded(b.deep_view()),
    ensures
        r.deep_view() == spec_match(a.deep_view(), b.deep_view()),
{
    let mut acc: Vec<(Vec<String>, Vec<String>)> = Vec::new();
    proof {
        assert(a.deep_view().subrange(0, a.deep_view().len() as int) =~= a.deep_view());
        assert(b.deep_view().subrange(0, b.deep_view().len() as int) =~= b.deep_view());
    }
    group_rec(a, b, 0, a.len(), 0, b.len(), &mut acc);
    proof {
        assert(acc.deep_view() =~~= spec_match(a.deep_view(), b.deep_view()));
    }
    acc
}

/// Limits on the line matcher, guarding its quadratic cost.
#[derive(Debug, Clone)]
pub struct MatchConfig {
    /// The matcher gives up when the number of pairs to compare exceeds
    /// this bound.
    pub max_comparisons: usize,
    /// The matcher gives up when any line is longer than this many bytes.
    pub max_line_size: usize,
}

impl Default for MatchConfig {
    fn default() -> (r: Self)
        ensures
            r.max_comparisons == 2500,
            r.max_line_size == 200,
    {
        MatchConfig { max_comparisons: 2500, max_line_size: 200 }
    }
}

/// True when matching `a` against `b` would exceed the given limits:
/// too many pairs, or a line longer than `maxs` bytes.
pub open spec fn too_costly(a: Seq<Seq<char>>, b: Seq<Seq<char>>, maxc: int, maxs: int) -> bool {
    ||| a.len() * b.len() > maxc
    ||| exists|i: int| 0 <= i < a.len() && utf8_len(#[trigger] a[i]) > maxs
    ||| exists|i: int| 0 <= i < b.len() && utf8_len(#[trigger] b[i]) > maxs
}

/// The groups the bounded matcher produces: the plain matching where it is
/// affordable, and the two sequences as one unsplit group where not.
pub open spec fn spec_match_limited(
    a: Seq<Seq<char>>,
    b: Seq<Seq<char>>,
    maxc: int,
    maxs: int,
) -> Seq<(Seq<Seq<char>>, Seq<Seq<char>>)> {
    if too_costly(a, b, maxc, maxs) {
        seq![(a, b)]
    } else {
        spec_match(a, b)
    }
}

/// True when some line of `v` is longer than `maxs` bytes.
fn any_line_longer(v: &Vec<String>, maxs: usize) -> (r: bool)
    ensures
        r == exists|i: int|
            0 <= i < v.deep_view().len() && utf8_len(#[trigger] v.deep_view()[i]) > maxs,
{
    let mut i: usize = 0;
    while i < v.len()
        invariant
            i <= v@.len(),
            forall|j: int| 0 <= j < i ==> utf8_len(#[trigger] v.deep_view()[j]) <= maxs,
        decreases v@.len() - i,
    {
        let cs = chars_of(v[i].as_str());
        if utf8_len_chars(&cs) > maxs as u128 {
            proof {
                assert(v.deep_view()[i as int] == v@[i as int]@);
            }
            return true;
        }
        i = i + 1;
    }
    false
}

/// The line matcher under the given limits: where the pair count or a line
/// length exceeds them, the two sequences come back as one unsplit group.
pub fn match_lines_with_config(
    a: &Vec<String>,
    b: &Vec<String>,
    config: &MatchConfig,
) -> (r: Vec<(Vec<String>, Vec<String>)>)
    requires
        lens_bounded(a.deep_view()),
        lens_bounded(b.deep_view()),
    ensures
        r.deep_view() == spec_match_limited(
            a.deep_view(),
            b.deep_view(),
            config.max_comparisons as int,
            config.max_line_size as int,
        ),
{
    let an = a.len();
    let bn = b.len();
    proof {
        assert((an as u128) * (bn as u128) <= 0xffff_ffff_ffff_ffffu128
            * 0xffff_ffff_ffff_ffffu128 && (an as u128) * (bn as u128) == a.deep_view().len()
            * b.deep_view().len()) by (nonlinear_arith)
            requires
                an as u128 <= 0xffff_ffff_ffff_ffffu128,
                bn as u128 <= 0xffff_ffff_ffff_ffffu128,
                an == a.deep_view().len(),
                bn == b.deep_view().len(),
        ;
    }
    let pairs = (an as u128) * (bn as u128);
    if pairs > config.max_comparisons as u128 || any_line_longer(a, config.max_line_size)
        || any_line_longer(b, config.max_line_size) {
        let ga = clone_range(a, 0, a.len());
        let gb = clone_range(b, 0, b.len());
        let mut r: Vec<(Vec<String>, Vec<String>)> = Vec::new();
        r.push((ga, gb));
        proof {
            assert(a.deep_view().subrange(0, a.deep_view().len() as int) =~= a.deep_view());
            assert(b.deep_view().subrange(0, b.deep_view().len() as int) =~= b.deep_view());
            assert(r.deep_view() =~~= seq![(a.deep_view(), b.deep_view())]);
        }
        r
    } else {
        match_lines(a, b)
    }
}

/// The old-side lines of a group list, concatenated in order.
pub open spec fn flat_olds(gs: Seq<(Seq<Seq<char>>, Seq<Seq<char>>)>) -> Seq<Seq<char>>
    decreases gs.len(),
{
    if gs.len() == 0 {
        Seq::empty()
    } else {
        gs[0].0 + flat_olds(gs.drop_first())
    }
}

/// The new-side lines of a group list, concatenated in order.
pub open spec fn flat_news(gs: Seq<(Seq<Seq<char>>, Seq<Seq<char>>)>) -> Seq<Seq<char>>
    decreases gs.len(),
{
    if gs.len() == 0 {
        Seq::empty()
    } else {
        gs[0].1 + flat_news(gs.drop_first())
    }
}

proof fn lemma_flat_single(g: (Seq<Seq<char>>, Seq<Seq<char>>))
    ensures
        flat_olds(seq![g]) == g.0,
        flat_news(seq![g]) == g.1,
{
    let gs = seq![g];
    assert(gs.drop_first() =~= Seq::<(Seq<Seq<char>>, Seq<Seq<char>>)>::empty());
    assert(flat_olds(gs.drop_first()) == Seq::<Seq<char>>::empty());
    assert(flat_news(gs.drop_first()) == Seq::<Seq<char>>::empty());
    assert(flat_olds(gs) =~= g.0);
    assert(flat_news(gs) =~= g.1);
}

proof fn lemma_flat_append(
    g1: Seq<(Seq<Seq<char>>, Seq<Seq<char>>)>,
    g2: Seq<(Seq<Seq<char>>, Seq<Seq<char>>)>,
)
    ensures
        flat_olds(g1 + g2) == flat_olds(g1) + flat_olds(g2),
        flat_news(g1 + g2) == flat_news(g1) + flat_news(g2),
    decreases g1.len(),
{
    if g1.len() == 0 {
        assert(g1 + g2 =~= g2);
        assert(flat_olds(g1) + flat_olds(g2) =~= flat_olds(g2));
        assert(flat_news(g1) + flat_news(g2) =~= flat_news(g2));
    } else {
        assert((g1 + g2).drop_first() =~= g1.drop_first() + g2);
        lemma_flat_append(g1.drop_first(), g2);
        assert((g1 + g2)[0] == g1[0]);
        assert(flat_olds(g1 + g2) =~= flat_olds(g1) + flat_olds(g2));
        assert(flat_news(g1 + g2) =~= flat_news(g1) + flat_news(g2));
    }
}

/// Law: the concatenation of the matcher's groups, in order, reconstructs
/// both input sequences exactly, for every input.
pub proof fn lemma_match_reconstructs(a: Seq<Seq<char>>, b: Seq<Seq<char>>)
    ensures
        flat_olds(spec_match(a, b)) == a,
        flat_news(spec_match(a, b)) == b,
    decreases a.len() + b.len(),
{
    if a.len() == 0 || b.len() == 0 || a.len() + b.len() < 3 {
        lemma_flat_single((a, b));
    } else {
        let p = best_pair(a, b);
        let bi = clip(p.0, a.len() - 1);
        let bj = clip(p.1, b.len() - 1);
        let mid = seq![(seq![a[bi]], seq![b[bj]])];
        let left = if bi > 0 || bj > 0 {
            spec_match(a.take(bi), b.take(bj))
        } else {
            Seq::<(Seq<Seq<char>>, Seq<Seq<char>>)>::empty()
        };
        let right = if a.len() > bi + 1 || b.len() > bj + 1 {
            spec_match(a.skip(bi + 1), b.skip(bj + 1))
        } else {
            Seq::<(Seq<Seq<char>>, Seq<Seq<char>>)>::empty()
        };
        if bi > 0 || bj > 0 {
            lemma_match_reconstructs(a.take(bi), b.take(bj));
        }
        if a.len() > bi + 1 || b.len() > bj + 1 {
            lemma_match_reconstructs(a.skip(bi + 1), b.skip(bj + 1));
        }
        lemma_flat_append(left, mid);
        lemma_flat_append(left + mid, right);
        lemma_flat_single((seq![a[bi]], seq![b[bj]]));
        if bi > 0 || bj > 0 {
            assert(flat_olds(left) == a.take(bi));
        } else {
            assert(flat_olds(left) =~= a.take(bi));
        }
        if a.len() > bi + 1 || b.len() > bj + 1 {
            assert(flat_olds(right) == a.skip(bi + 1));
        } else {
            assert(flat_olds(right) =~= a.skip(bi + 1));
        }
        assert(spec_match(a, b) == left + mid + right);
        assert(flat_olds(spec_match(a, b)) =~= a.take(bi) + seq![a[bi]] + a.skip(bi + 1));
        assert(a.take(bi) + seq![a[bi]] + a.skip(bi + 1) =~= a);
        if bi > 0 || bj > 0 {
            assert(flat_news(left) == b.take(bj));
        } else {
            assert(flat_news(left) =~= b.take(bj));
        }
        if a.len() > bi + 1 || b.len() > bj + 1 {
            assert(flat_news(right) == b.skip(bj + 1));
        } else {
            assert(flat_news(right) =~= b.skip(bj + 1));
        }
        assert(flat_news(spec_match(a, b)) =~= b.take(bj) + seq![b[bj]] + b.skip(bj + 1));
        assert(b.take(bj) + seq![b[bj]] + b.skip(bj + 1) =~= b);
    }
}

/// Law: the bounded matcher reconstructs its inputs as well, whether or
/// not the limits cut the matching short.
pub proof fn lemma_match_limited_reconstructs(
    a: Seq<Seq<char>>,
    b: Seq<Seq<char>>,
    maxc: int,
    maxs: int,
)
    ensures
        flat_olds(spec_match_limited(a, b, maxc, maxs)) == a,
        flat_news(spec_match_limited(a, b, maxc, maxs)) == b,
{
    if too_costly(a, b, maxc, maxs) {
        lemma_flat_single((a, b));
    } else {
        lemma_match_reconstructs(a, b);
    }
}

} // verus!

