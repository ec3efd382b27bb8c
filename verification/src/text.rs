//! Byte classes and line-scanning primitives shared by the parsers and the
//! context resolver: whitespace runs, identifier tokens, substring search,
//! and splitting a file's content into lines.

use vstd::prelude::*;

verus! {

/// Horizontal tab.
pub const TAB: u8 = 9;

/// Space.
pub const SPACE: u8 = 32;

/// The sigil that marks a component name.
pub const SIGIL: u8 = 36;

/// True for the ASCII whitespace bytes (the set a trimming pass removes).
pub open spec fn is_ws_byte(b: u8) -> bool {
    b == 9 || b == 10 || b == 11 || b == 12 || b == 13 || b == 32
}

/// True for bytes that may start an identifier: letters and underscore.
pub open spec fn is_ident_start_byte(b: u8) -> bool {
    (65 <= b && b <= 90) || (97 <= b && b <= 122) || b == 95
}

/// True for bytes that may continue an identifier: letters, digits,
/// underscore, `?` and `*`.
pub open spec fn is_ident_cont_byte(b: u8) -> bool {
    is_ident_start_byte(b) || (48 <= b && b <= 57) || b == 63 || b == 42
}

/// True for word bytes: letters, digits and underscore.
pub open spec fn is_word_byte(b: u8) -> bool {
    (65 <= b && b <= 90) || (97 <= b && b <= 122) || (48 <= b && b <= 57) || b == 95
}

pub fn byte_is_ws(b: u8) -> (r: bool)
    ensures
        r == is_ws_byte(b),
{
    b == 9 || b == 10 || b == 11 || b == 12 || b == 13 || b == 32
}

pub fn byte_is_ident_start(b: u8) -> (r: bool)
    ensures
        r == is_ident_start_byte(b),
{
    (65 <= b && b <= 90) || (97 <= b && b <= 122) || b == 95
}

pub fn byte_is_ident_cont(b: u8) -> (r: bool)
    ensures
        r == is_ident_cont_byte(b),
{
    byte_is_ident_start(b) || (48 <= b && b <= 57) || b == 63 || b == 42
}

pub fn byte_is_word(b: u8) -> (r: bool)
    ensures
        r == is_word_byte(b),
{
    (65 <= b && b <= 90) || (97 <= b && b <= 122) || (48 <= b && b <= 57) || b == 95
}

/// Index of the first non-whitespace byte in `s[i..end]`, or `end`.
pub open spec fn skip_ws(s: Seq<u8>, i: int, end: int) -> int
    decreases end - i,
{
    if i < end && is_ws_byte(s[i]) {
        skip_ws(s, i + 1, end)
    } else {
        i
    }
}

/// Smallest index `e` such that every byte of `s[e..j]` is whitespace and
/// either `e == start` or `s[e - 1]` is not whitespace: the end of the
/// region `s[start..j]` once trailing whitespace is trimmed.
pub open spec fn rskip_ws(s: Seq<u8>, start: int, j: int) -> int
    decreases j - start,
{
    if start < j && is_ws_byte(s[j - 1]) {
        rskip_ws(s, start, j - 1)
    } else {
        j
    }
}

/// Index of the first whitespace byte in `s[i..end]`, or `end`.
pub open spec fn skip_non_ws(s: Seq<u8>, i: int, end: int) -> int
    decreases end - i,
{
    if i < end && !is_ws_byte(s[i]) {
        skip_non_ws(s, i + 1, end)
    } else {
        i
    }
}

/// Index of the first byte in `s[i..end]` that cannot continue an
/// identifier, or `end`.
pub open spec fn skip_ident_cont(s: Seq<u8>, i: int, end: int) -> int
    decreases end - i,
{
    if i < end && is_ident_cont_byte(s[i]) {
        skip_ident_cont(s, i + 1, end)
    } else {
        i
    }
}

/// Index of the first non-word byte in `s[i..end]`, or `end`.
pub open spec fn skip_word(s: Seq<u8>, i: int, end: int) -> int
    decreases end - i,
{
    if i < end && is_word_byte(s[i]) {
        skip_word(s, i + 1, end)
    } else {
        i
    }
}

pub proof fn lemma_skip_non_ws_bounds(s: Seq<u8>, i: int, end: int)
    requires
        0 <= i <= end <= s.len(),
    ensures
        i <= skip_non_ws(s, i, end) <= end,
        skip_non_ws(s, i, end) < end ==> is_ws_byte(s[skip_non_ws(s, i, end)]),
        forall|j: int| i <= j < skip_non_ws(s, i, end) ==> !is_ws_byte(s[j]),
    decreases end - i,
{
    if i < end && !is_ws_byte(s[i]) {
        lemma_skip_non_ws_bounds(s, i + 1, end);
    }
}

pub proof fn lemma_skip_word_bounds(s: Seq<u8>, i: int, end: int)
    requires
        0 <= i <= end <= s.len(),
    ensures
        i <= skip_word(s, i, end) <= end,
    decreases end - i,
{
    if i < end && is_word_byte(s[i]) {
        lemma_skip_word_bounds(s, i + 1, end);
    }
}

pub fn find_non_ws(v: &Vec<u8>, from: usize, end: usize) -> (r: usize)
    requires
        from <= end <= v.len(),
    ensures
        r == skip_ws(v@, from as int, end as int),
        from <= r <= end,
{
    let mut i = from;
    while i < end && byte_is_ws(v[i])
        invariant
            from <= i <= end <= v.len(),
            skip_ws(v@, from as int, end as int) == skip_ws(v@, i as int, end as int),
        decreases end - i,
    {
        i = i + 1;
    }
    i
}

pub fn rfind_non_ws(v: &Vec<u8>, start: usize, to: usize) -> (r: usize)
    requires
        start <= to <= v.len(),
    ensures
        r == rskip_ws(v@, start as int, to as int),
        start <= r <= to,
{
    let mut j = to;
    while j > start && byte_is_ws(v[j - 1])
        invariant
            start <= j <= to <= v.len(),
            rskip_ws(v@, start as int, to as int) == rskip_ws(v@, start as int, j as int),
        decreases j,
    {
        j = j - 1;
    }
    j
}

pub fn find_ws(v: &Vec<u8>, from: usize, end: usize) -> (r: usize)
    requires
        from <= end <= v.len(),
    ensures
        r == skip_non_ws(v@, from as int, end as int),
        from <= r <= end,
{
    let mut i = from;
    while i < end && !byte_is_ws(v[i])
        invariant
            from <= i <= end <= v.len(),
            skip_non_ws(v@, from as int, end as int) == skip_non_ws(v@, i as int, end as int),
        decreases end - i,
    {
        i = i + 1;
    }
    i
}

pub fn find_non_ident_cont(v: &Vec<u8>, from: usize, end: usize) -> (r: usize)
    requires
        from <= end <= v.len(),
    ensures
        r == skip_ident_cont(v@, from as int, end as int),
        from <= r <= end,
{
    let mut i = from;
    while i < end && byte_is_ident_cont(v[i])
        invariant
            from <= i <= end <= v.len(),
            skip_ident_cont(v@, from as int, end as int) == skip_ident_cont(v@, i as int, end as int),
        decreases end - i,
    {
        i = i + 1;
    }
    i
}

pub fn find_non_word(v: &Vec<u8>, from: usize, end: usize) -> (r: usize)
    requires
        from <= end <= v.len(),
    ensures
        r == skip_word(v@, from as int, end as int),
        from <= r <= end,
{
    let mut i = from;
    while i < end && byte_is_word(v[i])
        invariant
            from <= i <= end <= v.len(),
            skip_word(v@, from as int, end as int) == skip_word(v@, i as int, end as int),
        decreases end - i,
    {
        i = i + 1;
    }
    i
}

/// Copy of the bytes `v[from..to]`.
pub fn copy_range(v: &Vec<u8>, from: usize, to: usize) -> (r: Vec<u8>)
    requires
        from <= to <= v.len(),
    ensures
        r@ == v@.subrange(from as int, to as int),
{
    let mut r: Vec<u8> = Vec::new();
    let mut i = from;
    while i < to
        invariant
            from <= i <= to <= v.len(),
            r@ == v@.subrange(from as int, i as int),
        decreases to - i,
    {
        r.push(v[i]);
        proof {
            assert(r@ =~= v@.subrange(from as int, i as int + 1));
        }
        i = i + 1;
    }
    r
}

/// Byte-wise equality of two byte vectors.
pub fn bytes_eq(a: &Vec<u8>, b: &Vec<u8>) -> (r: bool)
    ensures
        r == (a@ == b@),
{
    if a.len() != b.len() {
        return false;
    }
    let n = a.len();
    let mut i: usize = 0;
    while i < n
        invariant
            0 <= i <= n,
            n == a.len() == b.len(),
            forall|j: int| 0 <= j < i ==> a@[j] == b@[j],
        decreases n - i,
    {
        if a[i] != b[i] {
            return false;
        }
        i = i + 1;
    }
    proof {
        assert(a@ =~= b@);
    }
    true
}

/// Copy of a whole byte vector.
pub fn copy_bytes(v: &Vec<u8>) -> (r: Vec<u8>)
    ensures
        r@ == v@,
{
    let r = copy_range(v, 0, v.len());
    proof {
        assert(v@.subrange(0, v@.len() as int) =~= v@);
    }
    r
}

/// The mathematical view of a sequence of byte vectors: each element
/// replaced by its own view.
pub open spec fn views_of(v: Seq<Vec<u8>>) -> Seq<Seq<u8>> {
    Seq::new(v.len(), |i: int| v[i]@)
}

/// Index of the first line feed at or after `i`, or the length of `s`.
pub open spec fn line_break(s: Seq<u8>, i: int) -> int
    decreases s.len() - i,
{
    if 0 <= i < s.len() {
        if s[i] == 10 {
            i
        } else {
            line_break(s, i + 1)
        }
    } else {
        s.len() as int
    }
}

pub proof fn lemma_line_break_bounds(s: Seq<u8>, i: int)
    requires
        0 <= i <= s.len(),
    ensures
        i <= line_break(s, i) <= s.len(),
        line_break(s, i) < s.len() ==> s[line_break(s, i)] == 10,
        forall|j: int| i <= j < line_break(s, i) ==> s[j] != 10,
    decreases s.len() - i,
{
    if i < s.len() && s[i] != 10 {
        lemma_line_break_bounds(s, i + 1);
    }
}

/// End of the line that starts at `i`, with a carriage return stripped
/// when the line is terminated by a carriage return plus line feed pair.
pub open spec fn line_text_end(s: Seq<u8>, i: int) -> int {
    let e = line_break(s, i);
    if e < s.len() && e > i && s[e - 1] == 13 {
        e - 1
    } else {
        e
    }
}

/// The lines of `s[i..]`: split at line feeds, a carriage return before a
/// line feed stripped, and no empty line produced after a final line feed.
pub open spec fn spec_lines(s: Seq<u8>, i: int) -> Seq<Seq<u8>>
    decreases s.len() + 1 - i,
    via spec_lines_dec
{
    if 0 <= i < s.len() {
        seq![s.subrange(i, line_text_end(s, i))] + spec_lines(s, line_break(s, i) + 1)
    } else {
        Seq::empty()
    }
}

#[via_fn]
proof fn spec_lines_dec(s: Seq<u8>, i: int) {
    if 0 <= i < s.len() {
        lemma_line_break_bounds(s, i);
    }
}

/// Split a file's content into its lines.
pub fn split_lines(content: &Vec<u8>) -> (r: Vec<Vec<u8>>)
    ensures
        views_of(r@) == spec_lines(content@, 0),
{
    let mut r: Vec<Vec<u8>> = Vec::new();
    let mut i: usize = 0;
    let n = content.len();
    proof {
        assert(views_of(r@) =~= Seq::<Seq<u8>>::empty());
    }
    while i < n
        invariant
            0 <= i <= n,
            n == content.len(),
            spec_lines(content@, 0) == views_of(r@) + spec_lines(content@, i as int),
        decreases n - i,
    {
        let ghost i0 = i as int;
        proof {
            lemma_line_break_bounds(content@, i as int);
        }
        let mut e = i;
        while e < n && content[e] != 10
            invariant
                i <= e <= n,
                n == content.len(),
                line_break(content@, i as int) == line_break(content@, e as int),
            decreases n - e,
        {
            e = e + 1;
        }
        assert(e == line_break(content@, i as int));
        let t = if e < n && e > i && content[e - 1] == 13 {
            e - 1
        } else {
            e
        };
        assert(t == line_text_end(content@, i as int));
        let line = copy_range(content, i, t);
        let ghost rv0 = r@;
        r.push(line);
        proof {
            assert(views_of(r@) =~= views_of(rv0).push(content@.subrange(i0, t as int)));
        }
        if e == n {
            i = n;
            proof {
                assert(spec_lines(content@, line_break(content@, i0) + 1) =~= Seq::<
                    Seq<u8>,
                >::empty());
                assert(views_of(r@) + spec_lines(content@, i as int) =~= views_of(rv0) + spec_lines(
                    content@,
                    i0,
                ));
            }
        } else {
            i = e + 1;
            proof {
                assert(views_of(r@) + spec_lines(content@, i as int) =~= views_of(rv0) + spec_lines(
                    content@,
                    i0,
                ));
            }
        }
    }
    proof {
        assert(spec_lines(content@, i as int) =~= Seq::<Seq<u8>>::empty());
        assert(views_of(r@) =~= views_of(r@) + spec_lines(content@, i as int));
    }
    r
}

/// True when the byte `b` occurs in `s[lo..hi]`.
pub open spec fn contains_byte_in(s: Seq<u8>, lo: int, hi: int, b: u8) -> bool {
    exists|p: int| #![trigger s[p]] lo <= p < hi && s[p] == b
}

pub fn find_byte_in(v: &Vec<u8>, lo: usize, hi: usize, b: u8) -> (r: bool)
    requires
        lo <= hi <= v.len(),
    ensures
        r == contains_byte_in(v@, lo as int, hi as int, b),
{
    let mut p = lo;
    while p < hi
        invariant
            lo <= p <= hi <= v.len(),
            forall|q: int| #![trigger v@[q]] lo <= q < p ==> v@[q] != b,
        decreases hi - p,
    {
        if v[p] == b {
            return true;
        }
        p = p + 1;
    }
    false
}

/// True when `x` occurs (by content) in the list.
pub fn vecs_contain(list: &Vec<Vec<u8>>, x: &Vec<u8>) -> (r: bool)
    ensures
        r == views_of(list@).contains(x@),
{
    let n = list.len();
    let mut i: usize = 0;
    while i < n
        invariant
            0 <= i <= n,
            n == list.len(),
            forall|j: int| 0 <= j < i ==> views_of(list@)[j] != x@,
        decreases n - i,
    {
        if bytes_eq(&list[i], x) {
            assert(views_of(list@)[i as int] == x@);
            return true;
        }
        i = i + 1;
    }
    false
}

/// Copy of a list of byte vectors.
pub fn copy_byte_vecs(v: &Vec<Vec<u8>>) -> (r: Vec<Vec<u8>>)
    ensures
        views_of(r@) == views_of(v@),
{
    let mut r: Vec<Vec<u8>> = Vec::new();
    let mut i: usize = 0;
    let n = v.len();
    while i < n
        invariant
            0 <= i <= n,
            n == v.len(),
            views_of(r@) =~= views_of(v@).subrange(0, i as int),
        decreases n - i,
    {
        let ghost rv0 = r@;
        r.push(copy_bytes(&v[i]));
        proof {
            assert(views_of(r@) =~= views_of(rv0).push(v@[i as int]@));
            assert(views_of(r@) =~= views_of(v@).subrange(0, i as int + 1));
        }
        i = i + 1;
    }
    proof {
        assert(views_of(v@).subrange(0, n as int) =~= views_of(v@));
    }
    r
}

/// True when `needle` occurs as a contiguous run inside `s[lo..hi]`.
pub open spec fn contains_seq_in(s: Seq<u8>, lo: int, hi: int, needle: Seq<u8>) -> bool {
    exists|p: int|
        lo <= p && p + needle.len() <= hi && #[trigger] s.subrange(p, p + needle.len() as int)
            == needle
}

/// Substring search by direct comparison at each offset.
pub fn contains_sub_in(v: &Vec<u8>, lo: usize, hi: usize, needle: &Vec<u8>) -> (r: bool)
    requires
        lo <= hi <= v.len(),
    ensures
        r == contains_seq_in(v@, lo as int, hi as int, needle@),
{
    let n = needle.len();
    if n > hi - lo {
        proof {
            if contains_seq_in(v@, lo as int, hi as int, needle@) {
                let p = choose|p: int|
                    lo <= p && p + needle@.len() <= hi && #[trigger] v@.subrange(
                        p,
                        p + needle@.len() as int,
                    ) == needle@;
                assert(false);
            }
        }
        return false;
    }
    let mut p = lo;
    while p <= hi - n
        invariant
            lo <= p,
            p <= hi - n + 1,
            n <= hi - lo,
            n == needle.len(),
            lo <= hi <= v.len(),
            forall|q: int|
                lo <= q < p ==> #[trigger] v@.subrange(q, q + needle@.len() as int) != needle@,
        decreases hi - p,
    {
        let mut k: usize = 0;
        let mut same = true;
        while k < n
            invariant
                0 <= k <= n,
                n == needle.len(),
                p + n <= hi <= v.len(),
                same == (v@.subrange(p as int, p as int + k as int) =~= needle@.subrange(
                    0,
                    k as int,
                )),
            decreases n - k,
        {
            if v[p + k] != needle[k] {
                same = false;
                proof {
                    assert(v@.subrange(p as int, p as int + k as int + 1)[k as int] != needle@
                        .subrange(0, k as int + 1)[k as int]);
                }
            } else {
                proof {
                    if same {
                        assert(v@.subrange(p as int, p as int + k as int + 1) =~= needle@.subrange(
                            0,
                            k as int + 1,
                        ));
                    } else {
                        assert(exists|j: int|
                            0 <= j < k && v@.subrange(p as int, p as int + k as int)[j] != needle@
                                .subrange(0, k as int)[j]);
                        let j = choose|j: int|
                            0 <= j < k && v@.subrange(p as int, p as int + k as int)[j] != needle@
                                .subrange(0, k as int)[j];
                        assert(v@.subrange(p as int, p as int + k as int + 1)[j] != needle@
                            .subrange(0, k as int + 1)[j]);
                    }
                }
            }
            k = k + 1;
        }
        if same {
            proof {
                assert(needle@.subrange(0, n as int) =~= needle@);
                assert(v@.subrange(p as int, p as int + n as int) == needle@);
            }
            return true;
        }
        proof {
            assert(needle@.subrange(0, n as int) =~= needle@);
            assert(v@.subrange(p as int, p as int + needle@.len() as int) != needle@);
        }
        p = p + 1;
    }
    proof {
        assert(!contains_seq_in(v@, lo as int, hi as int, needle@)) by {
            assert forall|q: int|
                lo <= q && q + needle@.len() <= hi implies #[trigger] v@.subrange(
                q,
                q + needle@.len() as int,
            ) != needle@ by {
                assert(q < p);
            }
        }
    }
    false
}

/// True when `s` ends with `suffix`.
pub open spec fn ends_with_seq(s: Seq<u8>, suffix: Seq<u8>) -> bool {
    s.len() >= suffix.len() && s.subrange(s.len() - suffix.len(), s.len() as int) == suffix
}

pub fn ends_with_sub(v: &Vec<u8>, suffix: &Vec<u8>) -> (r: bool)
    ensures
        r == ends_with_seq(v@, suffix@),
{
    let n = suffix.len();
    if n > v.len() {
        return false;
    }
    let base = v.len() - n;
    let mut k: usize = 0;
    while k < n
        invariant
            0 <= k <= n,
            n == suffix.len(),
            base == v.len() - n,
            n <= v.len(),
            v@.subrange(base as int, base as int + k as int) =~= suffix@.subrange(0, k as int),
        decreases n - k,
    {
        if v[base + k] != suffix[k] {
            proof {
                assert(v@.subrange(base as int, v@.len() as int)[k as int] == v@[base + k]);
            }
            return false;
        }
        proof {
            assert(v@.subrange(base as int, base as int + k as int + 1) =~= suffix@.subrange(
                0,
                k as int + 1,
            ));
        }
        k = k + 1;
    }
    proof {
        assert(v@.subrange(base as int, base as int + n as int) =~= v@.subrange(
            base as int,
            v@.len() as int,
        ));
        assert(suffix@.subrange(0, n as int) =~= suffix@);
    }
    true
}

} // verus!
