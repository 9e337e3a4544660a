//! Byte-string primitives shared by the reply parser, the tool router and
//! the conversation state machine.
//!
//! Text travels through the assistant as UTF-8 bytes (`Vec<u8>`); every
//! operation here is ASCII-oriented, which keeps multi-byte code points
//! intact since no byte of one ever falls in the ASCII range.

use vstd::prelude::*;
use vstd::string::StrSliceExecFns;

verus! {

/// ASCII whitespace: space and the control characters tab through
/// carriage return.
pub open spec fn is_space(b: u8) -> bool {
    b == 32 || (9 <= b && b <= 13)
}

/// Executable test for `is_space`.
pub fn byte_is_space(b: u8) -> (r: bool)
    ensures
        r == is_space(b),
{
    b == 32 || (9 <= b && b <= 13)
}

/// The sequence with leading whitespace removed.
pub open spec fn trim_start_spec(s: Seq<u8>) -> Seq<u8>
    decreases s.len(),
{
    if s.len() > 0 && is_space(s[0]) {
        trim_start_spec(s.drop_first())
    } else {
        s
    }
}

/// The sequence with trailing whitespace removed.
pub open spec fn trim_end_spec(s: Seq<u8>) -> Seq<u8>
    decreases s.len(),
{
    if s.len() > 0 && is_space(s.last()) {
        trim_end_spec(s.drop_last())
    } else {
        s
    }
}

/// The sequence with whitespace removed from both ends.
pub open spec fn trim_spec(s: Seq<u8>) -> Seq<u8> {
    trim_end_spec(trim_start_spec(s))
}

proof fn lemma_trim_start_skip(s: Seq<u8>, lo: int)
    requires
        0 <= lo <= s.len(),
        forall|k: int| 0 <= k < lo ==> is_space(s[k]),
    ensures
        trim_start_spec(s) == trim_start_spec(s.subrange(lo, s.len() as int)),
    decreases lo,
{
    if lo == 0 {
        assert(s.subrange(0, s.len() as int) =~= s);
    } else {
        assert(is_space(s[0]));
        assert(s.drop_first() =~= s.subrange(1, s.len() as int));
        let t = s.subrange(1, s.len() as int);
        lemma_trim_start_skip(t, lo - 1);
        assert(t.subrange(lo - 1, t.len() as int) =~= s.subrange(lo, s.len() as int));
    }
}

proof fn lemma_trim_end_chop(s: Seq<u8>, hi: int)
    requires
        0 <= hi <= s.len(),
        forall|k: int| hi <= k < s.len() ==> is_space(s[k]),
    ensures
        trim_end_spec(s) == trim_end_spec(s.subrange(0, hi)),
    decreases s.len() - hi,
{
    if hi == s.len() {
        assert(s.subrange(0, s.len() as int) =~= s);
    } else {
        assert(is_space(s.last()));
        assert(s.drop_last() =~= s.subrange(0, s.len() - 1));
        lemma_trim_end_chop(s.subrange(0, s.len() - 1), hi);
        assert(s.subrange(0, s.len() - 1).subrange(0, hi) =~= s.subrange(0, hi));
    }
}

/// Copy of `v` with ASCII whitespace removed from both ends.
pub fn trim(v: &Vec<u8>) -> (r: Vec<u8>)
    ensures
        r@ == trim_spec(v@),
{
    let n = v.len();
    let mut lo: usize = 0;
    while lo < n && byte_is_space(v[lo])
        invariant
            0 <= lo <= n,
            n == v@.len(),
            forall|k: int| 0 <= k < lo ==> is_space(v@[k]),
        decreases n - lo,
    {
        lo = lo + 1;
    }
    let mut hi: usize = n;
    while hi > lo && byte_is_space(v[hi - 1])
        invariant
            lo <= hi <= n,
            n == v@.len(),
            forall|k: int| hi <= k < n ==> is_space(v@[k]),
        decreases hi,
    {
        hi = hi - 1;
    }
    proof {
        lemma_trim_start_skip(v@, lo as int);
        let t = v@.subrange(lo as int, n as int);
        assert(trim_start_spec(t) == t);
        lemma_trim_end_chop(t, hi - lo);
        assert(t.subrange(0, hi - lo) =~= v@.subrange(lo as int, hi as int));
        assert(trim_end_spec(v@.subrange(lo as int, hi as int)) == v@.subrange(
            lo as int,
            hi as int,
        ));
    }
    let mut r: Vec<u8> = Vec::new();
    let mut i: usize = lo;
    while i < hi
        invariant
            lo <= i <= hi <= n,
            n == v@.len(),
            r@ == v@.subrange(lo as int, i as int),
        decreases hi - i,
    {
        r.push(v[i]);
        proof {
            assert(v@.subrange(lo as int, i as int).push(v@[i as int]) =~= v@.subrange(
                lo as int,
                i + 1,
            ));
        }
        i = i + 1;
    }
    proof {
        assert(r@ == v@.subrange(lo as int, hi as int));
    }
    r
}

/// Copy of `v` with ASCII whitespace removed from the start only.
pub fn trim_start(v: &Vec<u8>) -> (r: Vec<u8>)
    ensures
        r@ == trim_start_spec(v@),
{
    let n = v.len();
    let mut lo: usize = 0;
    while lo < n && byte_is_space(v[lo])
        invariant
            0 <= lo <= n,
            n == v@.len(),
            forall|k: int| 0 <= k < lo ==> is_space(v@[k]),
        decreases n - lo,
    {
        lo = lo + 1;
    }
    proof {
        lemma_trim_start_skip(v@, lo as int);
        assert(trim_start_spec(v@.subrange(lo as int, n as int)) == v@.subrange(
            lo as int,
            n as int,
        ));
    }
    slice_range(v, lo, n)
}

/// A trimmed sequence neither starts nor ends with whitespace, and
/// trimming it again changes nothing.
pub proof fn lemma_trim_idempotent(s: Seq<u8>)
    ensures
        trim_spec(trim_spec(s)) == trim_spec(s),
{
    let a = trim_start_spec(s);
    let b = trim_end_spec(a);
    lemma_trim_start_no_leading(s);
    lemma_trim_end_prefix(a);
    lemma_trim_end_no_trailing(a);
    if b.len() > 0 {
        assert(b[0] == a[0]);
        assert(!is_space(b[0]));
        assert(trim_start_spec(b) == b);
        assert(trim_end_spec(b) == b);
    } else {
        assert(trim_start_spec(b) == b);
        assert(trim_end_spec(b) == b);
    }
}

/// The start-trimmed sequence has no leading whitespace.
pub proof fn lemma_trim_start_no_leading(s: Seq<u8>)
    ensures
        trim_start_spec(s).len() > 0 ==> !is_space(trim_start_spec(s)[0]),
    decreases s.len(),
{
    if s.len() > 0 && is_space(s[0]) {
        lemma_trim_start_no_leading(s.drop_first());
    }
}

/// The end-trimmed sequence has no trailing whitespace.
pub proof fn lemma_trim_end_no_trailing(s: Seq<u8>)
    ensures
        trim_end_spec(s).len() > 0 ==> !is_space(trim_end_spec(s).last()),
    decreases s.len(),
{
    if s.len() > 0 && is_space(s.last()) {
        lemma_trim_end_no_trailing(s.drop_last());
    }
}

/// End-trimming keeps a prefix of the sequence unchanged.
pub proof fn lemma_trim_end_prefix(s: Seq<u8>)
    ensures
        trim_end_spec(s).len() <= s.len(),
        forall|i: int| 0 <= i < trim_end_spec(s).len() ==> trim_end_spec(s)[i] == s[i],
    decreases s.len(),
{
    if s.len() > 0 && is_space(s.last()) {
        let t = s.drop_last();
        lemma_trim_end_prefix(t);
        assert(forall|i: int| 0 <= i < t.len() ==> t[i] == s[i]);
    }
}

/// Start-trimming keeps a suffix of the sequence unchanged.
pub proof fn lemma_trim_start_suffix(s: Seq<u8>)
    ensures
        trim_start_spec(s).len() <= s.len(),
        forall|i: int|
            0 <= i < trim_start_spec(s).len() ==> trim_start_spec(s)[i] == s[i + s.len()
                - trim_start_spec(s).len()],
    decreases s.len(),
{
    if s.len() > 0 && is_space(s[0]) {
        lemma_trim_start_suffix(s.drop_first());
    }
}

/// Trimming never introduces a byte that the sequence did not hold.
pub proof fn lemma_trim_no_byte(s: Seq<u8>, b: u8)
    requires
        !has_byte(s, b),
    ensures
        !has_byte(trim_spec(s), b),
{
    let a = trim_start_spec(s);
    lemma_trim_start_suffix(s);
    lemma_trim_end_prefix(a);
    assert forall|i: int| 0 <= i < trim_spec(s).len() implies trim_spec(s)[i] != b by {
        assert(trim_spec(s)[i] == a[i]);
        assert(a[i] == s[i + s.len() - a.len()]);
        assert(!(exists|j: int| 0 <= j < s.len() && s[j] == b));
    }
    if has_byte(trim_spec(s), b) {
        let i = choose|i: int| 0 <= i < trim_spec(s).len() && trim_spec(s)[i] == b;
        assert(trim_spec(s)[i] != b);
    }
}

/// The bytes of an ASCII character sequence, one byte per character.
pub open spec fn ascii_bytes(s: Seq<char>) -> Seq<u8> {
    Seq::new(s.len(), |i: int| s[i] as u8)
}

/// The UTF-8 bytes of an ASCII string slice, as a vector.
pub fn lit_bytes(s: &str) -> (r: Vec<u8>)
    requires
        s.is_ascii(),
    ensures
        r@ == ascii_bytes(s@),
{
    let r = s.as_bytes_vec();
    proof {
        broadcast use vstd::string::is_ascii_spec_bytes;

        assert(r@ =~= ascii_bytes(s@));
    }
    r
}

/// The pattern `pat` occurs in `s` starting at index `i`.
pub open spec fn matches_at(s: Seq<u8>, pat: Seq<u8>, i: int) -> bool {
    0 <= i && i + pat.len() <= s.len() && s.subrange(i, i + pat.len() as int) == pat
}

/// The pattern `pat` occurs somewhere in `s`.
pub open spec fn contains_seq(s: Seq<u8>, pat: Seq<u8>) -> bool {
    exists|i: int| matches_at(s, pat, i)
}

/// Whether `pat` occurs in `v` starting at index `i`.
pub fn match_at(v: &Vec<u8>, pat: &Vec<u8>, i: usize) -> (r: bool)
    requires
        i + pat@.len() <= v@.len(),
    ensures
        r == matches_at(v@, pat@, i as int),
{
    let n = v.len();
    let m = pat.len();
    let mut k: usize = 0;
    while k < m
        invariant
            0 <= k <= m,
            n == v@.len(),
            m == pat@.len(),
            i + m <= n,
            forall|j: int| 0 <= j < k ==> v@[i + j] == pat@[j],
        decreases m - k,
    {
        if v[i + k] != pat[k] {
            proof {
                assert(v@.subrange(i as int, i + m) != pat@) by {
                    assert(v@.subrange(i as int, i + m)[k as int] != pat@[k as int]);
                }
            }
            return false;
        }
        k = k + 1;
    }
    proof {
        assert(v@.subrange(i as int, i + m) =~= pat@);
    }
    true
}

/// The index of the first occurrence of `pat` in `v`, if there is one.
pub fn find_first(v: &Vec<u8>, pat: &Vec<u8>) -> (r: Option<usize>)
    ensures
        r matches Some(i) ==> matches_at(v@, pat@, i as int) && forall|j: int|
            0 <= j < i ==> !matches_at(v@, pat@, j),
        r is None ==> !contains_seq(v@, pat@),
{
    let n = v.len();
    let m = pat.len();
    if m > n {
        return None;
    }
    if m == 0 {
        proof {
            assert(v@.subrange(0, 0) =~= pat@);
        }
        return Some(0);
    }
    let mut i: usize = 0;
    while i <= n - m
        invariant
            0 <= i <= n - m + 1,
            1 <= m <= n,
            n == v@.len(),
            m == pat@.len(),
            forall|j: int| 0 <= j < i ==> !matches_at(v@, pat@, j),
        decreases n - i,
    {
        if match_at(v, pat, i) {
            return Some(i);
        }
        i = i + 1;
    }
    proof {
        assert(forall|j: int| matches_at(v@, pat@, j) ==> 0 <= j <= n - m);
    }
    None
}

/// Whether the two byte vectors hold the same bytes.
pub fn bytes_eq(a: &Vec<u8>, b: &Vec<u8>) -> (r: bool)
    ensures
        r == (a@ == b@),
{
    let n = a.len();
    if n != b.len() {
        proof {
            assert(a@ != b@) by {
                assert(a@.len() != b@.len());
            }
        }
        return false;
    }
    let mut i: usize = 0;
    while i < n
        invariant
            0 <= i <= n,
            n == a@.len(),
            n == b@.len(),
            forall|j: int| 0 <= j < i ==> a@[j] == b@[j],
        decreases n - i,
    {
        if a[i] != b[i] {
            return false;
        }
        i = i + 1;
    }
    proof {
        assert(a@ =~= b@);
    }
    true
}

/// Whether `v` begins with `pat`.
pub fn starts_with(v: &Vec<u8>, pat: &Vec<u8>) -> (r: bool)
    ensures
        r == matches_at(v@, pat@, 0),
{
    if pat.len() > v.len() {
        return false;
    }
    match_at(v, pat, 0)
}

/// The byte with an ASCII capital letter folded to lower case.
pub open spec fn lower_byte(b: u8) -> u8 {
    if 65 <= b && b <= 90 {
        (b + 32) as u8
    } else {
        b
    }
}

/// Every ASCII capital letter folded to lower case.
pub open spec fn to_lower_spec(s: Seq<u8>) -> Seq<u8> {
    Seq::new(s.len(), |i: int| lower_byte(s[i]))
}

/// Copy of `v` with ASCII capital letters folded to lower case.
pub fn to_lower(v: &Vec<u8>) -> (r: Vec<u8>)
    ensures
        r@ == to_lower_spec(v@),
{
    let n = v.len();
    let mut r: Vec<u8> = Vec::new();
    let mut i: usize = 0;
    while i < n
        invariant
            0 <= i <= n,
            n == v@.len(),
            r@.len() == i,
            forall|j: int| 0 <= j < i ==> r@[j] == lower_byte(v@[j]),
        decreases n - i,
    {
        let b = v[i];
        if 65 <= b && b <= 90 {
            r.push(b + 32);
        } else {
            r.push(b);
        }
        i = i + 1;
    }
    proof {
        assert(r@ =~= to_lower_spec(v@));
    }
    r
}

/// The sequence with every occurrence of the byte `b` removed.
pub open spec fn strip_byte_spec(s: Seq<u8>, b: u8) -> Seq<u8>
    decreases s.len(),
{
    if s.len() == 0 {
        Seq::empty()
    } else if s[0] == b {
        strip_byte_spec(s.drop_first(), b)
    } else {
        seq![s[0]] + strip_byte_spec(s.drop_first(), b)
    }
}

/// Stripping a byte that never occurs changes nothing.
pub proof fn lemma_strip_byte_absent(s: Seq<u8>, b: u8)
    requires
        forall|i: int| 0 <= i < s.len() ==> s[i] != b,
    ensures
        strip_byte_spec(s, b) == s,
    decreases s.len(),
{
    if s.len() > 0 {
        lemma_strip_byte_absent(s.drop_first(), b);
        assert(seq![s[0]] + s.drop_first() =~= s);
    }
}

/// The stripped byte no longer occurs in the result.
pub proof fn lemma_strip_byte_gone(s: Seq<u8>, b: u8)
    ensures
        forall|i: int|
            0 <= i < strip_byte_spec(s, b).len() ==> #[trigger] strip_byte_spec(s, b)[i] != b,
    decreases s.len(),
{
    if s.len() > 0 {
        lemma_strip_byte_gone(s.drop_first(), b);
        if s[0] != b {
            assert forall|i: int|
                0 <= i < strip_byte_spec(s, b).len() implies #[trigger] strip_byte_spec(s, b)[i]
                != b by {
                if i > 0 {
                    assert(strip_byte_spec(s, b)[i] == strip_byte_spec(s.drop_first(), b)[i - 1]);
                }
            }
        }
    }
}

/// Copy of `v` with every occurrence of the byte `b` removed.
pub fn strip_byte(v: &Vec<u8>, b: u8) -> (r: Vec<u8>)
    ensures
        r@ == strip_byte_spec(v@, b),
{
    let n = v.len();
    let mut r: Vec<u8> = Vec::new();
    let mut i: usize = 0;
    proof {
        assert(v@.subrange(0, n as int) =~= v@);
        assert(Seq::<u8>::empty() + strip_byte_spec(v@, b) =~= strip_byte_spec(v@, b));
    }
    while i < n
        invariant
            0 <= i <= n,
            n == v@.len(),
            strip_byte_spec(v@, b) == r@ + strip_byte_spec(v@.subrange(i as int, n as int), b),
        decreases n - i,
    {
        proof {
            let rest = v@.subrange(i as int, n as int);
            assert(rest.drop_first() =~= v@.subrange(i + 1, n as int));
            if v@[i as int] != b {
                assert(r@ + rest == (r@ + seq![v@[i as int]]) + rest.drop_first()) by {
                    assert(seq![rest[0]] + rest.drop_first() =~= rest);
                    assert(r@ + rest =~= (r@ + seq![v@[i as int]]) + rest.drop_first());
                }
                assert(strip_byte_spec(rest, b) == seq![rest[0]] + strip_byte_spec(
                    rest.drop_first(),
                    b,
                ));
                assert(r@ + strip_byte_spec(rest, b) =~= (r@ + seq![v@[i as int]])
                    + strip_byte_spec(rest.drop_first(), b));
            }
        }
        if v[i] != b {
            r.push(v[i]);
        }
        i = i + 1;
    }
    proof {
        assert(v@.subrange(n as int, n as int) =~= Seq::<u8>::empty());
        assert(r@ + Seq::<u8>::empty() =~= r@);
    }
    r
}

/// Whether the byte `b` occurs in `s`.
pub open spec fn has_byte(s: Seq<u8>, b: u8) -> bool {
    exists|i: int| 0 <= i < s.len() && s[i] == b
}

/// Copy of the byte range `[lo, hi)` of `v`.
pub fn slice_range(v: &Vec<u8>, lo: usize, hi: usize) -> (r: Vec<u8>)
    requires
        lo <= hi <= v@.len(),
    ensures
        r@ == v@.subrange(lo as int, hi as int),
{
    let mut r: Vec<u8> = Vec::new();
    let mut i: usize = lo;
    while i < hi
        invariant
            lo <= i <= hi <= v@.len(),
            r@ == v@.subrange(lo as int, i as int),
        decreases hi - i,
    {
        r.push(v[i]);
        proof {
            assert(v@.subrange(lo as int, i as int).push(v@[i as int]) =~= v@.subrange(
                lo as int,
                i + 1,
            ));
        }
        i = i + 1;
    }
    r
}

/// Append a copy of `b` to `a`.
pub fn append_bytes(a: &mut Vec<u8>, b: &Vec<u8>)
    ensures
        final(a)@ == old(a)@ + b@,
{
    let n = b.len();
    let mut i: usize = 0;
    while i < n
        invariant
            0 <= i <= n,
            n == b@.len(),
            a@ == old(a)@ + b@.subrange(0, i as int),
        decreases n - i,
    {
        a.push(b[i]);
        proof {
            assert((old(a)@ + b@.subrange(0, i as int)).push(b@[i as int]) =~= old(a)@
                + b@.subrange(0, i + 1));
        }
        i = i + 1;
    }
    proof {
        assert(b@.subrange(0, n as int) =~= b@);
    }
}

/// The words of `s` when split on whitespace, with `cur` the partial word
/// read so far.
pub open spec fn words_from(s: Seq<u8>, cur: Seq<u8>) -> Seq<Seq<u8>>
    decreases s.len(),
{
    if s.len() == 0 {
        if cur.len() > 0 {
            seq![cur]
        } else {
            Seq::empty()
        }
    } else if is_space(s[0]) {
        if cur.len() > 0 {
            seq![cur] + words_from(s.drop_first(), Seq::empty())
        } else {
            words_from(s.drop_first(), Seq::empty())
        }
    } else {
        words_from(s.drop_first(), cur.push(s[0]))
    }
}

/// The maximal whitespace-free runs of `s`, in order.
pub open spec fn words_spec(s: Seq<u8>) -> Seq<Seq<u8>> {
    words_from(s, Seq::empty())
}

/// The byte views of a sequence of byte vectors.
pub open spec fn seq_views(ws: Seq<Vec<u8>>) -> Seq<Seq<u8>> {
    ws.map_values(|w: Vec<u8>| w@)
}

/// The words of `v`, split on ASCII whitespace.
pub fn split_words(v: &Vec<u8>) -> (r: Vec<Vec<u8>>)
    ensures
        seq_views(r@) == words_spec(v@),
{
    let n = v.len();
    let mut out: Vec<Vec<u8>> = Vec::new();
    let mut cur: Vec<u8> = Vec::new();
    let mut i: usize = 0;
    proof {
        assert(v@.subrange(0, n as int) =~= v@);
        assert(seq_views(out@) + words_from(v@, Seq::empty()) =~= words_from(v@, Seq::empty()));
    }
    while i < n
        invariant
            0 <= i <= n,
            n == v@.len(),
            words_spec(v@) == seq_views(out@) + words_from(
                v@.subrange(i as int, n as int),
                cur@,
            ),
        decreases n - i,
    {
        proof {
            let rest = v@.subrange(i as int, n as int);
            assert(rest.len() > 0 && rest[0] == v@[i as int]);
            assert(rest.drop_first() =~= v@.subrange(i + 1, n as int));
            if is_space(v@[i as int]) {
                if cur@.len() > 0 {
                    assert(words_from(rest, cur@) == seq![cur@] + words_from(
                        rest.drop_first(),
                        Seq::<u8>::empty(),
                    ));
                    assert(seq_views(out@.push(cur)) =~= seq_views(out@).push(cur@));
                    assert(seq_views(out@) + (seq![cur@] + words_from(
                        rest.drop_first(),
                        Seq::<u8>::empty(),
                    )) =~= seq_views(out@).push(cur@) + words_from(
                        rest.drop_first(),
                        Seq::<u8>::empty(),
                    ));
                } else {
                    assert(cur@ =~= Seq::<u8>::empty());
                    assert(words_from(rest, cur@) == words_from(
                        rest.drop_first(),
                        Seq::<u8>::empty(),
                    ));
                }
            } else {
                assert(words_from(rest, cur@) == words_from(
                    rest.drop_first(),
                    cur@.push(v@[i as int]),
                ));
            }
        }
        let b = v[i];
        if byte_is_space(b) {
            if cur.len() > 0 {
                out.push(cur);
                cur = Vec::new();
                proof {
                    assert(cur@ =~= Seq::<u8>::empty());
                }
            }
        } else {
            cur.push(b);
        }
        i = i + 1;
    }
    proof {
        assert(v@.subrange(n as int, n as int) =~= Seq::<u8>::empty());
    }
    if cur.len() > 0 {
        proof {
            assert(seq_views(out@.push(cur)) =~= seq_views(out@) + seq![cur@]);
        }
        out.push(cur);
    }
    proof {
        assert(seq_views(out@) + Seq::<Seq<u8>>::empty() =~= seq_views(out@));
    }
    out
}

/// The words joined with single spaces between them.
pub open spec fn join_words(ws: Seq<Seq<u8>>) -> Seq<u8>
    decreases ws.len(),
{
    if ws.len() == 0 {
        Seq::empty()
    } else if ws.len() == 1 {
        ws[0]
    } else {
        ws[0] + seq![32u8] + join_words(ws.drop_first())
    }
}

/// Joining one more word appends a space and the word.
pub proof fn lemma_join_push(ws: Seq<Seq<u8>>, w: Seq<u8>)
    ensures
        join_words(ws.push(w)) == if ws.len() == 0 {
            w
        } else {
            join_words(ws) + seq![32u8] + w
        },
    decreases ws.len(),
{
    if ws.len() == 0 {
        assert(ws.push(w)[0] == w);
    } else {
        assert(ws.push(w).drop_first() =~= ws.drop_first().push(w));
        lemma_join_push(ws.drop_first(), w);
        if ws.len() == 1 {
            assert(ws.drop_first().len() == 0);
            assert(join_words(ws) == ws[0]);
        }
    }
}

/// The words joined with single spaces, as a vector.
pub fn join_with_spaces(ws: &Vec<Vec<u8>>) -> (r: Vec<u8>)
    ensures
        r@ == join_words(seq_views(ws@)),
{
    let n = ws.len();
    let mut r: Vec<u8> = Vec::new();
    let mut i: usize = 0;
    proof {
        assert(seq_views(ws@).subrange(0, 0) =~= Seq::<Seq<u8>>::empty());
    }
    while i < n
        invariant
            0 <= i <= n,
            n == ws@.len(),
            r@ == join_words(seq_views(ws@).subrange(0, i as int)),
        decreases n - i,
    {
        proof {
            let all = seq_views(ws@);
            assert(all.subrange(0, i as int).push(all[i as int]) =~= all.subrange(0, i + 1));
            lemma_join_push(all.subrange(0, i as int), all[i as int]);
        }
        if i > 0 {
            r.push(32);
        }
        append_bytes(&mut r, &ws[i]);
        i = i + 1;
    }
    proof {
        assert(seq_views(ws@).subrange(0, n as int) =~= seq_views(ws@));
    }
    r
}

/// The decimal digits of `n`, most significant first.
pub open spec fn dec_digits(n: nat) -> Seq<u8>
    decreases n,
{
    if n < 10 {
        seq![(48 + n) as u8]
    } else {
        dec_digits(n / 10) + seq![(48 + n % 10) as u8]
    }
}

/// The decimal rendering of `n`, with a leading minus sign when negative.
pub open spec fn dec_int(n: int) -> Seq<u8> {
    if n < 0 {
        seq![45u8] + dec_digits((-n) as nat)
    } else {
        dec_digits(n as nat)
    }
}

/// Copy of `v` with the bytes in reverse order.
pub fn reversed(v: &Vec<u8>) -> (r: Vec<u8>)
    ensures
        r@ == v@.reverse(),
{
    let n = v.len();
    let mut r: Vec<u8> = Vec::new();
    let mut i: usize = n;
    while i > 0
        invariant
            0 <= i <= n,
            n == v@.len(),
            r@.len() == n - i,
            forall|k: int| 0 <= k < n - i ==> r@[k] == v@[n - 1 - k],
        decreases i,
    {
        i = i - 1;
        r.push(v[i]);
    }
    proof {
        assert(r@ =~= v@.reverse());
    }
    r
}

/// The decimal rendering of `n` as bytes.
pub fn format_i32(n: i32) -> (r: Vec<u8>)
    ensures
        r@ == dec_int(n as int),
{
    let neg = n < 0;
    let mut m: i64 = n as i64;
    if neg {
        m = -m;
    }
    let ghost m0: nat = m as nat;
    let mut tmp: Vec<u8> = Vec::new();
    proof {
        assert(dec_digits(m0) + Seq::<u8>::empty() =~= dec_digits(m0));
        assert(tmp@.reverse() =~= Seq::<u8>::empty());
    }
    while m >= 10
        invariant
            0 <= m <= m0,
            dec_digits(m0) == dec_digits(m as nat) + tmp@.reverse(),
        decreases m,
    {
        let d: u8 = (m % 10) as u8 + 48;
        proof {
            assert(dec_digits(m as nat) == dec_digits((m as nat) / 10) + seq![
                (48 + (m as nat) % 10) as u8,
            ]);
            assert((m as nat) / 10 == (m / 10) as nat);
            assert((tmp@.push(d)).reverse() =~= seq![d] + tmp@.reverse());
            assert(dec_digits((m / 10) as nat) + (tmp@.push(d)).reverse() =~= dec_digits(
                (m as nat) / 10,
            ) + seq![(48 + (m as nat) % 10) as u8] + tmp@.reverse());
        }
        tmp.push(d);
        m = m / 10;
    }
    let mut r: Vec<u8> = Vec::new();
    if neg {
        r.push(45);
    }
    r.push(48 + m as u8);
    let tail = reversed(&tmp);
    append_bytes(&mut r, &tail);
    proof {
        assert(dec_digits(m as nat) =~= seq![(48 + m as nat) as u8]);
        if neg {
            assert(r@ =~= seq![45u8] + dec_digits(m0));
            assert(dec_int(n as int) == seq![45u8] + dec_digits((-(n as int)) as nat));
            assert(m0 == (-(n as int)) as nat);
        } else {
            assert(r@ =~= dec_digits(m0));
        }
    }
    r
}

} // verus!
