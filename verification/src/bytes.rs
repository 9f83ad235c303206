//! Byte-sequence utilities: slicing, searching, splitting, tokenizing and
//! decimal formatting, each with an exact contract over `Seq<u8>`.

use vstd::prelude::*;

verus! {

/// ASCII space or horizontal tab: the separators recognised when the request
/// line is tokenized.
pub open spec fn is_ws(b: u8) -> bool {
    b == 32 || b == 9
}

/// ASCII decimal digit.
pub open spec fn is_digit(b: u8) -> bool {
    48 <= b && b <= 57
}

/// Copy of `s[from..to]`.
pub fn subvec(s: &Vec<u8>, from: usize, to: usize) -> (r: Vec<u8>)
    requires
        from <= to <= s@.len(),
    ensures
        r@ == s@.subrange(from as int, to as int),
{
    let mut r: Vec<u8> = Vec::new();
    let mut i: usize = from;
    while i < to
        invariant
            from <= i <= to <= s@.len(),
            r@ == s@.subrange(from as int, i as int),
        decreases to - i,
    {
        r.push(s[i]);
        i = i + 1;
        proof {
            assert(r@ =~= s@.subrange(from as int, i as int));
        }
    }
    r
}

/// Copy of the whole vector.
pub fn clone_vec(s: &Vec<u8>) -> (r: Vec<u8>)
    ensures
        r@ == s@,
{
    let r = subvec(s, 0, s.len());
    proof {
        assert(s@.subrange(0, s@.len() as int) =~= s@);
    }
    r
}

/// Equality of two byte vectors.
pub fn bytes_eq(a: &Vec<u8>, b: &Vec<u8>) -> (r: bool)
    ensures
        r == (a@ == b@),
{
    if a.len() != b.len() {
        return false;
    }
    let mut i: usize = 0;
    while i < a.len()
        invariant
            i <= a@.len(),
            a@.len() == b@.len(),
            forall|j: int| 0 <= j < i ==> a@[j] == b@[j],
        decreases a@.len() - i,
    {
        if a[i] != b[i] {
            return false;
        }
        i = i + 1;
    }
    proof {
        assert(a@ =~= b@);
    }
    true
}

/// Index of the first occurrence of `b` in `s`, if any.
pub open spec fn spec_find(s: Seq<u8>, b: u8) -> Option<int>
    decreases s.len(),
{
    if s.len() == 0 {
        None
    } else if s[0] == b {
        Some(0int)
    } else {
        match spec_find(s.skip(1), b) {
            None => None,
            Some(i) => Some(i + 1),
        }
    }
}

/// `spec_find` returns the least index holding `b`, or `None` when `b` does
/// not occur.
pub proof fn lemma_find(s: Seq<u8>, b: u8)
    ensures
        match spec_find(s, b) {
            Some(i) => 0 <= i < s.len() && s[i] == b && (forall|j: int| 0 <= j < i ==> s[j] != b),
            None => forall|j: int| 0 <= j < s.len() ==> s[j] != b,
        },
    decreases s.len(),
{
    if s.len() > 0 && s[0] != b {
        lemma_find(s.skip(1), b);
        let t = s.skip(1);
        assert(forall|j: int| 0 <= j < t.len() ==> t[j] == s[j + 1]);
        match spec_find(t, b) {
            Some(i) => {
                assert(s[i + 1] == b);
                assert forall|j: int| 0 <= j < i + 1 implies s[j] != b by {
                    if j > 0 {
                        assert(t[j - 1] == s[j]);
                    }
                }
            },
            None => {
                assert forall|j: int| 0 <= j < s.len() implies s[j] != b by {
                    if j > 0 {
                        assert(t[j - 1] == s[j]);
                    }
                }
            },
        }
    }
}

/// Any index that holds `b` below which `b` does not occur is the one that
/// `spec_find` returns.
pub proof fn lemma_find_is_first(s: Seq<u8>, b: u8, i: int)
    requires
        0 <= i < s.len(),
        s[i] == b,
        forall|j: int| 0 <= j < i ==> s[j] != b,
    ensures
        spec_find(s, b) == Some(i),
    decreases i,
{
    if i > 0 {
        assert(forall|j: int| 0 <= j < i - 1 ==> s.skip(1)[j] == s[j + 1]);
        lemma_find_is_first(s.skip(1), b, i - 1);
    }
}

/// First occurrence of `b` in `s`.
pub fn find_byte(s: &Vec<u8>, b: u8) -> (r: Option<usize>)
    ensures
        match r {
            Some(i) => spec_find(s@, b) == Some(i as int),
            None => spec_find(s@, b) is None,
        },
{
    let mut i: usize = 0;
    while i < s.len()
        invariant
            i <= s@.len(),
            forall|j: int| 0 <= j < i ==> s@[j] != b,
        decreases s@.len() - i,
    {
        if s[i] == b {
            proof {
                lemma_find_is_first(s@, b, i as int);
            }
            return Some(i);
        }
        i = i + 1;
    }
    proof {
        lemma_find(s@, b);
    }
    None
}

/// Split `s` around the first occurrence of `sep`: the part before it and the
/// part after it.  `None` when `sep` does not occur.
pub fn split_first(s: &Vec<u8>, sep: u8) -> (r: Option<(Vec<u8>, Vec<u8>)>)
    ensures
        match r {
            Some(p) => spec_find(s@, sep) matches Some(i) && p.0@ == s@.take(i) && p.1@ == s@.skip(
                i + 1,
            ),
            None => spec_find(s@, sep) is None,
        },
{
    match find_byte(s, sep) {
        Some(i) => {
            proof {
                lemma_find(s@, sep);
                assert((i as int) < s@.len());
            }
            let n = s.len();
            let before = subvec(s, 0, i);
            let after = subvec(s, i + 1, n);
            proof {
                assert(before@ =~= s@.take(i as int));
                assert(after@ =~= s@.skip(i as int + 1));
            }
            Some((before, after))
        },
        None => None,
    }
}

/// Index of the first occurrence of the two-byte sequence `a b` in `s`, if
/// any.
pub open spec fn spec_find2(s: Seq<u8>, a: u8, b: u8) -> Option<int>
    decreases s.len(),
{
    if s.len() < 2 {
        None
    } else if s[0] == a && s[1] == b {
        Some(0int)
    } else {
        match spec_find2(s.skip(1), a, b) {
            None => None,
            Some(i) => Some(i + 1),
        }
    }
}

/// `spec_find2` returns the least index at which `a b` occurs, or `None` when
/// it does not occur.
pub proof fn lemma_find2(s: Seq<u8>, a: u8, b: u8)
    ensures
        match spec_find2(s, a, b) {
            Some(i) => 0 <= i && i + 1 < s.len() && s[i] == a && s[i + 1] == b && (forall|j: int|
                0 <= j < i ==> !(#[trigger] s[j] == a && s[j + 1] == b)),
            None => forall|j: int| 0 <= j && j + 1 < s.len() ==> !(#[trigger] s[j] == a && s[j + 1] == b),
        },
    decreases s.len(),
{
    if s.len() >= 2 && !(s[0] == a && s[1] == b) {
        lemma_find2(s.skip(1), a, b);
        let t = s.skip(1);
        assert(forall|j: int| 0 <= j < t.len() ==> t[j] == s[j + 1]);
        match spec_find2(t, a, b) {
            Some(i) => {
                assert(t[i] == s[i + 1] && t[i + 1] == s[i + 2]);
                assert forall|j: int| 0 <= j < i + 1 implies !(#[trigger] s[j] == a && s[j + 1] == b) by {
                    if j > 0 {
                        assert(t[j - 1] == s[j] && t[j] == s[j + 1]);
                    }
                }
            },
            None => {
                assert forall|j: int| 0 <= j && j + 1 < s.len() implies !(#[trigger] s[j] == a && s[j
                    + 1] == b) by {
                    if j > 0 {
                        assert(t[j - 1] == s[j] && t[j] == s[j + 1]);
                    }
                }
            },
        }
    }
}

/// Any index where `a b` occurs, below which it does not, is the one that
/// `spec_find2` returns.
pub proof fn lemma_find2_is_first(s: Seq<u8>, a: u8, b: u8, i: int)
    requires
        0 <= i,
        i + 1 < s.len(),
        s[i] == a,
        s[i + 1] == b,
        forall|j: int| 0 <= j < i ==> !(#[trigger] s[j] == a && s[j + 1] == b),
    ensures
        spec_find2(s, a, b) == Some(i),
    decreases i,
{
    if i > 0 {
        let t = s.skip(1);
        assert(forall|j: int| 0 <= j < t.len() ==> t[j] == s[j + 1]);
        assert(forall|j: int| 0 <= j < i - 1 ==> !(#[trigger] t[j] == a && t[j + 1] == b));
        lemma_find2_is_first(t, a, b, i - 1);
    }
}

/// Split `s` around the first occurrence of the two-byte sequence `a b`: the
/// part before it and the part after it.  `None` when it does not occur.
pub fn split_first2(s: &Vec<u8>, a: u8, b: u8) -> (r: Option<(Vec<u8>, Vec<u8>)>)
    ensures
        match r {
            Some(p) => spec_find2(s@, a, b) matches Some(i) && p.0@ == s@.take(i) && p.1@
                == s@.skip(i + 2),
            None => spec_find2(s@, a, b) is None,
        },
{
    let n = s.len();
    if n < 1 {
        return None;
    }
    let mut i: usize = 0;
    while i < n - 1
        invariant
            n == s@.len(),
            1 <= n,
            0 <= i <= n,
            forall|j: int| 0 <= j < i ==> !(#[trigger] s@[j] == a && s@[j + 1] == b),
        decreases n - i,
    {
        if s[i] == a && s[i + 1] == b {
            proof {
                lemma_find2_is_first(s@, a, b, i as int);
            }
            let before = subvec(s, 0, i);
            let after = subvec(s, i + 2, n);
            proof {
                assert(before@ =~= s@.take(i as int));
                assert(after@ =~= s@.skip(i as int + 2));
            }
            return Some((before, after));
        }
        i = i + 1;
    }
    proof {
        lemma_find2(s@, a, b);
    }
    None
}

/// ASCII lower-casing of one byte.
pub open spec fn lower_byte(b: u8) -> u8 {
    if 65 <= b && b <= 90 {
        (b + 32) as u8
    } else {
        b
    }
}

/// ASCII lower-casing of a byte sequence.
pub open spec fn spec_lower(s: Seq<u8>) -> Seq<u8> {
    s.map_values(|b: u8| lower_byte(b))
}

/// ASCII lower-casing, as applied to header names.
pub fn to_lower(s: &Vec<u8>) -> (r: Vec<u8>)
    ensures
        r@ == spec_lower(s@),
{
    let mut r: Vec<u8> = Vec::new();
    let mut i: usize = 0;
    while i < s.len()
        invariant
            i <= s@.len(),
            r@.len() == i,
            forall|j: int| 0 <= j < i ==> r@[j] == lower_byte(s@[j]),
        decreases s@.len() - i,
    {
        let c = s[i];
        if 65 <= c && c <= 90 {
            r.push(c + 32);
        } else {
            r.push(c);
        }
        i = i + 1;
    }
    proof {
        assert(r@ =~= spec_lower(s@));
    }
    r
}

/// Decimal digits of `n`, most significant first.
pub open spec fn spec_dec(n: nat) -> Seq<u8>
    decreases n,
{
    if n < 10 {
        seq![(48 + n) as u8]
    } else {
        spec_dec(n / 10) + seq![(48 + n % 10) as u8]
    }
}

/// Decimal rendering of `n`.
pub fn dec_bytes(n: u64) -> (r: Vec<u8>)
    ensures
        r@ == spec_dec(n as nat),
    decreases n,
{
    if n < 10 {
        let mut r: Vec<u8> = Vec::new();
        r.push(48 + (n as u8));
        proof {
            assert(r@ =~= spec_dec(n as nat));
        }
        r
    } else {
        let mut r = dec_bytes(n / 10);
        r.push(48 + ((n % 10) as u8));
        proof {
            assert(r@ =~= spec_dec(n as nat));
        }
        r
    }
}

/// The bytes of an ASCII character sequence.
pub open spec fn ascii_bytes(s: Seq<char>) -> Seq<u8> {
    Seq::new(s.len(), |i: int| s[i] as u8)
}

/// The bytes of an ASCII string.
pub fn lit_bytes(s: &str) -> (r: Vec<u8>)
    requires
        s.is_ascii(),
    ensures
        r@ == ascii_bytes(s@),
{
    broadcast use vstd::string::is_ascii_spec_bytes;

    let r = s.as_bytes_vec();
    proof {
        assert(r@ =~= ascii_bytes(s@));
    }
    r
}

/// The views of a sequence of byte vectors.
pub open spec fn views(v: Seq<Vec<u8>>) -> Seq<Seq<u8>> {
    Seq::new(v.len(), |i: int| v[i]@)
}

/// The pieces of `s` split on every occurrence of `sep`.  A separator at the
/// start, at the end, or next to another yields an empty piece, and the empty
/// sequence yields one empty piece.
pub open spec fn spec_split(s: Seq<u8>, sep: u8) -> Seq<Seq<u8>>
    decreases s.len(),
{
    if s.len() == 0 {
        seq![Seq::<u8>::empty()]
    } else if s[0] == sep {
        seq![Seq::<u8>::empty()] + spec_split(s.skip(1), sep)
    } else {
        let rest = spec_split(s.skip(1), sep);
        seq![seq![s[0]] + rest[0]] + rest.skip(1)
    }
}

/// Splitting always yields at least one piece.
pub proof fn lemma_split_len(s: Seq<u8>, sep: u8)
    ensures
        spec_split(s, sep).len() >= 1,
    decreases s.len(),
{
    if s.len() > 0 {
        lemma_split_len(s.skip(1), sep);
    }
}

/// All the pieces of `s` split on `sep`.
pub fn split_all(s: &Vec<u8>, sep: u8) -> (r: Vec<Vec<u8>>)
    ensures
        views(r@) == spec_split(s@, sep),
        r@.len() >= 1,
    decreases s@.len(),
{
    proof {
        lemma_split_len(s@, sep);
    }
    if s.len() == 0 {
        let mut r: Vec<Vec<u8>> = Vec::new();
        r.push(Vec::new());
        proof {
            assert(views(r@) =~= spec_split(s@, sep));
        }
        r
    } else if s[0] == sep {
        let tail = subvec(s, 1, s.len());
        proof {
            assert(tail@ =~= s@.skip(1));
        }
        let mut rest = split_all(&tail, sep);
        let mut r: Vec<Vec<u8>> = Vec::new();
        r.push(Vec::new());
        r.append(&mut rest);
        proof {
            assert(views(r@) =~= spec_split(s@, sep));
        }
        r
    } else {
        let tail = subvec(s, 1, s.len());
        proof {
            assert(tail@ =~= s@.skip(1));
        }
        let mut rest = split_all(&tail, sep);
        let head_rest = rest.remove(0);
        let mut first: Vec<u8> = Vec::new();
        first.push(s[0]);
        let mut head_rest = head_rest;
        first.append(&mut head_rest);
        let mut r: Vec<Vec<u8>> = Vec::new();
        r.push(first);
        r.append(&mut rest);
        proof {
            assert(views(r@) =~= spec_split(s@, sep));
        }
        r
    }
}

/// The pieces at `from` and beyond, concatenated in order.
pub open spec fn spec_concat(ls: Seq<Seq<u8>>, from: int) -> Seq<u8>
    decreases ls.len() - from,
{
    if from < 0 || from >= ls.len() {
        Seq::empty()
    } else {
        ls[from] + spec_concat(ls, from + 1)
    }
}

/// Concatenation of the vectors at `from` and beyond.
pub fn concat_from(ls: &Vec<Vec<u8>>, from: usize) -> (r: Vec<u8>)
    ensures
        r@ == spec_concat(views(ls@), from as int),
    decreases ls@.len() - from,
{
    if from >= ls.len() {
        let r: Vec<u8> = Vec::new();
        proof {
            assert(r@ =~= spec_concat(views(ls@), from as int));
        }
        r
    } else {
        let mut r = clone_vec(&ls[from]);
        let mut tail = concat_from(ls, from + 1);
        r.append(&mut tail);
        proof {
            assert(r@ =~= spec_concat(views(ls@), from as int));
        }
        r
    }
}

/// The whitespace-separated tokens of `s`, in order, each non-empty.
pub open spec fn spec_tokens(s: Seq<u8>) -> Seq<Seq<u8>>
    decreases s.len(),
{
    if s.len() == 0 {
        Seq::empty()
    } else if is_ws(s[0]) {
        spec_tokens(s.skip(1))
    } else if s.len() >= 2 && !is_ws(s[1]) {
        let rest = spec_tokens(s.skip(1));
        seq![seq![s[0]] + rest[0]] + rest.skip(1)
    } else {
        seq![seq![s[0]]] + spec_tokens(s.skip(1))
    }
}

/// A sequence that starts with a non-whitespace byte has at least one token.
pub proof fn lemma_tokens_nonempty(s: Seq<u8>)
    requires
        s.len() > 0,
        !is_ws(s[0]),
    ensures
        spec_tokens(s).len() >= 1,
    decreases s.len(),
{
    if s.len() >= 2 && !is_ws(s[1]) {
        lemma_tokens_nonempty(s.skip(1));
    }
}

/// The whitespace-separated tokens of `s`.
pub fn tokenize(s: &Vec<u8>) -> (r: Vec<Vec<u8>>)
    ensures
        views(r@) == spec_tokens(s@),
    decreases s@.len(),
{
    if s.len() == 0 {
        let r: Vec<Vec<u8>> = Vec::new();
        proof {
            assert(views(r@) =~= spec_tokens(s@));
        }
        r
    } else {
        let tail = subvec(s, 1, s.len());
        proof {
            assert(tail@ =~= s@.skip(1));
        }
        let c = s[0];
        if c == 32 || c == 9 {
            tokenize(&tail)
        } else if s.len() >= 2 && !(s[1] == 32 || s[1] == 9) {
            let mut rest = tokenize(&tail);
            proof {
                lemma_tokens_nonempty(tail@);
            }
            let head_rest = rest.remove(0);
            let mut first: Vec<u8> = Vec::new();
            first.push(c);
            let mut head_rest = head_rest;
            first.append(&mut head_rest);
            let mut r: Vec<Vec<u8>> = Vec::new();
            r.push(first);
            r.append(&mut rest);
            proof {
                assert(views(r@) =~= spec_tokens(s@));
            }
            r
        } else {
            let mut rest = tokenize(&tail);
            let mut first: Vec<u8> = Vec::new();
            first.push(c);
            let mut r: Vec<Vec<u8>> = Vec::new();
            r.push(first);
            r.append(&mut rest);
            proof {
                assert(views(r@) =~= spec_tokens(s@));
            }
            r
        }
    }
}

/// A line with one trailing carriage return removed.
pub open spec fn strip_cr(l: Seq<u8>) -> Seq<u8> {
    if l.len() > 0 && l[l.len() - 1] == 13 {
        l.drop_last()
    } else {
        l
    }
}

/// The lines of `s`: the pieces split on each line feed, a trailing empty
/// piece dropped, and one trailing carriage return removed from each piece.
pub open spec fn spec_lines(s: Seq<u8>) -> Seq<Seq<u8>> {
    let p = spec_split(s, 10);
    let q = if p.len() > 0 && p.last().len() == 0 {
        p.drop_last()
    } else {
        p
    };
    q.map_values(|l: Seq<u8>| strip_cr(l))
}

/// The lines of the buffer.
pub fn split_lines(s: &Vec<u8>) -> (r: Vec<Vec<u8>>)
    ensures
        views(r@) == spec_lines(s@),
{
    let mut p = split_all(s, 10);
    let ghost p0 = views(p@);
    if p[p.len() - 1].len() == 0 {
        p.pop();
    }
    let ghost q = views(p@);
    proof {
        if p0.last().len() == 0 {
            assert(q =~= p0.drop_last());
        } else {
            assert(q =~= p0);
        }
    }
    let mut r: Vec<Vec<u8>> = Vec::new();
    let mut i: usize = 0;
    while i < p.len()
        invariant
            i <= p@.len(),
            r@.len() == i,
            q == views(p@),
            forall|j: int| 0 <= j < i ==> r@[j]@ == strip_cr(q[j]),
        decreases p@.len() - i,
    {
        let l = &p[i];
        let n = l.len();
        if n > 0 && l[n - 1] == 13 {
            let stripped = subvec(l, 0, n - 1);
            proof {
                assert(stripped@ =~= strip_cr(l@));
            }
            r.push(stripped);
        } else {
            let copied = clone_vec(l);
            r.push(copied);
        }
        i = i + 1;
    }
    proof {
        let stripped = q.map_values(|l: Seq<u8>| strip_cr(l));
        assert(stripped == spec_lines(s@));
        assert(views(r@) =~= stripped);
    }
    r
}

/// The piece at index `offset` of `s` split on `sep`, or `None` when fewer
/// pieces exist.
pub fn split_string(s: &Vec<u8>, sep: u8, offset: usize) -> (r: Option<Vec<u8>>)
    ensures
        match r {
            Some(piece) => (offset as int) < spec_split(s@, sep).len() && piece@ == spec_split(
                s@,
                sep,
            )[offset as int],
            None => (offset as int) >= spec_split(s@, sep).len(),
        },
{
    let pieces = split_all(s, sep);
    if offset < pieces.len() {
        Some(clone_vec(&pieces[offset]))
    } else {
        None
    }
}

} // verus!
