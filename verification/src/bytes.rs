//! Byte-sequence utilities shared by the request parser and the response
//! serializer: equality and prefix tests, first-occurrence search for a
//! two-byte separator, splitting on a separator, and decimal rendering.
use vstd::prelude::*;

verus! {

use vstd::string::StringSliceAdditionalSpecFns;

/// Compares two byte slices for equality.
pub fn bytes_eq(a: &[u8], b: &[u8]) -> (r: bool)
    ensures
        r == (a@ == b@),
{
    if a.len() != b.len() {
        assert(a@ != b@) by {
            assert(a@.len() != b@.len());
        }
        return false;
    }
    let mut i: usize = 0;
    while i < a.len()
        invariant
            0 <= i <= a@.len(),
            a@.len() == b@.len(),
            forall|j: int| 0 <= j < i ==> a@[j] == b@[j],
        decreases a@.len() - i,
    {
        if a[i] != b[i] {
            return false;
        }
        i += 1;
    }
    proof {
        assert(a@ =~= b@);
    }
    true
}

/// True when `p` is a prefix of `a`.
pub fn starts_with(a: &[u8], p: &[u8]) -> (r: bool)
    ensures
        r == p@.is_prefix_of(a@),
{
    if p.len() > a.len() {
        return false;
    }
    let mut i: usize = 0;
    while i < p.len()
        invariant
            0 <= i <= p@.len(),
            p@.len() <= a@.len(),
            forall|j: int| 0 <= j < i ==> a@[j] == p@[j],
        decreases p@.len() - i,
    {
        if a[i] != p[i] {
            return false;
        }
        i += 1;
    }
    proof {
        assert(p@ =~= a@.subrange(0, p@.len() as int));
    }
    true
}

/// The two-byte line terminator `\r\n`.
pub open spec fn crlf() -> Seq<u8> {
    seq![13u8, 10u8]
}

/// The line terminator `\r\n` as a byte slice.
pub fn crlf_bytes() -> (r: &'static [u8])
    ensures
        r@ == crlf(),
{
    let s = "\r\n";
    proof {
        reveal_strlit("\r\n");
        assert(vstd::utf8::is_ascii_chars(s@));
        vstd::string::is_ascii_spec_bytes(s);
        assert(s.spec_bytes() =~= crlf());
    }
    s.as_bytes()
}

/// A two-byte separator `ab` occurs in `s` at position `i`.
pub open spec fn pair_at(s: Seq<u8>, a: u8, b: u8, i: int) -> bool {
    0 <= i && i + 1 < s.len() && s[i] == a && s[i + 1] == b
}

/// Index of the first occurrence of the two-byte separator `ab` in `s`,
/// or -1 when it does not occur.
pub open spec fn find2(s: Seq<u8>, a: u8, b: u8) -> int
    decreases s.len(),
{
    if s.len() < 2 {
        -1
    } else if s[0] == a && s[1] == b {
        0
    } else if find2(s.drop_first(), a, b) < 0 {
        -1
    } else {
        find2(s.drop_first(), a, b) + 1
    }
}

/// `find2` returns -1 exactly when the separator is absent, and otherwise
/// the least position at which it occurs.
pub proof fn lemma_find2(s: Seq<u8>, a: u8, b: u8)
    ensures
        find2(s, a, b) == -1 ==> forall|i: int| !pair_at(s, a, b, i),
        find2(s, a, b) >= 0 ==> pair_at(s, a, b, find2(s, a, b)),
        find2(s, a, b) >= 0 ==> forall|i: int| 0 <= i < find2(s, a, b) ==> !pair_at(s, a, b, i),
    decreases s.len(),
{
    if s.len() < 2 {
    } else if s[0] == a && s[1] == b {
    } else {
        lemma_find2(s.drop_first(), a, b);
        assert forall|i: int| 1 <= i implies (pair_at(s, a, b, i) == pair_at(
            s.drop_first(),
            a,
            b,
            i - 1,
        )) by {
            assert(s.drop_first().len() == s.len() - 1);
            if 1 <= i && i + 1 < s.len() {
                assert(s.drop_first()[i - 1] == s[i]);
                assert(s.drop_first()[i] == s[i + 1]);
            }
        }
    }
}

/// When the separator occurs first at position `k`, `find2` returns `k`.
pub proof fn lemma_find2_first(s: Seq<u8>, a: u8, b: u8, k: int)
    requires
        pair_at(s, a, b, k),
        forall|i: int| 0 <= i < k ==> !pair_at(s, a, b, i),
    ensures
        find2(s, a, b) == k,
{
    lemma_find2(s, a, b);
    let f = find2(s, a, b);
    if f == -1 {
        assert(!pair_at(s, a, b, k));
    } else if f < k {
        assert(!pair_at(s, a, b, f));
    } else if f > k {
        assert(!pair_at(s, a, b, k));
    }
}

/// When the separator does not occur at all, `find2` returns -1.
pub proof fn lemma_find2_absent(s: Seq<u8>, a: u8, b: u8)
    requires
        forall|i: int| !pair_at(s, a, b, i),
    ensures
        find2(s, a, b) == -1,
{
    lemma_find2(s, a, b);
    let f = find2(s, a, b);
    if f >= 0 {
        assert(!pair_at(s, a, b, f));
    }
}

/// Prepending a separator-free piece and the separator itself puts the
/// first occurrence exactly at the end of that piece.
pub proof fn lemma_find2_concat(p: Seq<u8>, rest: Seq<u8>, a: u8, b: u8)
    requires
        a != b,
        forall|i: int| !pair_at(p, a, b, i),
    ensures
        find2(p + seq![a, b] + rest, a, b) == p.len(),
{
    let s = p + seq![a, b] + rest;
    assert(s[p.len() as int] == a);
    assert(s[p.len() as int + 1] == b);
    assert(pair_at(s, a, b, p.len() as int));
    assert forall|i: int| 0 <= i < p.len() implies !pair_at(s, a, b, i) by {
        if i + 1 < p.len() {
            assert(s[i] == p[i]);
            assert(s[i + 1] == p[i + 1]);
            assert(!pair_at(p, a, b, i));
        } else {
            assert(i + 1 == p.len());
            assert(s[i + 1] == a);
        }
    }
    lemma_find2_first(s, a, b, p.len() as int);
}

/// Splits `s` on every occurrence of the two-byte separator `ab`,
/// keeping empty pieces; a separator-free `s` yields one piece.
pub open spec fn split2(s: Seq<u8>, a: u8, b: u8) -> Seq<Seq<u8>>
    decreases s.len(),
{
    let i = find2(s, a, b);
    if i < 0 {
        seq![s]
    } else if i + 2 <= s.len() {
        seq![s.take(i)] + split2(s.skip(i + 2), a, b)
    } else {
        seq![s.take(i)]
    }
}

/// Splitting a stream that starts with a separator-free line and the
/// separator yields that line followed by the split of the remainder.
pub proof fn lemma_split2_step(line: Seq<u8>, rest: Seq<u8>, a: u8, b: u8)
    requires
        a != b,
        forall|i: int| !pair_at(line, a, b, i),
    ensures
        split2(line + seq![a, b] + rest, a, b) == seq![line] + split2(rest, a, b),
{
    let s = line + seq![a, b] + rest;
    lemma_find2_concat(line, rest, a, b);
    let i = find2(s, a, b);
    assert(i == line.len());
    assert(i + 2 <= s.len());
    assert(s.take(i) =~= line);
    assert(s.skip(i + 2) =~= rest);
}

/// A separator-free stream is one single piece.
pub proof fn lemma_split2_whole(s: Seq<u8>, a: u8, b: u8)
    requires
        forall|i: int| !pair_at(s, a, b, i),
    ensures
        split2(s, a, b) == seq![s],
{
    lemma_find2_absent(s, a, b);
}

/// Finds the first occurrence of the separator `ab` at or after `from`,
/// as an absolute index into `s`.
pub fn find_two_from(s: &[u8], from: usize, a: u8, b: u8) -> (r: Option<usize>)
    requires
        from <= s@.len(),
    ensures
        match r {
            Some(i) => from <= i && i + 1 < s@.len() && s@[i as int] == a && s@[i + 1] == b
                && forall|j: int| from <= j < i ==> !pair_at(s@, a, b, j),
            None => forall|j: int| from <= j ==> !pair_at(s@, a, b, j),
        },
{
    if s.len() < 2 {
        return None;
    }
    let mut i: usize = from;
    while i < s.len() - 1
        invariant
            from <= i <= s@.len(),
            s@.len() >= 2,
            forall|j: int| from <= j < i ==> !pair_at(s@, a, b, j),
        decreases s@.len() - i,
    {
        if s[i] == a && s[i + 1] == b {
            return Some(i);
        }
        i += 1;
    }
    None
}

/// The byte `c` occurs in `s` at position `i`.
pub open spec fn byte_at(s: Seq<u8>, c: u8, i: int) -> bool {
    0 <= i < s.len() && s[i] == c
}

/// Index of the first occurrence of the byte `c` in `s`, or -1 when it
/// does not occur.
pub open spec fn find1(s: Seq<u8>, c: u8) -> int
    decreases s.len(),
{
    if s.len() == 0 {
        -1
    } else if s[0] == c {
        0
    } else if find1(s.drop_first(), c) < 0 {
        -1
    } else {
        find1(s.drop_first(), c) + 1
    }
}

/// `find1` returns -1 exactly when the byte is absent, and otherwise the
/// least position at which it occurs.
pub proof fn lemma_find1(s: Seq<u8>, c: u8)
    ensures
        find1(s, c) == -1 ==> forall|i: int| !byte_at(s, c, i),
        find1(s, c) >= 0 ==> byte_at(s, c, find1(s, c)),
        find1(s, c) >= 0 ==> forall|i: int| 0 <= i < find1(s, c) ==> !byte_at(s, c, i),
    decreases s.len(),
{
    if s.len() == 0 {
    } else if s[0] == c {
    } else {
        lemma_find1(s.drop_first(), c);
        assert forall|i: int| 1 <= i implies (byte_at(s, c, i) == byte_at(
            s.drop_first(),
            c,
            i - 1,
        )) by {
            if 1 <= i && i < s.len() {
                assert(s.drop_first()[i - 1] == s[i]);
            }
        }
    }
}

/// When the byte occurs first at position `k`, `find1` returns `k`.
pub proof fn lemma_find1_first(s: Seq<u8>, c: u8, k: int)
    requires
        byte_at(s, c, k),
        forall|i: int| 0 <= i < k ==> !byte_at(s, c, i),
    ensures
        find1(s, c) == k,
{
    lemma_find1(s, c);
    let f = find1(s, c);
    if f == -1 {
        assert(!byte_at(s, c, k));
    } else if f < k {
        assert(!byte_at(s, c, f));
    } else if f > k {
        assert(!byte_at(s, c, k));
    }
}

/// When the byte does not occur at all, `find1` returns -1.
pub proof fn lemma_find1_absent(s: Seq<u8>, c: u8)
    requires
        forall|i: int| !byte_at(s, c, i),
    ensures
        find1(s, c) == -1,
{
    lemma_find1(s, c);
    let f = find1(s, c);
    if f >= 0 {
        assert(!byte_at(s, c, f));
    }
}

/// Finds the first occurrence of the byte `c` at or after `from`, as an
/// absolute index into `s`.
pub fn find_byte_from(s: &[u8], from: usize, c: u8) -> (r: Option<usize>)
    requires
        from <= s@.len(),
    ensures
        match r {
            Some(i) => from <= i && i < s@.len() && s@[i as int] == c && forall|j: int|
                from <= j < i ==> s@[j] != c,
            None => forall|j: int| from <= j < s@.len() ==> s@[j] != c,
        },
{
    let mut i: usize = from;
    while i < s.len()
        invariant
            from <= i <= s@.len(),
            forall|j: int| from <= j < i ==> s@[j] != c,
        decreases s@.len() - i,
    {
        if s[i] == c {
            return Some(i);
        }
        i += 1;
    }
    None
}

/// The views of a sequence of byte vectors.
pub open spec fn views_of(s: Seq<Vec<u8>>) -> Seq<Seq<u8>> {
    Seq::new(s.len(), |i: int| s[i]@)
}

/// A split yields at least one piece.
pub proof fn lemma_split2_nonempty(s: Seq<u8>, a: u8, b: u8)
    ensures
        split2(s, a, b).len() >= 1,
{
}

/// Splits `s` on every occurrence of the two-byte separator `ab`.
pub fn split_two(s: &[u8], a: u8, b: u8) -> (lines: Vec<Vec<u8>>)
    requires
        a != b,
    ensures
        views_of(lines@) == split2(s@, a, b),
{
    let mut lines: Vec<Vec<u8>> = Vec::new();
    let mut start: usize = 0;
    let mut fin: bool = false;
    proof {
        assert(s@.skip(0) =~= s@);
        assert(views_of(lines@) =~= Seq::<Seq<u8>>::empty());
        assert(views_of(lines@) + split2(s@, a, b) =~= split2(s@, a, b));
    }
    while !fin
        invariant
            start <= s@.len(),
            a != b,
            !fin ==> split2(s@, a, b) == views_of(lines@) + split2(s@.skip(start as int), a, b),
            fin ==> views_of(lines@) == split2(s@, a, b),
        decreases s@.len() - start, (if fin {
            0int
        } else {
            1int
        }),
    {
        let ghost pre = views_of(lines@);
        let ghost tail = s@.skip(start as int);
        match find_two_from(s, start, a, b) {
            Some(i) => {
                let n = s.len();
                let piece = subvec(s, start, i);
                lines.push(piece);
                proof {
                    let line = s@.subrange(start as int, i as int);
                    assert forall|p: int| !pair_at(line, a, b, p) by {
                        if 0 <= p && p + 1 < line.len() {
                            assert(line[p] == s@[start + p]);
                            assert(line[p + 1] == s@[start + p + 1]);
                            assert(!pair_at(s@, a, b, start + p));
                        }
                    }
                    assert(tail =~= line + seq![a, b] + s@.skip(i + 2 as int)) by {
                        assert forall|p: int|
                            0 <= p < tail.len() implies tail[p] == (line + seq![a, b] + s@.skip(
                            i + 2 as int,
                        ))[p] by {}
                    }
                    lemma_split2_step(line, s@.skip(i + 2 as int), a, b);
                    assert(views_of(lines@) =~= pre + seq![line]);
                    assert(views_of(lines@) + split2(s@.skip(i + 2 as int), a, b) =~= split2(
                        s@,
                        a,
                        b,
                    ));
                }
                start = i + 2;
            },
            None => {
                let piece = subvec(s, start, s.len());
                lines.push(piece);
                proof {
                    let line = s@.subrange(start as int, s@.len() as int);
                    assert(tail =~= line);
                    assert forall|p: int| !pair_at(tail, a, b, p) by {
                        if 0 <= p && p + 1 < tail.len() {
                            assert(tail[p] == s@[start + p]);
                            assert(tail[p + 1] == s@[start + p + 1]);
                            assert(!pair_at(s@, a, b, start + p));
                        }
                    }
                    lemma_split2_whole(tail, a, b);
                    assert(views_of(lines@) =~= pre + seq![line]);
                    assert(views_of(lines@) =~= split2(s@, a, b));
                }
                fin = true;
            },
        }
    }
    lines
}

/// Copies the byte range `[from, to)` of `s` into a fresh vector.
pub fn subvec(s: &[u8], from: usize, to: usize) -> (v: Vec<u8>)
    requires
        from <= to <= s@.len(),
    ensures
        v@ == s@.subrange(from as int, to as int),
{
    let mut v: Vec<u8> = Vec::new();
    let mut i: usize = from;
    while i < to
        invariant
            from <= i <= to <= s@.len(),
            v@ == s@.subrange(from as int, i as int),
        decreases to - i,
    {
        let x = s[i];
        v.push(x);
        proof {
            assert(v@ =~= s@.subrange(from as int, i + 1 as int));
        }
        i += 1;
    }
    v
}

/// The decimal digits of `n`, most significant first, as ASCII bytes.
pub open spec fn dec_rep(n: nat) -> Seq<u8>
    decreases n,
{
    if n < 10 {
        seq![(48 + n) as u8]
    } else {
        dec_rep(n / 10) + seq![(48 + n % 10) as u8]
    }
}

/// Every byte of a decimal rendering is an ASCII digit.
pub proof fn lemma_dec_rep_digits(n: nat)
    ensures
        forall|i: int| 0 <= i < dec_rep(n).len() ==> 48 <= #[trigger] dec_rep(n)[i] <= 57,
    decreases n,
{
    if n < 10 {
    } else {
        lemma_dec_rep_digits(n / 10);
        assert forall|i: int| 0 <= i < dec_rep(n).len() implies 48 <= #[trigger] dec_rep(n)[i]
            <= 57 by {
            if i < dec_rep(n / 10).len() {
                assert(dec_rep(n)[i] == dec_rep(n / 10)[i]);
            } else {
                assert(dec_rep(n)[i] == (48 + n % 10) as u8);
            }
        }
    }
}

/// Renders `n` in decimal as ASCII bytes.
pub fn u64_to_dec(n: u64) -> (v: Vec<u8>)
    ensures
        v@ == dec_rep(n as nat),
{
    let mut digits: Vec<u8> = Vec::new();
    let mut x: u64 = n;
    while x >= 10
        invariant
            dec_rep(n as nat) == dec_rep(x as nat) + digits@.reverse(),
        decreases x,
    {
        let d: u8 = (x % 10) as u8;
        let ghost old_digits = digits@;
        digits.push(48 + d);
        x = x / 10;
        proof {
            assert(digits@.reverse() =~= seq![(48 + d) as u8] + old_digits.reverse());
        }
    }
    let ghost old_digits = digits@;
    digits.push(48 + (x as u8));
    proof {
        assert(dec_rep(x as nat) == seq![(48 + x) as u8]);
        assert(digits@.reverse() =~= seq![(48 + x) as u8] + old_digits.reverse());
        assert(dec_rep(n as nat) == digits@.reverse());
    }
    let mut v: Vec<u8> = Vec::new();
    let mut i: usize = digits.len();
    while i > 0
        invariant
            i <= digits@.len(),
            v@ == digits@.reverse().take(digits@.len() - i),
        decreases i,
    {
        i -= 1;
        let x2 = digits[i];
        v.push(x2);
        proof {
            assert(v@ =~= digits@.reverse().take(digits@.len() - i));
        }
    }
    proof {
        assert(v@ =~= digits@.reverse());
    }
    v
}

} // verus!
