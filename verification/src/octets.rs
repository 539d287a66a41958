//! Byte-level helpers shared by the codec and the header logic: ASCII case
//! folding, decimal numerals, and searching a byte sequence.

use vstd::prelude::*;
use vstd::string::StrSliceExecFns;
use vstd::string::StringSliceAdditionalSpecFns;

verus! {

/// The bytes of an ASCII character sequence.
pub open spec fn bytes_of(s: Seq<char>) -> Seq<u8> {
    Seq::new(s.len(), |i: int| s[i] as u8)
}

/// Builds the byte vector of an ASCII string literal.
pub fn lit(s: &str) -> (r: Vec<u8>)
    requires
        s.is_ascii(),
    ensures
        r@ == bytes_of(s@),
{
    proof {
        broadcast use vstd::string::is_ascii_spec_bytes;

        assert(s.spec_bytes() =~= bytes_of(s@));
    }
    s.as_bytes_vec()
}

/// ASCII lower-casing of a single byte.
pub open spec fn lower_byte(b: u8) -> u8 {
    if 65 <= b && b <= 90 {
        (b + 32) as u8
    } else {
        b
    }
}

/// ASCII lower-casing of a byte sequence; header names compare under it.
pub open spec fn lower_seq(s: Seq<u8>) -> Seq<u8> {
    Seq::new(s.len(), |i: int| lower_byte(s[i]))
}

/// Executable ASCII lower-casing of one byte.
pub fn lower_byte_exec(b: u8) -> (r: u8)
    ensures
        r == lower_byte(b),
{
    if 65 <= b && b <= 90 {
        b + 32
    } else {
        b
    }
}

/// Whether `s@.subrange(from, to)` equals `t@` up to ASCII case.
pub fn range_eq_ignore_case(s: &Vec<u8>, from: usize, to: usize, t: &Vec<u8>) -> (r: bool)
    requires
        from <= to <= s@.len(),
    ensures
        r == (lower_seq(s@.subrange(from as int, to as int)) == lower_seq(t@)),
{
    if to - from != t.len() {
        proof {
            assert(lower_seq(s@.subrange(from as int, to as int)).len() == to - from);
            assert(lower_seq(t@).len() == t@.len());
        }
        return false;
    }
    let mut i: usize = 0;
    while i < t.len()
        invariant
            from <= to <= s@.len(),
            to - from == t@.len(),
            i <= t@.len(),
            forall|j: int| 0 <= j < i ==> lower_byte(s@[from + j]) == lower_byte(t@[j]),
        decreases t@.len() - i,
    {
        if lower_byte_exec(s[from + i]) != lower_byte_exec(t[i]) {
            proof {
                assert(lower_seq(s@.subrange(from as int, to as int))[i as int] == lower_byte(
                    s@[from + i],
                ));
                assert(lower_seq(t@)[i as int] == lower_byte(t@[i as int]));
            }
            return false;
        }
        i = i + 1;
    }
    proof {
        assert(lower_seq(s@.subrange(from as int, to as int)) =~= lower_seq(t@));
    }
    true
}

/// Whether `a@` equals `b@` up to ASCII case.
pub fn eq_ignore_case(a: &Vec<u8>, b: &Vec<u8>) -> (r: bool)
    ensures
        r == (lower_seq(a@) == lower_seq(b@)),
{
    let r = range_eq_ignore_case(a, 0, a.len(), b);
    proof {
        assert(a@.subrange(0, a@.len() as int) =~= a@);
    }
    r
}

/// Copies `s@.subrange(from, to)` into a fresh vector.
pub fn subvec(s: &Vec<u8>, from: usize, to: usize) -> (r: Vec<u8>)
    requires
        from <= to <= s@.len(),
    ensures
        r@ == s@.subrange(from as int, to as int),
{
    let mut r: Vec<u8> = Vec::new();
    let mut i: usize = from;
    while i < to
        invariant
            from <= i <= to <= s@.len(),
            r@ == s@.subrange(from as int, i as int),
        decreases to - i,
    {
        r.push(s[i]);
        proof {
            assert(r@ =~= s@.subrange(from as int, i + 1));
        }
        i = i + 1;
    }
    r
}

/// Appends all of `src` to `dst`.
pub fn append_bytes(dst: &mut Vec<u8>, src: &Vec<u8>)
    ensures
        final(dst)@ == old(dst)@ + src@,
{
    dst.extend_from_slice(src.as_slice());
}

/// The least index `i >= from` with `s[i] == b`, if any.
pub open spec fn find_byte(s: Seq<u8>, b: u8, from: int) -> Option<int>
    decreases s.len() - from,
    when from >= 0
{
    if from >= s.len() {
        None
    } else if s[from] == b {
        Some(from)
    } else {
        find_byte(s, b, from + 1)
    }
}

/// What a found index means: it carries `b`, nothing before it does.
pub proof fn lemma_find_byte(s: Seq<u8>, b: u8, from: int)
    requires
        0 <= from,
    ensures
        match find_byte(s, b, from) {
            Some(i) => from <= i < s.len() && s[i] == b && forall|j: int|
                from <= j < i ==> s[j] != b,
            None => forall|j: int| from <= j < s.len() ==> s[j] != b,
        },
    decreases s.len() - from,
{
    if from < s.len() && s[from] != b {
        lemma_find_byte(s, b, from + 1);
    }
}

/// The first occurrence determines the search result.
pub proof fn lemma_find_byte_is(s: Seq<u8>, b: u8, from: int, k: int)
    requires
        0 <= from <= k < s.len(),
        s[k] == b,
        forall|j: int| from <= j < k ==> s[j] != b,
    ensures
        find_byte(s, b, from) == Some(k),
    decreases k - from,
{
    if from < k {
        lemma_find_byte_is(s, b, from + 1, k);
    }
}

/// Appending bytes after a hit leaves the search result unchanged.
pub proof fn lemma_find_byte_extend(s: Seq<u8>, t: Seq<u8>, b: u8, from: int, k: int)
    requires
        0 <= from,
        find_byte(s, b, from) == Some(k),
    ensures
        find_byte(s + t, b, from) == Some(k),
{
    lemma_find_byte(s, b, from);
    assert((s + t)[k] == b);
    lemma_find_byte_is(s + t, b, from, k);
}

/// Executable search for the least index of `b` at or after `from`.
pub fn find_byte_exec(s: &Vec<u8>, b: u8, from: usize) -> (r: Option<usize>)
    requires
        from <= s@.len(),
    ensures
        match r {
            Some(i) => from <= i < s@.len() && find_byte(s@, b, from as int) == Some(i as int),
            None => find_byte(s@, b, from as int) is None,
        },
{
    let mut i: usize = from;
    while i < s.len()
        invariant
            from <= i <= s@.len(),
            find_byte(s@, b, from as int) == find_byte(s@, b, i as int),
        decreases s@.len() - i,
    {
        if s[i] == b {
            return Some(i);
        }
        i = i + 1;
    }
    None
}

/// Whether `b` is an ASCII decimal digit.
pub open spec fn is_digit(b: u8) -> bool {
    48 <= b && b <= 57
}

/// Whether every byte of `s` is a decimal digit.
pub open spec fn all_digits(s: Seq<u8>) -> bool {
    forall|i: int| 0 <= i < s.len() ==> is_digit(s[i])
}

/// The value of a digit string, most significant digit first.
pub open spec fn dec_val(s: Seq<u8>) -> nat
    decreases s.len(),
{
    if s.len() == 0 {
        0nat
    } else {
        (10 * dec_val(s.drop_last()) + (s.last() - 48)) as nat
    }
}

/// The decimal numeral of `n`, without leading zeros.
pub open spec fn dec_rep(n: nat) -> Seq<u8>
    decreases n,
{
    if n < 10 {
        seq![(48 + n) as u8]
    } else {
        dec_rep(n / 10).push((48 + n % 10) as u8)
    }
}

/// The numeral of `n` is all digits, is non-empty, and reads back as `n`.
pub proof fn lemma_dec_rep_val(n: nat)
    ensures
        all_digits(dec_rep(n)),
        dec_rep(n).len() >= 1,
        dec_val(dec_rep(n)) == n,
    decreases n,
{
    if n < 10 {
        assert(dec_rep(n) =~= seq![(48 + n) as u8]);
        assert(dec_rep(n).drop_last() =~= Seq::<u8>::empty());
        assert(dec_val(Seq::<u8>::empty()) == 0);
        assert(dec_rep(n).last() == (48 + n) as u8);
    } else {
        lemma_dec_rep_val(n / 10);
        assert(dec_rep(n).drop_last() =~= dec_rep(n / 10));
        assert(dec_rep(n).last() == (48 + n % 10) as u8);
        assert(forall|i: int|
            0 <= i < dec_rep(n).len() - 1 ==> dec_rep(n)[i] == dec_rep(n / 10)[i]);
        assert(dec_val(dec_rep(n)) == 10 * (n / 10) + n % 10);
        vstd::arithmetic::div_mod::lemma_fundamental_div_mod(n as int, 10);
    }
}

/// Reading more digits never shrinks the value.
pub proof fn lemma_dec_val_grows(s: Seq<u8>, from: int, i: int, to: int)
    requires
        0 <= from <= i <= to <= s.len(),
        all_digits(s.subrange(from, to)),
    ensures
        dec_val(s.subrange(from, to)) >= dec_val(s.subrange(from, i)),
    decreases to - i,
{
    if i < to {
        lemma_dec_val_grows(s, from, i + 1, to);
        assert(s.subrange(from, i + 1).drop_last() =~= s.subrange(from, i));
        assert(s.subrange(from, i + 1).last() == s.subrange(from, to)[i - from]);
        assert(is_digit(s.subrange(from, to)[i - from]));
        let v = dec_val(s.subrange(from, i));
        let d = s.subrange(from, i + 1).last() - 48;
        assert(0 <= d <= 9);
        assert(10 * v + d >= v) by (nonlinear_arith)
            requires
                v >= 0,
                d >= 0,
        ;
        assert(dec_val(s.subrange(from, i + 1)) >= dec_val(s.subrange(from, i)));
    }
}

/// Parses `s@.subrange(from, to)` as a decimal number. `None` when the range
/// is empty, holds a non-digit, or the value does not fit in `usize`.
pub fn parse_dec(s: &Vec<u8>, from: usize, to: usize) -> (r: Option<usize>)
    requires
        from <= to <= s@.len(),
    ensures
        match r {
            Some(v) => from < to && all_digits(s@.subrange(from as int, to as int)) && v == dec_val(
                s@.subrange(from as int, to as int),
            ),
            None => from == to || !all_digits(s@.subrange(from as int, to as int)) || dec_val(
                s@.subrange(from as int, to as int),
            ) > usize::MAX,
        },
{
    if from == to {
        return None;
    }
    let mut acc: usize = 0;
    let mut i: usize = from;
    while i < to
        invariant
            from <= i <= to <= s@.len(),
            all_digits(s@.subrange(from as int, i as int)),
            acc == dec_val(s@.subrange(from as int, i as int)),
        decreases to - i,
    {
        let b = s[i];
        if b < 48 || b > 57 {
            proof {
                assert(s@.subrange(from as int, to as int)[i - from] == s@[i as int]);
            }
            return None;
        }
        let d: usize = (b - 48) as usize;
        if acc > (usize::MAX - d) / 10 {
            proof {
                assert(s@.subrange(from as int, i + 1).drop_last() =~= s@.subrange(
                    from as int,
                    i as int,
                ));
                assert(s@.subrange(from as int, i + 1).last() == s@[i as int]);
                assert(dec_val(s@.subrange(from as int, i + 1)) == 10 * acc + d);
                assert(10 * acc + d > usize::MAX) by (nonlinear_arith)
                    requires
                        acc > (usize::MAX - d) / 10,
                        0 <= d <= 9,
                        acc <= usize::MAX,
                ;
                if all_digits(s@.subrange(from as int, to as int)) {
                    lemma_dec_val_grows(s@, from as int, i + 1, to as int);
                }
            }
            return None;
        }
        proof {
            assert(10 * acc + d <= usize::MAX) by (nonlinear_arith)
                requires
                    acc <= (usize::MAX - d) / 10,
                    0 <= d <= 9,
            ;
            assert(s@.subrange(from as int, i + 1).drop_last() =~= s@.subrange(
                from as int,
                i as int,
            ));
            assert(s@.subrange(from as int, i + 1).last() == s@[i as int]);
        }
        acc = acc * 10 + d;
        i = i + 1;
    }
    proof {
        assert(s@.subrange(from as int, i as int) =~= s@.subrange(from as int, to as int));
    }
    Some(acc)
}

/// Prints `n` as decimal digits.
pub fn print_dec(n: usize) -> (r: Vec<u8>)
    ensures
        r@ == dec_rep(n as nat),
    decreases n,
{
    if n < 10 {
        let mut v: Vec<u8> = Vec::new();
        v.push(48 + n as u8);
        proof {
            assert(v@ =~= dec_rep(n as nat));
        }
        v
    } else {
        let mut v = print_dec(n / 10);
        v.push(48 + (n % 10) as u8);
        proof {
            assert(v@ =~= dec_rep(n as nat));
        }
        v
    }
}


/// Whether `s@.subrange(from, to)` equals `t@` exactly.
pub fn range_eq(s: &Vec<u8>, from: usize, to: usize, t: &Vec<u8>) -> (r: bool)
    requires
        from <= to <= s@.len(),
    ensures
        r == (s@.subrange(from as int, to as int) == t@),
{
    if to - from != t.len() {
        proof {
            assert(s@.subrange(from as int, to as int).len() == to - from);
        }
        return false;
    }
    let mut i: usize = 0;
    while i < t.len()
        invariant
            from <= to <= s@.len(),
            to - from == t@.len(),
            i <= t@.len(),
            forall|j: int| 0 <= j < i ==> s@[from + j] == t@[j],
        decreases t@.len() - i,
    {
        if s[from + i] != t[i] {
            proof {
                assert(s@.subrange(from as int, to as int)[i as int] == s@[from + i]);
            }
            return false;
        }
        i = i + 1;
    }
    proof {
        assert(s@.subrange(from as int, to as int) =~= t@);
    }
    true
}

/// Whether every byte in `v` is a decimal digit.
pub fn is_all_digits(v: &Vec<u8>) -> (r: bool)
    ensures
        r == all_digits(v@),
{
    let mut i: usize = 0;
    while i < v.len()
        invariant
            i <= v@.len(),
            forall|j: int| 0 <= j < i ==> is_digit(v@[j]),
        decreases v@.len() - i,
    {
        if v[i] < 48 || v[i] > 57 {
            return false;
        }
        i = i + 1;
    }
    true
}

/// Lower-casing a byte sequence twice changes nothing.
pub proof fn lemma_lower_idempotent(s: Seq<u8>)
    ensures
        lower_seq(lower_seq(s)) == lower_seq(s),
{
    assert(lower_seq(lower_seq(s)) =~= lower_seq(s));
}


/// Whether `p` occurs inside `s` at position `i`, up to ASCII case.
pub open spec fn sub_at_ci(s: Seq<u8>, p: Seq<u8>, i: int) -> bool {
    0 <= i && i + p.len() <= s.len() && lower_seq(s.subrange(i, i + p.len())) == lower_seq(p)
}

/// Whether `p` occurs somewhere inside `s`, up to ASCII case.
pub open spec fn contains_ci(s: Seq<u8>, p: Seq<u8>) -> bool {
    exists|i: int| sub_at_ci(s, p, i)
}

/// Executable case-folded substring search.
pub fn contains_ci_exec(s: &Vec<u8>, p: &Vec<u8>) -> (r: bool)
    ensures
        r == contains_ci(s@, p@),
{
    if p.len() == 0 {
        proof {
            assert(s@.subrange(0, 0) =~= Seq::<u8>::empty());
            assert(lower_seq(s@.subrange(0, 0)) =~= lower_seq(p@));
            assert(sub_at_ci(s@, p@, 0));
        }
        return true;
    }
    if p.len() > s.len() {
        proof {
            assert(!contains_ci(s@, p@)) by {
                if contains_ci(s@, p@) {
                    let w = choose|w: int| sub_at_ci(s@, p@, w);
                }
            }
        }
        return false;
    }
    let bound = s.len() - p.len();
    let mut i: usize = 0;
    while i <= bound
        invariant
            p@.len() >= 1,
            s@.len() <= usize::MAX,
            bound == s@.len() - p@.len(),
            i <= bound + 1,
            forall|j: int| 0 <= j < i ==> !sub_at_ci(s@, p@, j),
        decreases bound + 1 - i,
    {
        if range_eq_ignore_case(s, i, i + p.len(), p) {
            proof {
                assert(sub_at_ci(s@, p@, i as int));
            }
            return true;
        }
        i = i + 1;
    }
    proof {
        assert(!contains_ci(s@, p@)) by {
            if contains_ci(s@, p@) {
                let w = choose|w: int| sub_at_ci(s@, p@, w);
                assert(w < i);
            }
        }
    }
    false
}

} // verus!
