//! ASCII text helpers: case folding for command names, decimal numbers for
//! length prefixes and array headers, and whitespace trimming for incoming
//! lines.  Everything works on bytes; the protocol is line-oriented text.

use vstd::prelude::*;

verus! {

/// ASCII uppercase of one byte: a lowercase letter maps to its uppercase
/// form, every other byte is unchanged.
pub open spec fn upper(b: u8) -> u8 {
    if 97 <= b && b <= 122 {
        (b - 32) as u8
    } else {
        b
    }
}

/// Exec counterpart of [`upper`].
pub fn to_upper(b: u8) -> (r: u8)
    ensures
        r == upper(b),
{
    if 97 <= b && b <= 122 {
        b - 32
    } else {
        b
    }
}

/// `b` is an ASCII decimal digit.
pub open spec fn is_digit(b: u8) -> bool {
    48 <= b && b <= 57
}

/// The numeric value of one digit byte (0 for a non-digit).
pub open spec fn digit_val(b: u8) -> nat {
    if is_digit(b) {
        (b - 48) as nat
    } else {
        0
    }
}

/// Every byte of `s` is an ASCII decimal digit.
pub open spec fn all_digits(s: Seq<u8>) -> bool {
    forall|i: int| 0 <= i < s.len() ==> is_digit(#[trigger] s[i])
}

/// The number denoted by a sequence of digit bytes, most significant first.
pub open spec fn digits_val(s: Seq<u8>) -> nat
    decreases s.len(),
{
    if s.len() == 0 {
        0
    } else {
        digits_val(s.drop_last()) * 10 + digit_val(s.last())
    }
}

/// The canonical decimal digits of `n`, most significant first, no leading
/// zeros (a single `0` for zero itself).
pub open spec fn dec_rep(n: nat) -> Seq<u8>
    decreases n,
{
    if n < 10 {
        seq![(48 + n) as u8]
    } else {
        dec_rep(n / 10).push((48 + n % 10) as u8)
    }
}

/// The value of a digit string never shrinks when more digits follow.
proof fn lemma_digits_val_take_le(s: Seq<u8>, j: int)
    requires
        0 <= j <= s.len(),
    ensures
        digits_val(s.take(j)) <= digits_val(s),
    decreases s.len() - j,
{
    if j < s.len() {
        assert(s.take(j + 1).drop_last() =~= s.take(j));
        assert(s.take(j + 1).last() == s[j]);
        assert(digits_val(s.take(j + 1)) == digits_val(s.take(j)) * 10 + digit_val(s[j]));
        lemma_digits_val_take_le(s, j + 1);
    } else {
        assert(s.take(j) =~= s);
    }
}

/// Reading back the canonical decimal digits of `n` yields `n` again:
/// a formatted length prefix denotes exactly the number it was made from.
pub proof fn lemma_dec_rep_val(n: nat)
    ensures
        digits_val(dec_rep(n)) == n,
        all_digits(dec_rep(n)),
        dec_rep(n).len() >= 1,
    decreases n,
{
    if n < 10 {
        let s = dec_rep(n);
        assert(s =~= seq![(48 + n) as u8]);
        assert(s.drop_last() =~= Seq::<u8>::empty());
        assert(digits_val(Seq::<u8>::empty()) == 0);
        assert(digits_val(s) == digit_val((48 + n) as u8));
    } else {
        lemma_dec_rep_val(n / 10);
        let s = dec_rep(n);
        assert(s.drop_last() =~= dec_rep(n / 10));
        assert(s.last() == (48 + n % 10) as u8);
        assert(digits_val(s) == (n / 10) * 10 + digit_val((48 + n % 10) as u8));
        assert(n / 10 * 10 + n % 10 == n);
        assert forall|i: int| 0 <= i < s.len() implies is_digit(#[trigger] s[i]) by {
            if i < s.len() - 1 {
                assert(s[i] == dec_rep(n / 10)[i]);
            }
        }
    }
}

/// Parses the decimal number written in `line` from position `start` to the
/// end.  Returns its value exactly when that span is non-empty, consists of
/// digits only, and the value fits in `usize`; returns `None` otherwise.
pub fn parse_decimal_from(line: &Vec<u8>, start: usize) -> (r: Option<usize>)
    requires
        start <= line@.len(),
    ensures
        ({
            let s = line@.subrange(start as int, line@.len() as int);
            match r {
                Some(v) => s.len() > 0 && all_digits(s) && v == digits_val(s) && digits_val(s)
                    <= usize::MAX,
                None => s.len() == 0 || !all_digits(s) || digits_val(s) > usize::MAX,
            }
        }),
{
    let ghost s = line@.subrange(start as int, line@.len() as int);
    if start >= line.len() {
        return None;
    }
    let mut acc: usize = 0;
    let mut i: usize = start;
    while i < line.len()
        invariant
            start <= i <= line@.len(),
            s == line@.subrange(start as int, line@.len() as int),
            all_digits(s.take(i - start)),
            acc == digits_val(s.take(i - start)),
        decreases line@.len() - i,
    {
        let b: u8 = line[i];
        proof {
            assert(s[i - start] == line@[i as int]);
        }
        if b < 48 || b > 57 {
            proof {
                assert(!is_digit(s[i - start]));
            }
            return None;
        }
        let d: usize = (b - 48) as usize;
        let wide: u128 = (acc as u128) * 10 + (d as u128);
        proof {
            assert(s.take(i - start + 1).drop_last() =~= s.take(i - start));
            assert(s.take(i - start + 1).last() == s[i - start]);
            assert(digits_val(s.take(i - start + 1)) == digits_val(s.take(i - start)) * 10
                + digit_val(s[i - start]));
        }
        if wide > usize::MAX as u128 {
            proof {
                lemma_digits_val_take_le(s, i - start + 1);
            }
            return None;
        }
        acc = wide as usize;
        i = i + 1;
    }
    proof {
        assert(s.take(i - start) =~= s);
    }
    Some(acc)
}

/// Appends the canonical decimal digits of `n` to `out`.
pub fn push_decimal(out: &mut Vec<u8>, n: usize)
    ensures
        final(out)@ == old(out)@ + dec_rep(n as nat),
    decreases n,
{
    if n < 10 {
        out.push(48 + n as u8);
        proof {
            assert(out@ =~= old(out)@ + dec_rep(n as nat));
        }
    } else {
        push_decimal(out, n / 10);
        out.push(48 + (n % 10) as u8);
        proof {
            assert(out@ =~= old(out)@ + dec_rep(n as nat));
        }
    }
}

/// Copies a byte vector; the copy holds exactly the same bytes.
pub fn clone_bytes(v: &Vec<u8>) -> (r: Vec<u8>)
    ensures
        r@ == v@,
{
    let r = v.clone();
    proof {
        assert(r@ =~= v@);
    }
    r
}

/// Byte-for-byte equality of two byte vectors.
pub fn bytes_eq(a: &Vec<u8>, b: &Vec<u8>) -> (r: bool)
    ensures
        r <==> a@ == b@,
{
    if a.len() != b.len() {
        return false;
    }
    let mut i: usize = 0;
    while i < a.len()
        invariant
            0 <= i <= a@.len(),
            a@.len() == b@.len(),
            forall|j: int| 0 <= j < i ==> a@[j] == b@[j],
        decreases a@.len() - i,
    {
        if a[i] != b[i] {
            return false;
        }
        i = i + 1;
    }
    proof {
        assert(a@ =~= b@);
    }
    true
}

/// The byte sequences a list of byte vectors denotes.
pub open spec fn seqs_of(v: Seq<Vec<u8>>) -> Seq<Seq<u8>> {
    v.map_values(|x: Vec<u8>| x@)
}

/// `b` is an ASCII whitespace byte (space, tab, carriage return, line feed).
pub open spec fn is_ws(b: u8) -> bool {
    b == 32 || b == 9 || b == 13 || b == 10
}

/// `s` with leading ASCII whitespace removed.
pub open spec fn trim_front(s: Seq<u8>) -> Seq<u8>
    decreases s.len(),
{
    if s.len() > 0 && is_ws(s[0]) {
        trim_front(s.drop_first())
    } else {
        s
    }
}

/// `s` with trailing ASCII whitespace removed.
pub open spec fn trim_back(s: Seq<u8>) -> Seq<u8>
    decreases s.len(),
{
    if s.len() > 0 && is_ws(s.last()) {
        trim_back(s.drop_last())
    } else {
        s
    }
}

/// `s` with surrounding ASCII whitespace removed.
pub open spec fn trim_spec(s: Seq<u8>) -> Seq<u8> {
    trim_back(trim_front(s))
}

proof fn lemma_trim_front_at(s: Seq<u8>, i: int)
    requires
        0 <= i <= s.len(),
        forall|k: int| 0 <= k < i ==> is_ws(#[trigger] s[k]),
        i < s.len() ==> !is_ws(s[i]),
    ensures
        trim_front(s) == s.subrange(i, s.len() as int),
    decreases i,
{
    if i == 0 {
        assert(s.subrange(0, s.len() as int) =~= s);
    } else {
        assert(is_ws(s[0]));
        let t = s.drop_first();
        assert(t =~= s.subrange(1, s.len() as int));
        lemma_trim_front_at(t, i - 1);
        assert(t.subrange(i - 1, t.len() as int) =~= s.subrange(i, s.len() as int));
    }
}

proof fn lemma_trim_back_at(s: Seq<u8>, j: int)
    requires
        0 <= j <= s.len(),
        forall|k: int| j <= k < s.len() ==> is_ws(#[trigger] s[k]),
        j > 0 ==> !is_ws(s[j - 1]),
    ensures
        trim_back(s) == s.subrange(0, j),
    decreases s.len() - j,
{
    if j == s.len() {
        assert(s.subrange(0, s.len() as int) =~= s);
    } else {
        assert(is_ws(s.last()));
        let t = s.drop_last();
        assert(t =~= s.subrange(0, s.len() - 1));
        lemma_trim_back_at(t, j);
        assert(t.subrange(0, j) =~= s.subrange(0, j));
    }
}

/// Strips surrounding ASCII whitespace from one line, as the frame reader
/// expects its input.
pub fn trim_ascii(line: &Vec<u8>) -> (r: Vec<u8>)
    ensures
        r@ == trim_spec(line@),
{
    let n: usize = line.len();
    let mut i: usize = 0;
    while i < n && (line[i] == 32 || line[i] == 9 || line[i] == 13 || line[i] == 10)
        invariant
            0 <= i <= n,
            n == line@.len(),
            forall|k: int| 0 <= k < i ==> is_ws(#[trigger] line@[k]),
        decreases n - i,
    {
        i = i + 1;
    }
    proof {
        lemma_trim_front_at(line@, i as int);
    }
    let ghost front = line@.subrange(i as int, line@.len() as int);
    let mut j: usize = n;
    while j > i && (line[j - 1] == 32 || line[j - 1] == 9 || line[j - 1] == 13 || line[j - 1]
        == 10)
        invariant
            i <= j <= n,
            n == line@.len(),
            forall|k: int| j <= k < n ==> is_ws(#[trigger] line@[k]),
        decreases j,
    {
        j = j - 1;
    }
    proof {
        if j > i {
            assert(!is_ws(front[j - i - 1]));
        }
        assert forall|k: int| (j - i) <= k < front.len() implies is_ws(#[trigger] front[k]) by {
            assert(front[k] == line@[k + i]);
        }
        lemma_trim_back_at(front, j - i);
        assert(front.subrange(0, j - i) =~= line@.subrange(i as int, j as int));
    }
    let mut r: Vec<u8> = Vec::new();
    let mut k: usize = i;
    while k < j
        invariant
            i <= k <= j <= n,
            n == line@.len(),
            r@ =~= line@.subrange(i as int, k as int),
        decreases j - k,
    {
        r.push(line[k]);
        proof {
            assert(r@ =~= line@.subrange(i as int, k + 1));
        }
        k = k + 1;
    }
    proof {
        assert(r@ =~= line@.subrange(i as int, j as int));
    }
    r
}

} // verus!
