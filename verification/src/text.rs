//! Small text routines shared by the limiter, the headers and the service:
//! decimal rendering and parsing of counters, and substring search.
use vstd::prelude::*;

verus! {

/// The ASCII digit for `d` (`0 <= d < 10`).
pub open spec fn digit_char(d: int) -> char {
    (d + 48) as char
}

/// `n`, or `u32::MAX` when it does not fit.
pub open spec fn cap_u32(n: nat) -> u32 {
    if n <= u32::MAX {
        n as u32
    } else {
        u32::MAX
    }
}

/// `n`, or `u64::MAX` when it does not fit.
pub open spec fn cap_u64(n: nat) -> u64 {
    if n <= u64::MAX {
        n as u64
    } else {
        u64::MAX
    }
}

/// Whether `c` is one of the ASCII digits `0`..`9`.
pub open spec fn is_digit(c: char) -> bool {
    '0' <= c <= '9'
}

/// The numeric value of an ASCII digit.
pub open spec fn digit_value(c: char) -> int {
    c as int - 48
}

/// Decimal rendering of `n`, most significant digit first, without leading zeros
/// (`0` renders as a single `0`).
pub open spec fn decimal(n: nat) -> Seq<char>
    decreases n,
{
    if n < 10 {
        seq![digit_char(n as int)]
    } else {
        decimal(n / 10).push(digit_char((n % 10) as int))
    }
}

/// The number spelled by a sequence of decimal digits (the empty sequence spells 0).
pub open spec fn digits_value(ds: Seq<char>) -> nat
    decreases ds.len(),
{
    if ds.len() == 0 {
        0
    } else {
        (digits_value(ds.drop_last()) * 10 + digit_value(ds.last())) as nat
    }
}

/// Every character of `ds` is an ASCII digit.
pub open spec fn all_digits(ds: Seq<char>) -> bool {
    forall|i: int| 0 <= i < ds.len() ==> is_digit(#[trigger] ds[i])
}

/// The part of `s` that must be digits when `s` is read as an unsigned number:
/// `s` without one leading `+`.
pub open spec fn unsigned_digits(s: Seq<char>) -> Seq<char> {
    if s.len() > 0 && s[0] == '+' {
        s.drop_first()
    } else {
        s
    }
}

/// Reading `s` as a `u32` the way the standard library's `u32::from_str` does: an optional
/// leading `+`, then at least one ASCII digit and nothing else, with a value that fits.
pub open spec fn parse_u32(s: Seq<char>) -> Option<u32> {
    let ds = unsigned_digits(s);
    if ds.len() > 0 && all_digits(ds) && digits_value(ds) <= u32::MAX {
        Some(digits_value(ds) as u32)
    } else {
        None
    }
}

/// `needle` occurs in `hay` as a contiguous run of characters.
pub open spec fn has_substring(hay: Seq<char>, needle: Seq<char>) -> bool {
    exists|i: int|
        0 <= i && i + needle.len() <= hay.len() && #[trigger] hay.subrange(i, i + needle.len())
            == needle
}

/// The digits stored least significant first in `ds`, rendered most significant first.
pub open spec fn reversed_digits(ds: Seq<u8>) -> Seq<char>
    decreases ds.len(),
{
    if ds.len() == 0 {
        seq![]
    } else {
        seq![digit_char(ds.last() as int)] + reversed_digits(ds.drop_last())
    }
}

/// Decimal digits never contain anything but ASCII digits, and are never empty.
pub proof fn lemma_decimal_digits(n: nat)
    ensures
        decimal(n).len() > 0,
        all_digits(decimal(n)),
        decimal(n)[0] != '+',
    decreases n,
{
    if n >= 10 {
        lemma_decimal_digits(n / 10);
        let d = decimal(n / 10);
        assert(decimal(n) == d.push(digit_char((n % 10) as int)));
        assert forall|i: int| 0 <= i < decimal(n).len() implies is_digit(#[trigger] decimal(n)[i]) by {
            if i < d.len() {
                assert(decimal(n)[i] == d[i]);
            }
        }
    }
}

/// Reading back a rendered number gives the number.
pub proof fn lemma_digits_value_of_decimal(n: nat)
    ensures
        digits_value(decimal(n)) == n,
    decreases n,
{
    let k = (n % 10) as int;
    assert(digit_value(digit_char(k)) == k);
    if n >= 10 {
        lemma_digits_value_of_decimal(n / 10);
        let d = decimal(n / 10);
        assert(decimal(n).drop_last() == d);
        assert(decimal(n).last() == digit_char(k));
        assert(digits_value(decimal(n)) == digits_value(d) * 10 + digit_value(digit_char(k)));
        assert(n == (n / 10) * 10 + k);
    } else {
        assert(decimal(n).drop_last() == Seq::<char>::empty());
        assert(decimal(n).last() == digit_char(k));
        assert(digits_value(Seq::<char>::empty()) == 0);
        assert(k == n);
    }
}

/// A counter written as decimal text is read back as the same counter.
pub proof fn lemma_parse_decimal_roundtrip(n: u32)
    ensures
        parse_u32(decimal(n as nat)) == Some(n),
{
    lemma_decimal_digits(n as nat);
    lemma_digits_value_of_decimal(n as nat);
}

/// Appending digits never decreases the value spelled.
proof fn lemma_digits_value_grows(ds: Seq<char>, i: int, j: int)
    requires
        0 <= i <= j <= ds.len(),
        all_digits(ds),
    ensures
        digits_value(ds.take(i)) <= digits_value(ds.take(j)),
    decreases j - i,
{
    if i < j {
        lemma_digits_value_grows(ds, i, j - 1);
        assert(ds.take(j).drop_last() == ds.take(j - 1));
        assert(is_digit(ds[j - 1]));
    }
}

/// Renders `n` in decimal.
pub fn decimal_string(n: u64) -> (s: String)
    ensures
        s@ == decimal(n as nat),
{
    let mut m = n;
    let mut ds: Vec<u8> = Vec::new();
    loop
        invariant_except_break
            decimal(n as nat) == decimal(m as nat) + reversed_digits(ds@),
        invariant
            forall|k: int| 0 <= k < ds@.len() ==> #[trigger] ds@[k] < 10,
        ensures
            decimal(n as nat) == reversed_digits(ds@),
            forall|k: int| 0 <= k < ds@.len() ==> #[trigger] ds@[k] < 10,
        decreases m,
    {
        let d = m % 10;
        let q = m / 10;
        let ghost before = ds@;
        ds.push(d as u8);
        proof {
            assert(ds@.drop_last() == before);
            assert(reversed_digits(ds@) == seq![digit_char(d as int)] + reversed_digits(before));
        }
        if q == 0 {
            proof {
                assert(decimal(m as nat) == seq![digit_char(d as int)]);
                assert(decimal(n as nat) == seq![digit_char(d as int)] + reversed_digits(before));
            }
            break;
        }
        proof {
            assert(decimal(m as nat) == decimal(q as nat).push(digit_char(d as int)));
            assert(decimal(n as nat) == decimal(q as nat) + reversed_digits(ds@));
        }
        m = q;
    }
    let digits = "0123456789";
    proof {
        reveal_strlit("0123456789");
    }
    let mut out = String::new();
    let mut i = ds.len();
    proof {
        assert(ds@.take(i as int) == ds@);
        assert(out@ + reversed_digits(ds@) == reversed_digits(ds@));
    }
    while i > 0
        invariant
            i <= ds@.len(),
            forall|k: int| 0 <= k < ds@.len() ==> #[trigger] ds@[k] < 10,
            digits@ == "0123456789"@,
            digits@.len() == 10,
            forall|k: int| 0 <= k < 10 ==> #[trigger] digits@[k] == digit_char(k),
            reversed_digits(ds@) == out@ + reversed_digits(ds@.take(i as int)),
        decreases i,
    {
        let d = ds[i - 1] as usize;
        let piece = digits.substring_char(d, d + 1);
        proof {
            assert(piece@ == seq![digit_char(d as int)]);
            let t = ds@.take(i as int);
            assert(t.drop_last() == ds@.take(i - 1));
            assert(reversed_digits(t) == seq![digit_char(d as int)] + reversed_digits(
                ds@.take(i - 1),
            ));
        }
        out.append(piece);
        i = i - 1;
    }
    proof {
        assert(ds@.take(0) == Seq::<u8>::empty());
        assert(out@ + reversed_digits(ds@.take(0)) == out@);
    }
    out
}

/// The characters of `s`, in order.
pub fn chars_of(s: &str) -> (v: Vec<char>)
    ensures
        v@ == s@,
{
    let mut v: Vec<char> = Vec::new();
    for c in it: s.chars()
        invariant
            v@.len() == it.index(),
            forall|i: int| 0 <= i < v@.len() ==> v@[i] == it.seq()[i],
            it.seq() == s@,
    {
        v.push(c);
    }
    v
}

/// Reads a stored counter the way `str::parse::<u32>` does.
pub fn parse_count(s: &str) -> (r: Option<u32>)
    ensures
        r == parse_u32(s@),
{
    let cs = chars_of(s);
    let start: usize = if cs.len() > 0 && cs[0] == '+' {
        1
    } else {
        0
    };
    let ghost ds = unsigned_digits(s@);
    assert(ds == cs@.subrange(start as int, cs@.len() as int));
    assert(ds.len() == cs@.len() - start);
    if start >= cs.len() {
        assert(ds.len() == 0);
        return None;
    }
    let mut acc: u64 = 0;
    let mut i = start;
    while i < cs.len()
        invariant
            start <= i <= cs@.len(),
            start < cs@.len(),
            ds == unsigned_digits(s@),
            ds == cs@.subrange(start as int, cs@.len() as int),
            all_digits(ds.take(i - start)),
            acc == digits_value(ds.take(i - start)),
            acc <= u32::MAX,
        decreases cs@.len() - i,
    {
        let c = cs[i];
        let ghost k = i - start;
        if !('0' <= c && c <= '9') {
            proof {
                assert(ds[k] == c);
                assert(!is_digit(ds[k]));
            }
            return None;
        }
        let d = (c as u32 - 48) as u64;
        proof {
            assert(ds.take(k + 1).drop_last() == ds.take(k));
            assert(ds.take(k + 1).last() == c);
            assert forall|j: int| 0 <= j < ds.take(k + 1).len() implies is_digit(
                #[trigger] ds.take(k + 1)[j],
            ) by {
                if j < k {
                    assert(ds.take(k + 1)[j] == ds.take(k)[j]);
                }
            }
        }
        acc = acc * 10 + d;
        proof {
            assert(digit_value(c) == d);
            assert(acc == digits_value(ds.take(k + 1)));
        }
        if acc > 0xffff_ffff {
            proof {
                assert(k + 1 <= ds.len());
                if all_digits(ds) {
                    lemma_digits_value_grows(ds, k + 1, ds.len() as int);
                    assert(ds.take(ds.len() as int) == ds);
                }
            }
            return None;
        }
        i = i + 1;
    }
    proof {
        assert(ds.take(i - start) == ds);
    }
    Some(acc as u32)
}

/// Whether `needle` occurs in `hay`.
pub fn contains_text(hay: &str, needle: &str) -> (r: bool)
    ensures
        r == has_substring(hay@, needle@),
{
    let h = chars_of(hay);
    let n = chars_of(needle);
    if n.len() == 0 {
        proof {
            assert(hay@.subrange(0int, 0int + needle@.len()) == needle@);
        }
        return true;
    }
    if n.len() > h.len() {
        return false;
    }
    let last = h.len() - n.len();
    let mut i: usize = 0;
    while i <= last
        invariant
            h@ == hay@,
            n@ == needle@,
            last == h@.len() - n@.len(),
            0 < n@.len() <= h@.len(),
            h@.len() <= usize::MAX,
            i <= last + 1,
            forall|p: int| 0 <= p < i ==> #[trigger] h@.subrange(p, p + n@.len()) != n@,
        decreases last + 1 - i,
    {
        let mut j: usize = 0;
        let mut matched = true;
        while j < n.len() && matched
            invariant
                h@ == hay@,
                n@ == needle@,
                i <= last,
                last == h@.len() - n@.len(),
                0 < n@.len() <= h@.len(),
                h@.len() <= usize::MAX,
                j <= n@.len(),
                matched ==> forall|q: int| 0 <= q < j ==> h@[i + q] == n@[q],
                !matched ==> j < n@.len(),
                !matched ==> h@.subrange(i as int, i + n@.len()) != n@,
            decreases n@.len() - j + (if matched { 1int } else { 0int }),
        {
            assert(i + j < h@.len());
            if h[i + j] != n[j] {
                proof {
                    assert(h@.subrange(i as int, i + n@.len())[j as int] == h@[i + j]);
                }
                matched = false;
            } else {
                j = j + 1;
            }
        }
        if matched {
            proof {
                assert(h@.subrange(i as int, i + n@.len()) == n@);
            }
            return true;
        }
        i = i + 1;
    }
    proof {
        assert forall|p: int| 0 <= p && p + needle@.len() <= hay@.len() implies #[trigger] hay@.subrange(
            p,
            p + needle@.len(),
        ) != needle@ by {}
    }
    false
}

/// Whether two texts are the same.
pub fn same_text(a: &str, b: &str) -> (r: bool)
    ensures
        r == (a@ == b@),
{
    let x = chars_of(a);
    let y = chars_of(b);
    if x.len() != y.len() {
        return false;
    }
    let mut i: usize = 0;
    while i < x.len()
        invariant
            x@ == a@,
            y@ == b@,
            x@.len() == y@.len(),
            i <= x@.len(),
            forall|k: int| 0 <= k < i ==> x@[k] == y@[k],
        decreases x@.len() - i,
    {
        if x[i] != y[i] {
            return false;
        }
        i = i + 1;
    }
    proof {
        assert(x@ =~= y@);
    }
    true
}

} // verus!
