//! Small text helpers: comparing strings, rendering numbers in decimal and
//! hexadecimal, as the IPC commands and the configuration need them.

use vstd::prelude::*;

verus! {

/// Characters of `s`.
pub fn chars_of(s: &str) -> (r: Vec<char>)
    ensures
        r@ == s@,
{
    let n = s.unicode_len();
    let mut r: Vec<char> = Vec::new();
    let mut i: usize = 0;
    while i < n
        invariant
            n == s@.len(),
            i <= n,
            r@ == s@.subrange(0, i as int),
        decreases n - i,
    {
        let c = s.get_char(i);
        r.push(c);
        i = i + 1;
        assert(r@ =~= s@.subrange(0, i as int));
    }
    assert(r@ =~= s@);
    r
}

/// Whether two strings hold the same characters.
pub fn str_eq(a: &str, b: &str) -> (r: bool)
    ensures
        r == (a@ == b@),
{
    let n = a.unicode_len();
    if n != b.unicode_len() {
        return false;
    }
    let mut i: usize = 0;
    while i < n
        invariant
            n == a@.len(),
            n == b@.len(),
            i <= n,
            forall|j: int| 0 <= j < i ==> a@[j] == b@[j],
        decreases n - i,
    {
        if a.get_char(i) != b.get_char(i) {
            return false;
        }
        i = i + 1;
    }
    assert(a@ =~= b@);
    true
}

/// Lower-case digit `d` (0..16) of a hexadecimal (or decimal) number.
pub open spec fn digit_char(d: int) -> char {
    seq!['0', '1', '2', '3', '4', '5', '6', '7', '8', '9', 'a', 'b', 'c', 'd', 'e', 'f'][d]
}

/// Digits of `n` in base `base` (2..=16), most significant first, no padding.
pub open spec fn radix_digits(n: nat, base: nat) -> Seq<char>
    decreases n,
{
    if base < 2 || n < base {
        seq![digit_char(n as int)]
    } else {
        proof {
            vstd::arithmetic::div_mod::lemma_div_decreases(n as int, base as int);
        }
        radix_digits(n / base, base).push(digit_char((n % base) as int))
    }
}

/// Decimal rendering of an integer, with a leading '-' when negative.
pub open spec fn decimal(i: int) -> Seq<char> {
    if i < 0 {
        seq!['-'] + radix_digits((-i) as nat, 10)
    } else {
        radix_digits(i as nat, 10)
    }
}

/// Lower-case hexadecimal rendering, zero-padded to at least two digits.
pub open spec fn hex2(n: nat) -> Seq<char> {
    if n < 16 {
        seq!['0', digit_char(n as int)]
    } else {
        radix_digits(n, 16)
    }
}

fn digit_str(d: u64) -> (r: &'static str)
    requires
        d < 16,
    ensures
        r@ == seq![digit_char(d as int)],
{
    proof {
        reveal_strlit("0");
        reveal_strlit("1");
        reveal_strlit("2");
        reveal_strlit("3");
        reveal_strlit("4");
        reveal_strlit("5");
        reveal_strlit("6");
        reveal_strlit("7");
        reveal_strlit("8");
        reveal_strlit("9");
        reveal_strlit("a");
        reveal_strlit("b");
        reveal_strlit("c");
        reveal_strlit("d");
        reveal_strlit("e");
        reveal_strlit("f");
    }
    let r = match d {
        0 => "0",
        1 => "1",
        2 => "2",
        3 => "3",
        4 => "4",
        5 => "5",
        6 => "6",
        7 => "7",
        8 => "8",
        9 => "9",
        10 => "a",
        11 => "b",
        12 => "c",
        13 => "d",
        14 => "e",
        _ => "f",
    };
    assert(r@ =~= seq![digit_char(d as int)]);
    r
}

/// Append the digits of `n` in base `base` to `s`.
pub fn push_radix(s: &mut String, n: u64, base: u64)
    requires
        2 <= base <= 16,
    ensures
        final(s)@ == old(s)@ + radix_digits(n as nat, base as nat),
{
    let mut m = n;
    let mut ds: Vec<u64> = Vec::new();
    let ghost mut tail: Seq<char> = Seq::empty();
    while m >= base
        invariant
            2 <= base <= 16,
            radix_digits(n as nat, base as nat) == radix_digits(m as nat, base as nat) + tail,
            tail.len() == ds@.len(),
            forall|j: int| 0 <= j < ds@.len() ==> #[trigger] ds@[j] < base,
            forall|j: int| 0 <= j < ds@.len() ==> #[trigger] tail[j] == digit_char(ds@[ds@.len() - 1 - j] as int),
        decreases m,
    {
        let d = m % base;
        proof {
            assert(radix_digits(m as nat, base as nat) == radix_digits((m / base) as nat, base as nat).push(digit_char(d as int)));
            let nt = seq![digit_char(d as int)] + tail;
            assert(radix_digits(m as nat, base as nat) + tail =~= radix_digits((m / base) as nat, base as nat) + nt);
            tail = nt;
        }
        ds.push(d);
        m = m / base;
        proof {
            assert forall|j: int| 0 <= j < ds@.len() implies #[trigger] tail[j] == digit_char(ds@[ds@.len() - 1 - j] as int) by {
                if j > 0 {
                    assert(ds@[ds@.len() - 1 - j] == ds@.drop_last()[ds@.len() - 1 - j]);
                }
            }
        }
    }
    let ghost s0 = s@;
    s.append(digit_str(m));
    let mut k: usize = ds.len();
    while k > 0
        invariant
            2 <= base <= 16,
            k <= ds@.len(),
            tail.len() == ds@.len(),
            forall|j: int| 0 <= j < ds@.len() ==> #[trigger] ds@[j] < base,
            forall|j: int| 0 <= j < ds@.len() ==> #[trigger] tail[j] == digit_char(ds@[ds@.len() - 1 - j] as int),
            s@ == s0 + radix_digits(m as nat, base as nat) + tail.subrange(0, (ds@.len() - k) as int),
        decreases k,
    {
        k = k - 1;
        let ghost before = s@;
        s.append(digit_str(ds[k]));
        assert(tail.subrange(0, (ds@.len() - k) as int) =~= tail.subrange(0, (ds@.len() - k - 1) as int).push(
            tail[(ds@.len() - k - 1) as int]));
        assert(s@ =~= s0 + radix_digits(m as nat, base as nat) + tail.subrange(0, (ds@.len() - k) as int));
    }
    assert(tail.subrange(0, ds@.len() as int) =~= tail);
    assert(s@ =~= s0 + radix_digits(n as nat, base as nat));
}

/// Decimal rendering of `i` (`i.to_string()`).
pub fn decimal_string(i: i64) -> (r: String)
    ensures
        r@ == decimal(i as int),
{
    let mut s = String::new();
    if i < 0 {
        proof {
            reveal_strlit("-");
        }
        s.append("-");
        let m: u64 = (0i128 - i as i128) as u64;
        push_radix(&mut s, m, 10);
        assert(s@ =~= decimal(i as int));
    } else {
        push_radix(&mut s, i as u64, 10);
        assert(s@ =~= decimal(i as int));
    }
    s
}

/// `{:02x}` rendering of `n`.
pub fn push_hex2(s: &mut String, n: u32)
    ensures
        final(s)@ == old(s)@ + hex2(n as nat),
{
    if n < 16 {
        proof {
            reveal_strlit("0");
        }
        s.append("0");
    }
    push_radix(s, n as u64, 16);
    proof {
        if n < 16 {
            assert(radix_digits(n as nat, 16) == seq![digit_char(n as int)]);
        }
    }
    assert(s@ =~= old(s)@ + hex2(n as nat));
}

} // verus!
