//! Numbers as text: decimal and hexadecimal digits, written and read.
use vstd::prelude::*;

verus! {

// ---------------------------------------------------------------------------
// Decimal
// ---------------------------------------------------------------------------

/// The character of the decimal digit `d`.
pub open spec fn digit(d: nat) -> char {
    (48 + d) as char
}

/// Whether `c` is one of the characters `0` to `9`.
pub open spec fn is_digit(c: char) -> bool {
    48 <= c as u32 <= 57
}

/// The decimal text of `n`, without leading zeros.
pub open spec fn dec(n: nat) -> Seq<char>
    decreases n,
{
    if n < 10 {
        seq![digit(n)]
    } else {
        dec(n / 10).push(digit(n % 10))
    }
}

/// The number that a run of decimal digits denotes.
pub open spec fn dec_value(s: Seq<char>) -> nat
    decreases s.len(),
{
    if s.len() == 0 {
        0
    } else {
        dec_value(s.drop_last()) * 10 + (s.last() as u32 - 48) as nat
    }
}

/// Whether `s` is a number in decimal: digits, at least one of them.
pub open spec fn is_dec(s: Seq<char>) -> bool {
    s.len() > 0 && forall|i: int| 0 <= i < s.len() ==> is_digit(#[trigger] s[i])
}

/// The decimal text of a number is made of digits and denotes the number.
pub proof fn lemma_dec(n: nat)
    ensures
        is_dec(dec(n)),
        dec_value(dec(n)) == n,
        n > 0 ==> dec(n)[0] != '0',
    decreases n,
{
    if n < 10 {
        assert(dec(n).drop_last() == Seq::<char>::empty());
        assert(dec_value(Seq::<char>::empty()) == 0);
    } else {
        lemma_dec(n / 10);
        let h = dec(n / 10);
        assert(dec(n).drop_last() == h);
        assert(dec(n).last() == digit(n % 10));
        assert forall|i: int| 0 <= i < dec(n).len() implies is_digit(#[trigger] dec(n)[i]) by {
            if i < h.len() {
                assert(dec(n)[i] == h[i]);
            }
        }
        assert(dec(n)[0] == h[0]);
    }
}

proof fn lemma_digit(c: char)
    requires
        is_digit(c),
    ensures
        digit((c as u32 - 48) as nat) == c,
{
}

/// Digits without a leading zero are the decimal text of what they denote.
pub proof fn lemma_dec_of_value(s: Seq<char>)
    requires
        is_dec(s),
        s.len() > 1 ==> s[0] != '0',
    ensures
        dec(dec_value(s)) == s,
        s[0] != '0' ==> dec_value(s) > 0,
    decreases s.len(),
{
    let h = s.drop_last();
    let d = (s.last() as u32 - 48) as nat;
    assert(is_digit(s.last()));
    if s.len() == 1 {
        assert(h == Seq::<char>::empty());
        assert(dec_value(h) == 0);
        assert(dec_value(s) == d);
        lemma_digit(s.last());
        assert(dec(d) == seq![s.last()]);
        assert(s == seq![s.last()]);
    } else {
        assert(h[0] == s[0]);
        assert forall|i: int| 0 <= i < h.len() implies is_digit(#[trigger] h[i]) by {
            assert(h[i] == s[i]);
        }
        lemma_dec_of_value(h);
        lemma_digit(s.last());
        let v = dec_value(h);
        assert(dec_value(s) == v * 10 + d);
        assert((v * 10 + d) / 10 == v && (v * 10 + d) % 10 == d);
        assert(dec(dec_value(s)) == dec(v).push(digit(d)));
        assert(h.push(s.last()) == s);
    }
}

/// More digits denote no less: each prefix of a run of digits denotes at most
/// what the run does.
proof fn lemma_dec_value_prefix(s: Seq<char>, n: int)
    requires
        0 <= n <= s.len(),
        forall|i: int| 0 <= i < s.len() ==> is_digit(#[trigger] s[i]),
    ensures
        dec_value(s.take(n)) <= dec_value(s),
    decreases s.len(),
{
    if n == s.len() {
        assert(s.take(n) == s);
    } else {
        let h = s.drop_last();
        assert forall|i: int| 0 <= i < h.len() implies is_digit(#[trigger] h[i]) by {
            assert(h[i] == s[i]);
        }
        lemma_dec_value_prefix(h, n);
        assert(h.take(n) == s.take(n));
        assert(is_digit(s.last()));
    }
}

/// The decimal text of `n`.
pub fn dec_text(n: u32) -> (r: Vec<char>)
    ensures
        r@ == dec(n as nat),
    decreases n,
{
    let low: u8 = (n % 10) as u8;
    let c: char = (48u8 + low) as char;
    if n < 10 {
        let mut out: Vec<char> = Vec::new();
        out.push(c);
        out
    } else {
        let mut out = dec_text(n / 10);
        out.push(c);
        out
    }
}

/// The digits of a number that may carry a plus sign.
pub open spec fn without_plus(s: Seq<char>) -> Seq<char> {
    if s.len() > 0 && s[0] == '+' {
        s.drop_first()
    } else {
        s
    }
}

/// The number that `s` denotes if it is a decimal number, with or without a plus
/// sign, of at most `max`.
pub open spec fn number_of(s: Seq<char>, max: nat) -> Option<nat> {
    let d = without_plus(s);
    if is_dec(d) && dec_value(d) <= max {
        Some(dec_value(d))
    } else {
        None
    }
}

/// Reads a decimal number of at most `max`, with or without a plus sign.
pub fn parse_number(v: &Vec<char>, max: u32) -> (r: Option<u32>)
    ensures
        match r {
            Some(n) => number_of(v@, max as nat) == Some(n as nat),
            None => number_of(v@, max as nat) is None,
        },
{
    let mut from: usize = 0;
    if v.len() > 0 && v[0] == '+' {
        from = 1;
    }
    let ghost d = v@.skip(from as int);
    assert(d == without_plus(v@));
    if from == v.len() {
        return None;
    }
    let mut i: usize = from;
    let mut n: u64 = 0;
    assert(d.take(0) == Seq::<char>::empty());
    assert(dec_value(Seq::<char>::empty()) == 0);
    while i < v.len()
        invariant
            from <= i <= v@.len(),
            from < v@.len(),
            d == v@.skip(from as int),
            d == without_plus(v@),
            forall|k: int| 0 <= k < i - from ==> is_digit(#[trigger] d[k]),
            n == dec_value(d.take(i - from)),
            n <= max,
        decreases v.len() - i,
    {
        let c: u32 = v[i] as u32;
        assert(d[i - from] == v@[i as int]);
        if c < 48 || c > 57 {
            return None;
        }
        proof {
            assert(d.take(i - from + 1).drop_last() == d.take(i - from));
            assert(d.take(i - from + 1).last() == v@[i as int]);
        }
        n = n * 10 + (c - 48) as u64;
        if n > max as u64 {
            proof {
                if is_dec(d) {
                    lemma_dec_value_prefix(d, i - from + 1);
                }
            }
            return None;
        }
        i += 1;
    }
    assert(d.take(d.len() as int) == d);
    Some(n as u32)
}

// ---------------------------------------------------------------------------
// Hexadecimal
// ---------------------------------------------------------------------------

/// The character of the hexadecimal digit `d`, in lower case.
pub open spec fn hex_digit(d: nat) -> char {
    if d < 10 {
        (48 + d) as char
    } else {
        (87 + d) as char
    }
}

/// Whether `c` is a hexadecimal digit, in either case.
pub open spec fn is_hex_digit(c: char) -> bool {
    let n = c as u32;
    48 <= n <= 57 || 97 <= n <= 102 || 65 <= n <= 70
}

/// What a hexadecimal digit denotes.
pub open spec fn hex_digit_value(c: char) -> nat {
    let n = c as u32;
    if n <= 57 {
        (n - 48) as nat
    } else if n <= 70 {
        (n - 55) as nat
    } else {
        (n - 87) as nat
    }
}

/// The sixteen digits in order, and the last six of them in either case.
pub proof fn law_hex_digits(c: char)
    ensures
        forall|d: int|
            0 <= d < 10 ==> #[trigger] hex_digit_value("0123456789"@[d]) == d && is_hex_digit(
                "0123456789"@[d],
            ),
        forall|d: int|
            0 <= d < 6 ==> #[trigger] hex_digit_value("abcdef"@[d]) == 10 + d && is_hex_digit(
                "abcdef"@[d],
            ),
        forall|d: int|
            0 <= d < 6 ==> #[trigger] hex_digit_value("ABCDEF"@[d]) == 10 + d && is_hex_digit(
                "ABCDEF"@[d],
            ),
        is_hex_digit(c) ==> "0123456789abcdefABCDEF"@.contains(c),
{
    reveal_strlit("0123456789");
    reveal_strlit("abcdef");
    reveal_strlit("ABCDEF");
    reveal_strlit("0123456789abcdefABCDEF");
    let all = "0123456789abcdefABCDEF"@;
    if is_hex_digit(c) {
        let n = c as u32;
        let at = if n <= 57 {
            n - 48
        } else if n <= 70 {
            n - 49
        } else {
            n - 87
        };
        assert(all[at] == c);
    }
}

/// A decimal number is read digit by digit, the most significant first, with or without
/// a plus sign, up to the greatest that is allowed; nothing else is a number.
pub proof fn law_number_read(s: Seq<char>, c: char, max: nat)
    ensures
        number_of(s, max) matches Some(n) ==> n <= max && (is_digit(c) && n * 10 + (c as u32 - 48)
            <= max ==> number_of(s.push(c), max) == Some((n * 10 + (c as u32 - 48)) as nat)),
        number_of(s, max) is Some && !is_digit(c) ==> number_of(s.push(c), max) is None,
        is_digit(c) && c as u32 - 48 <= max ==> number_of(seq![c], max) == Some(
            (c as u32 - 48) as nat,
        ),
        number_of(s, max) is Some && s[0] != '+' ==> number_of(seq!['+'] + s, max) == number_of(
            s,
            max,
        ),
        number_of(seq![], max) is None,
        number_of(seq!['+'], max) is None,
{
    let d = without_plus(s);
    let t = s.push(c);
    if number_of(s, max) is Some {
        assert(without_plus(t) =~= d.push(c));
        assert(d.push(c).drop_last() =~= d);
        assert forall|i: int| 0 <= i < d.len() implies d.push(c)[i] == d[i] by {}
        if is_digit(c) {
            assert(is_dec(d.push(c)));
        } else {
            assert(d.push(c)[d.len() as int] == c);
        }
        assert((seq!['+'] + s).drop_first() =~= s);
    }
    let one = seq![c];
    assert(one.drop_last() =~= Seq::<char>::empty());
    assert(dec_value(Seq::<char>::empty()) == 0);
    assert(seq!['+'].drop_first() =~= Seq::<char>::empty());
}

/// The hexadecimal text of `n`, in lower case and without leading zeros.
pub open spec fn hex(n: nat) -> Seq<char>
    decreases n,
{
    if n < 16 {
        seq![hex_digit(n)]
    } else {
        hex(n / 16).push(hex_digit(n % 16))
    }
}

/// The number that a run of hexadecimal digits denotes.
pub open spec fn hex_value(s: Seq<char>) -> nat
    decreases s.len(),
{
    if s.len() == 0 {
        0
    } else {
        hex_value(s.drop_last()) * 16 + hex_digit_value(s.last())
    }
}

/// Whether `s` is a group of an IPv6 address: one to four hexadecimal digits.
pub open spec fn is_hex_group(s: Seq<char>) -> bool {
    1 <= s.len() <= 4 && forall|i: int| 0 <= i < s.len() ==> is_hex_digit(#[trigger] s[i])
}

/// The text of a number below two to the sixteenth is one group, made of hexadecimal
/// digits, and denotes the number.
pub proof fn lemma_hex(n: nat)
    requires
        n < 65536,
    ensures
        is_hex_group(hex(n)),
        hex_value(hex(n)) == n,
{
    lemma_hex_digits(n, 4);
}

proof fn lemma_hex_digits(n: nat, k: nat)
    requires
        1 <= k <= 4,
        n < (if k == 1 {
            16int
        } else if k == 2 {
            256int
        } else if k == 3 {
            4096int
        } else {
            65536int
        }),
    ensures
        1 <= hex(n).len() <= k,
        forall|i: int| 0 <= i < hex(n).len() ==> is_hex_digit(#[trigger] hex(n)[i]),
        hex_value(hex(n)) == n,
    decreases k,
{
    if n < 16 {
        assert(hex(n).drop_last() == Seq::<char>::empty());
        assert(hex_value(Seq::<char>::empty()) == 0);
    } else {
        lemma_hex_digits(n / 16, (k - 1) as nat);
        let h = hex(n / 16);
        assert(hex(n).drop_last() == h);
        assert(hex(n).last() == hex_digit(n % 16));
        assert forall|i: int| 0 <= i < hex(n).len() implies is_hex_digit(#[trigger] hex(n)[i]) by {
            if i < h.len() {
                assert(hex(n)[i] == h[i]);
            }
        }
    }
}

/// The hexadecimal text of `n`.
pub fn hex_text(n: u16) -> (r: Vec<char>)
    ensures
        r@ == hex(n as nat),
    decreases n,
{
    let low: u8 = (n % 16) as u8;
    let c: char = if low < 10 {
        (48u8 + low) as char
    } else {
        (87u8 + low) as char
    };
    if n < 16 {
        let mut out: Vec<char> = Vec::new();
        out.push(c);
        out
    } else {
        let mut out = hex_text(n / 16);
        out.push(c);
        out
    }
}

/// Reads the group of an IPv6 address that `v` holds from `from` up to `to`.
pub fn parse_hex_group(v: &Vec<char>, from: usize, to: usize) -> (r: Option<u16>)
    requires
        from <= to <= v@.len(),
    ensures
        ({
            let s = v@.subrange(from as int, to as int);
            match r {
                Some(n) => is_hex_group(s) && hex_value(s) == n,
                None => !is_hex_group(s),
            }
        }),
{
    let ghost s = v@.subrange(from as int, to as int);
    if from == to || to - from > 4 {
        return None;
    }
    let mut i: usize = from;
    let mut n: u32 = 0;
    assert(s.take(0) == Seq::<char>::empty());
    assert(hex_value(Seq::<char>::empty()) == 0);
    while i < to
        invariant
            from <= i <= to <= v@.len(),
            to - from <= 4,
            s == v@.subrange(from as int, to as int),
            forall|k: int| 0 <= k < i - from ==> is_hex_digit(#[trigger] s[k]),
            n == hex_value(s.take(i - from)),
            i == from ==> n == 0,
            i == from + 1 ==> n < 16,
            i == from + 2 ==> n < 256,
            i == from + 3 ==> n < 4096,
            i == from + 4 ==> n < 65536,
        decreases to - i,
    {
        let c: u32 = v[i] as u32;
        assert(s[i - from] == v@[i as int]);
        let d: u32 = if 48 <= c && c <= 57 {
            c - 48
        } else if 97 <= c && c <= 102 {
            c - 87
        } else if 65 <= c && c <= 70 {
            c - 55
        } else {
            return None;
        };
        proof {
            assert(s.take(i - from + 1).drop_last() == s.take(i - from));
            assert(s.take(i - from + 1).last() == v@[i as int]);
        }
        n = n * 16 + d;
        i += 1;
    }
    assert(s.take(s.len() as int) == s);
    Some(n as u16)
}

}
