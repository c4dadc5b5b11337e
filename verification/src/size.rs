//! Size arguments: `60G`, `60GB`, `500M` or a raw byte count.

use vstd::prelude::*;
use vstd::string::StrSliceExecFns;

verus! {

/// Why a size argument was refused.
#[derive(Debug, PartialEq, Eq)]
pub enum SizeError {
    /// The argument does not start with a decimal digit.
    NoDigits,
    /// What follows the digits is not one of `K`, `M`, `G`, `T` (either
    /// case), optionally followed by `B` or `b`.
    BadUnit,
    /// The size does not fit in 64 bits.
    TooLarge,
}

/// Is `c` an ASCII decimal digit?
pub open spec fn is_digit(c: char) -> bool {
    '0' <= c <= '9'
}

/// The value of an ASCII decimal digit.
pub open spec fn digit_value(c: char) -> int {
    c as int - '0' as int
}

/// How many decimal digits `s` starts with.
pub open spec fn leading_digits(s: Seq<char>) -> nat
    decreases s.len(),
{
    if s.len() == 0 || !is_digit(s[0]) {
        0
    } else {
        1 + leading_digits(s.drop_first())
    }
}

/// The number that a string of decimal digits writes.
pub open spec fn decimal_value(d: Seq<char>) -> int
    decreases d.len(),
{
    if d.len() == 0 {
        0
    } else {
        decimal_value(d.drop_last()) * 10 + digit_value(d.last())
    }
}

/// The multiplier that a unit letter stands for (binary: `K` is 1024).
pub open spec fn letter_scale(c: char) -> Option<int> {
    if c == 'K' || c == 'k' {
        Some(1024int)
    } else if c == 'M' || c == 'm' {
        Some(1024int * 1024)
    } else if c == 'G' || c == 'g' {
        Some(1024int * 1024 * 1024)
    } else if c == 'T' || c == 't' {
        Some(1024int * 1024 * 1024 * 1024)
    } else {
        None
    }
}

/// The multiplier of the unit that follows the digits: none (bytes), a unit
/// letter, or a unit letter and `B`/`b`.
pub open spec fn unit_scale(u: Seq<char>) -> Option<int> {
    if u.len() == 0 {
        Some(1int)
    } else if u.len() == 1 || (u.len() == 2 && (u[1] == 'B' || u[1] == 'b')) {
        letter_scale(u[0])
    } else {
        None
    }
}

/// The size in bytes that `s` stands for, or why it is refused.
pub open spec fn parsed_size(s: Seq<char>) -> Result<int, SizeError> {
    let n = leading_digits(s) as int;
    if n == 0 {
        Err(SizeError::NoDigits)
    } else {
        match unit_scale(s.skip(n)) {
            None => Err(SizeError::BadUnit),
            Some(m) => if decimal_value(s.take(n)) * m > u64::MAX {
                Err(SizeError::TooLarge)
            } else {
                Ok(decimal_value(s.take(n)) * m)
            },
        }
    }
}

/// The default low-water mark: three quarters of the cap, rounded down.
pub open spec fn default_low_water(cap: int) -> int {
    (3 * cap) / 4
}

proof fn lemma_decimal_value_nonneg(d: Seq<char>)
    requires
        forall|i: int| 0 <= i < d.len() ==> is_digit(#[trigger] d[i]),
    ensures
        decimal_value(d) >= 0,
    decreases d.len(),
{
    if d.len() > 0 {
        lemma_decimal_value_nonneg(d.drop_last());
    }
}

proof fn lemma_leading_digits(s: Seq<char>, i: int)
    requires
        0 <= i <= s.len(),
        forall|j: int| 0 <= j < i ==> is_digit(#[trigger] s[j]),
        i == s.len() || !is_digit(s[i]),
    ensures
        leading_digits(s) == i,
    decreases i,
{
    if i > 0 {
        let t = s.drop_first();
        assert forall|j: int| 0 <= j < i - 1 implies is_digit(#[trigger] t[j]) by {
            assert(t[j] == s[j + 1]);
        }
        if i < s.len() {
            assert(t[i - 1] == s[i]);
        }
        lemma_leading_digits(t, i - 1);
    }
}

/// Reads a size argument: decimal digits, then optionally a binary unit
/// (`K`, `M`, `G`, `T`, either case, optionally followed by `B`/`b`).
pub fn parse_size(s: &str) -> (r: Result<u64, SizeError>)
    ensures
        match r {
            Ok(v) => parsed_size(s@) == Ok::<int, SizeError>(v as int),
            Err(e) => parsed_size(s@) == Err::<int, SizeError>(e),
        },
{
    let len = s.unicode_len();
    let mut i: usize = 0;
    let mut acc: u64 = 0;
    let mut big = false;
    while i < len && '0' <= s.get_char(i) && s.get_char(i) <= '9'
        invariant
            len == s@.len(),
            i <= len,
            forall|j: int| 0 <= j < i ==> is_digit(#[trigger] s@[j]),
            !big ==> acc == decimal_value(s@.take(i as int)),
            big ==> decimal_value(s@.take(i as int)) > u64::MAX,
        decreases len - i,
    {
        let c = s.get_char(i);
        let d: u64 = (c as u32 - '0' as u32) as u64;
        assert(s@.take(i + 1).drop_last() =~= s@.take(i as int));
        proof {
            assert forall|j: int| 0 <= j < i implies is_digit(#[trigger] s@.take(i as int)[j]) by {
                assert(s@.take(i as int)[j] == s@[j]);
            }
            lemma_decimal_value_nonneg(s@.take(i as int));
        }
        if !big {
            if acc <= (u64::MAX - d) / 10 {
                acc = acc * 10 + d;
            } else {
                big = true;
            }
        }
        i = i + 1;
    }
    proof {
        lemma_leading_digits(s@, i as int);
    }
    if i == 0 {
        return Err(SizeError::NoDigits);
    }
    let rest = len - i;
    let scale: u64;
    if rest == 0 {
        scale = 1;
    } else if rest == 1 || (rest == 2 && (s.get_char(i + 1) == 'B' || s.get_char(i + 1) == 'b')) {
        let c = s.get_char(i);
        assert(s@.skip(i as int)[0] == c);
        if rest == 2 {
            assert(s@.skip(i as int)[1] == s@[i + 1]);
        }
        if c == 'K' || c == 'k' {
            scale = 1024;
        } else if c == 'M' || c == 'm' {
            scale = 1024 * 1024;
        } else if c == 'G' || c == 'g' {
            scale = 1024 * 1024 * 1024;
        } else if c == 'T' || c == 't' {
            scale = 1024 * 1024 * 1024 * 1024;
        } else {
            return Err(SizeError::BadUnit);
        }
    } else {
        if rest == 2 {
            assert(s@.skip(i as int)[1] == s@[i + 1]);
        }
        return Err(SizeError::BadUnit);
    }
    if big {
        proof {
            let v = decimal_value(s@.take(i as int));
            assert(v * scale >= v) by (nonlinear_arith)
                requires
                    v > 0,
                    scale >= 1,
            ;
        }
        return Err(SizeError::TooLarge);
    }
    match acc.checked_mul(scale) {
        Some(v) => Ok(v),
        None => Err(SizeError::TooLarge),
    }
}

/// The low-water mark to evict down to: the given size, or three quarters
/// of the cap when none is given.
pub fn resolve_low_water(low_water: Option<&str>, cap: u64) -> (r: Result<u64, SizeError>)
    ensures
        match low_water {
            Some(s) => match r {
                Ok(v) => parsed_size(s@) == Ok::<int, SizeError>(v as int),
                Err(e) => parsed_size(s@) == Err::<int, SizeError>(e),
            },
            None => r == Ok::<u64, SizeError>(default_low_water(cap as int) as u64),
        },
        // the default is three quarters of the cap, rounded down
        low_water is None ==> (r matches Ok(v) && 4 * v <= 3 * cap < 4 * v + 4),
{
    match low_water {
        Some(s) => parse_size(s),
        None => {
            let q = cap / 4;
            let rem = cap % 4;
            let v = q * 3 + (rem * 3) / 4;
            assert(v == (3 * cap) / 4) by (nonlinear_arith)
                requires
                    q == cap / 4,
                    rem == cap % 4,
                    v == q * 3 + (rem * 3) / 4,
                    cap >= 0,
            ;
            Ok(v)
        },
    }
}

/// The decimal digits of `n`, most significant first, without leading zeros.
pub open spec fn decimal_digits(n: nat) -> Seq<char>
    decreases n,
{
    if n < 10 {
        seq![(n + '0' as nat) as char]
    } else {
        decimal_digits(n / 10).push(((n % 10) + '0' as nat) as char)
    }
}

proof fn lemma_decimal_digits(n: nat)
    ensures
        decimal_digits(n).len() > 0,
        forall|i: int| 0 <= i < decimal_digits(n).len() ==> is_digit(#[trigger] decimal_digits(n)[i]),
        decimal_value(decimal_digits(n)) == n,
    decreases n,
{
    if n >= 10 {
        lemma_decimal_digits(n / 10);
        let d = decimal_digits(n);
        assert(d.drop_last() =~= decimal_digits(n / 10));
        let c = ((n % 10) + '0' as nat) as char;
        assert(c as int == (n % 10) + 48);
        assert(n == (n / 10) * 10 + n % 10);
        assert(d.last() == c);
        assert(decimal_value(d) == decimal_value(d.drop_last()) * 10 + digit_value(c));
    } else {
        assert(decimal_digits(n).drop_last() =~= Seq::<char>::empty());
        let c = (n + '0' as nat) as char;
        assert(c as int == n + 48);
        assert(decimal_digits(n).last() == c);
        assert(decimal_value(decimal_digits(n)) == decimal_value(Seq::<char>::empty()) * 10
            + digit_value(c));
    }
}

/// A byte count written out in decimal reads back as itself.
pub proof fn lemma_parse_size_round_trip(n: u64)
    ensures
        parsed_size(decimal_digits(n as nat)) == Ok::<int, SizeError>(n as int),
{
    let d = decimal_digits(n as nat);
    lemma_decimal_digits(n as nat);
    lemma_leading_digits(d, d.len() as int);
    assert(d.take(d.len() as int) =~= d);
    assert(d.skip(d.len() as int) =~= Seq::<char>::empty());
    assert(unit_scale(d.skip(d.len() as int)) == Some(1int));
    assert(decimal_value(d.take(d.len() as int)) * 1 == n);
}

/// `n` bytes times the multiplier `m`, or too large for 64 bits.
pub open spec fn scaled(n: int, m: int) -> Result<int, SizeError> {
    if n * m > u64::MAX {
        Err(SizeError::TooLarge)
    } else {
        Ok(n * m)
    }
}

proof fn lemma_suffixed(d: Seq<char>, u: Seq<char>)
    requires
        d.len() > 0,
        forall|i: int| 0 <= i < d.len() ==> is_digit(#[trigger] d[i]),
        u.len() > 0,
        !is_digit(u[0]),
    ensures
        leading_digits(d + u) == d.len(),
        (d + u).take(d.len() as int) == d,
        (d + u).skip(d.len() as int) == u,
{
    let s = d + u;
    assert forall|j: int| 0 <= j < d.len() implies is_digit(#[trigger] s[j]) by {
        assert(s[j] == d[j]);
    }
    assert(s[d.len() as int] == u[0]);
    lemma_leading_digits(s, d.len() as int);
    assert(s.take(d.len() as int) =~= d);
    assert(s.skip(d.len() as int) =~= u);
}

/// The units are binary and a trailing `B`/`b` changes nothing: a count of
/// digits followed by `K`/`k` is that many KiB (1024 bytes), `M`/`m` MiB,
/// `G`/`g` GiB, `T`/`t` TiB, refused as too large exactly when the product
/// exceeds 64 bits; and a count with no unit is that many bytes.
pub proof fn lemma_size_units(d: Seq<char>)
    requires
        d.len() > 0,
        forall|i: int| 0 <= i < d.len() ==> is_digit(#[trigger] d[i]),
    ensures
        parsed_size(d) == scaled(decimal_value(d), 1),
        parsed_size(d + seq!['K']) == scaled(decimal_value(d), 1024),
        parsed_size(d + seq!['k']) == scaled(decimal_value(d), 1024),
        parsed_size(d + seq!['M']) == scaled(decimal_value(d), 1024int * 1024),
        parsed_size(d + seq!['m']) == scaled(decimal_value(d), 1024int * 1024),
        parsed_size(d + seq!['G']) == scaled(decimal_value(d), 1024int * 1024 * 1024),
        parsed_size(d + seq!['g']) == scaled(decimal_value(d), 1024int * 1024 * 1024),
        parsed_size(d + seq!['T']) == scaled(decimal_value(d), 1024int * 1024 * 1024 * 1024),
        parsed_size(d + seq!['t']) == scaled(decimal_value(d), 1024int * 1024 * 1024 * 1024),
        forall|c: char|
            !is_digit(c) ==> parsed_size(#[trigger] d.push(c).push('B')) == parsed_size(d.push(c))
                && parsed_size(d.push(c).push('b')) == parsed_size(d.push(c)),
{
    lemma_leading_digits(d, d.len() as int);
    assert(d.take(d.len() as int) =~= d);
    assert(d.skip(d.len() as int) =~= Seq::<char>::empty());
    lemma_decimal_value_nonneg(d);
    let cs = seq!['K', 'k', 'M', 'm', 'G', 'g', 'T', 't'];
    assert forall|i: int| 0 <= i < cs.len() implies parsed_size(d + seq![#[trigger] cs[i]])
        == scaled(decimal_value(d), letter_scale(cs[i]).unwrap()) by {
        lemma_suffixed(d, seq![cs[i]]);
    }
    assert(cs[0] == 'K' && cs[1] == 'k' && cs[2] == 'M' && cs[3] == 'm');
    assert(cs[4] == 'G' && cs[5] == 'g' && cs[6] == 'T' && cs[7] == 't');
    assert forall|c: char| !is_digit(c) implies parsed_size(#[trigger] d.push(c).push('B'))
        == parsed_size(d.push(c)) && parsed_size(d.push(c).push('b')) == parsed_size(d.push(c)) by {
        lemma_suffixed(d, seq![c, 'B']);
        lemma_suffixed(d, seq![c, 'b']);
        lemma_suffixed(d, seq![c]);
        assert(d.push(c).push('B') =~= d + seq![c, 'B']);
        assert(d.push(c).push('b') =~= d + seq![c, 'b']);
        assert(d.push(c) =~= d + seq![c]);
    }
}

} // verus!
