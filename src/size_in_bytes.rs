use vstd::prelude::*;

verus! {

/// `1024^k` for the unit letters `B`, `K`, `M`, `G` and `T`.
pub open spec fn unit_multiplier(c: char) -> Option<nat> {
    if c == 'B' {
        Some(1)
    } else if c == 'K' {
        Some(1024)
    } else if c == 'M' {
        Some(1024 * 1024)
    } else if c == 'G' {
        Some(1024 * 1024 * 1024)
    } else if c == 'T' {
        Some(1024 * 1024 * 1024 * 1024)
    } else {
        None
    }
}

pub open spec fn is_digit(c: char) -> bool {
    '0' <= c && c <= '9'
}

pub open spec fn digit_value(c: char) -> nat {
    (c as nat - '0' as nat) as nat
}

pub open spec fn all_digits(s: Seq<char>) -> bool {
    forall|i: int| 0 <= i < s.len() ==> is_digit(#[trigger] s[i])
}

/// The number written in decimal by the digits of `s`.
pub open spec fn decimal_value(s: Seq<char>) -> nat
    decreases s.len(),
{
    if s.len() == 0 {
        0
    } else {
        decimal_value(s.drop_last()) * 10 + digit_value(s.last())
    }
}

/// A non-empty run of decimal digits whose value fits in a `u64`.
pub open spec fn parses_as_u64(s: Seq<char>) -> bool {
    s.len() > 0 && all_digits(s) && decimal_value(s) <= u64::MAX
}

/// The number of bytes that a size such as `8G` stands for, if it is well formed
/// and fits in a `u64`.
pub open spec fn size_value(s: Seq<char>) -> Option<nat> {
    if s.len() == 0 {
        None
    } else {
        match unit_multiplier(s.last()) {
            Some(m) => {
                let digits = s.drop_last();
                if parses_as_u64(digits) && decimal_value(digits) * m <= u64::MAX {
                    Some(decimal_value(digits) * m)
                } else {
                    None
                }
            },
            None => None,
        }
    }
}

/// Reads a decimal number made of digits only.
pub fn parse_u64(s: &str) -> (r: Option<u64>)
    ensures
        r.is_some() <==> parses_as_u64(s@),
        r.is_some() ==> r.unwrap() as nat == decimal_value(s@),
{
    let n = s.unicode_len();
    if n == 0 {
        return None;
    }
    let mut value: u64 = 0;
    let mut i: usize = 0;
    while i < n
        invariant
            n == s@.len(),
            i <= n,
            all_digits(s@.subrange(0, i as int)),
            value as nat == decimal_value(s@.subrange(0, i as int)),
        decreases n - i,
    {
        let c = s.get_char(i);
        assert(s@.subrange(0, i + 1).drop_last() == s@.subrange(0, i as int));
        if !('0' <= c && c <= '9') {
            assert(!all_digits(s@)) by {
                assert(!is_digit(s@[i as int]));
            }
            return None;
        }
        let d = (c as u32 - '0' as u32) as u64;
        if value > (u64::MAX - d) / 10 {
            proof {
                lemma_decimal_prefix_bound(s@, i as int + 1);
            }
            return None;
        }
        value = value * 10 + d;
        i = i + 1;
    }
    assert(s@.subrange(0, n as int) == s@);
    Some(value)
}

/// The value of a prefix of digits never exceeds the value of the whole.
proof fn lemma_decimal_prefix_bound(s: Seq<char>, k: int)
    requires
        0 < k <= s.len(),
        all_digits(s.subrange(0, k)),
    ensures
        all_digits(s) ==> decimal_value(s.subrange(0, k)) <= decimal_value(s),
    decreases s.len() - k,
{
    if k < s.len() && all_digits(s) {
        assert(all_digits(s.subrange(0, k + 1)));
        lemma_decimal_prefix_bound(s, k + 1);
        assert(s.subrange(0, k + 1).drop_last() == s.subrange(0, k));
    }
    if k == s.len() {
        assert(s.subrange(0, k) == s);
    }
}

/// An amount of memory or storage in bytes.
#[derive(Clone, Copy, Debug, PartialEq, Eq, Structural)]
pub struct SizeInBytes(pub u64);

impl SizeInBytes {
    pub fn from_bytes(bytes: u64) -> (r: SizeInBytes)
        ensures
            r.0 == bytes,
    {
        SizeInBytes(bytes)
    }

    /// Reads a size written as `<number><unit>`, the unit one of `B`, `K`, `M`,
    /// `G` and `T` (powers of 1024). `None` where the text is malformed or the
    /// size does not fit in 64 bits.
    pub fn parse(s: &str) -> (r: Option<SizeInBytes>)
        ensures
            r.is_some() <==> size_value(s@).is_some(),
            r.is_some() ==> r.unwrap().0 as nat == size_value(s@).unwrap(),
    {
        let n = s.unicode_len();
        if n == 0 {
            return None;
        }
        let unit = s.get_char(n - 1);
        let multiplier: u64 = if unit == 'B' {
            1
        } else if unit == 'K' {
            1024
        } else if unit == 'M' {
            1024 * 1024
        } else if unit == 'G' {
            1024 * 1024 * 1024
        } else if unit == 'T' {
            1024 * 1024 * 1024 * 1024
        } else {
            return None;
        };
        let digits = s.substring_char(0, n - 1);
        assert(digits@ == s@.drop_last());
        match parse_u64(digits) {
            Some(v) => {
                if v > u64::MAX / multiplier {
                    assert(v * multiplier > u64::MAX) by (nonlinear_arith)
                        requires
                            v > u64::MAX / multiplier,
                            multiplier > 0,
                    ;
                    None
                } else {
                    assert(v * multiplier <= u64::MAX) by (nonlinear_arith)
                        requires
                            v <= u64::MAX / multiplier,
                            multiplier > 0,
                    ;
                    Some(SizeInBytes(v * multiplier))
                }
            },
            None => None,
        }
    }

    pub fn bytes(&self) -> (r: u64)
        ensures
            r == self.0,
    {
        self.0
    }

    pub fn kilobyes(self) -> (r: u64)
        ensures
            r == self.0 / 1024,
    {
        self.bytes() / 1024
    }

    pub fn megabytes(&self) -> (r: u64)
        ensures
            r == self.0 / 1048576,
    {
        let k = self.kilobyes();
        assert(k / 1024 == self.0 / 1048576) by (nonlinear_arith)
            requires
                k == self.0 / 1024,
        ;
        k / 1024
    }
}

} // verus!
