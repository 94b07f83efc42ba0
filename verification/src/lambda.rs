//! Function-configuration values shared by the commands: timeouts, memory
//! sizes and tracing modes, with the validation rules the platform imposes
//! on them.

use vstd::prelude::*;

verus! {

/// Errors raised while reading function configuration out of a project's
/// manifest and metadata.
#[derive(Debug)]
pub enum MetadataError {
    InvalidMemory(i32),
    InvalidCargoMetadata(String),
    InvalidTimeout,
    InvalidTracing(String),
    MultipleBinariesInProject(String),
    MissingBinaryInProject,
    InvalidEnvVar(String),
}

/// A digit character.
pub open spec fn is_ascii_digit(c: char) -> bool {
    48 <= c as u32 <= 57
}

/// The numeric value of digit `c`.
pub open spec fn digit_value(c: char) -> int {
    c as u32 - 48
}

/// The value of a digit string read in base ten.
pub open spec fn decimal_value(s: Seq<char>) -> int
    decreases s.len(),
{
    if s.len() == 0 {
        0
    } else {
        decimal_value(s.drop_last()) * 10 + digit_value(s.last())
    }
}

/// A non-empty, all-digit string.
pub open spec fn all_ascii_digits(s: Seq<char>) -> bool {
    forall|i: int| 0 <= i < s.len() ==> is_ascii_digit(#[trigger] s[i])
}

/// The digit part of a decimal literal: everything after one optional
/// leading plus sign.
pub open spec fn decimal_digits(s: Seq<char>) -> Seq<char> {
    if s.len() > 0 && s[0] == '+' {
        s.drop_first()
    } else {
        s
    }
}

/// A string that parses as a `u32`: an optional plus sign, then at least one
/// digit, with a value that fits.
pub open spec fn parses_as_u32(s: Seq<char>) -> bool {
    &&& decimal_digits(s).len() > 0
    &&& all_ascii_digits(decimal_digits(s))
    &&& decimal_value(decimal_digits(s)) <= u32::MAX
}

proof fn lemma_decimal_value_nonneg(s: Seq<char>)
    requires
        all_ascii_digits(s),
    ensures
        decimal_value(s) >= 0,
    decreases s.len(),
{
    if s.len() > 0 {
        assert(all_ascii_digits(s.drop_last())) by {
            assert(forall|i: int| 0 <= i < s.len() - 1 ==> s.drop_last()[i] == s[i]);
        }
        lemma_decimal_value_nonneg(s.drop_last());
    }
}

/// A digit string is worth at least as much as any of its prefixes.
proof fn lemma_decimal_value_prefix_le(s: Seq<char>, k: int)
    requires
        all_ascii_digits(s),
        0 <= k <= s.len(),
    ensures
        decimal_value(s.subrange(0, k)) <= decimal_value(s),
    decreases s.len() - k,
{
    if k < s.len() {
        let t = s.subrange(0, k + 1);
        assert(all_ascii_digits(t)) by {
            assert(forall|i: int| 0 <= i < t.len() ==> t[i] == s[i]);
        }
        assert(t.drop_last() =~= s.subrange(0, k));
        lemma_decimal_value_nonneg(t.drop_last());
        assert(decimal_value(t) == decimal_value(s.subrange(0, k)) * 10 + digit_value(t.last()));
        assert(decimal_value(s.subrange(0, k)) <= decimal_value(t));
        lemma_decimal_value_prefix_le(s, k + 1);
        assert(s.subrange(0, k + 1) =~= t);
    } else {
        assert(s.subrange(0, k) =~= s);
    }
}

/// Reads a `u32` out of a decimal string: one optional leading plus sign,
/// then at least one digit, with a value no larger than `u32::MAX`; every
/// other string is rejected.
pub fn parse_u32_decimal(s: &str) -> (r: Result<u32, ()>)
    ensures
        parses_as_u32(s@) ==> (r matches Ok(v) && v == decimal_value(decimal_digits(s@))),
        !parses_as_u32(s@) ==> r is Err,
{
    let n = s.unicode_len();
    let start: usize = if n > 0 && s.get_char(0) == '+' {
        1
    } else {
        0
    };
    let ghost digits = decimal_digits(s@);
    proof {
        assert(digits =~= s@.subrange(start as int, n as int));
    }
    if n == start {
        return Err(());
    }
    let mut val: u64 = 0;
    let mut i: usize = start;
    while i < n
        invariant
            start <= i <= n,
            n == s@.len(),
            start == 0 || (start == 1 && s@[0] == '+'),
            digits == decimal_digits(s@),
            digits == s@.subrange(start as int, n as int),
            digits.len() == n - start,
            all_ascii_digits(s@.subrange(start as int, i as int)),
            val == decimal_value(s@.subrange(start as int, i as int)),
            val <= u32::MAX,
        decreases n - i,
    {
        let c = s.get_char(i);
        let cv = c as u32;
        if cv < 48 || cv > 57 {
            proof {
                assert(digits[i - start] == s@[i as int]);
                assert(!is_ascii_digit(digits[i - start]));
                assert(!all_ascii_digits(digits));
                assert(!parses_as_u32(s@));
            }
            return Err(());
        }
        proof {
            assert(s@.subrange(start as int, i + 1 as int).drop_last() =~= s@.subrange(
                start as int,
                i as int,
            ));
            assert(all_ascii_digits(s@.subrange(start as int, i + 1 as int))) by {
                let t = s@.subrange(start as int, i + 1 as int);
                assert(forall|j: int| 0 <= j < t.len() - 1 ==> t[j] == s@.subrange(
                    start as int,
                    i as int,
                )[j]);
                assert(t[t.len() - 1] == c);
            }
        }
        val = val * 10 + ((cv - 48) as u64);
        i += 1;
        if val > 0xFFFF_FFFF {
            proof {
                if all_ascii_digits(digits) {
                    assert(s@.subrange(start as int, i as int) =~= digits.subrange(
                        0,
                        i - start,
                    ));
                    lemma_decimal_value_prefix_le(digits, i - start);
                    assert(decimal_value(digits) > u32::MAX);
                }
                assert(!parses_as_u32(s@));
            }
            return Err(());
        }
    }
    proof {
        assert(s@.subrange(start as int, n as int) =~= digits);
    }
    Ok(val as u32)
}

/// A function timeout in whole seconds.
#[derive(Clone, Copy, Debug, PartialEq, Eq, Structural)]
pub struct Timeout(u32);

impl Timeout {
    /// The timeout's value in seconds.
    pub closed spec fn secs(&self) -> u32 {
        self.0
    }

    pub fn new(i: u32) -> (t: Timeout)
        ensures
            t.secs() == i,
    {
        Timeout(i)
    }

    pub fn is_zero(&self) -> (r: bool)
        ensures
            r == (self.secs() == 0),
    {
        self.0 == 0
    }

    /// Relies on `core::time::Duration::from_secs`; the resulting duration is
    /// opaque to this crate's reasoning.
    #[verifier::external_body]
    pub fn duration(&self) -> core::time::Duration {
        core::time::Duration::from_secs(self.0 as u64)
    }

    /// Reads a timeout from a decimal string, as the manifest does.
    pub fn parse(t: &str) -> (r: Result<Timeout, MetadataError>)
        ensures
            parses_as_u32(t@) ==> (r matches Ok(v) && v.secs() == decimal_value(
                decimal_digits(t@),
            )),
            !parses_as_u32(t@) ==> (r matches Err(e) && e is InvalidTimeout),
    {
        match parse_u32_decimal(t) {
            Ok(v) => Ok(Timeout(v)),
            Err(_) => Err(MetadataError::InvalidTimeout),
        }
    }
}

impl core::str::FromStr for Timeout {
    type Err = MetadataError;

    fn from_str(t: &str) -> Result<Timeout, MetadataError> {
        Timeout::parse(t)
    }
}

impl Default for Timeout {
    /// The default timeout is thirty seconds.
    fn default() -> (t: Timeout)
        ensures
            t.secs() == 30,
    {
        Timeout(30)
    }
}

impl From<Timeout> for i32 {
    fn from(t: Timeout) -> (r: i32) {
        #[verifier::truncate]
        (t.0 as i32)
    }
}

impl vstd::std_specs::convert::FromSpecImpl<Timeout> for i32 {
    open spec fn obeys_from_spec() -> bool {
        true
    }

    open spec fn from_spec(t: Timeout) -> i32 {
        t.secs() as i32
    }
}

impl From<i32> for Timeout {
    fn from(t: i32) -> (r: Timeout) {
        Timeout(
            #[verifier::truncate]
            (t as u32),
        )
    }
}

impl vstd::std_specs::convert::FromSpecImpl<i32> for Timeout {
    open spec fn obeys_from_spec() -> bool {
        true
    }

    closed spec fn from_spec(t: i32) -> Timeout {
        Timeout(t as u32)
    }
}

/// What converting an `i32` into a `Timeout` yields: the same number of
/// seconds, reinterpreted as unsigned.
pub proof fn lemma_timeout_from_i32(t: i32)
    ensures
        (<Timeout as vstd::std_specs::convert::FromSpec<i32>>::from_spec(t)).secs() == t as u32,
{
}

/// A function memory size in megabytes.  The platform only accepts sizes
/// between 128 and 10240.
#[derive(Clone, Copy, Debug, PartialEq, Eq, Structural)]
pub struct Memory(pub i32);

impl Memory {
    /// The sizes the platform accepts.
    pub open spec fn valid_memory(m: i32) -> bool {
        128 <= m <= 10240
    }

    /// Validates a raw size: in range it is accepted as-is, out of range it
    /// is rejected.
    pub fn try_from(m: i32) -> (r: Result<Memory, MetadataError>)
        ensures
            Memory::valid_memory(m) ==> r == Ok::<Memory, MetadataError>(Memory(m)),
            !Memory::valid_memory(m) ==> r == Err::<Memory, MetadataError>(
                MetadataError::InvalidMemory(m),
            ),
    {
        if m < 128 || m > 10240 {
            return Err(MetadataError::InvalidMemory(m));
        }
        Ok(Memory(m))
    }
}

impl From<Memory> for i32 {
    fn from(m: Memory) -> (r: i32) {
        m.0
    }
}

impl vstd::std_specs::convert::FromSpecImpl<Memory> for i32 {
    open spec fn obeys_from_spec() -> bool {
        true
    }

    open spec fn from_spec(m: Memory) -> i32 {
        m.0
    }
}

/// The platform's request-tracing modes.
#[derive(Clone, Copy, Debug, PartialEq, Eq, Structural)]
pub enum Tracing {
    Active,
    PassThrough,
}

/// `c` lowered to its ASCII lowercase counterpart; everything but an ASCII
/// capital letter is left alone.
pub open spec fn ascii_lower_char(c: char) -> char {
    if 65 <= c as u32 <= 90 {
        ((c as u32) + 32) as char
    } else {
        c
    }
}

/// `s` lowered character by character.
pub open spec fn ascii_lower(s: Seq<char>) -> Seq<char> {
    Seq::new(s.len(), |i: int| ascii_lower_char(s[i]))
}

/// Compares `s` against an all-lowercase word, ignoring ASCII case in `s`.
pub fn eq_ignore_ascii_case(s: &str, lower: &str) -> (r: bool)
    ensures
        r == (ascii_lower(s@) == lower@),
{
    let n = s.unicode_len();
    let m = lower.unicode_len();
    if n != m {
        proof {
            assert(ascii_lower(s@).len() != lower@.len());
        }
        return false;
    }
    let mut i: usize = 0;
    while i < n
        invariant
            i <= n,
            n == s@.len(),
            n == lower@.len(),
            forall|j: int| 0 <= j < i ==> ascii_lower_char(s@[j]) == lower@[j],
        decreases n - i,
    {
        let cv = s.get_char(i) as u32;
        let lv = lower.get_char(i) as u32;
        let matches_here: bool = if cv >= 65 && cv <= 90 {
            cv + 32 == lv
        } else {
            cv == lv
        };
        if !matches_here {
            proof {
                assert(ascii_lower_char(s@[i as int]) as u32 != lower@[i as int] as u32);
                assert(ascii_lower(s@)[i as int] != lower@[i as int]);
            }
            return false;
        }
        i += 1;
    }
    proof {
        assert(ascii_lower(s@) =~= lower@);
    }
    true
}

impl Tracing {
    /// The mode's canonical spelling.
    pub fn as_str(&self) -> (r: &str)
        ensures
            self is Active ==> r@ == "Active"@,
            self is PassThrough ==> r@ == "PassThrough"@,
    {
        match self {
            Tracing::Active => "Active",
            Tracing::PassThrough => "PassThrough",
        }
    }

    /// Reads a mode from its name, ignoring ASCII case; every other string
    /// is rejected and echoed back in the error.
    pub fn try_from(s: String) -> (r: Result<Tracing, MetadataError>)
        ensures
            ascii_lower(s@) == "active"@ ==> r == Ok::<Tracing, MetadataError>(Tracing::Active),
            ascii_lower(s@) == "passthrough"@ ==> r == Ok::<Tracing, MetadataError>(
                Tracing::PassThrough,
            ),
            ascii_lower(s@) != "active"@ && ascii_lower(s@) != "passthrough"@ ==> (r matches Err(e)
                && e matches MetadataError::InvalidTracing(t) && t@ == s@),
    {
        proof {
            reveal_strlit("active");
            reveal_strlit("passthrough");
            assert("active"@.len() == 6);
            assert("passthrough"@.len() == 11);
        }
        if eq_ignore_ascii_case(s.as_str(), "active") {
            Ok(Tracing::Active)
        } else if eq_ignore_ascii_case(s.as_str(), "passthrough") {
            Ok(Tracing::PassThrough)
        } else {
            Err(MetadataError::InvalidTracing(s))
        }
    }
}

impl Default for Tracing {
    /// Tracing defaults to pass-through.
    fn default() -> (t: Tracing)
        ensures
            t is PassThrough,
    {
        Tracing::PassThrough
    }
}

} // verus!
