use std::cmp::Ordering;
use vstd::prelude::*;

verus! {

/// A three-component version number, ordered by `(major, minor, patch)`.
#[derive(Debug, Clone, Copy, PartialEq, Eq, Structural)]
pub struct Version {
    pub major: u32,
    pub minor: u32,
    pub patch: u32,
}

#[derive(Debug, Clone, PartialEq, Eq, Structural)]
pub enum VersionError {
    InvalidVersion,
    VersionTooOld(Version),
}

/// Splits `s` at every occurrence of `sep`; like `str::split`, the result is never empty.
pub open spec fn split_on(s: Seq<char>, sep: char) -> Seq<Seq<char>>
    decreases s.len(),
{
    if s.len() == 0 {
        seq![Seq::<char>::empty()]
    } else {
        let r = split_on(s.drop_last(), sep);
        if s.last() == sep {
            r.push(Seq::<char>::empty())
        } else {
            r.update(r.len() - 1, r.last().push(s.last()))
        }
    }
}

pub open spec fn is_digit(c: char) -> bool {
    '0' <= c && c <= '9'
}

pub open spec fn all_digits(s: Seq<char>) -> bool {
    forall|i: int| 0 <= i < s.len() ==> is_digit(#[trigger] s[i])
}

/// The number written by a sequence of decimal digits.
pub open spec fn digits_value(s: Seq<char>) -> nat
    decreases s.len(),
{
    if s.len() == 0 {
        0
    } else {
        digits_value(s.drop_last()) * 10 + ((s.last() as int) - ('0' as int)) as nat
    }
}

/// What `str::parse::<u32>` accepts: an optional `+`, then at least one decimal digit,
/// with a value that fits in 32 bits.
pub open spec fn decimal_value(s: Seq<char>) -> Option<u32> {
    let d = if s.len() > 0 && s[0] == '+' {
        s.drop_first()
    } else {
        s
    };
    if d.len() > 0 && all_digits(d) && digits_value(d) <= u32::MAX {
        Some(digits_value(d) as u32)
    } else {
        None
    }
}

/// The value of the `i`-th component of a split version string; a missing component is zero.
pub open spec fn component_value(parts: Seq<Seq<char>>, i: int) -> Option<u32> {
    if i < parts.len() {
        decimal_value(parts[i])
    } else {
        Some(0)
    }
}

/// A version string is one to three dot-separated decimal numbers.
pub open spec fn parse_version(s: Seq<char>) -> Result<Version, VersionError> {
    let parts = split_on(s, '.');
    if parts.len() > 3 || component_value(parts, 0) is None || component_value(parts, 1) is None
        || component_value(parts, 2) is None {
        Err(VersionError::InvalidVersion)
    } else {
        Ok(
            Version {
                major: component_value(parts, 0)->0,
                minor: component_value(parts, 1)->0,
                patch: component_value(parts, 2)->0,
            },
        )
    }
}

pub open spec fn digit_char(d: nat) -> char {
    ('0' as nat + d) as char
}

/// The shortest decimal rendering of `n`.
pub open spec fn decimal_string(n: nat) -> Seq<char>
    decreases n,
{
    if n < 10 {
        seq![digit_char(n)]
    } else {
        decimal_string(n / 10).push(digit_char(n % 10))
    }
}

/// The canonical `major.minor.patch` rendering.
pub open spec fn version_string(v: Version) -> Seq<char> {
    decimal_string(v.major as nat) + seq!['.'] + decimal_string(v.minor as nat) + seq!['.']
        + decimal_string(v.patch as nat)
}

/// Lexicographic order on `(major, minor, patch)`.
pub open spec fn version_cmp(a: Version, b: Version) -> Ordering {
    if a.major != b.major {
        if a.major < b.major {
            Ordering::Less
        } else {
            Ordering::Greater
        }
    } else if a.minor != b.minor {
        if a.minor < b.minor {
            Ordering::Less
        } else {
            Ordering::Greater
        }
    } else if a.patch != b.patch {
        if a.patch < b.patch {
            Ordering::Less
        } else {
            Ordering::Greater
        }
    } else {
        Ordering::Equal
    }
}

/// A version as a single number, in which every component outweighs all lower ones.
pub open spec fn version_key(v: Version) -> int {
    v.major as int * 0x1_0000_0000_0000_0000 + v.minor as int * 0x1_0000_0000 + v.patch as int
}

proof fn lemma_split_last(s: Seq<char>, sep: char)
    ensures
        split_on(s, sep).len() >= 1,
    decreases s.len(),
{
    if s.len() > 0 {
        lemma_split_last(s.drop_last(), sep);
    }
}

/// Splits the characters of `s` at `sep`, returning the pieces as slices of `s`.
fn split_str<'a>(s: &'a str, sep: char) -> (r: Vec<&'a str>)
    ensures
        r@.map_values(|p: &str| p@) == split_on(s@, sep),
{
    let n = s.unicode_len();
    let mut done: Vec<&'a str> = Vec::new();
    let mut start: usize = 0;
    let mut i: usize = 0;
    proof {
        assert(s@.take(0) =~= Seq::<char>::empty());
        assert(done@.map_values(|p: &str| p@).push(s@.subrange(0, 0)) =~= seq![
            Seq::<char>::empty(),
        ]);
    }
    while i < n
        invariant
            n == s@.len(),
            start <= i <= n,
            split_on(s@.take(i as int), sep) == done@.map_values(|p: &str| p@).push(
                s@.subrange(start as int, i as int),
            ),
        decreases n - i,
    {
        let c = s.get_char(i);
        proof {
            assert(s@.take(i + 1).drop_last() == s@.take(i as int));
            assert(s@.take(i + 1).last() == c);
        }
        if c == sep {
            let piece = s.substring_char(start, i);
            done.push(piece);
            start = i + 1;
            proof {
                assert(s@.subrange(start as int, i + 1) =~= Seq::<char>::empty());
            }
        } else {
            proof {
                assert(s@.subrange(start as int, i + 1) =~= s@.subrange(start as int, i as int).push(
                    c,
                ));
            }
        }
        i = i + 1;
        proof {
            let prev = s@.take(i - 1);
            let r = split_on(prev, sep);
            assert(split_on(s@.take(i as int), sep) == if c == sep {
                r.push(Seq::<char>::empty())
            } else {
                r.update(r.len() - 1, r.last().push(c))
            });
            assert(split_on(s@.take(i as int), sep) =~= done@.map_values(|p: &str| p@).push(
                s@.subrange(start as int, i as int),
            ));
        }
    }
    let last = s.substring_char(start, n);
    done.push(last);
    proof {
        assert(s@.take(n as int) =~= s@);
        assert(done@.map_values(|p: &str| p@) =~= split_on(s@, sep));
    }
    done
}

proof fn lemma_digits_prefix(d: Seq<char>, k: int)
    requires
        all_digits(d),
        0 <= k <= d.len(),
    ensures
        digits_value(d.take(k)) <= digits_value(d),
    decreases d.len(),
{
    if k < d.len() {
        assert(d.take(k) =~= d.drop_last().take(k));
        lemma_digits_prefix(d.drop_last(), k);
    } else {
        assert(d.take(k) =~= d);
    }
}

/// Reads a decimal number the way `str::parse::<u32>` does.
fn parse_decimal(s: &str) -> (r: Option<u32>)
    ensures
        r == decimal_value(s@),
{
    let n = s.unicode_len();
    let mut start: usize = 0;
    if n > 0 && s.get_char(0) == '+' {
        start = 1;
    }
    let ghost d = s@.subrange(start as int, n as int);
    proof {
        if start == 1 {
            assert(d =~= s@.drop_first());
        } else {
            assert(d =~= s@);
        }
        assert(decimal_value(s@) == if d.len() > 0 && all_digits(d) && digits_value(d) <= u32::MAX {
            Some(digits_value(d) as u32)
        } else {
            None
        });
    }
    if start >= n {
        return None;
    }
    let mut value: u64 = 0;
    let mut j: usize = start;
    proof {
        assert(d.take(0) =~= Seq::<char>::empty());
    }
    while j < n
        invariant
            start <= j <= n,
            n == s@.len(),
            d == s@.subrange(start as int, n as int),
            value == digits_value(d.take(j - start)),
            value <= u32::MAX,
            all_digits(d.take(j - start)),
            decimal_value(s@) == if d.len() > 0 && all_digits(d) && digits_value(d) <= u32::MAX {
                Some(digits_value(d) as u32)
            } else {
                None
            },
        decreases n - j,
    {
        let c = s.get_char(j);
        let ghost k = j - start;
        proof {
            assert(d.take(k + 1).drop_last() =~= d.take(k));
            assert(d.take(k + 1).last() == c);
        }
        if !('0' <= c && c <= '9') {
            proof {
                assert(d[k] == c);
                assert(!is_digit(d[k]));
                assert(!all_digits(d));
            }
            return None;
        }
        value = value * 10 + (c as u64 - '0' as u64);
        proof {
            assert(digits_value(d.take(k + 1)) == digits_value(d.take(k)) * 10 + ((c as int) - ('0' as int)) as nat);
            assert(value == digits_value(d.take(k + 1)));
            assert(all_digits(d.take(k + 1))) by {
                assert forall|i: int| 0 <= i < k + 1 implies is_digit(#[trigger] d.take(k + 1)[i]) by {
                    if i < k {
                        assert(d.take(k + 1)[i] == d.take(k)[i]);
                    }
                };
            };
        }
        j = j + 1;
        if value > u32::MAX as u64 {
            proof {
                if all_digits(d) {
                    lemma_digits_prefix(d, j - start);
                }
            }
            return None;
        }
    }
    proof {
        assert(d.take(n - start) =~= d);
    }
    Some(value as u32)
}

/// Renders `n` in decimal.
fn decimal(n: u32) -> (r: String)
    ensures
        r@ == decimal_string(n as nat),
    decreases n,
{
    let digits = "0123456789";
    proof {
        reveal_strlit("0123456789");
    }
    let d = (n % 10) as usize;
    let last = digits.substring_char(d, d + 1);
    proof {
        assert(last@ =~= seq![digit_char(d as nat)]);
    }
    if n < 10 {
        String::from_str(last)
    } else {
        let mut r = decimal(n / 10);
        r.append(last);
        r
    }
}

impl Version {
    /// Parses one to three dot-separated decimal numbers; missing components are zero.
    pub fn parse(version: &str) -> (r: Result<Version, VersionError>)
        ensures
            r == parse_version(version@),
    {
        let parts = split_str(version, '.');
        let ghost views = parts@.map_values(|p: &str| p@);
        proof {
            lemma_split_last(version@, '.');
        }
        if parts.len() > 3 {
            return Err(VersionError::InvalidVersion);
        }
        let major = match parse_decimal(parts[0]) {
            Some(v) => v,
            None => return Err(VersionError::InvalidVersion),
        };
        let minor = if parts.len() > 1 {
            match parse_decimal(parts[1]) {
                Some(v) => v,
                None => return Err(VersionError::InvalidVersion),
            }
        } else {
            0
        };
        let patch = if parts.len() > 2 {
            match parse_decimal(parts[2]) {
                Some(v) => v,
                None => return Err(VersionError::InvalidVersion),
            }
        } else {
            0
        };
        Ok(Version { major, minor, patch })
    }

    /// Renders the version as `major.minor.patch`.
    pub fn to_string(&self) -> (r: String)
        ensures
            r@ == version_string(*self),
    {
        let mut r = decimal(self.major);
        r.append(".");
        r.append(&decimal(self.minor));
        r.append(".");
        r.append(&decimal(self.patch));
        proof {
            reveal_strlit(".");
            assert(r@ =~= version_string(*self));
        }
        r
    }

    /// Orders two versions by `(major, minor, patch)`.
    pub fn compare(&self, other: &Version) -> (r: Ordering)
        ensures
            r == version_cmp(*self, *other),
    {
        if self.major != other.major {
            if self.major < other.major {
                Ordering::Less
            } else {
                Ordering::Greater
            }
        } else if self.minor != other.minor {
            if self.minor < other.minor {
                Ordering::Less
            } else {
                Ordering::Greater
            }
        } else if self.patch != other.patch {
            if self.patch < other.patch {
                Ordering::Less
            } else {
                Ordering::Greater
            }
        } else {
            Ordering::Equal
        }
    }
}

impl PartialOrd for Version {
    fn partial_cmp(&self, other: &Version) -> (r: Option<Ordering>)
        ensures
            r == Some(version_cmp(*self, *other)),
    {
        Some(self.compare(other))
    }
}

impl vstd::std_specs::cmp::PartialOrdSpecImpl for Version {
    open spec fn obeys_partial_cmp_spec() -> bool {
        true
    }

    open spec fn partial_cmp_spec(&self, other: &Version) -> Option<Ordering> {
        Some(version_cmp(*self, *other))
    }
}

impl<'a> TryFrom<&'a str> for Version {
    type Error = VersionError;

    fn try_from(value: &'a str) -> (r: Result<Version, VersionError>)
        ensures
            r == parse_version(value@),
    {
        Version::parse(value)
    }
}

impl<'a> vstd::std_specs::convert::TryFromSpecImpl<&'a str> for Version {
    open spec fn obeys_try_from_spec() -> bool {
        true
    }

    open spec fn try_from_spec(value: &'a str) -> Result<Version, VersionError> {
        parse_version(value@)
    }
}

impl TryFrom<String> for Version {
    type Error = VersionError;

    fn try_from(value: String) -> (r: Result<Version, VersionError>)
        ensures
            r == parse_version(value@),
    {
        Version::parse(value.as_str())
    }
}

impl vstd::std_specs::convert::TryFromSpecImpl<String> for Version {
    open spec fn obeys_try_from_spec() -> bool {
        true
    }

    open spec fn try_from_spec(value: String) -> Result<Version, VersionError> {
        parse_version(value@)
    }
}

impl vstd::std_specs::convert::FromSpecImpl<Version> for String {
    /// The rendering is stated over the view, in the postcondition of `from`.
    open spec fn obeys_from_spec() -> bool {
        false
    }

    open spec fn from_spec(value: Version) -> String {
        choose|s: String| s@ == version_string(value)
    }
}

impl From<Version> for String {
    fn from(value: Version) -> (r: String)
        ensures
            r@ == version_string(value),
    {
        value.to_string()
    }
}

proof fn lemma_decimal_string(n: nat)
    ensures
        decimal_string(n).len() > 0,
        all_digits(decimal_string(n)),
        digits_value(decimal_string(n)) == n,
    decreases n,
{
    let s = decimal_string(n);
    assert(((digit_char(n % 10)) as int) - ('0' as int) == n % 10);
    assert(digits_value(s) == digits_value(s.drop_last()) * 10 + ((s.last() as int) - ('0' as int)) as nat);
    if n < 10 {
        assert(s.drop_last() =~= Seq::<char>::empty());
        assert(s.last() == digit_char(n));
        assert(n % 10 == n);
        assert(digits_value(s.drop_last()) == 0);
        assert(digits_value(s) == n);
    } else {
        lemma_decimal_string(n / 10);
        assert((n / 10) * 10 + n % 10 == n) by (nonlinear_arith);
        assert(s.last() == digit_char(n % 10));
        assert(s.drop_last() == decimal_string(n / 10));
        assert forall|i: int| 0 <= i < s.len() implies is_digit(#[trigger] s[i]) by {
            if i < s.len() - 1 {
                assert(s[i] == decimal_string(n / 10)[i]);
            }
        };
    }
}

pub(crate) proof fn lemma_split_without_sep(y: Seq<char>, sep: char)
    requires
        forall|i: int| 0 <= i < y.len() ==> y[i] != sep,
    ensures
        split_on(y, sep) == seq![y],
    decreases y.len(),
{
    if y.len() == 0 {
        assert(y =~= Seq::<char>::empty());
        assert(split_on(y, sep) =~= seq![y]);
    } else {
        lemma_split_without_sep(y.drop_last(), sep);
        assert(y.drop_last().push(y.last()) =~= y);
        assert(split_on(y, sep) =~= seq![y]);
    }
}

pub(crate) proof fn lemma_split_after_sep(x: Seq<char>, y: Seq<char>, sep: char)
    requires
        forall|i: int| 0 <= i < y.len() ==> y[i] != sep,
    ensures
        split_on(x + seq![sep] + y, sep) == split_on(x, sep).push(y),
    decreases y.len(),
{
    if y.len() == 0 {
        assert(y =~= Seq::<char>::empty());
        assert(x + seq![sep] + y =~= x.push(sep));
        assert((x + seq![sep] + y).drop_last() =~= x);
        assert(split_on(x + seq![sep] + y, sep) =~= split_on(x, sep).push(y));
    } else {
        lemma_split_after_sep(x, y.drop_last(), sep);
        let whole = x + seq![sep] + y;
        assert(whole.drop_last() =~= x + seq![sep] + y.drop_last());
        assert(whole.last() == y.last());
        assert(y.drop_last().push(y.last()) =~= y);
        assert(split_on(whole, sep) =~= split_on(x, sep).push(y));
    }
}

proof fn lemma_decimal_round_trip(n: nat)
    requires
        n <= u32::MAX,
    ensures
        decimal_value(decimal_string(n)) == Some(n as u32),
        forall|i: int| 0 <= i < decimal_string(n).len() ==> #[trigger] decimal_string(n)[i] != '.',
{
    lemma_decimal_string(n);
    let s = decimal_string(n);
    assert(is_digit(s[0]));
    assert forall|i: int| 0 <= i < s.len() implies #[trigger] s[i] != '.' by {
        assert(is_digit(s[i]));
    };
}

/// Rendering a version gives exactly three dot-separated decimal numbers, one per
/// component, and parsing the rendering gives the version back.
pub proof fn lemma_rendering_round_trip(v: Version)
    ensures
        split_on(version_string(v), '.') == seq![
            decimal_string(v.major as nat),
            decimal_string(v.minor as nat),
            decimal_string(v.patch as nat),
        ],
        decimal_value(decimal_string(v.major as nat)) == Some(v.major),
        decimal_value(decimal_string(v.minor as nat)) == Some(v.minor),
        decimal_value(decimal_string(v.patch as nat)) == Some(v.patch),
        parse_version(version_string(v)) == Ok::<Version, VersionError>(v),
{
    let a = decimal_string(v.major as nat);
    let b = decimal_string(v.minor as nat);
    let c = decimal_string(v.patch as nat);
    lemma_decimal_round_trip(v.major as nat);
    lemma_decimal_round_trip(v.minor as nat);
    lemma_decimal_round_trip(v.patch as nat);
    lemma_split_without_sep(a, '.');
    lemma_split_after_sep(a, b, '.');
    lemma_split_after_sep(a + seq!['.'] + b, c, '.');
    assert(split_on(version_string(v), '.') =~= seq![a, b, c]);
}

/// Comparing two versions agrees with comparing their `(major, minor, patch)` tuples,
/// here weighed into one number.
pub proof fn lemma_compare_is_tuple_order(a: Version, b: Version)
    ensures
        version_cmp(a, b) == Ordering::Less <==> version_key(a) < version_key(b),
        version_cmp(a, b) == Ordering::Equal <==> a == b,
        version_cmp(a, b) == Ordering::Greater <==> version_key(a) > version_key(b),
{
    let (am, an, ap) = (a.major as int, a.minor as int, a.patch as int);
    let (bm, bn, bp) = (b.major as int, b.minor as int, b.patch as int);
    assert(am < bm ==> version_key(a) < version_key(b)) by (nonlinear_arith)
        requires
            0 <= an < 0x1_0000_0000,
            0 <= ap < 0x1_0000_0000,
            0 <= bn < 0x1_0000_0000,
            0 <= bp < 0x1_0000_0000,
            version_key(a) == am * 0x1_0000_0000_0000_0000 + an * 0x1_0000_0000 + ap,
            version_key(b) == bm * 0x1_0000_0000_0000_0000 + bn * 0x1_0000_0000 + bp,
    ;
    assert(bm < am ==> version_key(b) < version_key(a)) by (nonlinear_arith)
        requires
            0 <= an < 0x1_0000_0000,
            0 <= ap < 0x1_0000_0000,
            0 <= bn < 0x1_0000_0000,
            0 <= bp < 0x1_0000_0000,
            version_key(a) == am * 0x1_0000_0000_0000_0000 + an * 0x1_0000_0000 + ap,
            version_key(b) == bm * 0x1_0000_0000_0000_0000 + bn * 0x1_0000_0000 + bp,
    ;
}

} // verus!
