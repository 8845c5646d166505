use vstd::prelude::*;

verus! {

// ---------------------------------------------------------------------------
// Decimal digits
// ---------------------------------------------------------------------------

/// The character for a single decimal digit.
pub open spec fn digit_char(d: nat) -> char {
    if d == 0 {
        '0'
    } else if d == 1 {
        '1'
    } else if d == 2 {
        '2'
    } else if d == 3 {
        '3'
    } else if d == 4 {
        '4'
    } else if d == 5 {
        '5'
    } else if d == 6 {
        '6'
    } else if d == 7 {
        '7'
    } else if d == 8 {
        '8'
    } else {
        '9'
    }
}

/// Whether a character is a decimal digit.
pub open spec fn is_digit(c: char) -> bool {
    c == '0' || c == '1' || c == '2' || c == '3' || c == '4' || c == '5' || c == '6' || c == '7'
        || c == '8' || c == '9'
}

/// The numeric value of a decimal digit character.
pub open spec fn digit_val(c: char) -> nat {
    if c == '0' {
        0
    } else if c == '1' {
        1
    } else if c == '2' {
        2
    } else if c == '3' {
        3
    } else if c == '4' {
        4
    } else if c == '5' {
        5
    } else if c == '6' {
        6
    } else if c == '7' {
        7
    } else if c == '8' {
        8
    } else {
        9
    }
}

/// The decimal digit string of `n`, most significant digit first.
pub open spec fn dec_digits(n: nat) -> Seq<char>
    decreases n,
{
    if n < 10 {
        seq![digit_char(n)]
    } else {
        dec_digits(n / 10).push(digit_char(n % 10))
    }
}

/// The numeric value of a digit string, read most significant digit first.
pub open spec fn digits_val(s: Seq<char>) -> nat
    decreases s.len(),
{
    if s.len() == 0 {
        0
    } else {
        digits_val(s.drop_last()) * 10 + digit_val(s.last())
    }
}

/// Whether every character of `s` is a decimal digit.
pub open spec fn all_digits(s: Seq<char>) -> bool {
    forall|i: int| 0 <= i < s.len() ==> is_digit(#[trigger] s[i])
}

/// The digit string of `n` is nonempty and consists of digits.
pub proof fn lemma_dec_digits_wf(n: nat)
    ensures
        dec_digits(n).len() >= 1,
        all_digits(dec_digits(n)),
    decreases n,
{
    if n < 10 {
        assert(is_digit(digit_char(n)));
    } else {
        lemma_dec_digits_wf(n / 10);
        assert(is_digit(digit_char(n % 10)));
        assert forall|i: int| 0 <= i < dec_digits(n).len() implies is_digit(
            #[trigger] dec_digits(n)[i],
        ) by {
            if i < dec_digits(n / 10).len() {
                assert(dec_digits(n)[i] == dec_digits(n / 10)[i]);
            }
        }
    }
}

/// Reading the digit string of `n` back as a number yields `n`.
pub proof fn lemma_dec_digits_val(n: nat)
    ensures
        digits_val(dec_digits(n)) == n,
    decreases n,
{
    if n < 10 {
        let s = seq![digit_char(n)];
        assert(dec_digits(n) == s);
        assert(s.len() == 1);
        assert(s.drop_last() =~= Seq::<char>::empty());
        assert(digits_val(s.drop_last()) == 0);
        assert(s.last() == digit_char(n));
        assert(digits_val(s) == digits_val(s.drop_last()) * 10 + digit_val(s.last()));
        assert(digit_val(digit_char(n)) == n);
    } else {
        lemma_dec_digits_val(n / 10);
        let s = dec_digits(n / 10).push(digit_char(n % 10));
        assert(dec_digits(n) == s);
        assert(s.len() >= 1);
        assert(s.drop_last() =~= dec_digits(n / 10));
        assert(s.last() == digit_char(n % 10));
        assert(digits_val(s) == digits_val(s.drop_last()) * 10 + digit_val(s.last()));
        assert(digit_val(digit_char(n % 10)) == n % 10);
        assert(n / 10 * 10 + n % 10 == n);
    }
}

/// The value of a digit string is at least the value of any of its prefixes.
pub proof fn lemma_digits_val_prefix_le(s: Seq<char>, m: int)
    requires
        0 <= m <= s.len(),
    ensures
        digits_val(s.subrange(0, m)) <= digits_val(s),
    decreases s.len() - m,
{
    if m == s.len() {
        assert(s.subrange(0, m) =~= s);
    } else {
        lemma_digits_val_prefix_le(s.drop_last(), m);
        assert(s.drop_last().subrange(0, m) =~= s.subrange(0, m));
        assert(digits_val(s.drop_last()) * 10 >= digits_val(s.drop_last()));
    }
}

/// The decimal string of a digit below ten.
fn digit_str(d: u32) -> (r: &'static str)
    requires
        d < 10,
    ensures
        r@ =~= seq![digit_char(d as nat)],
{
    let r: &'static str = if d == 0 {
        "0"
    } else if d == 1 {
        "1"
    } else if d == 2 {
        "2"
    } else if d == 3 {
        "3"
    } else if d == 4 {
        "4"
    } else if d == 5 {
        "5"
    } else if d == 6 {
        "6"
    } else if d == 7 {
        "7"
    } else if d == 8 {
        "8"
    } else {
        "9"
    };
    proof {
        reveal_strlit("0");
        reveal_strlit("1");
        reveal_strlit("2");
        reveal_strlit("3");
        reveal_strlit("4");
        reveal_strlit("5");
        reveal_strlit("6");
        reveal_strlit("7");
        reveal_strlit("8");
        reveal_strlit("9");
    }
    r
}

/// Renders `n` in decimal.
pub fn u32_to_string(n: u32) -> (s: String)
    ensures
        s@ == dec_digits(n as nat),
    decreases n,
{
    if n < 10 {
        let s = digit_str(n).to_owned();
        proof {
            assert(s@ =~= dec_digits(n as nat));
        }
        s
    } else {
        let mut s = u32_to_string(n / 10);
        s.append(digit_str(n % 10));
        proof {
            assert(s@ =~= dec_digits(n as nat));
        }
        s
    }
}

// ---------------------------------------------------------------------------
// Version
// ---------------------------------------------------------------------------

/// A release version: an ordered triple of non-negative integers.
/// Its canonical textual form is `vMAJOR.MINOR.PATCH`.
#[derive(Clone, Copy, Debug, PartialEq, Eq, Structural)]
pub struct Version {
    pub major: u32,
    pub minor: u32,
    pub patch: u32,
}

/// The canonical text of the version triple `(a, b, c)`: `vA.B.C`.
pub open spec fn version_seq_of(a: nat, b: nat, c: nat) -> Seq<char> {
    "v"@ + dec_digits(a) + "."@ + dec_digits(b) + "."@ + dec_digits(c)
}

/// The canonical text of a `Version`.
pub open spec fn version_seq(v: Version) -> Seq<char> {
    version_seq_of(v.major as nat, v.minor as nat, v.patch as nat)
}

/// The numeric sort key of a version triple, `(major<<16)|(minor<<8)|patch`,
/// widened so the shifts cannot discard bits.
pub open spec fn version_key_of(a: u32, b: u32, c: u32) -> u64 {
    ((a as u64) << 16) | ((b as u64) << 8) | (c as u64)
}

impl Version {
    pub fn new(major: u32, minor: u32, patch: u32) -> (r: Self)
        ensures
            r == (Version { major, minor, patch }),
    {
        Self { major, minor, patch }
    }

    /// The canonical `vMAJOR.MINOR.PATCH` text of this version.
    pub fn to_version_string(&self) -> (s: String)
        ensures
            s@ == version_seq(*self),
    {
        let mut s = "v".to_owned();
        let major = u32_to_string(self.major);
        s.append(major.as_str());
        s.append(".");
        let minor = u32_to_string(self.minor);
        s.append(minor.as_str());
        s.append(".");
        let patch = u32_to_string(self.patch);
        s.append(patch.as_str());
        s
    }

    /// The numeric sort key of this version.
    pub fn key(&self) -> (r: u64)
        ensures
            r == version_key_of(self.major, self.minor, self.patch),
    {
        ((self.major as u64) << 16) | ((self.minor as u64) << 8) | (self.patch as u64)
    }
}

impl From<(u32, u32, u32)> for Version {
    fn from(tuple: (u32, u32, u32)) -> (r: Self) {
        Self { major: tuple.0, minor: tuple.1, patch: tuple.2 }
    }
}

impl vstd::std_specs::convert::FromSpecImpl<(u32, u32, u32)> for Version {
    open spec fn obeys_from_spec() -> bool {
        true
    }

    open spec fn from_spec(tuple: (u32, u32, u32)) -> Version {
        Version { major: tuple.0, minor: tuple.1, patch: tuple.2 }
    }
}

impl From<Version> for (u32, u32, u32) {
    fn from(version: Version) -> (r: Self) {
        (version.major, version.minor, version.patch)
    }
}

impl vstd::std_specs::convert::FromSpecImpl<Version> for (u32, u32, u32) {
    open spec fn obeys_from_spec() -> bool {
        true
    }

    open spec fn from_spec(version: Version) -> (u32, u32, u32) {
        (version.major, version.minor, version.patch)
    }
}

// ---------------------------------------------------------------------------
// Parsing
// ---------------------------------------------------------------------------

/// Error for a malformed version string.
#[derive(Clone, Copy, Debug, PartialEq, Eq, Structural)]
pub enum ParseError {
    Malformed,
}

/// `i` and `j` are the positions of the two dots of a well-formed version
/// string `s`: a `v`, then three nonempty runs of digits separated by the
/// dots, each with a value that fits in a `u32`.
pub open spec fn version_shape(s: Seq<char>, i: int, j: int) -> bool {
    &&& s.len() >= 6
    &&& s[0] == 'v'
    &&& 2 <= i
    &&& i + 2 <= j
    &&& j + 2 <= s.len()
    &&& s[i] == '.'
    &&& s[j] == '.'
    &&& all_digits(s.subrange(1, i))
    &&& all_digits(s.subrange(i + 1, j))
    &&& all_digits(s.subrange(j + 1, s.len() as int))
    &&& digits_val(s.subrange(1, i)) <= u32::MAX
    &&& digits_val(s.subrange(i + 1, j)) <= u32::MAX
    &&& digits_val(s.subrange(j + 1, s.len() as int)) <= u32::MAX
}

/// Whether `s` is a well-formed version string.
pub open spec fn well_formed_version(s: Seq<char>) -> bool {
    exists|i: int, j: int| version_shape(s, i, j)
}

/// The numeric triple a well-formed version string denotes.
pub open spec fn version_nums(s: Seq<char>) -> (nat, nat, nat) {
    let (i, j) = choose|i: int, j: int| version_shape(s, i, j);
    (
        digits_val(s.subrange(1, i)),
        digits_val(s.subrange(i + 1, j)),
        digits_val(s.subrange(j + 1, s.len() as int)),
    )
}

/// The dot positions of a well-formed version string are unique: digits are
/// never dots, so each shape must place its dots at the first two dots.
pub proof fn lemma_shape_unique(s: Seq<char>, i1: int, j1: int, i2: int, j2: int)
    requires
        version_shape(s, i1, j1),
        version_shape(s, i2, j2),
    ensures
        i1 == i2,
        j1 == j2,
{
    if i1 < i2 {
        assert(is_digit(s.subrange(1, i2)[i1 - 1]));
        assert(s.subrange(1, i2)[i1 - 1] == s[i1]);
        assert(false);
    }
    if i2 < i1 {
        assert(is_digit(s.subrange(1, i1)[i2 - 1]));
        assert(s.subrange(1, i1)[i2 - 1] == s[i2]);
        assert(false);
    }
    if j1 < j2 {
        assert(is_digit(s.subrange(i2 + 1, j2)[j1 - i2 - 1]));
        assert(s.subrange(i2 + 1, j2)[j1 - i2 - 1] == s[j1]);
        assert(false);
    }
    if j2 < j1 {
        assert(is_digit(s.subrange(i1 + 1, j1)[j2 - i1 - 1]));
        assert(s.subrange(i1 + 1, j1)[j2 - i1 - 1] == s[j2]);
        assert(false);
    }
}

/// The numeric value of a digit character, or `None` for any other character.
fn digit_of(c: char) -> (r: Option<u32>)
    ensures
        r matches Some(d) ==> is_digit(c) && d == digit_val(c) && d < 10,
        r is None ==> !is_digit(c),
{
    if c == '0' {
        Some(0)
    } else if c == '1' {
        Some(1)
    } else if c == '2' {
        Some(2)
    } else if c == '3' {
        Some(3)
    } else if c == '4' {
        Some(4)
    } else if c == '5' {
        Some(5)
    } else if c == '6' {
        Some(6)
    } else if c == '7' {
        Some(7)
    } else if c == '8' {
        Some(8)
    } else if c == '9' {
        Some(9)
    } else {
        None
    }
}

/// Reads `s[from..to]` as a decimal number that fits in a `u32`.
/// Returns `None` exactly when the range is empty, holds a non-digit, or
/// denotes a value above `u32::MAX`.
fn parse_u32_seg(s: &str, from: usize, to: usize) -> (r: Option<u32>)
    requires
        from <= to <= s@.len(),
    ensures
        r matches Some(v) ==> from < to && all_digits(s@.subrange(from as int, to as int))
            && v as nat == digits_val(s@.subrange(from as int, to as int)),
        r is None ==> !(from < to && all_digits(s@.subrange(from as int, to as int))
            && digits_val(s@.subrange(from as int, to as int)) <= u32::MAX),
{
    let ghost t = s@.subrange(from as int, to as int);
    if from >= to {
        return None;
    }
    let mut acc: u64 = 0;
    let mut k: usize = from;
    while k < to
        invariant
            from <= k <= to <= s@.len(),
            t == s@.subrange(from as int, to as int),
            all_digits(s@.subrange(from as int, k as int)),
            acc as nat == digits_val(s@.subrange(from as int, k as int)),
            acc <= u32::MAX,
        decreases to - k,
    {
        let c = s.get_char(k);
        let d = match digit_of(c) {
            Some(d) => d,
            None => {
                proof {
                    assert(t[k - from] == c);
                    assert(!all_digits(t));
                }
                return None;
            },
        };
        proof {
            assert(s@.subrange(from as int, k + 1).drop_last() =~= s@.subrange(
                from as int,
                k as int,
            ));
            assert(s@.subrange(from as int, k + 1).last() == c);
            assert forall|x: int| 0 <= x < k + 1 - from implies is_digit(
                #[trigger] s@.subrange(from as int, k + 1)[x],
            ) by {
                if x < k - from {
                    assert(s@.subrange(from as int, k + 1)[x] == s@.subrange(
                        from as int,
                        k as int,
                    )[x]);
                }
            }
        }
        acc = acc * 10 + (d as u64);
        if acc > (u32::MAX as u64) {
            proof {
                assert(t.subrange(0, k + 1 - from) =~= s@.subrange(from as int, k + 1));
                lemma_digits_val_prefix_le(t, k + 1 - from);
            }
            return None;
        }
        k = k + 1;
    }
    proof {
        assert(s@.subrange(from as int, k as int) =~= t);
    }
    Some(acc as u32)
}

/// The first position in `[from, n)` holding a dot, if any.
fn find_dot(s: &str, from: usize) -> (r: Option<usize>)
    requires
        from <= s@.len(),
    ensures
        r matches Some(i) ==> from <= i < s@.len() && s@[i as int] == '.' && (forall|k: int|
            from <= k < i ==> s@[k] != '.'),
        r is None ==> forall|k: int| from <= k < s@.len() ==> s@[k] != '.',
{
    let n = s.unicode_len();
    let mut i: usize = from;
    while i < n
        invariant
            from <= i <= n == s@.len(),
            forall|k: int| from <= k < i ==> s@[k] != '.',
        decreases n - i,
    {
        if s.get_char(i) == '.' {
            return Some(i);
        }
        i = i + 1;
    }
    None
}

/// Parses a `vMAJOR.MINOR.PATCH` version string into its numeric triple.
/// Fails with `ParseError` exactly on malformed input: a missing leading
/// `v`, a wrong segment count, a non-numeric segment, or a segment whose
/// value does not fit in a `u32`.
pub fn parse_version(s: &str) -> (r: Result<(u32, u32, u32), ParseError>)
    ensures
        r is Ok <==> well_formed_version(s@),
        r matches Ok(t) ==> version_nums(s@) == ((t.0 as nat, t.1 as nat, t.2 as nat)),
{
    let n = s.unicode_len();
    if n == 0 || s.get_char(0) != 'v' {
        proof {
            assert forall|i: int, j: int| !version_shape(s@, i, j) by {}
        }
        return Err(ParseError::Malformed);
    }
    let i = match find_dot(s, 1) {
        Some(i) => i,
        None => {
            proof {
                assert forall|i: int, j: int| !version_shape(s@, i, j) by {}
            }
            return Err(ParseError::Malformed);
        },
    };
    if i + 1 >= n {
        proof {
            assert forall|i2: int, j2: int| !version_shape(s@, i2, j2) by {
                if version_shape(s@, i2, j2) {
                    assert(is_digit(s@.subrange(1, i2)[i2 - 1]) ==> s@[i2 - 1] != '.');
                    if i2 < i {
                        assert(s@.subrange(1, i as int)[i2 - 1] == s@[i2]);
                        assert(is_digit(s@.subrange(1, i as int)[i2 - 1]));
                    }
                    if i < i2 {
                        assert(s@.subrange(1, i2)[i as int - 1] == s@[i as int]);
                        assert(is_digit(s@.subrange(1, i2)[i as int - 1]));
                    }
                    assert(i2 == i as int);
                    assert(j2 + 2 <= s@.len());
                }
            }
        }
        return Err(ParseError::Malformed);
    }
    let j = match find_dot(s, i + 1) {
        Some(j) => j,
        None => {
            proof {
                assert forall|i2: int, j2: int| !version_shape(s@, i2, j2) by {
                    if version_shape(s@, i2, j2) {
                        if i2 < i {
                            assert(s@.subrange(1, i as int)[i2 - 1] == s@[i2]);
                            assert(is_digit(s@.subrange(1, i as int)[i2 - 1]));
                        }
                        if i < i2 {
                            assert(s@.subrange(1, i2)[i as int - 1] == s@[i as int]);
                            assert(is_digit(s@.subrange(1, i2)[i as int - 1]));
                        }
                        assert(i2 == i as int);
                        assert(s@[j2] == '.' && i as int + 1 <= j2 < s@.len());
                    }
                }
            }
            return Err(ParseError::Malformed);
        },
    };
    let major = parse_u32_seg(s, 1, i);
    let minor = parse_u32_seg(s, i + 1, j);
    let patch = parse_u32_seg(s, j + 1, n);
    match (major, minor, patch) {
        (Some(a), Some(b), Some(c)) => {
            proof {
                assert(version_shape(s@, i as int, j as int));
                let (ci, cj) = choose|ci: int, cj: int| version_shape(s@, ci, cj);
                lemma_shape_unique(s@, ci, cj, i as int, j as int);
            }
            Ok((a, b, c))
        },
        _ => {
            proof {
                assert forall|i2: int, j2: int| !version_shape(s@, i2, j2) by {
                    if version_shape(s@, i2, j2) {
                        if i2 < i {
                            assert(s@.subrange(1, i as int)[i2 - 1] == s@[i2]);
                            assert(is_digit(s@.subrange(1, i as int)[i2 - 1]));
                        }
                        if i < i2 {
                            assert(s@.subrange(1, i2)[i as int - 1] == s@[i as int]);
                            assert(is_digit(s@.subrange(1, i2)[i as int - 1]));
                        }
                        assert(i2 == i as int);
                        if j2 < j {
                            assert(s@.subrange(i as int + 1, j as int)[j2 - (i as int) - 1] == s@[j2]);
                            assert(is_digit(s@.subrange(i as int + 1, j as int)[j2 - (i as int) - 1]));
                        }
                        if j < j2 {
                            assert(s@.subrange(i2 + 1, j2)[j as int - (i as int) - 1] == s@[j as int]);
                            assert(is_digit(s@.subrange(i2 + 1, j2)[j as int - (i as int) - 1]));
                        }
                        assert(j2 == j as int);
                    }
                }
            }
            Err(ParseError::Malformed)
        },
    }
}


/// Round trip: formatting any version triple as `vA.B.C` and parsing it
/// back yields exactly the same triple.
pub proof fn lemma_version_round_trip(a: u32, b: u32, c: u32)
    ensures
        well_formed_version(version_seq_of(a as nat, b as nat, c as nat)),
        version_nums(version_seq_of(a as nat, b as nat, c as nat)) == ((
            a as nat,
            b as nat,
            c as nat,
        )),
{
    reveal_strlit("v");
    reveal_strlit(".");
    let s = version_seq_of(a as nat, b as nat, c as nat);
    lemma_dec_digits_wf(a as nat);
    lemma_dec_digits_wf(b as nat);
    lemma_dec_digits_wf(c as nat);
    lemma_dec_digits_val(a as nat);
    lemma_dec_digits_val(b as nat);
    lemma_dec_digits_val(c as nat);
    let i = 1 + dec_digits(a as nat).len() as int;
    let j = i + 1 + dec_digits(b as nat).len() as int;
    assert(s.subrange(1, i) =~= dec_digits(a as nat));
    assert(s.subrange(i + 1, j) =~= dec_digits(b as nat));
    assert(s.subrange(j + 1, s.len() as int) =~= dec_digits(c as nat));
    assert(s[0] == 'v');
    assert(s[i] == '.');
    assert(s[j] == '.');
    assert(version_shape(s, i, j));
    let (ci, cj) = choose|ci: int, cj: int| version_shape(s, ci, cj);
    lemma_shape_unique(s, ci, cj, i, j);
}

/// Character-by-character string equality.
pub fn str_eq(a: &str, b: &str) -> (r: bool)
    ensures
        r == (a@ == b@),
{
    let n = a.unicode_len();
    let m = b.unicode_len();
    if n != m {
        return false;
    }
    let mut k: usize = 0;
    while k < n
        invariant
            k <= n,
            n == a@.len(),
            n == b@.len(),
            forall|x: int| 0 <= x < k ==> a@[x] == b@[x],
        decreases n - k,
    {
        if a.get_char(k) != b.get_char(k) {
            return false;
        }
        k = k + 1;
    }
    proof {
        assert(a@ =~= b@);
    }
    true
}

// ---------------------------------------------------------------------------
// Arch
// ---------------------------------------------------------------------------

/// The host instruction-set architectures a release can target.
#[derive(Clone, Copy, Debug, PartialEq, Eq, Structural)]
pub enum Arch {
    X86,
    X64,
    ARMv7,
    ARM64,
}

/// The architecture a target-architecture label denotes, if any.
/// Labels follow the compiler's `target_arch` names.
pub open spec fn arch_of_label(s: Seq<char>) -> Option<Arch> {
    if s == "x86_64"@ {
        Some(Arch::X64)
    } else if s == "x86"@ {
        Some(Arch::X86)
    } else if s == "arm"@ {
        Some(Arch::ARMv7)
    } else if s == "aarch64"@ {
        Some(Arch::ARM64)
    } else {
        None
    }
}

impl Arch {
    /// Resolves a target-architecture label (as the compiler names the
    /// host's instruction set) to an `Arch`; `None` for an unsupported
    /// architecture.
    pub fn new(label: &str) -> (r: Option<Arch>)
        ensures
            r == arch_of_label(label@),
    {
        if str_eq(label, "x86_64") {
            Some(Arch::X64)
        } else if str_eq(label, "x86") {
            Some(Arch::X86)
        } else if str_eq(label, "arm") {
            Some(Arch::ARMv7)
        } else if str_eq(label, "aarch64") {
            Some(Arch::ARM64)
        } else {
            None
        }
    }

    /// The identifier used for this architecture in release archive names.
    pub open spec fn label_seq(self) -> Seq<char> {
        match self {
            Arch::X86 => "x86"@,
            Arch::X64 => "x64"@,
            Arch::ARMv7 => "armv7l"@,
            Arch::ARM64 => "arm64"@,
        }
    }

    /// The archive-name identifier of this architecture.
    pub fn as_str(&self) -> (r: &'static str)
        ensures
            r@ == self.label_seq(),
    {
        match self {
            Arch::X86 => "x86",
            Arch::X64 => "x64",
            Arch::ARMv7 => "armv7l",
            Arch::ARM64 => "arm64",
        }
    }
}

} // verus!
