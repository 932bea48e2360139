//! The registry's version model: a three-part numeric version and the
//! `major.minor.patch` string grammar it is written in.
//!
//! A version string is valid exactly when it is the canonical decimal
//! rendering of some `Version`: three digit runs without leading zeroes,
//! separated by single dots, each fitting in a `u64`.

use vstd::prelude::*;
use vstd::string::StrSliceExecFns;
use vstd::string::StringExecFns;

verus! {

/// A three-part semantic version. Equality is structural: all three
/// components must match exactly; no compatibility-range rules exist
/// anywhere in the registry.
#[derive(Clone, Copy, PartialEq, Eq, Structural, Debug, Hash)]
pub struct Version {
    pub major: u64,
    pub minor: u64,
    pub patch: u64,
}

pub open spec fn is_digit(c: char) -> bool {
    c == '0' || c == '1' || c == '2' || c == '3' || c == '4' || c == '5' || c == '6' || c == '7'
        || c == '8' || c == '9'
}

/// The decimal digit character for a value below ten.
pub open spec fn digit_char(d: nat) -> char {
    if d == 0 {
        '0'
    } else if d == 1 {
        '1'
    } else if d == 2 {
        '2'
    } else if d == 3 {
        '3'
    } else if d == 4 {
        '4'
    } else if d == 5 {
        '5'
    } else if d == 6 {
        '6'
    } else if d == 7 {
        '7'
    } else if d == 8 {
        '8'
    } else {
        '9'
    }
}

/// The numeric value of a digit character.
pub open spec fn char_val(c: char) -> nat
    recommends
        is_digit(c),
{
    if c == '0' {
        0
    } else if c == '1' {
        1
    } else if c == '2' {
        2
    } else if c == '3' {
        3
    } else if c == '4' {
        4
    } else if c == '5' {
        5
    } else if c == '6' {
        6
    } else if c == '7' {
        7
    } else if c == '8' {
        8
    } else {
        9
    }
}

pub open spec fn all_digits(s: Seq<char>) -> bool {
    forall|i: int| 0 <= i < s.len() ==> is_digit(#[trigger] s[i])
}

/// The value of a digit run read as a decimal numeral.
pub open spec fn seq_val(s: Seq<char>) -> nat
    recommends
        all_digits(s),
    decreases s.len(),
{
    if s.len() == 0 {
        0
    } else {
        seq_val(s.drop_last()) * 10 + char_val(s.last())
    }
}

/// A canonical decimal numeral: nonempty, digits only, and no leading
/// zero unless the numeral is exactly "0".
pub open spec fn canonical_digits(s: Seq<char>) -> bool {
    s.len() >= 1 && all_digits(s) && (s.len() > 1 ==> s[0] != '0')
}

/// The canonical decimal rendering of a number.
pub open spec fn dec_digits(n: nat) -> Seq<char>
    decreases n,
{
    if n < 10 {
        seq![digit_char(n)]
    } else {
        dec_digits(n / 10).push(digit_char(n % 10))
    }
}

/// The one string that writes the given version: `major.minor.patch`
/// with each component in canonical decimal.
pub open spec fn spec_version_str(major: nat, minor: nat, patch: nat) -> Seq<char> {
    dec_digits(major) + seq!['.'] + dec_digits(minor) + seq!['.'] + dec_digits(patch)
}

pub open spec fn version_matches(s: Seq<char>, v: Version) -> bool {
    s == spec_version_str(v.major as nat, v.minor as nat, v.patch as nat)
}

/// What a version string denotes: the unique version it renders, if any.
pub open spec fn spec_parse_version(s: Seq<char>) -> Option<Version> {
    if exists|v: Version| version_matches(s, v) {
        Some(choose|v: Version| version_matches(s, v))
    } else {
        None
    }
}

proof fn lemma_seq_val_single(s: Seq<char>)
    requires
        s.len() == 1,
    ensures
        seq_val(s) == char_val(s[0]),
{
    assert(s.drop_last() =~= Seq::<char>::empty());
    assert(s.last() == s[0]);
    assert(seq_val(s.drop_last()) == 0);
}

proof fn lemma_digit_char_val(d: nat)
    requires
        d < 10,
    ensures
        char_val(digit_char(d)) == d,
        is_digit(digit_char(d)),
        d >= 1 ==> digit_char(d) != '0',
{
}

/// The canonical rendering of any number is a canonical numeral and
/// reads back as that number.
proof fn lemma_dec_digits_props(n: nat)
    ensures
        canonical_digits(dec_digits(n)),
        seq_val(dec_digits(n)) == n,
    decreases n,
{
    if n < 10 {
        lemma_digit_char_val(n);
        lemma_seq_val_single(dec_digits(n));
    } else {
        lemma_dec_digits_props(n / 10);
        lemma_digit_char_val(n % 10);
        let p = dec_digits(n / 10);
        let s = dec_digits(n);
        assert(s == p.push(digit_char(n % 10)));
        assert(s.drop_last() =~= p);
        assert(s.last() == digit_char(n % 10));
        assert forall|i: int| 0 <= i < s.len() implies is_digit(#[trigger] s[i]) by {
            if i < p.len() {
                assert(s[i] == p[i]);
            }
        }
        assert(s[0] == p[0]);
        if p.len() == 1 {
            lemma_seq_val_single(p);
            assert(n / 10 >= 1);
            assert(p[0] == digit_char(n / 10));
        }
        vstd::arithmetic::div_mod::lemma_fundamental_div_mod(n as int, 10);
        assert(seq_val(s) == seq_val(p) * 10 + char_val(s.last()));
    }
}

/// A canonical numeral is the canonical rendering of its own value.
proof fn lemma_canonical_round_trip(s: Seq<char>)
    requires
        canonical_digits(s),
    ensures
        dec_digits(seq_val(s)) == s,
    decreases s.len(),
{
    if s.len() == 1 {
        lemma_seq_val_single(s);
        assert(is_digit(s[0]));
        assert(char_val(s[0]) < 10);
        assert(digit_char(char_val(s[0])) == s[0]);
        assert(dec_digits(seq_val(s)) =~= s);
    } else {
        let p = s.drop_last();
        assert(forall|i: int| 0 <= i < p.len() ==> p[i] == s[i]);
        assert(canonical_digits(p));
        lemma_canonical_round_trip(p);
        lemma_leading_nonzero_at_least_one(p);
        let v = seq_val(s);
        let d = char_val(s.last());
        assert(is_digit(s.last()));
        assert(d < 10);
        assert(v == seq_val(p) * 10 + d);
        assert(seq_val(p) * 10 >= 10) by {
            assert(seq_val(p) >= 1);
        }
        assert(v >= 10);
        vstd::arithmetic::div_mod::lemma_fundamental_div_mod_converse(
            v as int,
            10,
            seq_val(p) as int,
            d as int,
        );
        assert(v / 10 == seq_val(p));
        assert(v % 10 == d);
        assert(digit_char(d) == s.last());
        assert(dec_digits(v) == dec_digits(seq_val(p)).push(digit_char(d)));
        assert(dec_digits(v) =~= s);
    }
}

/// A digit run with a nonzero leading digit has value at least one.
proof fn lemma_leading_nonzero_at_least_one(s: Seq<char>)
    requires
        s.len() >= 1,
        all_digits(s),
        s[0] != '0',
    ensures
        seq_val(s) >= 1,
    decreases s.len(),
{
    if s.len() == 1 {
        lemma_seq_val_single(s);
        assert(is_digit(s[0]));
    } else {
        let p = s.drop_last();
        assert(forall|i: int| 0 <= i < p.len() ==> p[i] == s[i]);
        lemma_leading_nonzero_at_least_one(p);
        assert(seq_val(s) == seq_val(p) * 10 + char_val(s.last()));
        assert(seq_val(p) * 10 >= 10);
    }
}

/// Extending a digit run to the right never lowers its value.
proof fn lemma_prefix_val_le(s: Seq<char>, i: int)
    requires
        all_digits(s),
        0 <= i <= s.len(),
    ensures
        seq_val(s.subrange(0, i)) <= seq_val(s),
    decreases s.len() - i,
{
    if i == s.len() {
        assert(s.subrange(0, i) =~= s);
    } else {
        let t = s.subrange(0, i + 1);
        assert(t.drop_last() =~= s.subrange(0, i));
        assert(t.last() == s[i]);
        assert(seq_val(t) == seq_val(s.subrange(0, i)) * 10 + char_val(s[i]));
        assert(seq_val(s.subrange(0, i)) * 10 >= seq_val(s.subrange(0, i)));
        lemma_prefix_val_le(s, i + 1);
    }
}

/// The rendering of a version has dots exactly at the two separator
/// positions, digits everywhere else, and the three components as its
/// maximal digit runs.
proof fn lemma_version_str_shape(ma: nat, mi: nat, pa: nat)
    ensures
        ({
            let a = dec_digits(ma);
            let b = dec_digits(mi);
            let c = dec_digits(pa);
            let t = spec_version_str(ma, mi, pa);
            let d1 = a.len() as int;
            let d2 = (a.len() + 1 + b.len()) as int;
            &&& canonical_digits(a)
            &&& canonical_digits(b)
            &&& canonical_digits(c)
            &&& seq_val(a) == ma
            &&& seq_val(b) == mi
            &&& seq_val(c) == pa
            &&& t.len() == a.len() + b.len() + c.len() + 2
            &&& 0 < d1 < d2 < t.len()
            &&& forall|i: int|
                0 <= i < t.len() ==> (#[trigger] t[i] == '.' <==> (i == d1 || i == d2))
            &&& t.subrange(0, d1) == a
            &&& t.subrange(d1 + 1, d2) == b
            &&& t.subrange(d2 + 1, t.len() as int) == c
        }),
{
    lemma_dec_digits_props(ma);
    lemma_dec_digits_props(mi);
    lemma_dec_digits_props(pa);
    let a = dec_digits(ma);
    let b = dec_digits(mi);
    let c = dec_digits(pa);
    let t = spec_version_str(ma, mi, pa);
    let d1 = a.len() as int;
    let d2 = (a.len() + 1 + b.len()) as int;
    assert(t.len() == a.len() + b.len() + c.len() + 2);
    assert forall|i: int| 0 <= i < t.len() implies (#[trigger] t[i] == '.' <==> (i == d1 || i
        == d2)) by {
        if i < d1 {
            assert(t[i] == a[i]);
            assert(is_digit(a[i]));
        } else if i == d1 {
            assert(t[i] == '.');
        } else if i < d2 {
            assert(t[i] == b[i - d1 - 1]);
            assert(is_digit(b[i - d1 - 1]));
        } else if i == d2 {
            assert(t[i] == '.');
        } else {
            assert(t[i] == c[i - d2 - 1]);
            assert(is_digit(c[i - d2 - 1]));
        }
    }
    assert(t.subrange(0, d1) =~= a);
    assert(t.subrange(d1 + 1, d2) =~= b);
    assert(t.subrange(d2 + 1, t.len() as int) =~= c);
}

/// Distinct versions never render to the same string.
pub proof fn lemma_version_str_injective(v1: Version, v2: Version)
    requires
        spec_version_str(v1.major as nat, v1.minor as nat, v1.patch as nat)
            == spec_version_str(v2.major as nat, v2.minor as nat, v2.patch as nat),
    ensures
        v1 == v2,
{
    let t = spec_version_str(v1.major as nat, v1.minor as nat, v1.patch as nat);
    lemma_version_str_shape(v1.major as nat, v1.minor as nat, v1.patch as nat);
    lemma_version_str_shape(v2.major as nat, v2.minor as nat, v2.patch as nat);
    let a1 = dec_digits(v1.major as nat);
    let b1 = dec_digits(v1.minor as nat);
    let a2 = dec_digits(v2.major as nat);
    let b2 = dec_digits(v2.minor as nat);
    let e1 = a1.len() as int;
    let e2 = a2.len() as int;
    assert(t[e1] == '.');
    assert(t[e2] == '.');
    assert(e1 == e2);
    let f1 = (a1.len() + 1 + b1.len()) as int;
    let f2 = (a2.len() + 1 + b2.len()) as int;
    assert(t[f1] == '.');
    assert(t[f2] == '.');
    assert(f1 == f2);
    assert(a2 == t.subrange(0, e1));
    assert(b2 == t.subrange(e1 + 1, f1));
    assert(dec_digits(v2.patch as nat) == t.subrange(f1 + 1, t.len() as int));
    assert(seq_val(a1) == seq_val(a2));
    assert(seq_val(b1) == seq_val(b2));
    assert(v1.major == v2.major);
    assert(v1.minor == v2.minor);
    assert(v1.patch == v2.patch);
}

/// A string that renders some version denotes exactly that version.
pub proof fn lemma_matches_unique(s: Seq<char>, v: Version)
    requires
        version_matches(s, v),
    ensures
        spec_parse_version(s) == Some(v),
{
    let w = choose|w: Version| version_matches(s, w);
    assert(version_matches(s, w));
    lemma_version_str_injective(w, v);
}

/// The version grammar round-trips: rendering a version and reading the
/// string back yields the same version.
pub proof fn lemma_version_round_trip(v: Version)
    ensures
        spec_parse_version(spec_version_str(v.major as nat, v.minor as nat, v.patch as nat))
            == Some(v),
{
    let s = spec_version_str(v.major as nat, v.minor as nat, v.patch as nat);
    lemma_matches_unique(s, v);
}

proof fn lemma_no_dot_no_version(s: Seq<char>)
    requires
        forall|j: int| 0 <= j < s.len() ==> #[trigger] s[j] != '.',
    ensures
        spec_parse_version(s) == None::<Version>,
{
    assert forall|v: Version| !version_matches(s, v) by {
        if version_matches(s, v) {
            lemma_version_str_shape(v.major as nat, v.minor as nat, v.patch as nat);
            let d1 = dec_digits(v.major as nat).len() as int;
            assert(s[d1] == '.');
        }
    }
}

proof fn lemma_one_dot_no_version(s: Seq<char>, p1: int)
    requires
        0 <= p1 < s.len(),
        s[p1] == '.',
        forall|j: int| 0 <= j < s.len() && j != p1 ==> #[trigger] s[j] != '.',
    ensures
        spec_parse_version(s) == None::<Version>,
{
    assert forall|v: Version| !version_matches(s, v) by {
        if version_matches(s, v) {
            lemma_version_str_shape(v.major as nat, v.minor as nat, v.patch as nat);
            let d1 = dec_digits(v.major as nat).len() as int;
            let d2 = (dec_digits(v.major as nat).len() + 1 + dec_digits(v.minor as nat).len())
                as int;
            assert(s[d1] == '.');
            assert(s[d2] == '.');
        }
    }
}

proof fn lemma_three_dots_no_version(s: Seq<char>, p1: int, p2: int, p3: int)
    requires
        0 <= p1 < p2 < p3 < s.len(),
        s[p1] == '.',
        s[p2] == '.',
        s[p3] == '.',
    ensures
        spec_parse_version(s) == None::<Version>,
{
    assert forall|v: Version| !version_matches(s, v) by {
        if version_matches(s, v) {
            lemma_version_str_shape(v.major as nat, v.minor as nat, v.patch as nat);
            let d1 = dec_digits(v.major as nat).len() as int;
            let d2 = (dec_digits(v.major as nat).len() + 1 + dec_digits(v.minor as nat).len())
                as int;
            assert(p1 == d1 || p1 == d2);
            assert(p2 == d1 || p2 == d2);
            assert(p3 == d1 || p3 == d2);
        }
    }
}

/// In a string that renders a version, the two dots pin the components:
/// the maximal runs around the only two dots are the rendered components.
proof fn lemma_dots_pin(s: Seq<char>, p1: int, p2: int, v: Version)
    requires
        version_matches(s, v),
        0 <= p1 < p2 < s.len(),
        s[p1] == '.',
        s[p2] == '.',
        forall|j: int| 0 <= j < s.len() && j != p1 && j != p2 ==> #[trigger] s[j] != '.',
    ensures
        s.subrange(0, p1) == dec_digits(v.major as nat),
        s.subrange(p1 + 1, p2) == dec_digits(v.minor as nat),
        s.subrange(p2 + 1, s.len() as int) == dec_digits(v.patch as nat),
{
    lemma_version_str_shape(v.major as nat, v.minor as nat, v.patch as nat);
    let a = dec_digits(v.major as nat);
    let b = dec_digits(v.minor as nat);
    let d1 = a.len() as int;
    let d2 = (a.len() + 1 + b.len()) as int;
    assert(s[d1] == '.');
    assert(s[d2] == '.');
    assert(d1 == p1 || d1 == p2);
    assert(d2 == p1 || d2 == p2);
    assert(s[p1] == '.' && (p1 == d1 || p1 == d2));
    assert(s[p2] == '.' && (p2 == d1 || p2 == d2));
    assert(d1 == p1 && d2 == p2);
}

/// The numeric value of a single character, when it is a decimal digit.
fn digit_of(c: char) -> (r: Option<u64>)
    ensures
        match r {
            Some(d) => is_digit(c) && d < 10 && d as nat == char_val(c),
            None => !is_digit(c),
        },
{
    match c {
        '0' => Some(0),
        '1' => Some(1),
        '2' => Some(2),
        '3' => Some(3),
        '4' => Some(4),
        '5' => Some(5),
        '6' => Some(6),
        '7' => Some(7),
        '8' => Some(8),
        '9' => Some(9),
        _ => None,
    }
}

/// Reads the characters of `s` between `from` and `to` as one canonical
/// decimal numeral; answers nothing when that run of characters is not
/// the canonical rendering of a `u64`.
fn parse_component(s: &str, from: usize, to: usize) -> (r: Option<u64>)
    requires
        from <= to <= s@.len(),
    ensures
        ({
            let seg = s@.subrange(from as int, to as int);
            match r {
                Some(v) => canonical_digits(seg) && seq_val(seg) == v as nat,
                None => forall|v: u64| seg != dec_digits(v as nat),
            }
        }),
{
    let ghost seg = s@.subrange(from as int, to as int);
    if from == to {
        proof {
            assert forall|v: u64| seg != dec_digits(v as nat) by {
                lemma_dec_digits_props(v as nat);
            }
        }
        return None;
    }
    if to - from > 1 && s.get_char(from) == '0' {
        proof {
            assert(seg[0] == '0');
            assert forall|v: u64| seg != dec_digits(v as nat) by {
                lemma_dec_digits_props(v as nat);
            }
        }
        return None;
    }
    let mut acc: u64 = 0;
    let mut i: usize = from;
    while i < to
        invariant
            from <= i <= to <= s@.len(),
            seg == s@.subrange(from as int, to as int),
            forall|j: int| 0 <= j < i - from ==> is_digit(#[trigger] seg[j]),
            acc as nat == seq_val(seg.subrange(0, i - from)),
        decreases to - i,
    {
        let c = s.get_char(i);
        proof {
            assert(seg[i - from] == s@[i as int]);
        }
        match digit_of(c) {
            None => {
                proof {
                    assert forall|v: u64| seg != dec_digits(v as nat) by {
                        if seg == dec_digits(v as nat) {
                            lemma_dec_digits_props(v as nat);
                            assert(is_digit(seg[i - from]));
                        }
                    }
                }
                return None;
            },
            Some(d) => {
                let ghost pref = seg.subrange(0, i + 1 - from);
                proof {
                    assert(pref.drop_last() =~= seg.subrange(0, i - from));
                    assert(pref.last() == seg[i - from]);
                    assert(seq_val(pref) == (acc as nat) * 10 + char_val(seg[i - from]));
                    vstd::arithmetic::div_mod::lemma_fundamental_div_mod(
                        (u64::MAX - d) as int,
                        10,
                    );
                }
                if acc > (u64::MAX - d) / 10 {
                    proof {
                        assert(seq_val(pref) > u64::MAX);
                        assert forall|v: u64| seg != dec_digits(v as nat) by {
                            if seg == dec_digits(v as nat) {
                                lemma_dec_digits_props(v as nat);
                                lemma_prefix_val_le(seg, i + 1 - from);
                            }
                        }
                    }
                    return None;
                }
                proof {
                    assert((acc as nat) * 10 + (d as nat) <= u64::MAX);
                }
                acc = acc * 10 + d;
                i += 1;
                proof {
                    assert(seg.subrange(0, i - from) == pref);
                }
            },
        }
    }
    proof {
        assert(seg.subrange(0, i - from) =~= seg);
        assert(seg.len() > 1 ==> seg[0] != '0');
    }
    Some(acc)
}

/// Parses a `major.minor.patch` version string. Answers the version it
/// writes, exactly when the string is the canonical rendering of one.
pub fn parse_version(s: &str) -> (r: Option<Version>)
    ensures
        r == spec_parse_version(s@),
{
    let n = s.unicode_len();
    let mut ndots: usize = 0;
    let mut p1: usize = 0;
    let mut p2: usize = 0;
    let mut i: usize = 0;
    while i < n
        invariant
            0 <= i <= n,
            n == s@.len(),
            ndots <= 2,
            ndots == 0 ==> forall|j: int| 0 <= j < i ==> s@[j] != '.',
            ndots == 1 ==> p1 < i && s@[p1 as int] == '.' && forall|j: int|
                0 <= j < i && j != p1 ==> s@[j] != '.',
            ndots == 2 ==> p1 < p2 < i && s@[p1 as int] == '.' && s@[p2 as int] == '.'
                && forall|j: int| 0 <= j < i && j != p1 && j != p2 ==> s@[j] != '.',
        decreases n - i,
    {
        let c = s.get_char(i);
        if c == '.' {
            if ndots == 0 {
                p1 = i;
                ndots = 1;
            } else if ndots == 1 {
                p2 = i;
                ndots = 2;
            } else {
                proof {
                    lemma_three_dots_no_version(s@, p1 as int, p2 as int, i as int);
                }
                return None;
            }
        }
        i += 1;
    }
    if ndots == 0 {
        proof {
            lemma_no_dot_no_version(s@);
        }
        return None;
    }
    if ndots == 1 {
        proof {
            lemma_one_dot_no_version(s@, p1 as int);
        }
        return None;
    }
    let major = match parse_component(s, 0, p1) {
        Some(x) => x,
        None => {
            proof {
                assert forall|v: Version| !version_matches(s@, v) by {
                    if version_matches(s@, v) {
                        lemma_dots_pin(s@, p1 as int, p2 as int, v);
                        assert(s@.subrange(0, p1 as int) == dec_digits(v.major as nat));
                    }
                }
            }
            return None;
        },
    };
    let minor = match parse_component(s, p1 + 1, p2) {
        Some(x) => x,
        None => {
            proof {
                assert forall|v: Version| !version_matches(s@, v) by {
                    if version_matches(s@, v) {
                        lemma_dots_pin(s@, p1 as int, p2 as int, v);
                        assert(s@.subrange(p1 + 1, p2 as int) == dec_digits(v.minor as nat));
                    }
                }
            }
            return None;
        },
    };
    let patch = match parse_component(s, p2 + 1, n) {
        Some(x) => x,
        None => {
            proof {
                assert forall|v: Version| !version_matches(s@, v) by {
                    if version_matches(s@, v) {
                        lemma_dots_pin(s@, p1 as int, p2 as int, v);
                        assert(s@.subrange(p2 + 1, s@.len() as int) == dec_digits(
                            v.patch as nat,
                        ));
                    }
                }
            }
            return None;
        },
    };
    let v = Version { major, minor, patch };
    proof {
        let sa = s@.subrange(0, p1 as int);
        let sb = s@.subrange(p1 + 1, p2 as int);
        let sc = s@.subrange(p2 + 1, s@.len() as int);
        lemma_canonical_round_trip(sa);
        lemma_canonical_round_trip(sb);
        lemma_canonical_round_trip(sc);
        assert(s@ =~= sa + seq!['.'] + sb + seq!['.'] + sc);
        assert(version_matches(s@, v));
        lemma_matches_unique(s@, v);
    }
    Some(v)
}

fn digit_str(d: u64) -> (r: &'static str)
    requires
        d < 10,
    ensures
        r@ == seq![digit_char(d as nat)],
{
    proof {
        reveal_strlit("0");
        reveal_strlit("1");
        reveal_strlit("2");
        reveal_strlit("3");
        reveal_strlit("4");
        reveal_strlit("5");
        reveal_strlit("6");
        reveal_strlit("7");
        reveal_strlit("8");
        reveal_strlit("9");
    }
    let r = match d {
        0 => "0",
        1 => "1",
        2 => "2",
        3 => "3",
        4 => "4",
        5 => "5",
        6 => "6",
        7 => "7",
        8 => "8",
        _ => "9",
    };
    proof {
        assert(r@ =~= seq![digit_char(d as nat)]);
    }
    r
}

/// Writes a number in canonical decimal.
fn u64_to_string(n: u64) -> (r: String)
    ensures
        r@ == dec_digits(n as nat),
    decreases n,
{
    if n < 10 {
        String::from_str(digit_str(n))
    } else {
        let mut r = u64_to_string(n / 10);
        r.append(digit_str(n % 10));
        proof {
            assert(r@ =~= dec_digits(n as nat));
        }
        r
    }
}

/// Writes a version in its `major.minor.patch` form: the one string
/// that `parse_version` reads back as this version.
pub fn version_to_string(v: &Version) -> (r: String)
    ensures
        r@ == spec_version_str(v.major as nat, v.minor as nat, v.patch as nat),
{
    proof {
        reveal_strlit(".");
    }
    let mut r = u64_to_string(v.major);
    r.append(".");
    let minor = u64_to_string(v.minor);
    r.append(minor.as_str());
    r.append(".");
    let patch = u64_to_string(v.patch);
    r.append(patch.as_str());
    proof {
        assert("."@ =~= seq!['.']);
        assert(r@ =~= spec_version_str(v.major as nat, v.minor as nat, v.patch as nat));
    }
    r
}

} // verus!
