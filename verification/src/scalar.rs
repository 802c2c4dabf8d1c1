//! Scalar values carried by actions, declared column types, and the
//! coercion of a scalar to a column's declared type.

use vstd::prelude::*;

use crate::text::{all_digits, digit_val, is_digit, num_val};

verus! {

/// A scalar value supplied in a payload or bound as a statement parameter:
/// a string, a 64-bit integer, or a boolean.
#[derive(Clone, Debug, PartialEq, Eq)]
pub enum Scalar {
    Str(String),
    Int(i64),
    Bool(bool),
}

/// The mathematical value of a `Scalar`.
pub enum ScalarV {
    Str(Seq<char>),
    Int(int),
    Bool(bool),
}

impl View for Scalar {
    type V = ScalarV;

    open spec fn view(&self) -> ScalarV {
        match self {
            Scalar::Str(s) => ScalarV::Str(s@),
            Scalar::Int(i) => ScalarV::Int(*i as int),
            Scalar::Bool(b) => ScalarV::Bool(*b),
        }
    }
}

impl DeepView for Scalar {
    type V = ScalarV;

    open spec fn deep_view(&self) -> ScalarV {
        self.view()
    }
}

impl Scalar {
    /// A copy with the same mathematical value.
    pub fn duplicate(&self) -> (r: Scalar)
        ensures
            r@ == self@,
    {
        match self {
            Scalar::Str(s) => Scalar::Str(s.clone()),
            Scalar::Int(i) => Scalar::Int(*i),
            Scalar::Bool(b) => Scalar::Bool(*b),
        }
    }
}

/// A column's declared type, as the schema catalog reports it.
#[derive(Clone, Copy, Debug, PartialEq, Eq, Structural)]
pub enum ColType {
    Text,
    BigInt,
    Boolean,
}

pub proof fn lemma_num_val_nonneg(s: Seq<char>)
    requires
        all_digits(s),
    ensures
        num_val(s) >= 0,
    decreases s.len(),
{
    if s.len() > 0 {
        assert(all_digits(s.drop_last()));
        lemma_num_val_nonneg(s.drop_last());
        assert(is_digit(s.last()));
    }
}

/// A digit string's value is at least the value of any of its prefixes.
pub proof fn lemma_num_val_prefix_le(s: Seq<char>, j: int)
    requires
        all_digits(s),
        0 <= j <= s.len(),
    ensures
        num_val(s.subrange(0, j)) <= num_val(s),
    decreases s.len() - j,
{
    if j == s.len() {
        assert(s.subrange(0, j) =~= s);
    } else {
        let p = s.subrange(0, j);
        let q = s.subrange(0, j + 1);
        assert(q.drop_last() =~= p);
        assert(q.last() == s[j]);
        assert(all_digits(p));
        lemma_num_val_nonneg(p);
        assert(is_digit(s[j]));
        assert(num_val(q) == num_val(p) * 10 + digit_val(s[j]));
        assert(num_val(p) * 10 >= num_val(p));
        lemma_num_val_prefix_le(s, j + 1);
    }
}

/// The exact-parse reading of a signed decimal string as a 64-bit integer:
/// an optional single `+` or `-` sign, then one or more digits and nothing
/// else, with the value inside the `i64` range.
pub open spec fn parse_i64_spec(s: Seq<char>) -> Option<int> {
    let neg = s.len() > 0 && s[0] == '-';
    let signed = s.len() > 0 && (s[0] == '-' || s[0] == '+');
    let ds = if signed {
        s.skip(1)
    } else {
        s
    };
    if ds.len() >= 1 && all_digits(ds) {
        let v = if neg {
            -num_val(ds)
        } else {
            num_val(ds)
        };
        if i64::MIN <= v <= i64::MAX {
            Some(v)
        } else {
            None
        }
    } else {
        None
    }
}

fn digit_of(c: char) -> (d: u64)
    requires
        is_digit(c),
    ensures
        d == digit_val(c),
        d < 10,
{
    if c == '0' {
        0
    } else if c == '1' {
        1
    } else if c == '2' {
        2
    } else if c == '3' {
        3
    } else if c == '4' {
        4
    } else if c == '5' {
        5
    } else if c == '6' {
        6
    } else if c == '7' {
        7
    } else if c == '8' {
        8
    } else {
        9
    }
}

fn exec_is_digit(c: char) -> (r: bool)
    ensures
        r == is_digit(c),
{
    c == '0' || c == '1' || c == '2' || c == '3' || c == '4' || c == '5' || c == '6' || c == '7'
        || c == '8' || c == '9'
}

/// Parses a decimal string exactly as `parse_i64_spec` describes; trailing
/// or embedded non-digit characters make the parse fail.
pub fn parse_i64(s: &str) -> (r: Option<i64>)
    ensures
        r is Some <==> parse_i64_spec(s@) is Some,
        r is Some ==> r->0 as int == parse_i64_spec(s@)->0,
{
    let n = s.unicode_len();
    if n == 0 {
        return None;
    }
    let c0 = s.get_char(0);
    let neg = c0 == '-';
    let signed = c0 == '-' || c0 == '+';
    let start: usize = if signed {
        1
    } else {
        0
    };
    let ghost ds: Seq<char> = if signed {
        s@.skip(1)
    } else {
        s@
    };
    if n == start {
        assert(ds.len() == 0);
        return None;
    }
    let mut acc: u64 = 0;
    let mut i: usize = start;
    while i < n
        invariant
            start <= i <= n,
            n == s@.len(),
            n >= 1,
            signed == (s@[0] == '-' || s@[0] == '+'),
            neg == (s@[0] == '-'),
            start == if signed {
                1int
            } else {
                0int
            },
            start < n,
            ds == if signed {
                s@.skip(1)
            } else {
                s@
            },
            ds.len() == n - start,
            forall|j: int| 0 <= j < ds.len() ==> ds[j] == s@[j + start],
            all_digits(ds.subrange(0, i - start)),
            acc == num_val(ds.subrange(0, i - start)),
        decreases n - i,
    {
        let c = s.get_char(i);
        if !exec_is_digit(c) {
            assert(ds[i - start] == c);
            assert(!all_digits(ds));
            return None;
        }
        let d = digit_of(c);
        let ghost pref = ds.subrange(0, i - start);
        let ghost pref1 = ds.subrange(0, i + 1 - start);
        proof {
            assert(pref1.drop_last() =~= pref);
            assert(pref1.last() == ds[i - start]);
            assert(all_digits(pref1));
            assert(num_val(pref1) == acc * 10 + d);
        }
        let m = match acc.checked_mul(10) {
            Some(m) => m,
            None => {
                proof {
                    assert(num_val(pref1) > u64::MAX);
                    if all_digits(ds) {
                        lemma_num_val_prefix_le(ds, i + 1 - start);
                    }
                }
                return None;
            },
        };
        let a2 = match m.checked_add(d) {
            Some(a2) => a2,
            None => {
                proof {
                    assert(num_val(pref1) > u64::MAX);
                    if all_digits(ds) {
                        lemma_num_val_prefix_le(ds, i + 1 - start);
                    }
                }
                return None;
            },
        };
        acc = a2;
        i = i + 1;
    }
    proof {
        assert(ds.subrange(0, i - start) =~= ds);
        lemma_num_val_nonneg(ds);
    }
    if neg {
        if acc <= 9223372036854775807u64 {
            Some(-(acc as i64))
        } else if acc == 9223372036854775808u64 {
            Some(i64::MIN)
        } else {
            None
        }
    } else {
        if acc <= 9223372036854775807u64 {
            Some(acc as i64)
        } else {
            None
        }
    }
}

/// How a scalar coerces to a declared column type: text columns take only
/// strings, boolean columns only booleans, and integer columns take a native
/// integer or a decimal string parsed exactly.
pub open spec fn coerce_spec(v: ScalarV, t: ColType) -> Option<ScalarV> {
    match t {
        ColType::Text => match v {
            ScalarV::Str(s) => Some(ScalarV::Str(s)),
            _ => None,
        },
        ColType::Boolean => match v {
            ScalarV::Bool(b) => Some(ScalarV::Bool(b)),
            _ => None,
        },
        ColType::BigInt => match v {
            ScalarV::Int(i) => Some(ScalarV::Int(i)),
            ScalarV::Str(s) => match parse_i64_spec(s) {
                Some(i) => Some(ScalarV::Int(i)),
                None => None,
            },
            ScalarV::Bool(_) => None,
        },
    }
}

/// Coerces one scalar to a declared column type, exactly as `coerce_spec`
/// describes.
pub fn coerce(v: &Scalar, t: ColType) -> (r: Option<Scalar>)
    ensures
        r is Some <==> coerce_spec(v@, t) is Some,
        r is Some ==> r->0@ == coerce_spec(v@, t)->0,
{
    match t {
        ColType::Text => match v {
            Scalar::Str(s) => Some(Scalar::Str(s.clone())),
            _ => None,
        },
        ColType::Boolean => match v {
            Scalar::Bool(b) => Some(Scalar::Bool(*b)),
            _ => None,
        },
        ColType::BigInt => match v {
            Scalar::Int(i) => Some(Scalar::Int(*i)),
            Scalar::Str(s) => match parse_i64(s.as_str()) {
                Some(i) => Some(Scalar::Int(i)),
                None => None,
            },
            Scalar::Bool(_) => None,
        },
    }
}

} // verus!
