//! Decimal rendering of integers and the placeholder structure of SQL text.
//!
//! A compiled statement refers to its parameters through positional
//! placeholders `$1`, `$2`, ... . `ph_seq` reads the placeholder numbers out
//! of a character sequence from left to right; the query builder keeps the
//! invariant that this scan yields exactly `1..=n` for `n` parameters.

use vstd::prelude::*;

verus! {

/// The value of a decimal digit character, or -1 for any other character.
pub open spec fn digit_val(c: char) -> int {
    if c == '0' {
        0
    } else if c == '1' {
        1
    } else if c == '2' {
        2
    } else if c == '3' {
        3
    } else if c == '4' {
        4
    } else if c == '5' {
        5
    } else if c == '6' {
        6
    } else if c == '7' {
        7
    } else if c == '8' {
        8
    } else if c == '9' {
        9
    } else {
        -1
    }
}

pub open spec fn is_digit(c: char) -> bool {
    digit_val(c) >= 0
}

/// The decimal digit character for a value in 0..=9.
pub open spec fn digit_char(d: int) -> char {
    if d == 0 {
        '0'
    } else if d == 1 {
        '1'
    } else if d == 2 {
        '2'
    } else if d == 3 {
        '3'
    } else if d == 4 {
        '4'
    } else if d == 5 {
        '5'
    } else if d == 6 {
        '6'
    } else if d == 7 {
        '7'
    } else if d == 8 {
        '8'
    } else {
        '9'
    }
}

/// The decimal rendering of a natural number, most significant digit first.
pub open spec fn dec_of(n: nat) -> Seq<char>
    decreases n,
{
    if n < 10 {
        seq![digit_char(n as int)]
    } else {
        dec_of(n / 10).push(digit_char((n % 10) as int))
    }
}

pub open spec fn all_digits(s: Seq<char>) -> bool {
    forall|i: int| 0 <= i < s.len() ==> is_digit(#[trigger] s[i])
}

/// The numeric value of a digit string (most significant digit first).
pub open spec fn num_val(s: Seq<char>) -> int
    decreases s.len(),
{
    if s.len() == 0 {
        0
    } else {
        num_val(s.drop_last()) * 10 + digit_val(s.last())
    }
}

pub proof fn lemma_dec_of_digits(n: nat)
    ensures
        dec_of(n).len() >= 1,
        all_digits(dec_of(n)),
        num_val(dec_of(n)) == n,
    decreases n,
{
    if n < 10 {
        let s = dec_of(n);
        assert(s =~= seq![digit_char(n as int)]);
        assert(s.drop_last() =~= Seq::<char>::empty());
        assert(num_val(Seq::<char>::empty()) == 0);
        assert(num_val(s) == num_val(s.drop_last()) * 10 + digit_val(s.last()));
        assert(s.last() == digit_char(n as int));
    } else {
        lemma_dec_of_digits(n / 10);
        let s = dec_of(n);
        let p = dec_of(n / 10);
        assert(s == p.push(digit_char((n % 10) as int)));
        assert(s.drop_last() =~= p);
        assert(s.last() == digit_char((n % 10) as int));
        assert(num_val(s) == num_val(p) * 10 + digit_val(digit_char((n % 10) as int)));
        assert(n / 10 * 10 + n % 10 == n) by (nonlinear_arith);
        assert(forall|i: int| 0 <= i < p.len() ==> s[i] == p[i]);
    }
}

/// The one-character string for a decimal digit.
fn digit_str(d: u64) -> (s: &'static str)
    requires
        d < 10,
    ensures
        s@ =~= seq![digit_char(d as int)],
{
    proof {
        reveal_strlit("0");
        reveal_strlit("1");
        reveal_strlit("2");
        reveal_strlit("3");
        reveal_strlit("4");
        reveal_strlit("5");
        reveal_strlit("6");
        reveal_strlit("7");
        reveal_strlit("8");
        reveal_strlit("9");
    }
    if d == 0 {
        "0"
    } else if d == 1 {
        "1"
    } else if d == 2 {
        "2"
    } else if d == 3 {
        "3"
    } else if d == 4 {
        "4"
    } else if d == 5 {
        "5"
    } else if d == 6 {
        "6"
    } else if d == 7 {
        "7"
    } else if d == 8 {
        "8"
    } else {
        "9"
    }
}

/// Length of the maximal run of digit characters at the start of `s`.
pub open spec fn digit_run(s: Seq<char>) -> nat
    decreases s.len(),
{
    if s.len() == 0 || !is_digit(s[0]) {
        0
    } else {
        (digit_run(s.skip(1)) + 1) as nat
    }
}

pub proof fn lemma_digit_run_le(s: Seq<char>)
    ensures
        digit_run(s) <= s.len(),
    decreases s.len(),
{
    if s.len() > 0 && is_digit(s[0]) {
        lemma_digit_run_le(s.skip(1));
    }
}

pub proof fn lemma_digit_run_all(s: Seq<char>)
    requires
        all_digits(s),
    ensures
        digit_run(s) == s.len(),
    decreases s.len(),
{
    if s.len() > 0 {
        assert(is_digit(s[0]));
        assert(all_digits(s.skip(1)));
        lemma_digit_run_all(s.skip(1));
    }
}

/// The sequence of placeholder numbers that appear in `s`, left to right:
/// each `$` that is followed by at least one digit contributes the value of
/// the maximal digit run after it.
pub open spec fn ph_seq(s: Seq<char>) -> Seq<int>
    decreases s.len(),
    via ph_seq_decreases
{
    if s.len() == 0 {
        Seq::empty()
    } else if s[0] == '$' && digit_run(s.skip(1)) > 0 {
        let k = digit_run(s.skip(1));
        seq![num_val(s.subrange(1, 1 + k as int))] + ph_seq(s.skip(1 + k as int))
    } else {
        ph_seq(s.skip(1))
    }
}

#[via_fn]
proof fn ph_seq_decreases(s: Seq<char>) {
    if s.len() > 0 && s[0] == '$' {
        lemma_digit_run_le(s.skip(1));
    }
}

pub open spec fn no_dollar(s: Seq<char>) -> bool {
    forall|i: int| 0 <= i < s.len() ==> #[trigger] s[i] != '$'
}

/// Text without `$` contributes no placeholders.
pub proof fn lemma_ph_seq_no_dollar(s: Seq<char>)
    requires
        no_dollar(s),
    ensures
        ph_seq(s) =~= Seq::<int>::empty(),
    decreases s.len(),
{
    if s.len() > 0 {
        assert(s[0] != '$');
        assert(no_dollar(s.skip(1)));
        lemma_ph_seq_no_dollar(s.skip(1));
    }
}

/// A digit run is not extended by appending text that starts with a non-digit.
pub proof fn lemma_digit_run_concat(a: Seq<char>, b: Seq<char>)
    requires
        b.len() == 0 || !is_digit(b[0]),
    ensures
        digit_run(a + b) == digit_run(a),
    decreases a.len(),
{
    if a.len() == 0 {
        assert(a + b =~= b);
    } else {
        assert((a + b)[0] == a[0]);
        if is_digit(a[0]) {
            assert((a + b).skip(1) =~= a.skip(1) + b);
            lemma_digit_run_concat(a.skip(1), b);
        }
    }
}

/// Appending placeholder-free text that does not start with a digit leaves
/// the placeholder sequence unchanged.
pub proof fn lemma_ph_seq_append_clean(a: Seq<char>, b: Seq<char>)
    requires
        no_dollar(b),
        b.len() == 0 || !is_digit(b[0]),
    ensures
        ph_seq(a + b) =~= ph_seq(a),
    decreases a.len(),
{
    if a.len() == 0 {
        assert(a + b =~= b);
        lemma_ph_seq_no_dollar(b);
    } else {
        let s = a + b;
        assert(s[0] == a[0]);
        assert(s.skip(1) =~= a.skip(1) + b);
        if a[0] == '$' {
            lemma_digit_run_concat(a.skip(1), b);
            let k = digit_run(a.skip(1));
            assert(digit_run(s.skip(1)) == k);
            if k > 0 {
                lemma_digit_run_le(a.skip(1));
                assert(s.subrange(1, 1 + k as int) =~= a.subrange(1, 1 + k as int));
                assert(s.skip(1 + k as int) =~= a.skip(1 + k as int) + b);
                lemma_ph_seq_append_clean(a.skip(1 + k as int), b);
            } else {
                lemma_ph_seq_append_clean(a.skip(1), b);
            }
        } else {
            lemma_ph_seq_append_clean(a.skip(1), b);
        }
    }
}

/// Appending `$` followed by a digit string appends exactly one placeholder,
/// whose number is the value of that digit string.
pub proof fn lemma_ph_seq_append_param(a: Seq<char>, d: Seq<char>)
    requires
        all_digits(d),
        d.len() >= 1,
    ensures
        ph_seq(a + seq!['$'] + d) =~= ph_seq(a).push(num_val(d)),
    decreases a.len(),
{
    let s = a + seq!['$'] + d;
    if a.len() == 0 {
        assert(s =~= seq!['$'] + d);
        assert(s[0] == '$');
        assert(s.skip(1) =~= d);
        lemma_digit_run_all(d);
        assert(digit_run(s.skip(1)) == d.len());
        let k = digit_run(s.skip(1));
        assert(k > 0);
        assert(s.subrange(1, 1 + k as int) =~= d);
        assert(s.skip(1 + k as int) =~= Seq::<char>::empty());
        assert(ph_seq(Seq::<char>::empty()) =~= Seq::<int>::empty());
        assert(ph_seq(s) =~= seq![num_val(d)]);
        assert(ph_seq(a) =~= Seq::<int>::empty());
        assert(ph_seq(a).push(num_val(d)) =~= seq![num_val(d)]);
    } else {
        assert(s[0] == a[0]);
        assert(s.skip(1) =~= a.skip(1) + seq!['$'] + d);
        if a[0] == '$' {
            let tail = seq!['$'] + d;
            assert(a.skip(1) + seq!['$'] + d =~= a.skip(1) + tail);
            assert(!is_digit(tail[0]));
            lemma_digit_run_concat(a.skip(1), tail);
            let k = digit_run(a.skip(1));
            assert(digit_run(s.skip(1)) == k);
            if k > 0 {
                lemma_digit_run_le(a.skip(1));
                assert(s.subrange(1, 1 + k as int) =~= a.subrange(1, 1 + k as int));
                assert(s.skip(1 + k as int) =~= a.skip(1 + k as int) + seq!['$'] + d);
                lemma_ph_seq_append_param(a.skip(1 + k as int), d);
                assert(ph_seq(s) =~= seq![num_val(a.subrange(1, 1 + k as int))] + ph_seq(
                    a.skip(1 + k as int),
                ).push(num_val(d)));
                assert(ph_seq(a) =~= seq![num_val(a.subrange(1, 1 + k as int))] + ph_seq(
                    a.skip(1 + k as int),
                ));
            } else {
                lemma_ph_seq_append_param(a.skip(1), d);
            }
        } else {
            lemma_ph_seq_append_param(a.skip(1), d);
        }
    }
}

/// Renders a number in decimal, exactly as `dec_of` describes.
pub fn u64_to_string(n: u64) -> (s: String)
    ensures
        s@ == dec_of(n as nat),
    decreases n,
{
    if n < 10 {
        String::from_str(digit_str(n))
    } else {
        let mut s = u64_to_string(n / 10);
        s.append(digit_str(n % 10));
        assert(s@ =~= dec_of(n as nat));
        s
    }
}

/// Characters allowed to start an identifier: letters and underscore.
pub open spec fn is_ident_start(c: char) -> bool {
    c == '_' || ('a' <= c && c <= 'z') || ('A' <= c && c <= 'Z')
}

pub open spec fn is_ident_char(c: char) -> bool {
    is_ident_start(c) || is_digit(c)
}

/// A safe SQL identifier: nonempty, starts with a letter or underscore, and
/// contains only letters, digits and underscores. Such a name can stand in
/// SQL text without carrying placeholders or quoting hazards.
pub open spec fn safe_ident(s: Seq<char>) -> bool {
    &&& s.len() >= 1
    &&& is_ident_start(s[0])
    &&& forall|i: int| 0 <= i < s.len() ==> is_ident_char(#[trigger] s[i])
}

pub proof fn lemma_safe_ident_clean(s: Seq<char>)
    requires
        safe_ident(s),
    ensures
        no_dollar(s),
        !is_digit(s[0]),
{
    assert forall|i: int| 0 <= i < s.len() implies #[trigger] s[i] != '$' by {
        assert(is_ident_char(s[i]));
    }
}

fn exec_is_digit(c: char) -> (r: bool)
    ensures
        r == is_digit(c),
{
    c == '0' || c == '1' || c == '2' || c == '3' || c == '4' || c == '5' || c == '6' || c == '7'
        || c == '8' || c == '9'
}

/// Checks that a table or column name is a safe identifier.
pub fn is_safe_ident(s: &str) -> (r: bool)
    ensures
        r == safe_ident(s@),
{
    let n = s.unicode_len();
    if n == 0 {
        return false;
    }
    let c0 = s.get_char(0);
    if !(c0 == '_' || (c0 >= 'a' && c0 <= 'z') || (c0 >= 'A' && c0 <= 'Z')) {
        return false;
    }
    let mut i: usize = 1;
    while i < n
        invariant
            1 <= i <= n,
            n == s@.len(),
            is_ident_start(s@[0]),
            forall|j: int| 0 <= j < i ==> is_ident_char(#[trigger] s@[j]),
        decreases n - i,
    {
        let c = s.get_char(i);
        if !(c == '_' || (c >= 'a' && c <= 'z') || (c >= 'A' && c <= 'Z') || exec_is_digit(c)) {
            return false;
        }
        i = i + 1;
    }
    true
}

/// Character-wise string equality, reflected to the views.
pub fn str_eq(a: &str, b: &str) -> (r: bool)
    ensures
        r == (a@ == b@),
{
    let na = a.unicode_len();
    let nb = b.unicode_len();
    if na != nb {
        return false;
    }
    let mut i: usize = 0;
    while i < na
        invariant
            0 <= i <= na,
            na == a@.len(),
            na == b@.len(),
            forall|j: int| 0 <= j < i ==> a@[j] == b@[j],
        decreases na - i,
    {
        if a.get_char(i) != b.get_char(i) {
            return false;
        }
        i = i + 1;
    }
    proof {
        assert(a@ =~= b@);
    }
    true
}

/// `p` is a prefix of `s`.
pub open spec fn has_prefix(s: Seq<char>, p: Seq<char>) -> bool {
    p.len() <= s.len() && s.subrange(0, p.len() as int) == p
}

pub fn str_starts_with(s: &str, p: &str) -> (r: bool)
    ensures
        r == has_prefix(s@, p@),
{
    let ns = s.unicode_len();
    let np = p.unicode_len();
    if np > ns {
        assert(!has_prefix(s@, p@));
        return false;
    }
    let mut i: usize = 0;
    while i < np
        invariant
            0 <= i <= np,
            np <= ns,
            ns == s@.len(),
            np == p@.len(),
            forall|j: int| 0 <= j < i ==> s@[j] == p@[j],
        decreases np - i,
    {
        if s.get_char(i) != p.get_char(i) {
            assert(s@.subrange(0, np as int)[i as int] != p@[i as int]);
            return false;
        }
        i = i + 1;
    }
    proof {
        assert(s@.subrange(0, np as int) =~= p@);
    }
    true
}

} // verus!

