//! Compiled statements: SQL text plus its ordered parameter list, built so
//! that positional placeholders are 1-based and strictly sequential in
//! parameter-emission order.

use vstd::prelude::*;

use crate::scalar::Scalar;
use crate::text::{
    dec_of, is_digit, lemma_dec_of_digits, lemma_ph_seq_append_clean, lemma_ph_seq_append_param,
    no_dollar, ph_seq, u64_to_string,
};

verus! {

/// The placeholder numbers `1..=n`, in order.
pub open spec fn seq_one_to(n: nat) -> Seq<int> {
    Seq::new(n, |i: int| i + 1)
}

/// A compiled SQL statement, ready for safe execution: the text and the
/// ordered parameter list, where parameter `i` binds to placeholder `$i+1`.
#[derive(Debug)]
pub struct CompiledQuery {
    pub sql: String,
    pub params: Vec<Scalar>,
}

impl CompiledQuery {
    /// Placeholder soundness: scanning the SQL text finds exactly the
    /// placeholders `$1..$n`, in order, for the `n` parameters.
    pub open spec fn placeholders_ok(&self) -> bool {
        ph_seq(self.sql@) == seq_one_to(self.params@.len())
    }
}

/// Accumulates SQL text and parameters while keeping the placeholder scan of
/// the text equal to `$1..$n` for the `n` parameters collected so far.
pub struct SqlBuilder {
    pub text: String,
    pub params: Vec<Scalar>,
}

impl SqlBuilder {
    pub open spec fn wf(&self) -> bool {
        ph_seq(self.text@) == seq_one_to(self.params@.len())
    }

    pub fn new() -> (r: SqlBuilder)
        ensures
            r.wf(),
            r.text@ == Seq::<char>::empty(),
            r.params@ == Seq::<Scalar>::empty(),
    {
        let r = SqlBuilder { text: String::new(), params: Vec::new() };
        proof {
            assert(ph_seq(r.text@) =~= seq_one_to(r.params@.len()));
        }
        r
    }

    /// Appends literal SQL text. The fragment must carry no `$` and must not
    /// start with a digit, so that it cannot create or extend a placeholder.
    pub fn push_sql(&mut self, frag: &str)
        requires
            old(self).wf(),
            no_dollar(frag@),
            frag@.len() > 0 ==> !is_digit(frag@[0]),
        ensures
            final(self).wf(),
            final(self).text@ == old(self).text@ + frag@,
            final(self).params == old(self).params,
    {
        proof {
            lemma_ph_seq_append_clean(self.text@, frag@);
        }
        self.text.append(frag);
    }

    /// Appends one parameter and its placeholder `$n`, where `n` is the new
    /// parameter count.
    pub fn push_param(&mut self, p: Scalar)
        requires
            old(self).wf(),
        ensures
            final(self).wf(),
            final(self).params@ == old(self).params@.push(p),
            final(self).text@ == old(self).text@ + seq!['$'] + dec_of(
                (old(self).params@.len() + 1) as nat,
            ),
    {
        self.params.push(p);
        let n = self.params.len();
        let num = u64_to_string(n as u64);
        proof {
            reveal_strlit("$");
            assert("$"@ =~= seq!['$']);
            lemma_dec_of_digits(n as nat);
            lemma_ph_seq_append_param(self.text@, num@);
        }
        let ghost before: Seq<char> = self.text@;
        self.text.append("$");
        self.text.append(num.as_str());
        proof {
            assert(self.text@ =~= before + seq!['$'] + num@);
            assert(ph_seq(self.text@) =~= ph_seq(before).push(n as int));
            assert(seq_one_to((n - 1) as nat).push(n as int) =~= seq_one_to(n as nat));
        }
    }

    /// Finishes the build; the compiled statement's placeholder scan is
    /// exactly `$1..$n`.
    pub fn finish(self) -> (q: CompiledQuery)
        requires
            self.wf(),
        ensures
            q.sql == self.text,
            q.params == self.params,
            q.placeholders_ok(),
    {
        CompiledQuery { sql: self.text, params: self.params }
    }
}

} // verus!
