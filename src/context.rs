//! The code generation context: the code buffer and the minting of unique
//! storage names.
use vstd::prelude::*;
use crate::text::{decimal, decimal_string, is_digit, lemma_decimal_digits, lemma_decimal_injective};

verus! {

/// The storage name minted from `prefix` when the counter stands at `n`.
pub open spec fn unique_name(prefix: Seq<char>, n: nat) -> Seq<char> {
    prefix + "_"@ + decimal(n)
}

/// `new` begins with `old`: code is only ever appended.
pub open spec fn extends(new: Seq<char>, old: Seq<char>) -> bool {
    old.len() <= new.len() && new.subrange(0, old.len() as int) == old
}

/// Every sequence begins with itself.
pub proof fn lemma_extends_refl(a: Seq<char>)
    ensures
        extends(a, a),
{
    assert(a.subrange(0, a.len() as int) =~= a);
}

/// Appending keeps what was there.
pub proof fn lemma_extends_append(a: Seq<char>, s: Seq<char>)
    ensures
        extends(a + s, a),
{
    assert((a + s).subrange(0, a.len() as int) =~= a);
}

/// Beginning-with is transitive.
pub proof fn lemma_extends_trans(a: Seq<char>, b: Seq<char>, c: Seq<char>)
    requires
        extends(b, a),
        extends(c, b),
    ensures
        extends(c, a),
{
    assert(c.subrange(0, a.len() as int) =~= b.subrange(0, a.len() as int));
}

/// State threaded through one compilation.
pub struct GenContext {
    pub unique_name_number: usize,
    pub buffer: String,
}

impl GenContext {
    /// A fresh context: an empty buffer and a counter at zero.
    pub fn new() -> (r: GenContext)
        ensures
            r.unique_name_number == 0,
            r.buffer@ == Seq::<char>::empty(),
    {
        GenContext { unique_name_number: 0, buffer: String::new() }
    }

    /// Appends `s` to the code buffer.
    pub fn emit(&mut self, s: &str)
        ensures
            final(self).buffer@ == old(self).buffer@ + s@,
            final(self).unique_name_number == old(self).unique_name_number,
    {
        self.buffer.append(s);
    }

    /// Returns `prefix` followed by `_` and the counter, and advances the counter.
    pub fn get_unique(&mut self, prefix: &str) -> (r: String)
        requires
            old(self).unique_name_number < usize::MAX,
        ensures
            r@ == unique_name(prefix@, old(self).unique_name_number as nat),
            final(self).unique_name_number == old(self).unique_name_number + 1,
            final(self).buffer@ == old(self).buffer@,
    {
        let mut out = String::from_str(prefix);
        out.append("_");
        let digits = decimal_string(self.unique_name_number);
        out.append(digits.as_str());
        self.unique_name_number = self.unique_name_number + 1;
        out
    }
}

/// Names minted at different counter values differ, whatever their prefixes.
pub proof fn lemma_unique_name_injective(p: Seq<char>, q: Seq<char>, n: nat, m: nat)
    requires
        unique_name(p, n) == unique_name(q, m),
    ensures
        n == m,
{
    let s = unique_name(p, n);
    let dn = decimal(n);
    let dm = decimal(m);
    reveal_strlit("_");
    lemma_decimal_digits(n);
    lemma_decimal_digits(m);
    assert(s.len() == p.len() + 1 + dn.len());
    assert(s.len() == q.len() + 1 + dm.len());
    if dn.len() < dm.len() {
        let j = p.len() as int;
        assert(s[j] == '_');
        assert(s[j] == dm[j - q.len() - 1]);
        assert(is_digit(dm[j - q.len() - 1]));
    } else if dm.len() < dn.len() {
        let j = q.len() as int;
        assert(s[j] == '_');
        assert(s[j] == dn[j - p.len() - 1]);
        assert(is_digit(dn[j - p.len() - 1]));
    } else {
        assert(dn =~= s.subrange(s.len() - dn.len(), s.len() as int));
        assert(dm =~= s.subrange(s.len() - dm.len(), s.len() as int));
        lemma_decimal_injective(n, m);
    }
}

/// Minting one name per prefix of `prefixes`, from counter value `start` on,
/// gives as many distinct names as there are calls.
pub proof fn lemma_unique_names_distinct(prefixes: Seq<Seq<char>>, start: nat)
    ensures
        forall|a: int, b: int|
            #![trigger prefixes[a], prefixes[b]]
            0 <= a < b < prefixes.len() ==> unique_name(prefixes[a], start + a as nat)
                != unique_name(prefixes[b], start + b as nat),
{
    assert forall|a: int, b: int|
        #![trigger prefixes[a], prefixes[b]]
        0 <= a < b < prefixes.len() implies unique_name(prefixes[a], start + a as nat)
            != unique_name(prefixes[b], start + b as nat) by {
        if unique_name(prefixes[a], start + a as nat) == unique_name(prefixes[b], start + b as nat) {
            lemma_unique_name_injective(prefixes[a], prefixes[b], start + a as nat, start + b as nat);
        }
    }
}

} // verus!
