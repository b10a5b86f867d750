//! Comparing text and cutting it at commas.
use vstd::prelude::*;
use vstd::string::{StrSliceExecFns, StringExecFns};

verus! {

/// Whether two texts hold the same characters.
pub fn same_text(a: &str, b: &str) -> (r: bool)
    ensures
        r == (a@ == b@),
{
    a.to_owned() == b.to_owned()
}

/// `a` followed by `b`.
pub fn joined(a: &str, b: &str) -> (r: String)
    ensures
        r@ == a@ + b@,
{
    a.to_owned().concat(b)
}

/// The first place at or after `at` where `s` holds a comma, or the end of `s`.
pub open spec fn comma_from(s: Seq<char>, at: int) -> int
    decreases s.len() - at,
{
    if at >= s.len() || s[at] == ',' {
        at
    } else {
        comma_from(s, at + 1)
    }
}

/// The parts between the commas of `s`, from the place `at` on.
pub open spec fn fields_from(s: Seq<char>, at: int) -> Seq<Seq<char>>
    decreases s.len() - at,
    via fields_from_decreases
{
    let c = comma_from(s, at);
    if c >= s.len() {
        seq![s.subrange(at, s.len() as int)]
    } else {
        seq![s.subrange(at, c)] + fields_from(s, c + 1)
    }
}

#[via_fn]
proof fn fields_from_decreases(s: Seq<char>, at: int) {
    lemma_comma_from(s, at);
}

/// A comma is found at or after the place where the search starts, and not beyond the end.
pub proof fn lemma_comma_from(s: Seq<char>, at: int)
    ensures
        at <= comma_from(s, at),
        at <= s.len() ==> comma_from(s, at) <= s.len(),
    decreases s.len() - at,
{
    if at < s.len() && s[at] != ',' {
        lemma_comma_from(s, at + 1);
    }
}

/// The parts of `text` between its commas.
pub fn split_commas(text: &str) -> (r: Vec<String>)
    ensures
        r@.len() == fields_from(text@, 0).len(),
        forall|i: int| 0 <= i < r@.len() ==> (#[trigger] r@[i])@ == fields_from(text@, 0)[i],
{
    let n: usize = text.unicode_len();
    let mut r: Vec<String> = Vec::new();
    let mut start: usize = 0;
    let mut i: usize = 0;
    proof {
        assert(fields_from(text@, 0) =~= Seq::<Seq<char>>::empty() + fields_from(text@, 0));
    }
    loop
        invariant_except_break
            n == text@.len(),
            start <= i <= n,
            comma_from(text@, start as int) == comma_from(text@, i as int),
            r@.len() + fields_from(text@, start as int).len() == fields_from(text@, 0).len(),
            forall|k: int|
                0 <= k < fields_from(text@, start as int).len() ==> fields_from(text@, 0)[r@.len()
                    + k] == #[trigger] fields_from(text@, start as int)[k],
            forall|k: int| 0 <= k < r@.len() ==> (#[trigger] r@[k])@ == fields_from(text@, 0)[k],
        ensures
            r@.len() == fields_from(text@, 0).len(),
            forall|k: int| 0 <= k < r@.len() ==> (#[trigger] r@[k])@ == fields_from(text@, 0)[k],
        decreases n - i, n - start,
    {
        if i == n {
            let ghost f = fields_from(text@, start as int);
            assert(f.len() == 1 && f[0] == text@.subrange(start as int, n as int));
            assert(fields_from(text@, 0)[r@.len() + 0int] == f[0]);
            r.push(text.substring_char(start, n).to_owned());
            break ;
        }
        if text.get_char(i) == ',' {
            let ghost f = fields_from(text@, start as int);
            let ghost rest = fields_from(text@, i + 1);
            assert(f[0] == text@.subrange(start as int, i as int));
            assert(fields_from(text@, 0)[r@.len() + 0int] == f[0]);
            assert forall|k: int| 0 <= k < rest.len() implies fields_from(text@, 0)[r@.len() + 1
                + k] == #[trigger] rest[k] by {
                assert(f[k + 1] == rest[k]);
                assert(fields_from(text@, 0)[r@.len() + (k + 1)] == f[k + 1]);
            }
            r.push(text.substring_char(start, i).to_owned());
            start = i + 1;
        }
        i = i + 1;
    }
    r
}

} // verus!
