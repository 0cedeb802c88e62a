//! The label allocator: the internal labels of one translation run.

use vstd::prelude::*;
use vstd::string::*;
use crate::text::{
    chars_of, decimal, decimal_string, is_digit, is_numeral, lemma_decimal_injective,
    lemma_decimal_value,
};

verus! {

/// The label of a comparison branch: `L` and the number.
pub open spec fn branch_label(n: nat) -> Seq<char> {
    "L"@ + decimal(n)
}

/// The label of a return site: `__RETURN__` before the branch label of the
/// same number.
pub open spec fn return_label(n: nat) -> Seq<char> {
    "__RETURN__"@ + branch_label(n)
}

/// Whether `s` is `prefix` followed by one decimal digit or more.
pub open spec fn is_numbered(prefix: Seq<char>, s: Seq<char>) -> bool {
    &&& s.len() > prefix.len()
    &&& s.take(prefix.len() as int) == prefix
    &&& is_numeral(s.skip(prefix.len() as int))
}

/// Whether `name` has the form of an internal label: `L` or
/// `__RETURN__L`, then one decimal digit or more. Names of this form are
/// kept for the translator: no `label` command may declare one.
pub open spec fn has_internal_form(name: Seq<char>) -> bool {
    is_numbered("L"@, name) || is_numbered("__RETURN__L"@, name)
}

fn numbered(prefix: &Vec<char>, chars: &Vec<char>) -> (b: bool)
    ensures
        b == is_numbered(prefix@, chars@),
{
    let p: usize = prefix.len();
    let n: usize = chars.len();
    if n <= p {
        return false;
    }
    let mut i: usize = 0;
    while i < p
        invariant
            p == prefix@.len(),
            n == chars@.len(),
            p < n,
            i <= p,
            forall|k: int| 0 <= k < i ==> chars@[k] == prefix@[k],
        decreases p - i,
    {
        if chars[i] != prefix[i] {
            assert(chars@.take(p as int)[i as int] != prefix@[i as int]);
            return false;
        }
        i += 1;
    }
    assert(chars@.take(p as int) =~= prefix@);
    let ghost digits = chars@.skip(p as int);
    while i < n
        invariant
            p == prefix@.len(),
            n == chars@.len(),
            p <= i <= n,
            p < n,
            digits == chars@.skip(p as int),
            chars@.take(p as int) == prefix@,
            forall|k: int| 0 <= k < i - p ==> is_digit(#[trigger] digits[k]),
        decreases n - i,
    {
        let c = chars[i];
        assert(digits[i - p] == c);
        if !(c >= '0' && c <= '9') {
            return false;
        }
        i += 1;
    }
    true
}

/// Whether `name` has the form of an internal label.
pub fn is_internal_label(name: &str) -> (b: bool)
    ensures
        b == has_internal_form(name@),
{
    let chars = chars_of(name);
    let branch = chars_of("L");
    let back = chars_of("__RETURN__L");
    numbered(&branch, &chars) || numbered(&back, &chars)
}

/// The source of the internal labels. Each label takes the next number of
/// one counter, so within a run no number is used twice.
#[derive(Debug)]
pub struct LabelAllocator {
    next: usize,
}

impl LabelAllocator {
    /// The number of labels issued so far, which is the number that the next
    /// label takes.
    pub closed spec fn issued(&self) -> nat {
        self.next as nat
    }

    /// An allocator that has issued no label.
    pub fn new() -> (labels: Self)
        ensures
            labels.issued() == 0,
    {
        LabelAllocator { next: 0 }
    }

    /// The number of labels issued so far.
    pub fn count(&self) -> (n: usize)
        ensures
            n == self.issued(),
    {
        self.next
    }

    /// A fresh label for a comparison branch.
    pub fn next_label(&mut self) -> (label: String)
        requires
            old(self).issued() < usize::MAX,
        ensures
            label@ == branch_label(old(self).issued()),
            final(self).issued() == old(self).issued() + 1,
    {
        let mut label = String::from_str("L");
        let digits = decimal_string(self.next);
        label.append(digits.as_str());
        self.next = self.next + 1;
        label
    }

    /// A fresh label for a return site.
    pub fn next_return_label(&mut self) -> (label: String)
        requires
            old(self).issued() < usize::MAX,
        ensures
            label@ == return_label(old(self).issued()),
            final(self).issued() == old(self).issued() + 1,
    {
        let mut label = String::from_str("__RETURN__");
        let inner = self.next_label();
        label.append(inner.as_str());
        label
    }
}

/// Labels of one kind with different numbers differ. Since every label
/// issued takes a number of its own, every call site has a return label
/// that no other call site has, and every comparison three branch labels
/// that no other comparison has.
pub proof fn law_labels_of_different_numbers_differ(a: nat, b: nat)
    requires
        a != b,
    ensures
        branch_label(a) != branch_label(b),
        return_label(a) != return_label(b),
{
    reveal_strlit("L");
    reveal_strlit("__RETURN__");
    if branch_label(a) == branch_label(b) {
        assert(decimal(a) =~= branch_label(a).skip(1));
        assert(decimal(b) =~= branch_label(b).skip(1));
        lemma_decimal_injective(a, b);
    }
    if return_label(a) == return_label(b) {
        assert(branch_label(a) =~= return_label(a).skip(10));
        assert(branch_label(b) =~= return_label(b).skip(10));
    }
}

/// No return label is a branch label: the two kinds never collide.
pub proof fn law_return_labels_are_no_branch_labels(a: nat, b: nat)
    ensures
        return_label(a) != branch_label(b),
{
    reveal_strlit("L");
    reveal_strlit("__RETURN__");
    assert(return_label(a)[0] == '_');
    assert(branch_label(b)[0] == 'L');
}

/// Every internal label has the form of the internal labels.
pub proof fn law_internal_labels_have_their_form(n: nat)
    ensures
        has_internal_form(branch_label(n)),
        has_internal_form(return_label(n)),
{
    reveal_strlit("L");
    reveal_strlit("__RETURN__");
    reveal_strlit("__RETURN__L");
    lemma_decimal_value(n);
    let digits = decimal(n);
    let branch = branch_label(n);
    let back = return_label(n);
    assert(branch.take(1) =~= "L"@);
    assert(branch.skip(1) =~= digits);
    assert("__RETURN__L"@ =~= "__RETURN__"@ + "L"@);
    assert(back.take(11) =~= "__RETURN__L"@);
    assert(back.skip(11) =~= digits);
}

/// No internal label collides with a label that a program may declare: a
/// name that has not the form of the internal labels differs from every
/// branch label and from every return label.
pub proof fn law_written_labels_are_no_internal_labels(name: Seq<char>, n: nat)
    requires
        !has_internal_form(name),
    ensures
        name != branch_label(n),
        name != return_label(n),
{
    law_internal_labels_have_their_form(n);
}

/// A name of the form of the internal labels has no `.`.
pub proof fn lemma_internal_form_has_no_dot(name: Seq<char>)
    requires
        has_internal_form(name),
    ensures
        forall|i: int| 0 <= i < name.len() ==> name[i] != '.',
{
    reveal_strlit("L");
    reveal_strlit("__RETURN__L");
    let head = "__RETURN__L"@;
    assert(head[0] == '_' && head[1] == '_' && head[2] == 'R' && head[3] == 'E' && head[4] == 'T'
        && head[5] == 'U' && head[6] == 'R' && head[7] == 'N' && head[8] == '_' && head[9] == '_'
        && head[10] == 'L');
    assert forall|i: int| 0 <= i < name.len() implies name[i] != '.' by {
        if is_numbered("L"@, name) {
            if i < 1 {
                assert(name.take(1)[i] == name[i]);
            } else {
                assert(name.skip(1)[i - 1] == name[i]);
                assert(is_digit(name.skip(1)[i - 1]));
            }
        } else {
            if i < 11 {
                assert(name.take(11)[i] == name[i]);
            } else {
                assert(name.skip(11)[i - 11] == name[i]);
                assert(is_digit(name.skip(11)[i - 11]));
            }
        }
    }
}

} // verus!
