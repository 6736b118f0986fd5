//! Correlation identifiers and the counter that issues them.

use vstd::prelude::*;

verus! {

/// The value embedded in a request and echoed in its response.
#[derive(Debug)]
pub enum Id {
    /// A value of the connection's counter.
    Number(u64),
    /// An opaque string chosen by the caller.
    String(String),
}

/// What an [`Id`] stands for in contracts.
pub enum IdView {
    Number(u64),
    String(Seq<char>),
}

impl View for Id {
    type V = IdView;

    open spec fn view(&self) -> IdView {
        match self {
            Id::Number(n) => IdView::Number(*n),
            Id::String(s) => IdView::String(s@),
        }
    }
}

impl Clone for Id {
    fn clone(&self) -> (copy: Self)
        ensures
            copy == *self,
    {
        match self {
            Id::Number(n) => Id::Number(*n),
            Id::String(s) => Id::String(s.clone()),
        }
    }
}

impl PartialEq for Id {
    fn eq(&self, other: &Id) -> (same: bool) {
        match (self, other) {
            (Id::Number(a), Id::Number(b)) => *a == *b,
            (Id::String(a), Id::String(b)) => *a == *b,
            _ => false,
        }
    }
}

impl vstd::std_specs::cmp::PartialEqSpecImpl for Id {
    open spec fn obeys_eq_spec() -> bool {
        true
    }

    open spec fn eq_spec(&self, other: &Id) -> bool {
        self@ == other@
    }
}

impl Id {
    /// Whether two identifiers denote the same request.
    pub fn matches(&self, other: &Id) -> (same: bool)
        ensures
            same == (self@ == other@),
    {
        *self == *other
    }
}

/// What a sequence of identifiers stands for in contracts.
pub open spec fn views(ids: Seq<Id>) -> Seq<IdView> {
    ids.map_values(|id: Id| id@)
}

/// The counter value that follows `n`: one more, and zero after the largest.
pub open spec fn successor(n: u64) -> u64 {
    if n == u64::MAX {
        0
    } else {
        (n + 1) as u64
    }
}

/// The `k`-th value that a counter standing at `start` hands out, counting from zero.
pub open spec fn issued(start: u64, k: nat) -> u64
    decreases k,
{
    if k == 0 {
        start
    } else {
        successor(issued(start, (k - 1) as nat))
    }
}

/// The `k`-th issued value is `start + k`, reduced modulo two to the 64th.
pub proof fn lemma_issued_closed_form(start: u64, k: nat)
    ensures
        issued(start, k) as int == (start + k) % 0x1_0000_0000_0000_0000,
    decreases k,
{
    if k > 0 {
        lemma_issued_closed_form(start, (k - 1) as nat);
        let prev: int = (start + k - 1) % 0x1_0000_0000_0000_0000;
        assert((start + k) % 0x1_0000_0000_0000_0000 == (if prev == 0xffff_ffff_ffff_ffff {
            0
        } else {
            prev + 1
        })) by {
            vstd::arithmetic::div_mod::lemma_fundamental_div_mod(
                start + k - 1,
                0x1_0000_0000_0000_0000,
            );
            vstd::arithmetic::div_mod::lemma_fundamental_div_mod(
                start + k,
                0x1_0000_0000_0000_0000,
            );
            let q0: int = (start + k - 1) / 0x1_0000_0000_0000_0000;
            let q1: int = (start + k) / 0x1_0000_0000_0000_0000;
            let r1: int = (start + k) % 0x1_0000_0000_0000_0000;
            assert(0x1_0000_0000_0000_0000 * q0 + prev + 1 == 0x1_0000_0000_0000_0000 * q1 + r1);
            assert(q1 == q0 || q1 == q0 + 1) by (nonlinear_arith)
                requires
                    0x1_0000_0000_0000_0000 * q0 + prev + 1 == 0x1_0000_0000_0000_0000 * q1 + r1,
                    0 <= prev < 0x1_0000_0000_0000_0000,
                    0 <= r1 < 0x1_0000_0000_0000_0000,
            ;
        }
    } else {
        vstd::arithmetic::div_mod::lemma_small_mod(start as nat, 0x1_0000_0000_0000_0000);
    }
}

/// Identifiers that one counter issues are pairwise distinct, as long as fewer
/// than two to the 64th of them lie between the two.
pub proof fn lemma_issued_distinct(start: u64, i: nat, j: nat)
    requires
        i != j,
        i - j < 0x1_0000_0000_0000_0000,
        j - i < 0x1_0000_0000_0000_0000,
    ensures
        issued(start, i) != issued(start, j),
        Id::Number(issued(start, i))@ != Id::Number(issued(start, j))@,
{
    lemma_issued_closed_form(start, i);
    lemma_issued_closed_form(start, j);
    if issued(start, i) == issued(start, j) {
        vstd::arithmetic::div_mod::lemma_fundamental_div_mod(start + i, 0x1_0000_0000_0000_0000);
        vstd::arithmetic::div_mod::lemma_fundamental_div_mod(start + j, 0x1_0000_0000_0000_0000);
        let qi: int = (start + i) / 0x1_0000_0000_0000_0000;
        let qj: int = (start + j) / 0x1_0000_0000_0000_0000;
        assert(i - j == 0x1_0000_0000_0000_0000 * (qi - qj)) by (nonlinear_arith)
            requires
                start + i == 0x1_0000_0000_0000_0000 * qi + (start + i) % 0x1_0000_0000_0000_0000,
                start + j == 0x1_0000_0000_0000_0000 * qj + (start + j) % 0x1_0000_0000_0000_0000,
                (start + i) % 0x1_0000_0000_0000_0000 == (start + j) % 0x1_0000_0000_0000_0000,
        ;
        assert(false) by (nonlinear_arith)
            requires
                i - j == 0x1_0000_0000_0000_0000 * (qi - qj),
                i != j,
                i - j < 0x1_0000_0000_0000_0000,
                j - i < 0x1_0000_0000_0000_0000,
        ;
    }
}

} // verus!
