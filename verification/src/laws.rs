//! Laws relating the ledger's operations.

use vstd::prelude::*;

verus! {

use crate::ERC20;

/// Query results are functions of the ledger state alone: any two results
/// of `balance_of` on the same ledger and account, with no mutation in
/// between, are equal.
pub proof fn lemma_balance_query_repeatable(l: ERC20, account: Seq<char>, r1: u64, r2: u64)
    requires
        r1 == l.spec_balance_of(account),
        r2 == l.spec_balance_of(account),
    ensures
        r1 == r2,
{
}

/// Query results are functions of the ledger state alone: any two results
/// of `allowance` on the same ledger and (owner, spender) pair, with no
/// mutation in between, are equal.
pub proof fn lemma_allowance_query_repeatable(
    l: ERC20,
    owner: Seq<char>,
    spender: Seq<char>,
    r1: u64,
    r2: u64,
)
    requires
        r1 == l.spec_allowance(owner, spender),
        r2 == l.spec_allowance(owner, spender),
    ensures
        r1 == r2,
{
}

/// A successful transfer can always be undone: after moving `n` from `a`
/// to `b`, moving `n` from `b` back to `a` is allowed.
pub proof fn lemma_transfer_reversible(l0: ERC20, l1: ERC20, a: Seq<char>, b: Seq<char>, n: u64)
    requires
        l0.transfer_allowed(a, b, n),
        ERC20::transfer_effect(l0, l1, a, b, n),
    ensures
        l1.transfer_allowed(b, a, n),
{
}

/// Conservation: transferring `n` from `a` to `b` and then `n` from `b`
/// back to `a` restores every balance, every allowance, and the total
/// supply to their original values.
pub proof fn lemma_transfer_round_trip(
    l0: ERC20,
    l1: ERC20,
    l2: ERC20,
    a: Seq<char>,
    b: Seq<char>,
    n: u64,
)
    requires
        l0.transfer_allowed(a, b, n),
        ERC20::transfer_effect(l0, l1, a, b, n),
        ERC20::transfer_effect(l1, l2, b, a, n),
    ensures
        forall|x: Seq<char>| #[trigger] l2.spec_balance_of(x) == l0.spec_balance_of(x),
        forall|o: Seq<char>, p: Seq<char>| #[trigger]
            l2.spec_allowance(o, p) == l0.spec_allowance(o, p),
        l2.spec_total_supply() == l0.spec_total_supply(),
{
    assert forall|x: Seq<char>| #[trigger] l2.spec_balance_of(x) == l0.spec_balance_of(x) by {
        if x == a {
            assert(l1.spec_balance_of(a) == l0.spec_balance_of(a) - n);
            assert(l2.spec_balance_of(a) == l1.spec_balance_of(a) + n);
        } else if x == b {
            assert(l1.spec_balance_of(b) == l0.spec_balance_of(b) + n);
            assert(l2.spec_balance_of(b) == l1.spec_balance_of(b) - n);
        } else {
            assert(l1.spec_balance_of(x) == l0.spec_balance_of(x));
            assert(l2.spec_balance_of(x) == l1.spec_balance_of(x));
        }
    }
}

} // verus!
