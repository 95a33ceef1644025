//! A fungible-token ledger.
//!
//! An [`ERC20`] value tracks ownership of a divisible, fungible asset across
//! named accounts: a balance per account, a spending allowance per
//! (owner, spender) pair, and a total supply bounded by a fixed ceiling.
//! Every mutating operation either applies completely and returns `true`, or
//! rejects without any state change and returns `false`.  The ledger
//! maintains, as a type invariant, that the total supply equals the sum of
//! all recorded balances.

use vstd::prelude::*;

mod table;

pub mod laws;

verus! {

/// A fungible-token ledger: balances and allowances for one token.
pub struct ERC20 {
    name: String,
    symbol: String,
    total_supply: u64,
    max_supply: u64,
    balances: Vec<(String, u64)>,
    allowances: Vec<((String, String), u64)>,
}

impl ERC20 {
    /// The balance table as a sequence of (account, amount) entries.
    spec fn bal_model(s: Seq<(String, u64)>) -> Seq<(Seq<char>, u64)> {
        s.map_values(|p: (String, u64)| (p.0@, p.1))
    }

    /// The allowance table as a sequence of ((owner, spender), amount) entries.
    spec fn allow_model(s: Seq<((String, String), u64)>) -> Seq<((Seq<char>, Seq<char>), u64)> {
        s.map_values(|p: ((String, String), u64)| ((p.0.0@, p.0.1@), p.1))
    }

    /// The ledger's internal consistency: balance and allowance keys are
    /// pairwise distinct, no account holds an allowance over itself, and the
    /// recorded total supply equals the sum of all balances.
    #[verifier::type_invariant]
    spec fn wf(self) -> bool {
        &&& table::distinct_keys(Self::bal_model(self.balances@))
        &&& table::distinct_keys(Self::allow_model(self.allowances@))
        &&& table::amount_sum(Self::bal_model(self.balances@)) == self.total_supply as int
        &&& forall|i: int|
            0 <= i < self.allowances@.len() ==> (#[trigger] self.allowances@[i]).0.0@
                != self.allowances@[i].0.1@
    }

    /// The token's display name.
    pub closed spec fn spec_name(self) -> Seq<char> {
        self.name@
    }

    /// The token's short display symbol.
    pub closed spec fn spec_symbol(self) -> Seq<char> {
        self.symbol@
    }

    /// The current total supply.
    pub closed spec fn spec_total_supply(self) -> u64 {
        self.total_supply
    }

    /// The immutable supply ceiling.
    pub closed spec fn spec_max_supply(self) -> u64 {
        self.max_supply
    }

    /// The balance of `account`; an account never referenced holds zero.
    pub closed spec fn spec_balance_of(self, account: Seq<char>) -> u64 {
        table::lookup(Self::bal_model(self.balances@), account)
    }

    /// The allowance `spender` holds over `owner`'s funds; zero when none
    /// was ever set.
    pub closed spec fn spec_allowance(self, owner: Seq<char>, spender: Seq<char>) -> u64 {
        table::lookup(Self::allow_model(self.allowances@), (owner, spender))
    }

    /// The sum of the balances of all accounts the ledger has recorded.
    pub closed spec fn spec_sum_of_balances(self) -> int {
        table::amount_sum(Self::bal_model(self.balances@))
    }

    /// The total supply is within the supply ceiling.
    pub open spec fn spec_capped(self) -> bool {
        self.spec_total_supply() <= self.spec_max_supply()
    }

    /// When `transfer` accepts: the source and destination differ, the
    /// amount is nonzero, and the source balance covers the amount.
    pub open spec fn transfer_allowed(self, from: Seq<char>, to: Seq<char>, amount: u64) -> bool {
        &&& from != to
        &&& amount != 0
        &&& self.spec_balance_of(from) >= amount
    }

    /// What a successful `transfer` does: it moves `amount` from `from` to
    /// `to` and changes nothing else.
    pub open spec fn transfer_effect(
        pre: ERC20,
        post: ERC20,
        from: Seq<char>,
        to: Seq<char>,
        amount: u64,
    ) -> bool {
        &&& post.spec_balance_of(from) == pre.spec_balance_of(from) - amount
        &&& post.spec_balance_of(to) == pre.spec_balance_of(to) + amount
        &&& forall|a: Seq<char>|
            a != from && a != to ==> #[trigger] post.spec_balance_of(a) == pre.spec_balance_of(a)
        &&& forall|o: Seq<char>, p: Seq<char>|
            #[trigger] post.spec_allowance(o, p) == pre.spec_allowance(o, p)
        &&& post.spec_total_supply() == pre.spec_total_supply()
        &&& post.spec_max_supply() == pre.spec_max_supply()
        &&& post.spec_name() == pre.spec_name()
        &&& post.spec_symbol() == pre.spec_symbol()
    }

    /// What a successful `approve` does: it sets the allowance `spender`
    /// holds over `owner` to exactly `amount` and changes nothing else.
    pub open spec fn approve_effect(
        pre: ERC20,
        post: ERC20,
        owner: Seq<char>,
        spender: Seq<char>,
        amount: u64,
    ) -> bool {
        &&& post.spec_allowance(owner, spender) == amount
        &&& forall|o: Seq<char>, p: Seq<char>|
            !(o == owner && p == spender) ==> #[trigger] post.spec_allowance(o, p)
                == pre.spec_allowance(o, p)
        &&& forall|a: Seq<char>| #[trigger] post.spec_balance_of(a) == pre.spec_balance_of(a)
        &&& post.spec_total_supply() == pre.spec_total_supply()
        &&& post.spec_max_supply() == pre.spec_max_supply()
        &&& post.spec_name() == pre.spec_name()
        &&& post.spec_symbol() == pre.spec_symbol()
    }

    /// Moves the ledger's state out, leaving an empty ledger behind.
    fn take_state(&mut self) -> (r: ERC20)
        ensures
            r == *old(self),
    {
        let empty_balances: Vec<(String, u64)> = Vec::new();
        let empty_allowances: Vec<((String, String), u64)> = Vec::new();
        proof {
            assert(Self::bal_model(empty_balances@) =~= Seq::<(Seq<char>, u64)>::empty());
            assert(Self::allow_model(empty_allowances@) =~= Seq::<
                ((Seq<char>, Seq<char>), u64),
            >::empty());
        }
        let mut tmp = ERC20 {
            name: String::new(),
            symbol: String::new(),
            total_supply: 0,
            max_supply: 0,
            balances: empty_balances,
            allowances: empty_allowances,
        };
        std::mem::swap(&mut tmp, self);
        tmp
    }

    /// Creates a ledger for a token with the given display name and symbol.
    /// The whole initial supply is credited to the distinguished account
    /// `"owner"`; no allowances are set.
    pub fn new(name: &str, symbol: &str, initial_supply: u64, max_supply: u64) -> (r: ERC20)
        ensures
            r.spec_name() == name@,
            r.spec_symbol() == symbol@,
            r.spec_total_supply() == initial_supply,
            r.spec_max_supply() == max_supply,
            r.spec_balance_of("owner"@) == initial_supply,
            forall|a: Seq<char>| a != "owner"@ ==> r.spec_balance_of(a) == 0,
            forall|o: Seq<char>, p: Seq<char>| r.spec_allowance(o, p) == 0,
            r.spec_sum_of_balances() == r.spec_total_supply() as int,
            r.spec_capped() <==> initial_supply <= max_supply,
    {
        let mut balances: Vec<(String, u64)> = Vec::new();
        balances.push(("owner".to_owned(), initial_supply));
        let allowances: Vec<((String, String), u64)> = Vec::new();
        proof {
            let m = Self::bal_model(balances@);
            assert(m =~= Seq::<(Seq<char>, u64)>::empty().push(("owner"@, initial_supply)));
            table::lemma_sum_push(Seq::<(Seq<char>, u64)>::empty(), ("owner"@, initial_supply));
            assert forall|a: Seq<char>| a != "owner"@ implies table::lookup(m, a) == 0 by {
                table::lemma_lookup_push(
                    Seq::<(Seq<char>, u64)>::empty(),
                    ("owner"@, initial_supply),
                    a,
                );
            }
            table::lemma_lookup_push(
                Seq::<(Seq<char>, u64)>::empty(),
                ("owner"@, initial_supply),
                "owner"@,
            );
            assert(Self::allow_model(allowances@) =~= Seq::<((Seq<char>, Seq<char>), u64)>::empty());
        }
        ERC20 {
            name: name.to_owned(),
            symbol: symbol.to_owned(),
            total_supply: initial_supply,
            max_supply,
            balances,
            allowances,
        }
    }

    /// The token's display name.
    pub fn name(&self) -> (r: String)
        ensures
            r@ == self.spec_name(),
    {
        self.name.clone()
    }

    /// The token's short display symbol.
    pub fn symbol(&self) -> (r: String)
        ensures
            r@ == self.spec_symbol(),
    {
        self.symbol.clone()
    }

    /// The current total supply.
    pub fn total_supply(&self) -> (r: u64)
        ensures
            r == self.spec_total_supply(),
    {
        self.total_supply
    }

    /// The immutable supply ceiling.
    pub fn max_supply(&self) -> (r: u64)
        ensures
            r == self.spec_max_supply(),
    {
        self.max_supply
    }

    /// Finds the index of the entry holding the balance of `key`, if any.
    fn find_balance(v: &Vec<(String, u64)>, key: &String) -> (r: Option<usize>)
        ensures
            match r {
                Some(i) => i < v@.len() && v@[i as int].0@ == key@,
                None => forall|j: int| 0 <= j < v@.len() ==> (#[trigger] v@[j]).0@ != key@,
            },
    {
        let mut i: usize = 0;
        while i < v.len()
            invariant
                i <= v@.len(),
                forall|j: int| 0 <= j < i ==> (#[trigger] v@[j]).0@ != key@,
            decreases v@.len() - i,
        {
            if v[i].0 == *key {
                return Some(i);
            }
            i = i + 1;
        }
        None
    }

    /// Moves `amount` units from `from` to `to`.  Rejects, leaving the
    /// ledger unchanged, when the two accounts coincide, the amount is
    /// zero, or the source balance does not cover the amount.
    pub fn transfer(&mut self, from: &str, to: &str, amount: u64) -> (r: bool)
        ensures
            r == old(self).transfer_allowed(from@, to@, amount),
            r ==> Self::transfer_effect(*old(self), *final(self), from@, to@, amount),
            !r ==> *final(self) == *old(self),
            final(self).spec_sum_of_balances() == final(self).spec_total_supply() as int,
            old(self).spec_capped() ==> final(self).spec_capped(),
    {
        proof {
            use_type_invariant(&*self);
        }
        if amount == 0 {
            return false;
        }
        let from_key = from.to_owned();
        let to_key = to.to_owned();
        if from_key == to_key {
            return false;
        }
        let ghost m0 = Self::bal_model(self.balances@);
        let from_idx = match Self::find_balance(&self.balances, &from_key) {
            None => {
                proof {
                    assert forall|j: int| 0 <= j < m0.len() implies (#[trigger] m0[j]).0
                        != from@ by {
                        assert(m0[j] == (self.balances@[j].0@, self.balances@[j].1));
                    }
                    table::lemma_lookup_absent(m0, from@);
                }
                return false;
            },
            Some(i) => i,
        };
        let from_bal = self.balances[from_idx].1;
        proof {
            assert(m0[from_idx as int] == (self.balances@[from_idx as int].0@, from_bal));
            table::lemma_lookup_at(m0, from_idx as int);
        }
        if from_bal < amount {
            return false;
        }
        let work = self.take_state();
        let ERC20 { name, symbol, total_supply, max_supply, balances: mut bals, allowances } =
            work;
        bals[from_idx] = (from_key, from_bal - amount);
        let ghost m1 = Self::bal_model(bals@);
        proof {
            assert(m1 =~= m0.update(from_idx as int, (from@, (from_bal - amount) as u64)));
            table::lemma_distinct_update(m0, from_idx as int, (from_bal - amount) as u64);
            table::lemma_sum_update(
                m0,
                from_idx as int,
                (from@, (from_bal - amount) as u64),
            );
        }
        match Self::find_balance(&bals, &to_key) {
            Some(to_idx) => {
                let to_bal = bals[to_idx].1;
                proof {
                    assert(m1[to_idx as int] == (bals@[to_idx as int].0@, to_bal));
                    table::lemma_lookup_at(m1, to_idx as int);
                    table::lemma_entry_le_sum(m1, to_idx as int);
                    table::lemma_lookup_update(m0, from_idx as int, (from_bal - amount) as u64, to@);
                }
                bals[to_idx] = (to_key, to_bal + amount);
                proof {
                    let m2 = Self::bal_model(bals@);
                    assert(m2 =~= m1.update(to_idx as int, (to@, (to_bal + amount) as u64)));
                    table::lemma_distinct_update(m1, to_idx as int, (to_bal + amount) as u64);
                    table::lemma_sum_update(
                        m1,
                        to_idx as int,
                        (to@, (to_bal + amount) as u64),
                    );
                    assert forall|a: Seq<char>| #[trigger]
                        table::lookup(m2, a) == if a == to@ {
                            (to_bal + amount) as u64
                        } else if a == from@ {
                            (from_bal - amount) as u64
                        } else {
                            table::lookup(m0, a)
                        } by {
                        table::lemma_lookup_update(m1, to_idx as int, (to_bal + amount) as u64, a);
                        table::lemma_lookup_update(
                            m0,
                            from_idx as int,
                            (from_bal - amount) as u64,
                            a,
                        );
                    }
                }
            },
            None => {
                proof {
                    assert forall|j: int| 0 <= j < m1.len() implies (#[trigger] m1[j]).0
                        != to@ by {
                        assert(m1[j] == (bals@[j].0@, bals@[j].1));
                    }
                    table::lemma_lookup_absent(m1, to@);
                    table::lemma_lookup_update(m0, from_idx as int, (from_bal - amount) as u64, to@);
                }
                bals.push((to_key, amount));
                proof {
                    let m2 = Self::bal_model(bals@);
                    assert(m2 =~= m1.push((to@, amount)));
                    table::lemma_distinct_push(m1, (to@, amount));
                    table::lemma_sum_push(m1, (to@, amount));
                    assert forall|a: Seq<char>| #[trigger]
                        table::lookup(m2, a) == if a == to@ {
                            amount
                        } else if a == from@ {
                            (from_bal - amount) as u64
                        } else {
                            table::lookup(m0, a)
                        } by {
                        table::lemma_lookup_push(m1, (to@, amount), a);
                        table::lemma_lookup_update(
                            m0,
                            from_idx as int,
                            (from_bal - amount) as u64,
                            a,
                        );
                    }
                }
            },
        }
        *self = ERC20 { name, symbol, total_supply, max_supply, balances: bals, allowances };
        proof {
            use_type_invariant(&*self);
        }
        true
    }

    /// Finds the index of the allowance entry for (owner, spender), if any.
    fn find_allowance(
        v: &Vec<((String, String), u64)>,
        owner: &String,
        spender: &String,
    ) -> (r: Option<usize>)
        ensures
            match r {
                Some(i) => i < v@.len() && v@[i as int].0.0@ == owner@ && v@[i as int].0.1@
                    == spender@,
                None => forall|j: int|
                    0 <= j < v@.len() ==> !((#[trigger] v@[j]).0.0@ == owner@ && v@[j].0.1@
                        == spender@),
            },
    {
        let mut i: usize = 0;
        while i < v.len()
            invariant
                i <= v@.len(),
                forall|j: int|
                    0 <= j < i ==> !((#[trigger] v@[j]).0.0@ == owner@ && v@[j].0.1@ == spender@),
            decreases v@.len() - i,
        {
            if v[i].0.0 == *owner && v[i].0.1 == *spender {
                return Some(i);
            }
            i = i + 1;
        }
        None
    }

    /// Sets `spender`'s allowance over `owner`'s funds to exactly `amount`,
    /// replacing any prior value.  Rejects, leaving the ledger unchanged,
    /// when owner and spender coincide.
    pub fn approve(&mut self, owner: &str, spender: &str, amount: u64) -> (r: bool)
        ensures
            r == (owner@ != spender@),
            r ==> Self::approve_effect(*old(self), *final(self), owner@, spender@, amount),
            !r ==> *final(self) == *old(self),
            final(self).spec_sum_of_balances() == final(self).spec_total_supply() as int,
            old(self).spec_capped() ==> final(self).spec_capped(),
    {
        proof {
            use_type_invariant(&*self);
        }
        let owner_key = owner.to_owned();
        let spender_key = spender.to_owned();
        if owner_key == spender_key {
            return false;
        }
        let ghost a0 = Self::allow_model(self.allowances@);
        let idx_opt = Self::find_allowance(&self.allowances, &owner_key, &spender_key);
        let work = self.take_state();
        let ERC20 { name, symbol, total_supply, max_supply, balances, allowances: mut allows } =
            work;
        match idx_opt {
            Some(i) => {
                proof {
                    assert(a0[i as int] == ((allows@[i as int].0.0@, allows@[i as int].0.1@),
                    allows@[i as int].1));
                }
                allows[i] = ((owner_key, spender_key), amount);
                proof {
                    let a1 = Self::allow_model(allows@);
                    assert(a1 =~= a0.update(i as int, ((owner@, spender@), amount)));
                    table::lemma_distinct_update(a0, i as int, amount);
                    assert forall|o: Seq<char>, p: Seq<char>| #[trigger]
                        table::lookup(a1, (o, p)) == if o == owner@ && p == spender@ {
                            amount
                        } else {
                            table::lookup(a0, (o, p))
                        } by {
                        table::lemma_lookup_update(a0, i as int, amount, (o, p));
                    }
                }
            },
            None => {
                proof {
                    assert forall|j: int| 0 <= j < a0.len() implies (#[trigger] a0[j]).0
                        != (owner@, spender@) by {
                        assert(a0[j] == ((allows@[j].0.0@, allows@[j].0.1@), allows@[j].1));
                    }
                }
                allows.push(((owner_key, spender_key), amount));
                proof {
                    let a1 = Self::allow_model(allows@);
                    assert(a1 =~= a0.push(((owner@, spender@), amount)));
                    table::lemma_distinct_push(a0, ((owner@, spender@), amount));
                    assert forall|o: Seq<char>, p: Seq<char>| #[trigger]
                        table::lookup(a1, (o, p)) == if o == owner@ && p == spender@ {
                            amount
                        } else {
                            table::lookup(a0, (o, p))
                        } by {
                        table::lemma_lookup_push(a0, ((owner@, spender@), amount), (o, p));
                    }
                }
            },
        }
        *self = ERC20 { name, symbol, total_supply, max_supply, balances, allowances: allows };
        proof {
            use_type_invariant(&*self);
        }
        true
    }

    /// Looks up the spending cap `spender` holds over `owner`'s funds; a
    /// pair never approved is reported as holding exactly zero.
    pub fn allowance(&self, owner: &str, spender: &str) -> (r: u64)
        ensures
            r == self.spec_allowance(owner@, spender@),
    {
        proof {
            use_type_invariant(self);
        }
        let owner_key = owner.to_owned();
        let spender_key = spender.to_owned();
        let ghost a0 = Self::allow_model(self.allowances@);
        match Self::find_allowance(&self.allowances, &owner_key, &spender_key) {
            Some(i) => {
                proof {
                    assert(a0[i as int] == ((self.allowances@[i as int].0.0@,
                    self.allowances@[i as int].0.1@), self.allowances@[i as int].1));
                    table::lemma_lookup_at(a0, i as int);
                }
                self.allowances[i].1
            },
            None => {
                proof {
                    assert forall|j: int| 0 <= j < a0.len() implies (#[trigger] a0[j]).0
                        != (owner@, spender@) by {
                        assert(a0[j] == ((self.allowances@[j].0.0@, self.allowances@[j].0.1@),
                        self.allowances@[j].1));
                    }
                    table::lemma_lookup_absent(a0, (owner@, spender@));
                }
                0
            },
        }
    }

    /// What a successful `transfer_from` does: it moves `amount` from
    /// `owner` to `to`, consumes that much of `spender`'s allowance over
    /// `owner`, and changes nothing else.
    pub open spec fn transfer_from_effect(
        pre: ERC20,
        post: ERC20,
        owner: Seq<char>,
        spender: Seq<char>,
        to: Seq<char>,
        amount: u64,
    ) -> bool {
        &&& post.spec_balance_of(owner) == pre.spec_balance_of(owner) - amount
        &&& post.spec_balance_of(to) == pre.spec_balance_of(to) + amount
        &&& forall|a: Seq<char>|
            a != owner && a != to ==> #[trigger] post.spec_balance_of(a) == pre.spec_balance_of(a)
        &&& post.spec_allowance(owner, spender) == pre.spec_allowance(owner, spender) - amount
        &&& forall|o: Seq<char>, p: Seq<char>|
            !(o == owner && p == spender) ==> #[trigger] post.spec_allowance(o, p)
                == pre.spec_allowance(o, p)
        &&& post.spec_total_supply() == pre.spec_total_supply()
        &&& post.spec_max_supply() == pre.spec_max_supply()
        &&& post.spec_name() == pre.spec_name()
        &&& post.spec_symbol() == pre.spec_symbol()
    }

    /// `spender` moves `amount` units out of `owner`'s balance into `to`'s,
    /// consuming that much allowance.  Rejects, leaving the ledger
    /// unchanged, when the allowance does not cover the amount or when the
    /// inner transfer itself rejects (self-transfer, zero amount, or an
    /// uncovered balance).
    pub fn transfer_from(&mut self, owner: &str, spender: &str, to: &str, amount: u64) -> (r:
        bool)
        ensures
            r == (old(self).spec_allowance(owner@, spender@) >= amount && old(
                self,
            ).transfer_allowed(owner@, to@, amount)),
            r ==> Self::transfer_from_effect(
                *old(self),
                *final(self),
                owner@,
                spender@,
                to@,
                amount,
            ),
            !r ==> *final(self) == *old(self),
            final(self).spec_sum_of_balances() == final(self).spec_total_supply() as int,
            old(self).spec_capped() ==> final(self).spec_capped(),
    {
        proof {
            use_type_invariant(&*self);
        }
        let ghost pre = *self;
        let current = self.allowance(owner, spender);
        if current < amount {
            return false;
        }
        let moved = self.transfer(owner, to, amount);
        if !moved {
            return false;
        }
        proof {
            if owner@ == spender@ {
                let a0 = Self::allow_model(pre.allowances@);
                assert forall|j: int| 0 <= j < a0.len() implies (#[trigger] a0[j]).0 != (
                owner@, spender@) by {
                    assert(a0[j] == ((pre.allowances@[j].0.0@, pre.allowances@[j].0.1@),
                    pre.allowances@[j].1));
                }
                table::lemma_lookup_absent(a0, (owner@, spender@));
            }
        }
        let updated = self.approve(owner, spender, current - amount);
        proof {
            assert(updated);
        }
        true
    }

    /// What a successful `burn` does: it removes `amount` from `owner`'s
    /// balance and from the total supply, and changes nothing else.
    pub open spec fn burn_effect(pre: ERC20, post: ERC20, owner: Seq<char>, amount: u64) -> bool {
        &&& post.spec_balance_of(owner) == pre.spec_balance_of(owner) - amount
        &&& forall|a: Seq<char>|
            a != owner ==> #[trigger] post.spec_balance_of(a) == pre.spec_balance_of(a)
        &&& forall|o: Seq<char>, p: Seq<char>|
            #[trigger] post.spec_allowance(o, p) == pre.spec_allowance(o, p)
        &&& post.spec_total_supply() == pre.spec_total_supply() - amount
        &&& post.spec_max_supply() == pre.spec_max_supply()
        &&& post.spec_name() == pre.spec_name()
        &&& post.spec_symbol() == pre.spec_symbol()
    }

    /// Destroys `amount` units from `owner`'s balance, reducing the total
    /// supply by the same amount.  Rejects, leaving the ledger unchanged,
    /// when `owner`'s balance does not cover the amount.
    pub fn burn(&mut self, owner: &str, amount: u64) -> (r: bool)
        ensures
            r == (old(self).spec_balance_of(owner@) >= amount),
            r ==> Self::burn_effect(*old(self), *final(self), owner@, amount),
            !r ==> *final(self) == *old(self),
            final(self).spec_sum_of_balances() == final(self).spec_total_supply() as int,
            old(self).spec_capped() ==> final(self).spec_capped(),
    {
        proof {
            use_type_invariant(&*self);
        }
        let owner_key = owner.to_owned();
        let ghost m0 = Self::bal_model(self.balances@);
        let owner_idx = match Self::find_balance(&self.balances, &owner_key) {
            None => {
                proof {
                    assert forall|j: int| 0 <= j < m0.len() implies (#[trigger] m0[j]).0
                        != owner@ by {
                        assert(m0[j] == (self.balances@[j].0@, self.balances@[j].1));
                    }
                    table::lemma_lookup_absent(m0, owner@);
                }
                return amount == 0;
            },
            Some(i) => i,
        };
        let owner_bal = self.balances[owner_idx].1;
        proof {
            assert(m0[owner_idx as int] == (self.balances@[owner_idx as int].0@, owner_bal));
            table::lemma_lookup_at(m0, owner_idx as int);
            table::lemma_entry_le_sum(m0, owner_idx as int);
        }
        if owner_bal < amount {
            return false;
        }
        let work = self.take_state();
        let ERC20 { name, symbol, total_supply, max_supply, balances: mut bals, allowances } =
            work;
        bals[owner_idx] = (owner_key, owner_bal - amount);
        proof {
            let m1 = Self::bal_model(bals@);
            assert(m1 =~= m0.update(owner_idx as int, (owner@, (owner_bal - amount) as u64)));
            table::lemma_distinct_update(m0, owner_idx as int, (owner_bal - amount) as u64);
            table::lemma_sum_update(
                m0,
                owner_idx as int,
                (owner@, (owner_bal - amount) as u64),
            );
            assert forall|a: Seq<char>| #[trigger]
                table::lookup(m1, a) == if a == owner@ {
                    (owner_bal - amount) as u64
                } else {
                    table::lookup(m0, a)
                } by {
                table::lemma_lookup_update(m0, owner_idx as int, (owner_bal - amount) as u64, a);
            }
        }
        *self = ERC20 {
            name,
            symbol,
            total_supply: total_supply - amount,
            max_supply,
            balances: bals,
            allowances,
        };
        proof {
            use_type_invariant(&*self);
        }
        true
    }

    /// What a successful `mint` does: it credits `amount` new units to
    /// `recipient` and adds them to the total supply, changing nothing else.
    pub open spec fn mint_effect(
        pre: ERC20,
        post: ERC20,
        recipient: Seq<char>,
        amount: u64,
    ) -> bool {
        &&& post.spec_balance_of(recipient) == pre.spec_balance_of(recipient) + amount
        &&& forall|a: Seq<char>|
            a != recipient ==> #[trigger] post.spec_balance_of(a) == pre.spec_balance_of(a)
        &&& forall|o: Seq<char>, p: Seq<char>|
            #[trigger] post.spec_allowance(o, p) == pre.spec_allowance(o, p)
        &&& post.spec_total_supply() == pre.spec_total_supply() + amount
        &&& post.spec_max_supply() == pre.spec_max_supply()
        &&& post.spec_name() == pre.spec_name()
        &&& post.spec_symbol() == pre.spec_symbol()
    }

    /// Creates `amount` new units credited to `recipient`, increasing the
    /// total supply.  Rejects, leaving the ledger unchanged, when the grown
    /// supply would pass the supply ceiling; the supply accumulation is
    /// overflow-checked, never wrapped.
    pub fn mint(&mut self, recipient: &str, amount: u64) -> (r: bool)
        ensures
            r == (old(self).spec_total_supply() + amount <= old(self).spec_max_supply()),
            r ==> Self::mint_effect(*old(self), *final(self), recipient@, amount),
            r ==> final(self).spec_capped(),
            !r ==> *final(self) == *old(self),
            final(self).spec_sum_of_balances() == final(self).spec_total_supply() as int,
            old(self).spec_capped() ==> final(self).spec_capped(),
    {
        proof {
            use_type_invariant(&*self);
        }
        let new_total = match self.total_supply.checked_add(amount) {
            None => {
                return false;
            },
            Some(t) => t,
        };
        if new_total > self.max_supply {
            return false;
        }
        let recipient_key = recipient.to_owned();
        let ghost m0 = Self::bal_model(self.balances@);
        let idx_opt = Self::find_balance(&self.balances, &recipient_key);
        let work = self.take_state();
        let ERC20 { name, symbol, total_supply, max_supply, balances: mut bals, allowances } =
            work;
        match idx_opt {
            Some(i) => {
                let recipient_bal = bals[i].1;
                proof {
                    assert(m0[i as int] == (bals@[i as int].0@, recipient_bal));
                    table::lemma_lookup_at(m0, i as int);
                    table::lemma_entry_le_sum(m0, i as int);
                }
                bals[i] = (recipient_key, recipient_bal + amount);
                proof {
                    let m1 = Self::bal_model(bals@);
                    assert(m1 =~= m0.update(i as int, (recipient@, (recipient_bal + amount) as u64)));
                    table::lemma_distinct_update(m0, i as int, (recipient_bal + amount) as u64);
                    table::lemma_sum_update(
                        m0,
                        i as int,
                        (recipient@, (recipient_bal + amount) as u64),
                    );
                    assert forall|a: Seq<char>| #[trigger]
                        table::lookup(m1, a) == if a == recipient@ {
                            (recipient_bal + amount) as u64
                        } else {
                            table::lookup(m0, a)
                        } by {
                        table::lemma_lookup_update(
                            m0,
                            i as int,
                            (recipient_bal + amount) as u64,
                            a,
                        );
                    }
                }
            },
            None => {
                proof {
                    assert forall|j: int| 0 <= j < m0.len() implies (#[trigger] m0[j]).0
                        != recipient@ by {
                        assert(m0[j] == (bals@[j].0@, bals@[j].1));
                    }
                    table::lemma_lookup_absent(m0, recipient@);
                }
                bals.push((recipient_key, amount));
                proof {
                    let m1 = Self::bal_model(bals@);
                    assert(m1 =~= m0.push((recipient@, amount)));
                    table::lemma_distinct_push(m0, (recipient@, amount));
                    table::lemma_sum_push(m0, (recipient@, amount));
                    assert forall|a: Seq<char>| #[trigger]
                        table::lookup(m1, a) == if a == recipient@ {
                            amount
                        } else {
                            table::lookup(m0, a)
                        } by {
                        table::lemma_lookup_push(m0, (recipient@, amount), a);
                    }
                }
            },
        }
        *self = ERC20 {
            name,
            symbol,
            total_supply: new_total,
            max_supply,
            balances: bals,
            allowances,
        };
        proof {
            use_type_invariant(&*self);
        }
        true
    }

    /// Looks up the balance of `account`; an account never referenced is
    /// reported as holding exactly zero.
    pub fn balance_of(&self, account: &str) -> (r: u64)
        ensures
            r == self.spec_balance_of(account@),
    {
        proof {
            use_type_invariant(self);
        }
        let key = account.to_owned();
        let m = Ghost(Self::bal_model(self.balances@));
        match Self::find_balance(&self.balances, &key) {
            Some(i) => {
                proof {
                    assert(m@[i as int] == (self.balances@[i as int].0@,
                    self.balances@[i as int].1));
                    table::lemma_lookup_at(m@, i as int);
                }
                self.balances[i].1
            },
            None => {
                proof {
                    assert forall|j: int| 0 <= j < m@.len() implies (#[trigger] m@[j]).0
                        != account@ by {
                        assert(m@[j] == (self.balances@[j].0@, self.balances@[j].1));
                    }
                    table::lemma_lookup_absent(m@, account@);
                }
                0
            },
        }
    }
}

} // verus!
