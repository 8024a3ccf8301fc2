//! The commitment vault: deposits of hidden collateral and the set of
//! nullifiers that have been revealed.

use crate::bytes::same_bytes;
use std::collections::HashMap;
use vstd::prelude::*;

verus! {

broadcast use vstd::std_specs::hash::group_hash_axioms;

/// Why the vault turned a call down.
#[derive(Copy, Clone, Debug, PartialEq, Eq, Structural, PartialOrd, Ord)]
pub enum Error {
    /// The proof is empty or reuses a nullifier, or the identifier counter is
    /// exhausted.
    InvalidProof,
    /// The public inputs do not have the required shape.
    InvalidInputs,
    /// The caller is not the identity it acts for.
    Unauthorized,
}

impl Error {
    /// The number under which the error is reported.
    pub fn code(&self) -> (c: u32)
        ensures
            c == match *self {
                Error::InvalidProof => 1u32,
                Error::InvalidInputs => 2u32,
                Error::Unauthorized => 3u32,
            },
    {
        match self {
            Error::InvalidProof => 1,
            Error::InvalidInputs => 2,
            Error::Unauthorized => 3,
        }
    }
}

/// One deposit: the commitment to the hidden collateral, under the
/// identifier the vault gave it.
#[derive(Clone, Debug, PartialEq, Eq)]
pub struct Deposit {
    pub deposit_id: u64,
    pub commitment: Vec<u8>,
}

/// What the vault tells observers about a deposit it accepted.
#[derive(Clone, Debug, PartialEq, Eq)]
pub struct DepositEvent {
    pub user: String,
    pub deposit_id: u64,
}

/// The vault as contracts speak of it.
pub struct VaultState {
    /// The number of deposits accepted so far, which is also the last
    /// identifier handed out.
    pub count: nat,
    /// The commitment stored under each deposit identifier.
    pub deposits: Map<u64, Seq<u8>>,
    /// The nullifiers that have been revealed.
    pub spent: Set<Seq<u8>>,
}

impl VaultState {
    /// No identifier above the counter is in use, and identifier zero never is.
    pub open spec fn valid(self) -> bool {
        &&& self.count <= u64::MAX
        &&& forall|id: u64| #[trigger] self.deposits.contains_key(id) ==> 1 <= id <= self.count
    }

    /// A vault that has accepted no deposit.
    pub open spec fn empty() -> VaultState {
        VaultState { count: 0, deposits: Map::empty(), spent: Set::empty() }
    }

    /// Every identifier up to the counter is in use: none was skipped.
    pub open spec fn dense(self) -> bool {
        forall|id: u64| 1 <= id <= self.count ==> #[trigger] self.deposits.contains_key(id)
    }

    /// The state after `nullifier` is revealed.
    pub open spec fn spend(self, nullifier: Seq<u8>) -> VaultState {
        VaultState { spent: self.spent.insert(nullifier), ..self }
    }

    /// The state after the commitments of `commitments` are stored one after
    /// the other.
    pub open spec fn deposit_all(self, commitments: Seq<Seq<u8>>) -> VaultState
        decreases commitments.len(),
    {
        if commitments.len() == 0 {
            self
        } else {
            self.deposit_all(commitments.drop_last()).deposit(commitments.last())
        }
    }

    /// The state after one more commitment is stored.
    pub open spec fn deposit(self, commitment: Seq<u8>) -> VaultState {
        VaultState {
            count: self.count + 1,
            deposits: self.deposits.insert((self.count + 1) as u64, commitment),
            spent: self.spent,
        }
    }
}

/// The commitment vault.
pub struct Vault {
    count: u64,
    deposits: HashMap<u64, Vec<u8>>,
    spent: Vec<Vec<u8>>,
}

impl View for Vault {
    type V = VaultState;

    closed spec fn view(&self) -> VaultState {
        VaultState {
            count: self.count as nat,
            deposits: self.deposits@.map_values(|c: Vec<u8>| c@),
            spent: byte_strings(self.spent@),
        }
    }
}

/// What `deposit_collateral` answers, as a function of what it is given.
pub open spec fn deposit_decision(
    count: nat,
    caller: Seq<char>,
    user: Seq<char>,
    proof_len: nat,
    inputs_len: nat,
) -> Result<u64, Error> {
    if caller != user {
        Err(Error::Unauthorized)
    } else if proof_len == 0 {
        Err(Error::InvalidProof)
    } else if inputs_len < 2 {
        Err(Error::InvalidInputs)
    } else if count >= u64::MAX {
        Err(Error::InvalidProof)
    } else {
        Ok((count + 1) as u64)
    }
}

/// What `withdraw_with_proof` answers, as a function of what it is given.
pub open spec fn withdraw_decision(
    state: VaultState,
    deposit_id: u64,
    nullifier: Seq<u8>,
    proof_len: nat,
    proof_accepted: bool,
) -> Result<Seq<u8>, Error> {
    if proof_len == 0 {
        Err(Error::InvalidProof)
    } else if !state.deposits.contains_key(deposit_id) {
        Err(Error::InvalidInputs)
    } else if state.spent.contains(nullifier) || !proof_accepted {
        Err(Error::InvalidProof)
    } else {
        Ok(state.deposits[deposit_id])
    }
}

/// Record `j` of `records` is filed under `id`.
pub open spec fn filed_at(records: Seq<Deposit>, id: u64, j: int) -> bool {
    0 <= j < records.len() && records[j].deposit_id == id
}

/// The records can be those of a vault whose counter stands at `count`: no
/// identifier is zero or above the counter, and none occurs twice.
pub open spec fn restorable(count: u64, records: Seq<Deposit>) -> bool {
    &&& forall|j: int|
        0 <= j < records.len() ==> 1 <= (#[trigger] records[j]).deposit_id <= count
    &&& forall|j: int, k: int|
        0 <= j < k < records.len() ==> (#[trigger] records[j]).deposit_id != (
        #[trigger] records[k]).deposit_id
}

/// The commitments of `records`, each under its identifier.
pub open spec fn commitments_of(records: Seq<Deposit>) -> Map<u64, Seq<u8>> {
    Map::new(
        |id: u64| exists|j: int| filed_at(records, id, j),
        |id: u64| records[choose|j: int| filed_at(records, id, j)].commitment@,
    )
}

/// The byte strings that `items` holds.
pub open spec fn byte_strings(items: Seq<Vec<u8>>) -> Set<Seq<u8>> {
    Set::new(|n: Seq<u8>| exists|i: int| 0 <= i < items.len() && (#[trigger] items[i])@ == n)
}

impl Vault {
    #[verifier::type_invariant]
    spec fn inv(&self) -> bool {
        forall|id: u64| #[trigger] self.deposits@.contains_key(id) ==> 1 <= id <= self.count
    }

    /// A vault that has accepted no deposit.
    pub fn new() -> (v: Vault)
        ensures
            v@ == VaultState::empty(),
            v@.valid(),
            v@.dense(),
    {
        let v = Vault { count: 0, deposits: HashMap::new(), spent: Vec::new() };
        assert(v@.deposits =~= Map::<u64, Seq<u8>>::empty());
        assert(v@.spent =~= Set::<Seq<u8>>::empty());
        v
    }

    /// Accepts a deposit of hidden collateral on behalf of `user`.
    ///
    /// The first public input is the commitment; it is stored as it is under
    /// the next identifier. The returned event names that identifier.
    pub fn deposit_collateral(
        &mut self,
        caller: &String,
        user: String,
        asset: &String,
        proof: &Vec<u8>,
        public_inputs: &Vec<Vec<u8>>,
    ) -> (r: Result<DepositEvent, Error>)
        ensures
            final(self)@.valid(),
            old(self)@.dense() ==> final(self)@.dense(),
            r is Err ==> final(self)@ == old(self)@,
            old(self)@.count >= u64::MAX ==> r is Err,
            match r {
                Ok(event) => {
                    &&& deposit_decision(
                        old(self)@.count,
                        caller@,
                        user@,
                        proof@.len(),
                        public_inputs@.len(),
                    ) == Ok::<u64, Error>(event.deposit_id)
                    &&& event.user == user
                    &&& final(self)@ == old(self)@.deposit(public_inputs@[0]@)
                },
                Err(e) => {
                    &&& deposit_decision(
                        old(self)@.count,
                        caller@,
                        user@,
                        proof@.len(),
                        public_inputs@.len(),
                    ) == Err::<u64, Error>(e)
                    &&& final(self)@ == old(self)@
                },
            },
    {
        proof {
            use_type_invariant(&*self);
        }
        if *caller != user {
            return Err(Error::Unauthorized);
        }
        if proof.len() == 0 {
            return Err(Error::InvalidProof);
        }
        if public_inputs.len() < 2 {
            return Err(Error::InvalidInputs);
        }
        let deposit_id: u64 = match self.count.checked_add(1) {
            Some(id) => id,
            None => {
                return Err(Error::InvalidProof);
            },
        };
        let commitment = public_inputs[0].clone();
        assert(commitment@ == public_inputs@[0]@);
        let mut deposits: HashMap<u64, Vec<u8>> = HashMap::new();
        core::mem::swap(&mut self.deposits, &mut deposits);
        deposits.insert(deposit_id, commitment);
        self.count = deposit_id;
        core::mem::swap(&mut self.deposits, &mut deposits);
        assert(self@.deposits =~= old(self)@.deposits.insert(deposit_id, public_inputs@[0]@));
        Ok(DepositEvent { user, deposit_id })
    }

    /// The number of deposits accepted so far.
    pub fn get_deposit_count(&self) -> (n: u64)
        ensures
            n == self@.count,
    {
        self.count
    }

    /// The commitment stored under `deposit_id`, if there is one.
    pub fn get_deposit(&self, deposit_id: u64) -> (r: Option<Vec<u8>>)
        ensures
            match r {
                Some(c) => self@.deposits.contains_key(deposit_id) && c@
                    == self@.deposits[deposit_id],
                None => !self@.deposits.contains_key(deposit_id),
            },
    {
        match self.deposits.get(&deposit_id) {
            Some(c) => Some(c.clone()),
            None => None,
        }
    }

    /// The commitment stored under `deposit_id`, if there is one.
    pub fn get_commitment(&self, deposit_id: u64) -> (r: Option<Vec<u8>>)
        ensures
            match r {
                Some(c) => self@.deposits.contains_key(deposit_id) && c@
                    == self@.deposits[deposit_id],
                None => !self@.deposits.contains_key(deposit_id),
            },
    {
        self.get_deposit(deposit_id)
    }

    /// Whether `nullifier` has been revealed by an earlier withdrawal.
    pub fn check_nullifier(&self, nullifier: &Vec<u8>) -> (spent: bool)
        ensures
            spent == self@.spent.contains(nullifier@),
    {
        let mut i: usize = 0;
        while i < self.spent.len()
            invariant
                i <= self.spent.len(),
                forall|j: int| 0 <= j < i ==> self.spent[j]@ != nullifier@,
            decreases self.spent.len() - i,
        {
            if same_bytes(&self.spent[i], nullifier) {
                return true;
            }
            i += 1;
        }
        false
    }

    /// Releases the collateral of deposit `deposit_id` against a proof that
    /// reveals `nullifier`, and hands back the deposit's commitment.
    ///
    /// The nullifier is spent from then on: no later proof may reveal it
    /// again.
    pub fn withdraw_with_proof(
        &mut self,
        deposit_id: u64,
        nullifier: Vec<u8>,
        proof: &Vec<u8>,
        proof_accepted: bool,
    ) -> (r: Result<Vec<u8>, Error>)
        ensures
            final(self)@.valid(),
            match r {
                Ok(commitment) => {
                    &&& withdraw_decision(
                        old(self)@,
                        deposit_id,
                        nullifier@,
                        proof@.len(),
                        proof_accepted,
                    ) == Ok::<Seq<u8>, Error>(commitment@)
                    &&& final(self)@ == old(self)@.spend(nullifier@)
                },
                Err(e) => {
                    &&& withdraw_decision(
                        old(self)@,
                        deposit_id,
                        nullifier@,
                        proof@.len(),
                        proof_accepted,
                    ) == Err::<Seq<u8>, Error>(e)
                    &&& final(self)@ == old(self)@
                },
            },
    {
        proof {
            use_type_invariant(&*self);
        }
        if proof.len() == 0 {
            return Err(Error::InvalidProof);
        }
        let commitment = match self.get_deposit(deposit_id) {
            Some(c) => c,
            None => {
                return Err(Error::InvalidInputs);
            },
        };
        if self.check_nullifier(&nullifier) || !proof_accepted {
            return Err(Error::InvalidProof);
        }
        let mut spent: Vec<Vec<u8>> = Vec::new();
        core::mem::swap(&mut self.spent, &mut spent);
        spent.push(nullifier);
        core::mem::swap(&mut self.spent, &mut spent);
        assert(self@.spent =~= old(self)@.spent.insert(nullifier@)) by {
            let before = old(self).spent@;
            let after = self.spent@;
            assert(after == before.push(nullifier));
            assert forall|n: Seq<u8>|
                byte_strings(before).insert(nullifier@).contains(n) implies byte_strings(
                after,
            ).contains(n) by {
                if n == nullifier@ {
                    assert(after[before.len() as int]@ == n);
                } else {
                    let i = choose|i: int| 0 <= i < before.len() && (#[trigger] before[i])@ == n;
                    assert(after[i]@ == n);
                }
            }
            assert forall|n: Seq<u8>| byte_strings(after).contains(n) implies byte_strings(
                before,
            ).insert(nullifier@).contains(n) by {
                let i = choose|i: int| 0 <= i < after.len() && (#[trigger] after[i])@ == n;
                if i < before.len() {
                    assert(before[i]@ == n);
                }
            }
        }
        Ok(commitment)
    }

    /// The vault whose counter stands at `count`, with the given deposits and
    /// revealed nullifiers; nothing if the deposits cannot be those of such a
    /// vault.
    pub fn restore(count: u64, records: Vec<Deposit>, spent: Vec<Vec<u8>>) -> (r: Option<Vault>)
        ensures
            match r {
                Some(vault) => {
                    &&& restorable(count, records@)
                    &&& vault@.count == count
                    &&& vault@.deposits == commitments_of(records@)
                    &&& vault@.spent == byte_strings(spent@)
                    &&& vault@.valid()
                },
                None => !restorable(count, records@),
            },
    {
        let mut deposits: HashMap<u64, Vec<u8>> = HashMap::new();
        let mut i: usize = 0;
        while i < records.len()
            invariant
                i <= records.len(),
                restorable(count, records@.take(i as int)),
                forall|id: u64| #[trigger]
                    deposits@.contains_key(id) <==> exists|j: int|
                        filed_at(records@.take(i as int), id, j),
                forall|j: int|
                    0 <= j < i ==> (#[trigger] deposits@[records@[j].deposit_id])@
                        == records@[j].commitment@,
            decreases records.len() - i,
        {
            let id: u64 = records[i].deposit_id;
            let ghost before = records@.take(i as int);
            let ghost after = records@.take(i + 1);
            if id < 1 || id > count {
                return None;
            }
            if deposits.contains_key(&id) {
                proof {
                    let j = choose|j: int| filed_at(before, id, j);
                    assert(records@[j].deposit_id == records@[i as int].deposit_id);
                }
                return None;
            }
            let ghost earlier = deposits@;
            deposits.insert(id, records[i].commitment.clone());
            proof {
                assert forall|j: int, k: int| 0 <= j < k < after.len() implies (
                #[trigger] after[j]).deposit_id != (#[trigger] after[k]).deposit_id by {
                    if k == i {
                        if after[j].deposit_id == id {
                            assert(filed_at(before, id, j));
                        }
                    } else {
                        assert(before[j].deposit_id != before[k].deposit_id);
                    }
                }
                assert forall|x: u64| #[trigger] deposits@.contains_key(x) <==> exists|j: int|
                    filed_at(after, x, j) by {
                    if deposits@.contains_key(x) {
                        if x == id {
                            assert(filed_at(after, x, i as int));
                        } else {
                            assert(earlier.contains_key(x));
                            let j = choose|j: int| filed_at(before, x, j);
                            assert(filed_at(after, x, j));
                        }
                    }
                    if exists|j: int| filed_at(after, x, j) {
                        let j = choose|j: int| filed_at(after, x, j);
                        if j < i {
                            assert(filed_at(before, x, j));
                        }
                    }
                }
                assert forall|j: int| 0 <= j < i + 1 implies (
                #[trigger] deposits@[records@[j].deposit_id])@ == records@[j].commitment@ by {
                    if j < i {
                        assert(filed_at(before, records@[j].deposit_id, j));
                        assert(earlier.contains_key(records@[j].deposit_id));
                    }
                }
            }
            i += 1;
        }
        let vault = Vault { count, deposits, spent };
        proof {
            assert(records@.take(i as int) =~= records@);
            assert forall|id: u64| #[trigger] vault.deposits@.contains_key(id) implies 1 <= id
                <= count by {
                let j = choose|j: int| filed_at(records@, id, j);
                assert(1 <= records@[j].deposit_id <= count);
            }
            assert forall|id: u64| commitments_of(records@).contains_key(id) implies (
            #[trigger] vault@.deposits[id]) == commitments_of(records@)[id] by {
                let j = choose|j: int| filed_at(records@, id, j);
                assert(vault.deposits@[records@[j].deposit_id]@ == records@[j].commitment@);
            }
            assert(vault@.deposits =~= commitments_of(records@));
        }
        Some(vault)
    }
}

/// A deposit never touches what was there: it is filed under an identifier
/// that was not in use, every earlier deposit stays as it was, the revealed
/// nullifiers stay, and the counter goes up by one.
pub proof fn lemma_deposit_keeps_earlier_deposits(state: VaultState, commitment: Seq<u8>)
    requires
        state.valid(),
        state.count < u64::MAX,
    ensures
        state.deposit(commitment).valid(),
        state.deposit(commitment).count == state.count + 1,
        !state.deposits.contains_key((state.count + 1) as u64),
        state.deposit(commitment).deposits[(state.count + 1) as u64] == commitment,
        forall|id: u64| #[trigger]
            state.deposits.contains_key(id) ==> state.deposit(commitment).deposits.contains_key(id)
                && state.deposit(commitment).deposits[id] == state.deposits[id],
        state.deposit(commitment).spent == state.spent,
        state.dense() ==> state.deposit(commitment).dense(),
{
    if state.deposits.contains_key((state.count + 1) as u64) {
        assert(((state.count + 1) as u64) <= state.count);
    }
}

/// A nullifier that has been revealed stays revealed, whatever is deposited
/// or withdrawn afterwards, and from then on no withdrawal that reveals it
/// is accepted.
pub proof fn lemma_spent_nullifiers_stay_spent(
    state: VaultState,
    nullifier: Seq<u8>,
    commitment: Seq<u8>,
    other: Seq<u8>,
    deposit_id: u64,
    proof_len: nat,
    proof_accepted: bool,
)
    requires
        state.spent.contains(nullifier),
    ensures
        state.deposit(commitment).spent.contains(nullifier),
        state.spend(other).spent.contains(nullifier),
        withdraw_decision(state, deposit_id, nullifier, proof_len, proof_accepted) is Err,
{
}

/// A vault that starts empty and accepts `commitments` one after the other
/// hands out the identifiers 1, 2, 3 and so on, in that order. Before the
/// deposit in place `k` (counted from zero) the counter stands at `k`, so
/// that deposit is filed under `k + 1`; afterwards the counter stands at the
/// number of deposits, and exactly the identifiers from 1 up to it are in
/// use.
pub proof fn lemma_deposit_ids_are_sequential(commitments: Seq<Seq<u8>>)
    requires
        commitments.len() <= u64::MAX,
    ensures
        VaultState::empty().deposit_all(commitments).count == commitments.len(),
        VaultState::empty().deposit_all(commitments).valid(),
        VaultState::empty().deposit_all(commitments).dense(),
        forall|k: int|
            0 <= k < commitments.len() ==> VaultState::empty().deposit_all(
                commitments,
            ).deposits[(k + 1) as u64] == #[trigger] commitments[k],
        forall|k: int|
            0 <= k <= commitments.len() ==> (#[trigger] VaultState::empty().deposit_all(
                commitments.take(k),
            )).count == k,
    decreases commitments.len(),
{
    if commitments.len() > 0 {
        let earlier = commitments.drop_last();
        lemma_deposit_ids_are_sequential(earlier);
        let last = commitments.len() - 1;
        assert forall|k: int| 0 <= k <= commitments.len() implies (
        #[trigger] VaultState::empty().deposit_all(commitments.take(k))).count == k by {
            if k <= last {
                assert(commitments.take(k) =~= earlier.take(k));
            } else {
                assert(commitments.take(k) =~= commitments);
            }
        }
        assert forall|k: int| 0 <= k < commitments.len() implies VaultState::empty().deposit_all(
            commitments,
        ).deposits[(k + 1) as u64] == #[trigger] commitments[k] by {
            if k < last {
                assert(earlier[k] == commitments[k]);
            }
        }
    } else {
        assert forall|k: int| 0 <= k <= commitments.len() implies (
        #[trigger] VaultState::empty().deposit_all(commitments.take(k))).count == k by {
            assert(commitments.take(k) =~= commitments);
        }
    }
}

} // verus!
