//! The loan issuer: proof-gated loans against vault deposits, and their
//! repayment.

use crate::bytes::{all_zero, be_value, copy_of_range, is_all_zero, same_bytes, spells_amount};
use std::collections::HashMap;
use vstd::prelude::*;

verus! {

broadcast use vstd::std_specs::hash::group_hash_axioms;

/// Why the pool turned a call down.
#[derive(Copy, Clone, Debug, PartialEq, Eq, Structural, PartialOrd, Ord)]
pub enum ShieldError {
    /// The caller may not act for the identity concerned.
    Unauthorized,
    /// The proof or its public inputs are malformed, do not bind the request,
    /// or were not accepted; or the identifier counter is exhausted.
    InvalidProof,
    /// The deposit already backs an active loan.
    InsufficientCollateral,
    /// No loan has this identifier.
    LoanNotFound,
    /// The loan has been closed already.
    AlreadyRepaid,
}

impl ShieldError {
    /// The number under which the error is reported.
    pub fn code(&self) -> (c: u32)
        ensures
            c == match *self {
                ShieldError::Unauthorized => 1u32,
                ShieldError::InvalidProof => 2u32,
                ShieldError::InsufficientCollateral => 3u32,
                ShieldError::LoanNotFound => 4u32,
                ShieldError::AlreadyRepaid => 5u32,
            },
    {
        match self {
            ShieldError::Unauthorized => 1,
            ShieldError::InvalidProof => 2,
            ShieldError::InsufficientCollateral => 3,
            ShieldError::LoanNotFound => 4,
            ShieldError::AlreadyRepaid => 5,
        }
    }
}

/// Where a loan stands. `Active` is where every loan starts; the other two
/// are final.
#[derive(Copy, Clone, Debug, PartialEq, Eq, Structural)]
pub enum LoanStatus {
    Active,
    Repaid,
    Liquidated,
}

/// One loan.
#[derive(Clone, Debug, PartialEq, Eq)]
pub struct LoanData {
    pub loan_id: u64,
    pub borrower: String,
    pub amount: i128,
    pub asset: String,
    pub deposit_id: u64,
    pub status: LoanStatus,
    pub start_time: u64,
}

impl LoanData {
    /// The loan as it is when it is issued: active, and started at `now`.
    pub open spec fn issued(
        loan_id: u64,
        borrower: String,
        amount: i128,
        asset: String,
        deposit_id: u64,
        now: u64,
    ) -> LoanData {
        LoanData {
            loan_id,
            borrower,
            amount,
            asset,
            deposit_id,
            status: LoanStatus::Active,
            start_time: now,
        }
    }

    /// A copy of this loan.
    pub fn duplicate(&self) -> (copy: LoanData)
        ensures
            copy == *self,
    {
        LoanData {
            loan_id: self.loan_id,
            borrower: self.borrower.clone(),
            amount: self.amount,
            asset: self.asset.clone(),
            deposit_id: self.deposit_id,
            status: self.status,
            start_time: self.start_time,
        }
    }

    /// This loan with another status.
    pub open spec fn with_status(self, status: LoanStatus) -> LoanData {
        LoanData { status, ..self }
    }
}

/// The identities a pool works with. It is written once, by the first
/// `initialize`; after that only the administrator changes it.
#[derive(Clone, Debug, PartialEq, Eq)]
pub struct ProtocolConfig {
    pub admin: String,
    pub vault: String,
    pub oracle: Option<String>,
    pub liquidator: Option<String>,
}

impl ProtocolConfig {
    /// The configuration that `initialize` writes: no oracle and no
    /// liquidator have been named yet.
    pub open spec fn first(admin: String, vault: String) -> ProtocolConfig {
        ProtocolConfig { admin, vault, oracle: None, liquidator: None }
    }
}

/// One side of a transfer.
#[derive(Clone, Debug, PartialEq, Eq, Hash)]
pub enum Party {
    /// The pool's own balance.
    Pool,
    /// The balance of an identity.
    Account(String),
}

/// One side of a transfer, as contracts speak of it.
pub enum PartyView {
    Pool,
    Account(Seq<char>),
}

impl View for Party {
    type V = PartyView;

    open spec fn view(&self) -> PartyView {
        match *self {
            Party::Pool => PartyView::Pool,
            Party::Account(who) => PartyView::Account(who@),
        }
    }
}

/// A movement of funds that the pool wants the token to carry out, in the
/// same unit of work as the call that returned it.
#[derive(Clone, Debug, PartialEq, Eq)]
pub struct Transfer {
    pub asset: String,
    pub from: Party,
    pub to: Party,
    pub amount: i128,
}

/// The pool as contracts speak of it.
pub struct PoolState {
    pub config: Option<ProtocolConfig>,
    /// The identifier that the next loan gets.
    pub next_loan_id: nat,
    pub loans: Map<u64, LoanData>,
}

impl PoolState {
    /// Some active loan is backed by `deposit_id`.
    pub open spec fn deposit_in_use(self, deposit_id: u64) -> bool {
        exists|id: u64|
            self.loans.contains_key(id) && (#[trigger] self.loans[id]).deposit_id == deposit_id
                && self.loans[id].status == LoanStatus::Active
    }

    /// Loans are filed under their own identifiers, all of them handed out
    /// already, and no deposit backs two active loans.
    pub open spec fn valid(self) -> bool {
        &&& 1 <= self.next_loan_id <= u64::MAX
        &&& forall|id: u64| #[trigger]
            self.loans.contains_key(id) ==> 1 <= id < self.next_loan_id && self.loans[id].loan_id
                == id
        &&& forall|a: u64, b: u64|
            self.loans.contains_key(a) && self.loans.contains_key(b) && (
            #[trigger] self.loans[a]).status == LoanStatus::Active && (
            #[trigger] self.loans[b]).status == LoanStatus::Active && self.loans[a].deposit_id
                == self.loans[b].deposit_id ==> a == b
    }

    /// Whether `who` is the administrator.
    pub open spec fn is_admin(self, who: Seq<char>) -> bool {
        self.config is Some && self.config->0.admin@ == who
    }

    /// Whether `who` is the liquidator the administrator has authorised.
    pub open spec fn is_liquidator(self, who: Seq<char>) -> bool {
        self.config is Some && self.config->0.liquidator is Some
            && self.config->0.liquidator->0@ == who
    }

    /// The state after `initialize(admin, vault)`: the first call writes the
    /// configuration, every later one changes nothing.
    pub open spec fn initialize(self, admin: String, vault: String) -> PoolState {
        if self.config is Some {
            self
        } else {
            PoolState { config: Some(ProtocolConfig::first(admin, vault)), ..self }
        }
    }

    /// The state after a loan is issued under the next identifier.
    pub open spec fn issue(self, loan: LoanData) -> PoolState {
        PoolState {
            next_loan_id: self.next_loan_id + 1,
            loans: self.loans.insert(self.next_loan_id as u64, loan),
            ..self
        }
    }

    /// The state after the administrator names the oracle.
    pub open spec fn with_oracle(self, oracle: String) -> PoolState {
        PoolState {
            config: Some(ProtocolConfig { oracle: Some(oracle), ..self.config->0 }),
            ..self
        }
    }

    /// The state after the administrator names the liquidator.
    pub open spec fn with_liquidator(self, liquidator: String) -> PoolState {
        PoolState {
            config: Some(ProtocolConfig { liquidator: Some(liquidator), ..self.config->0 }),
            ..self
        }
    }

    /// The state after loan `loan_id` is closed with `status`.
    pub open spec fn close(self, loan_id: u64, status: LoanStatus) -> PoolState {
        PoolState {
            loans: self.loans.insert(loan_id, self.loans[loan_id].with_status(status)),
            ..self
        }
    }
}

/// What the pool's collaborators report about one loan request.
#[derive(Clone, Debug, PartialEq, Eq)]
pub struct LoanEvidence {
    /// What the vault has stored under the deposit, if anything.
    pub stored_commitment: Option<Vec<u8>>,
    /// Whether the verifier accepted the proof over the public inputs.
    pub proof_accepted: bool,
    /// The ledger's time.
    pub now: u64,
}

impl LoanEvidence {
    /// The commitment that the vault reported, as a byte string.
    pub open spec fn commitment(self) -> Option<Seq<u8>> {
        match self.stored_commitment {
            Some(c) => Some(c@),
            None => None,
        }
    }

    /// Whether `proof` and `inputs` stand for a request of `amount` on this
    /// evidence.
    pub open spec fn binds(self, amount: int, proof: Seq<u8>, inputs: Seq<Seq<u8>>) -> bool {
        proof_binds(amount, proof, inputs, self.commitment(), self.proof_accepted)
    }
}

/// What `request_loan` hands back when it issues a loan.
#[derive(Clone, Debug, PartialEq, Eq)]
pub struct LoanIssued {
    pub loan_id: u64,
    /// The movement of the borrowed funds, from the pool to the borrower.
    pub payout: Transfer,
}

/// The number of bytes in a proof.
pub const PROOF_LEN: usize = 256;

/// The number of bytes in the first and in the last part of a proof.
pub const POINT_LEN: usize = 64;

/// The number of bytes in the middle part of a proof.
pub const TWIST_POINT_LEN: usize = 128;

/// The number of bytes in one public input.
pub const WORD_LEN: usize = 32;

/// The number of public inputs of a loan proof: the loan amount, the
/// commitment, the minimum ratio and the two coordinates of the borrower's key.
pub const INPUT_COUNT: usize = 5;

/// The three parts of a proof, as the verifier takes them.
#[derive(Clone, Debug, PartialEq, Eq)]
pub struct ProofParts {
    pub a: Vec<u8>,
    pub b: Vec<u8>,
    pub c: Vec<u8>,
}

/// Cuts a proof into its three parts; nothing if it does not have the size
/// of a proof.
pub fn split_proof(proof: &Vec<u8>) -> (r: Option<ProofParts>)
    ensures
        match r {
            Some(parts) => {
                &&& proof@.len() == PROOF_LEN
                &&& parts.a@ == proof@.subrange(0, POINT_LEN as int)
                &&& parts.b@ == proof@.subrange(POINT_LEN as int, POINT_LEN + TWIST_POINT_LEN)
                &&& parts.c@ == proof@.subrange(POINT_LEN + TWIST_POINT_LEN, PROOF_LEN as int)
            },
            None => proof@.len() != PROOF_LEN,
        },
{
    if proof.len() != PROOF_LEN {
        return None;
    }
    let a = copy_of_range(proof, 0, POINT_LEN);
    let b = copy_of_range(proof, POINT_LEN, POINT_LEN + TWIST_POINT_LEN);
    let c = copy_of_range(proof, POINT_LEN + TWIST_POINT_LEN, PROOF_LEN);
    Some(ProofParts { a, b, c })
}

/// The public inputs as byte strings.
pub open spec fn words(inputs: Seq<Vec<u8>>) -> Seq<Seq<u8>> {
    inputs.map_values(|w: Vec<u8>| w@)
}

/// The proof and its public inputs have the sizes the verifier takes.
pub open spec fn well_shaped(proof: Seq<u8>, inputs: Seq<Seq<u8>>) -> bool {
    &&& inputs.len() == INPUT_COUNT
    &&& proof.len() == PROOF_LEN
    &&& forall|i: int| 0 <= i < inputs.len() ==> (#[trigger] inputs[i]).len() == WORD_LEN
}

/// The proof stands for this very request: it is well shaped, its first
/// input spells the requested amount, its second input is the commitment the
/// vault holds for the deposit, it is not the all-zero placeholder, and the
/// verifier accepted it.
pub open spec fn proof_binds(
    amount: int,
    proof: Seq<u8>,
    inputs: Seq<Seq<u8>>,
    stored_commitment: Option<Seq<u8>>,
    proof_accepted: bool,
) -> bool {
    &&& well_shaped(proof, inputs)
    &&& be_value(inputs[0]) == amount
    &&& stored_commitment == Some(inputs[1])
    &&& !all_zero(proof)
    &&& proof_accepted
}

/// What `request_loan` answers: the new loan's identifier, or the reason
/// for turning the request down.
pub open spec fn request_decision(
    state: PoolState,
    caller: Seq<char>,
    borrower: Seq<char>,
    deposit_id: u64,
    binds: bool,
) -> Result<u64, ShieldError> {
    if caller != borrower {
        Err(ShieldError::Unauthorized)
    } else if !binds {
        Err(ShieldError::InvalidProof)
    } else if state.deposit_in_use(deposit_id) {
        Err(ShieldError::InsufficientCollateral)
    } else if state.next_loan_id >= u64::MAX {
        Err(ShieldError::InvalidProof)
    } else {
        Ok(state.next_loan_id as u64)
    }
}

/// What `repay_loan` answers: the status that closes the loan, or the reason
/// for turning the call down.
pub open spec fn repay_decision(state: PoolState, caller: Seq<char>, loan_id: u64) -> Result<
    LoanStatus,
    ShieldError,
> {
    if !state.loans.contains_key(loan_id) {
        Err(ShieldError::LoanNotFound)
    } else if state.loans[loan_id].status != LoanStatus::Active {
        Err(ShieldError::AlreadyRepaid)
    } else if state.loans[loan_id].borrower@ == caller {
        Ok(LoanStatus::Repaid)
    } else if state.is_liquidator(caller) {
        Ok(LoanStatus::Liquidated)
    } else {
        Err(ShieldError::Unauthorized)
    }
}

/// The payout of a loan: its amount, from the pool to the borrower.
pub open spec fn payout_of(loan: LoanData) -> Transfer {
    Transfer {
        asset: loan.asset,
        from: Party::Pool,
        to: Party::Account(loan.borrower),
        amount: loan.amount,
    }
}

/// The repayment of a loan by `payer`: its amount, from the payer to the pool.
pub open spec fn repayment_of(loan: LoanData, payer: String) -> Transfer {
    Transfer {
        asset: loan.asset,
        from: Party::Account(payer),
        to: Party::Pool,
        amount: loan.amount,
    }
}

/// Record `j` of `records` is filed under `id`.
pub open spec fn filed_at(records: Seq<LoanData>, id: u64, j: int) -> bool {
    0 <= j < records.len() && records[j].loan_id == id
}

/// The records can be those of a pool whose next loan gets `next_loan_id`:
/// every identifier has been handed out already, none occurs twice, and no
/// deposit backs two active loans.
pub open spec fn restorable(next_loan_id: u64, records: Seq<LoanData>) -> bool {
    &&& 1 <= next_loan_id
    &&& forall|j: int|
        0 <= j < records.len() ==> 1 <= (#[trigger] records[j]).loan_id < next_loan_id
    &&& forall|j: int, k: int|
        0 <= j < k < records.len() ==> (#[trigger] records[j]).loan_id != (
        #[trigger] records[k]).loan_id
    &&& forall|j: int, k: int|
        0 <= j < k < records.len() && (#[trigger] records[j]).status == LoanStatus::Active && (
        #[trigger] records[k]).status == LoanStatus::Active ==> records[j].deposit_id
            != records[k].deposit_id
}

/// The loans of `records`, each under its identifier.
pub open spec fn loans_of(records: Seq<LoanData>) -> Map<u64, LoanData> {
    Map::new(
        |id: u64| exists|j: int| filed_at(records, id, j),
        |id: u64| records[choose|j: int| filed_at(records, id, j)],
    )
}

/// What each party holds of one asset; a party that is not listed holds
/// nothing.
pub open spec fn balance(balances: Map<PartyView, int>, who: PartyView) -> int {
    if balances.contains_key(who) {
        balances[who]
    } else {
        0
    }
}

/// The balances after `transfer` is carried out.
pub open spec fn carry_out(balances: Map<PartyView, int>, transfer: Transfer) -> Map<
    PartyView,
    int,
> {
    let debited = balances.insert(
        transfer.from@,
        balance(balances, transfer.from@) - transfer.amount,
    );
    debited.insert(transfer.to@, balance(debited, transfer.to@) + transfer.amount)
}

/// The loan issuer.
pub struct ShieldLendingPool {
    config: Option<ProtocolConfig>,
    next_loan_id: u64,
    loans: HashMap<u64, LoanData>,
    /// For each deposit that backs an active loan, that loan's identifier.
    active: HashMap<u64, u64>,
}

impl View for ShieldLendingPool {
    type V = PoolState;

    closed spec fn view(&self) -> PoolState {
        PoolState {
            config: self.config,
            next_loan_id: self.next_loan_id as nat,
            loans: self.loans@,
        }
    }
}

impl ShieldLendingPool {
    #[verifier::type_invariant]
    spec fn inv(&self) -> bool {
        &&& 1 <= self.next_loan_id
        &&& forall|id: u64| #[trigger]
            self.loans@.contains_key(id) ==> {
                &&& 1 <= id < self.next_loan_id
                &&& self.loans@[id].loan_id == id
                &&& self.loans@[id].status == LoanStatus::Active ==> {
                    &&& self.active@.contains_key(self.loans@[id].deposit_id)
                    &&& self.active@[self.loans@[id].deposit_id] == id
                }
            }
        &&& forall|d: u64| #[trigger]
            self.active@.contains_key(d) ==> {
                &&& self.loans@.contains_key(self.active@[d])
                &&& self.loans@[self.active@[d]].deposit_id == d
                &&& self.loans@[self.active@[d]].status == LoanStatus::Active
            }
    }

    proof fn lemma_valid(self)
        requires
            self.inv(),
        ensures
            self@.valid(),
            forall|d: u64| self@.deposit_in_use(d) <==> self.active@.contains_key(d),
    {
        assert forall|d: u64| self.active@.contains_key(d) implies self@.deposit_in_use(d) by {
            let id = self.active@[d];
            assert(self@.loans.contains_key(id) && self@.loans[id].deposit_id == d);
        }
    }

    /// A pool that nobody has initialised and that has issued no loan.
    pub fn new() -> (pool: ShieldLendingPool)
        ensures
            pool@.config is None,
            pool@.next_loan_id == 1,
            pool@.loans == Map::<u64, LoanData>::empty(),
            pool@.valid(),
    {
        ShieldLendingPool {
            config: None,
            next_loan_id: 1,
            loans: HashMap::new(),
            active: HashMap::new(),
        }
    }

    /// Names the administrator and the vault. The first call wins: on a pool
    /// that has been initialised already this changes nothing, and succeeds
    /// all the same.
    pub fn initialize(&mut self, admin: String, vault: String) -> (r: Result<(), ShieldError>)
        ensures
            r is Ok,
            final(self)@ == old(self)@.initialize(admin, vault),
            final(self)@.valid(),
    {
        proof {
            use_type_invariant(&*self);
            self.lemma_valid();
        }
        if self.config.is_some() {
            return Ok(());
        }
        self.config = Some(ProtocolConfig { admin, vault, oracle: None, liquidator: None });
        Ok(())
    }

    /// The status of loan `loan_id`.
    pub fn get_loan_status(&self, loan_id: u64) -> (r: Result<LoanStatus, ShieldError>)
        ensures
            match r {
                Ok(status) => self@.loans.contains_key(loan_id) && status
                    == self@.loans[loan_id].status,
                Err(e) => !self@.loans.contains_key(loan_id) && e == ShieldError::LoanNotFound,
            },
    {
        match self.loans.get(&loan_id) {
            Some(loan) => Ok(loan.status),
            None => Err(ShieldError::LoanNotFound),
        }
    }

    /// The record of loan `loan_id`, if there is one.
    pub fn get_loan(&self, loan_id: u64) -> (r: Option<LoanData>)
        ensures
            match r {
                Some(loan) => self@.loans.contains_key(loan_id) && loan == self@.loans[loan_id],
                None => !self@.loans.contains_key(loan_id),
            },
    {
        match self.loans.get(&loan_id) {
            Some(loan) => Some(loan.duplicate()),
            None => None,
        }
    }

    /// Moves the pool's state out, leaving a fresh pool behind. The state is
    /// changed as a whole and put back, so that the invariant that ties its
    /// parts together holds whenever the pool can be seen.
    fn take(&mut self) -> (state: ShieldLendingPool)
        ensures
            state == *old(self),
    {
        let mut state = ShieldLendingPool::new();
        core::mem::swap(self, &mut state);
        state
    }

    /// Whether the proof and its public inputs stand for this request.
    fn check_proof(
        loan_amount: i128,
        proof: &Vec<u8>,
        public_inputs: &Vec<Vec<u8>>,
        evidence: &LoanEvidence,
    ) -> (binds: bool)
        ensures
            binds == evidence.binds(loan_amount as int, proof@, words(public_inputs@)),
    {
        if public_inputs.len() != INPUT_COUNT || proof.len() != PROOF_LEN {
            return false;
        }
        let mut i: usize = 0;
        while i < INPUT_COUNT
            invariant
                i <= INPUT_COUNT,
                public_inputs.len() == INPUT_COUNT,
                forall|j: int|
                    0 <= j < i ==> (#[trigger] words(public_inputs@)[j]).len() == WORD_LEN,
            decreases INPUT_COUNT - i,
        {
            if public_inputs[i].len() != WORD_LEN {
                assert(words(public_inputs@)[i as int].len() != WORD_LEN);
                return false;
            }
            i += 1;
        }
        if !spells_amount(&public_inputs[0], loan_amount) {
            return false;
        }
        let held = match &evidence.stored_commitment {
            Some(c) => same_bytes(c, &public_inputs[1]),
            None => false,
        };
        held && !is_all_zero(proof) && evidence.proof_accepted
    }

    /// Issues a loan of `loan_amount` of `loan_asset` to `borrower` against
    /// deposit `deposit_id`.
    ///
    /// The loan is recorded as active, started at the time the evidence
    /// gives, before the payout is handed back for the token to carry out.
    pub fn request_loan(
        &mut self,
        caller: &String,
        borrower: String,
        deposit_id: u64,
        loan_amount: i128,
        loan_asset: String,
        proof: &Vec<u8>,
        public_inputs: &Vec<Vec<u8>>,
        evidence: &LoanEvidence,
    ) -> (r: Result<LoanIssued, ShieldError>)
        ensures
            final(self)@.valid(),
            r is Err ==> final(self)@ == old(self)@,
            old(self)@.next_loan_id >= u64::MAX ==> r is Err,
            evidence.commitment() != Some(words(public_inputs@)[1]) ==> r is Err,
            be_value(words(public_inputs@)[0]) != loan_amount ==> r is Err,
            match r {
                Ok(issued) => {
                    &&& request_decision(
                        old(self)@,
                        caller@,
                        borrower@,
                        deposit_id,
                        evidence.binds(loan_amount as int, proof@, words(public_inputs@)),
                    ) == Ok::<u64, ShieldError>(issued.loan_id)
                    &&& final(self)@ == old(self)@.issue(
                        LoanData::issued(
                            issued.loan_id,
                            borrower,
                            loan_amount,
                            loan_asset,
                            deposit_id,
                            evidence.now,
                        ),
                    )
                    &&& issued.payout == payout_of(
                        LoanData::issued(
                            issued.loan_id,
                            borrower,
                            loan_amount,
                            loan_asset,
                            deposit_id,
                            evidence.now,
                        ),
                    )
                },
                Err(e) => {
                    &&& request_decision(
                        old(self)@,
                        caller@,
                        borrower@,
                        deposit_id,
                        evidence.binds(loan_amount as int, proof@, words(public_inputs@)),
                    ) == Err::<u64, ShieldError>(e)
                    &&& final(self)@ == old(self)@
                },
            },
    {
        proof {
            use_type_invariant(&*self);
            self.lemma_valid();
        }
        if *caller != borrower {
            return Err(ShieldError::Unauthorized);
        }
        if !Self::check_proof(loan_amount, proof, public_inputs, evidence) {
            return Err(ShieldError::InvalidProof);
        }
        if self.active.contains_key(&deposit_id) {
            return Err(ShieldError::InsufficientCollateral);
        }
        let loan_id: u64 = self.next_loan_id;
        let next: u64 = match loan_id.checked_add(1) {
            Some(next) => next,
            None => {
                return Err(ShieldError::InvalidProof);
            },
        };
        let payout = Transfer {
            asset: loan_asset.clone(),
            from: Party::Pool,
            to: Party::Account(borrower.clone()),
            amount: loan_amount,
        };
        let loan = LoanData {
            loan_id,
            borrower,
            amount: loan_amount,
            asset: loan_asset,
            deposit_id,
            status: LoanStatus::Active,
            start_time: evidence.now,
        };
        let ShieldLendingPool { config, next_loan_id: _, mut loans, mut active } = self.take();
        loans.insert(loan_id, loan);
        active.insert(deposit_id, loan_id);
        *self = ShieldLendingPool { config, next_loan_id: next, loans, active };
        Ok(LoanIssued { loan_id, payout })
    }

    /// Closes loan `loan_id` on behalf of `caller`.
    ///
    /// The borrower closes the loan as repaid, the authorised liquidator as
    /// liquidated; either pays the loan's amount to the pool. The new status
    /// is recorded before the repayment is handed back for the token to
    /// carry out.
    pub fn repay_loan(&mut self, caller: &String, loan_id: u64) -> (r: Result<
        Transfer,
        ShieldError,
    >)
        ensures
            final(self)@.valid(),
            r is Err ==> final(self)@ == old(self)@,
            !old(self)@.loans.contains_key(loan_id) ==> r == Err::<Transfer, ShieldError>(
                ShieldError::LoanNotFound,
            ),
            old(self)@.loans.contains_key(loan_id) && old(self)@.loans[loan_id].status
                != LoanStatus::Active ==> r == Err::<Transfer, ShieldError>(
                ShieldError::AlreadyRepaid,
            ),
            old(self)@.loans.contains_key(loan_id) && old(self)@.loans[loan_id].status
                == LoanStatus::Active && old(self)@.loans[loan_id].borrower@ != caller@
                && !old(self)@.is_liquidator(caller@) ==> r == Err::<Transfer, ShieldError>(
                ShieldError::Unauthorized,
            ),
            match r {
                Ok(repayment) => {
                    &&& repay_decision(old(self)@, caller@, loan_id) is Ok
                    &&& final(self)@ == old(self)@.close(
                        loan_id,
                        repay_decision(old(self)@, caller@, loan_id)->Ok_0,
                    )
                    &&& repayment == repayment_of(old(self)@.loans[loan_id], *caller)
                },
                Err(e) => {
                    &&& repay_decision(old(self)@, caller@, loan_id) == Err::<
                        LoanStatus,
                        ShieldError,
                    >(e)
                    &&& final(self)@ == old(self)@
                },
            },
    {
        proof {
            use_type_invariant(&*self);
            self.lemma_valid();
        }
        let loan = match self.loans.get(&loan_id) {
            Some(loan) => loan.duplicate(),
            None => {
                return Err(ShieldError::LoanNotFound);
            },
        };
        if loan.status != LoanStatus::Active {
            return Err(ShieldError::AlreadyRepaid);
        }
        let status = if *caller == loan.borrower {
            LoanStatus::Repaid
        } else if self.is_liquidator(caller) {
            LoanStatus::Liquidated
        } else {
            return Err(ShieldError::Unauthorized);
        };
        let repayment = Transfer {
            asset: loan.asset.clone(),
            from: Party::Account(caller.clone()),
            to: Party::Pool,
            amount: loan.amount,
        };
        let deposit_id: u64 = loan.deposit_id;
        let closed = LoanData { status, ..loan };
        let ShieldLendingPool { config, next_loan_id, mut loans, mut active } = self.take();
        loans.insert(loan_id, closed);
        active.remove(&deposit_id);
        *self = ShieldLendingPool { config, next_loan_id, loans, active };
        Ok(repayment)
    }

    /// Whether `who` is the liquidator the administrator has authorised.
    fn is_liquidator(&self, who: &String) -> (yes: bool)
        ensures
            yes == self@.is_liquidator(who@),
    {
        match &self.config {
            Some(config) => match &config.liquidator {
                Some(liquidator) => *liquidator == *who,
                None => false,
            },
            None => false,
        }
    }

    /// Whether `who` is the administrator.
    fn is_admin(&self, who: &String) -> (yes: bool)
        ensures
            yes == self@.is_admin(who@),
    {
        match &self.config {
            Some(config) => config.admin == *who,
            None => false,
        }
    }

    /// Names the price oracle. Only the administrator may; on a pool that
    /// has no administrator yet, nobody may.
    pub fn set_oracle(&mut self, caller: &String, oracle_address: String) -> (r: Result<
        (),
        ShieldError,
    >)
        ensures
            final(self)@.valid(),
            match r {
                Ok(_) => {
                    &&& old(self)@.is_admin(caller@)
                    &&& final(self)@ == old(self)@.with_oracle(oracle_address)
                },
                Err(e) => {
                    &&& !old(self)@.is_admin(caller@)
                    &&& e == ShieldError::Unauthorized
                    &&& final(self)@ == old(self)@
                },
            },
    {
        proof {
            use_type_invariant(&*self);
            self.lemma_valid();
        }
        if !self.is_admin(caller) {
            return Err(ShieldError::Unauthorized);
        }
        let ShieldLendingPool { config, next_loan_id, loans, active } = self.take();
        let config = match config {
            Some(c) => Some(ProtocolConfig { oracle: Some(oracle_address), ..c }),
            None => None,
        };
        *self = ShieldLendingPool { config, next_loan_id, loans, active };
        Ok(())
    }

    /// Names the liquidator that may close loans on borrowers' behalf. Only
    /// the administrator may.
    pub fn set_liquidator(&mut self, caller: &String, liquidator: String) -> (r: Result<
        (),
        ShieldError,
    >)
        ensures
            final(self)@.valid(),
            match r {
                Ok(_) => {
                    &&& old(self)@.is_admin(caller@)
                    &&& final(self)@ == old(self)@.with_liquidator(liquidator)
                },
                Err(e) => {
                    &&& !old(self)@.is_admin(caller@)
                    &&& e == ShieldError::Unauthorized
                    &&& final(self)@ == old(self)@
                },
            },
    {
        proof {
            use_type_invariant(&*self);
            self.lemma_valid();
        }
        if !self.is_admin(caller) {
            return Err(ShieldError::Unauthorized);
        }
        let ShieldLendingPool { config, next_loan_id, loans, active } = self.take();
        let config = match config {
            Some(c) => Some(ProtocolConfig { liquidator: Some(liquidator), ..c }),
            None => None,
        };
        *self = ShieldLendingPool { config, next_loan_id, loans, active };
        Ok(())
    }

    /// The pool's configuration, once it has been initialised.
    pub fn get_config(&self) -> (r: Option<ProtocolConfig>)
        ensures
            r == self@.config,
    {
        match &self.config {
            Some(c) => Some(
                ProtocolConfig {
                    admin: c.admin.clone(),
                    vault: c.vault.clone(),
                    oracle: match &c.oracle {
                        Some(o) => Some(o.clone()),
                        None => None,
                    },
                    liquidator: match &c.liquidator {
                        Some(l) => Some(l.clone()),
                        None => None,
                    },
                },
            ),
            None => None,
        }
    }

    /// The identifier that the next loan gets.
    pub fn get_next_loan_id(&self) -> (n: u64)
        ensures
            n == self@.next_loan_id,
    {
        self.next_loan_id
    }

    /// The pool with the given configuration and loans whose next loan gets
    /// `next_loan_id`; nothing if the loans cannot be those of such a pool.
    pub fn restore(config: Option<ProtocolConfig>, next_loan_id: u64, records: Vec<LoanData>) -> (r:
        Option<ShieldLendingPool>)
        ensures
            match r {
                Some(pool) => {
                    &&& restorable(next_loan_id, records@)
                    &&& pool@.config == config
                    &&& pool@.next_loan_id == next_loan_id
                    &&& pool@.loans == loans_of(records@)
                    &&& pool@.valid()
                },
                None => !restorable(next_loan_id, records@),
            },
    {
        if next_loan_id < 1 {
            return None;
        }
        let mut loans: HashMap<u64, LoanData> = HashMap::new();
        let mut active: HashMap<u64, u64> = HashMap::new();
        let mut i: usize = 0;
        while i < records.len()
            invariant
                i <= records.len(),
                1 <= next_loan_id,
                restorable(next_loan_id, records@.take(i as int)),
                forall|id: u64| #[trigger]
                    loans@.contains_key(id) <==> exists|j: int|
                        filed_at(records@.take(i as int), id, j),
                forall|j: int|
                    0 <= j < i ==> #[trigger] loans@[records@[j].loan_id] == records@[j],
                forall|j: int|
                    0 <= j < i && (#[trigger] records@[j]).status == LoanStatus::Active ==> {
                        &&& active@.contains_key(records@[j].deposit_id)
                        &&& active@[records@[j].deposit_id] == records@[j].loan_id
                    },
                forall|d: u64| #[trigger]
                    active@.contains_key(d) ==> exists|j: int|
                        0 <= j < i && (#[trigger] records@[j]).deposit_id == d && records@[j].status
                            == LoanStatus::Active && records@[j].loan_id == active@[d],
            decreases records.len() - i,
        {
            let loan = records[i].duplicate();
            let id: u64 = loan.loan_id;
            let deposit_id: u64 = loan.deposit_id;
            let ghost before = records@.take(i as int);
            let ghost after = records@.take(i + 1);
            if id < 1 || id >= next_loan_id {
                return None;
            }
            if loans.contains_key(&id) {
                proof {
                    let j = choose|j: int| filed_at(before, id, j);
                    assert(records@[j].loan_id == records@[i as int].loan_id);
                }
                return None;
            }
            let is_active = loan.status == LoanStatus::Active;
            if is_active && active.contains_key(&deposit_id) {
                proof {
                    let j = choose|j: int|
                        0 <= j < i && (#[trigger] records@[j]).deposit_id == deposit_id
                            && records@[j].status == LoanStatus::Active && records@[j].loan_id
                            == active@[deposit_id];
                    assert(records@[j].deposit_id == records@[i as int].deposit_id);
                }
                return None;
            }
            let ghost earlier = loans@;
            let ghost earlier_active = active@;
            loans.insert(id, loan);
            if is_active {
                active.insert(deposit_id, id);
            }
            proof {
                assert forall|j: int, k: int| 0 <= j < k < after.len() implies (
                #[trigger] after[j]).loan_id != (#[trigger] after[k]).loan_id by {
                    if k == i {
                        if after[j].loan_id == id {
                            assert(filed_at(before, id, j));
                        }
                    } else {
                        assert(before[j].loan_id != before[k].loan_id);
                    }
                }
                assert forall|j: int, k: int|
                    0 <= j < k < after.len() && (#[trigger] after[j]).status == LoanStatus::Active
                        && (#[trigger] after[k]).status
                        == LoanStatus::Active implies after[j].deposit_id
                    != after[k].deposit_id by {
                    if k == i {
                        assert(records@[j].status == LoanStatus::Active);
                        assert(earlier_active.contains_key(records@[j].deposit_id));
                    } else {
                        assert(before[j].deposit_id != before[k].deposit_id);
                    }
                }
                assert forall|x: u64| #[trigger] loans@.contains_key(x) <==> exists|j: int|
                    filed_at(after, x, j) by {
                    if loans@.contains_key(x) {
                        if x == id {
                            assert(filed_at(after, x, i as int));
                        } else {
                            assert(earlier.contains_key(x));
                            let j = choose|j: int| filed_at(before, x, j);
                            assert(filed_at(after, x, j));
                        }
                    }
                    if exists|j: int| filed_at(after, x, j) {
                        let j = choose|j: int| filed_at(after, x, j);
                        if j < i {
                            assert(filed_at(before, x, j));
                        }
                    }
                }
                assert forall|j: int| 0 <= j < i + 1 implies #[trigger] loans@[records@[j].loan_id]
                    == records@[j] by {
                    if j < i {
                        assert(filed_at(before, records@[j].loan_id, j));
                        assert(earlier.contains_key(records@[j].loan_id));
                    }
                }
                assert forall|d: u64| #[trigger] active@.contains_key(d) implies exists|j: int|
                    0 <= j < i + 1 && (#[trigger] records@[j]).deposit_id == d && records@[j].status
                        == LoanStatus::Active && records@[j].loan_id == active@[d] by {
                    if is_active && d == deposit_id {
                        assert(records@[i as int].deposit_id == d);
                    } else {
                        assert(earlier_active.contains_key(d));
                        let j = choose|j: int|
                            0 <= j < i && (#[trigger] records@[j]).deposit_id == d
                                && records@[j].status == LoanStatus::Active && records@[j].loan_id
                                == earlier_active[d];
                        assert(records@[j].deposit_id == d);
                    }
                }
            }
            i += 1;
        }
        proof {
            assert(records@.take(i as int) =~= records@);
            assert forall|id: u64| #[trigger] loans@.contains_key(id) implies {
                &&& 1 <= id < next_loan_id
                &&& loans@[id].loan_id == id
                &&& loans@[id].status == LoanStatus::Active ==> {
                    &&& active@.contains_key(loans@[id].deposit_id)
                    &&& active@[loans@[id].deposit_id] == id
                }
            } by {
                let j = choose|j: int| filed_at(records@, id, j);
                assert(loans@[records@[j].loan_id] == records@[j]);
            }
            assert forall|d: u64| #[trigger] active@.contains_key(d) implies {
                &&& loans@.contains_key(active@[d])
                &&& loans@[active@[d]].deposit_id == d
                &&& loans@[active@[d]].status == LoanStatus::Active
            } by {
                let j = choose|j: int|
                    0 <= j < i && (#[trigger] records@[j]).deposit_id == d && records@[j].status
                        == LoanStatus::Active && records@[j].loan_id == active@[d];
                assert(filed_at(records@, records@[j].loan_id, j));
                assert(loans@[records@[j].loan_id] == records@[j]);
            }
            assert forall|id: u64| loans_of(records@).contains_key(id) implies #[trigger] loans@[id]
                == loans_of(records@)[id] by {
                let j = choose|j: int| filed_at(records@, id, j);
                assert(loans@[records@[j].loan_id] == records@[j]);
            }
            assert(loans@ =~= loans_of(records@));
        }
        let pool = ShieldLendingPool { config, next_loan_id, loans, active };
        proof {
            pool.lemma_valid();
        }
        Some(pool)
    }
}

/// Initialising twice is initialising once: whatever the second call names,
/// the administrator and the vault stay those of the first.
pub proof fn lemma_initialize_is_idempotent(
    state: PoolState,
    admin: String,
    vault: String,
    other_admin: String,
    other_vault: String,
)
    ensures
        state.initialize(admin, vault).initialize(other_admin, other_vault) == state.initialize(
            admin,
            vault,
        ),
        state.config is None ==> state.initialize(admin, vault).initialize(
            other_admin,
            other_vault,
        ).config == Some(ProtocolConfig::first(admin, vault)),
{
}

/// A closed loan stays closed: whoever calls, `repay_loan` turns the call
/// down with `AlreadyRepaid`, so neither final status is ever left again.
pub proof fn lemma_closed_loan_stays_closed(state: PoolState, caller: Seq<char>, loan_id: u64)
    requires
        state.loans.contains_key(loan_id),
        state.loans[loan_id].status != LoanStatus::Active,
    ensures
        repay_decision(state, caller, loan_id) == Err::<LoanStatus, ShieldError>(
            ShieldError::AlreadyRepaid,
        ),
{
}

/// Nothing the pool does turns its counter back, and nothing but issuing a
/// loan moves it: it then goes up by one.
pub proof fn lemma_counter_never_decreases(
    state: PoolState,
    loan: LoanData,
    loan_id: u64,
    status: LoanStatus,
    admin: String,
    vault: String,
    oracle: String,
    liquidator: String,
)
    ensures
        state.issue(loan).next_loan_id == state.next_loan_id + 1,
        state.initialize(admin, vault).next_loan_id == state.next_loan_id,
        state.close(loan_id, status).next_loan_id == state.next_loan_id,
        state.with_oracle(oracle).next_loan_id == state.next_loan_id,
        state.with_liquidator(liquidator).next_loan_id == state.next_loan_id,
{
}

/// Issuing a loan never touches what was there: the loan is filed under an
/// identifier that was not in use, and every earlier loan stays as it was.
pub proof fn lemma_issue_keeps_earlier_loans(state: PoolState, loan: LoanData)
    requires
        state.valid(),
        state.next_loan_id < u64::MAX,
    ensures
        !state.loans.contains_key(state.next_loan_id as u64),
        state.issue(loan).loans[state.next_loan_id as u64] == loan,
        forall|id: u64| #[trigger]
            state.loans.contains_key(id) ==> state.issue(loan).loans.contains_key(id)
                && state.issue(loan).loans[id] == state.loans[id],
        state.issue(loan).config == state.config,
{
    if state.loans.contains_key(state.next_loan_id as u64) {
        assert((state.next_loan_id as u64) < state.next_loan_id);
    }
}

/// Closing a loan changes its status and nothing else: not the loan's other
/// fields, not any other loan, not the configuration.
pub proof fn lemma_close_changes_only_the_status(state: PoolState, loan_id: u64, status: LoanStatus)
    requires
        state.valid(),
        state.loans.contains_key(loan_id),
        status != LoanStatus::Active,
    ensures
        state.close(loan_id, status).valid(),
        state.close(loan_id, status).loans[loan_id] == state.loans[loan_id].with_status(status),
        state.close(loan_id, status).loans.dom() == state.loans.dom(),
        forall|id: u64|
            id != loan_id && #[trigger] state.loans.contains_key(id) ==> state.close(
                loan_id,
                status,
            ).loans[id] == state.loans[id],
        state.close(loan_id, status).config == state.config,
{
    assert(state.close(loan_id, status).loans.dom() =~= state.loans.dom());
}

/// The liquidator that the administrator has named closes an active loan
/// of somebody else as liquidated, and pays for it.
pub proof fn lemma_liquidator_closes_as_liquidated(
    state: PoolState,
    liquidator: String,
    loan_id: u64,
)
    requires
        state.loans.contains_key(loan_id),
        state.loans[loan_id].status == LoanStatus::Active,
        state.is_liquidator(liquidator@),
        state.loans[loan_id].borrower@ != liquidator@,
    ensures
        repay_decision(state, liquidator@, loan_id) == Ok::<LoanStatus, ShieldError>(
            LoanStatus::Liquidated,
        ),
        state.close(loan_id, LoanStatus::Liquidated).loans[loan_id].status
            == LoanStatus::Liquidated,
        repayment_of(state.loans[loan_id], liquidator).from@ == PartyView::Account(liquidator@),
        repayment_of(state.loans[loan_id], liquidator).to@ == PartyView::Pool,
        repayment_of(state.loans[loan_id], liquidator).amount == state.loans[loan_id].amount,
{
}

/// The life of a loan. Once issued it is active and its deposit is in use;
/// its borrower may close it, as repaid, and then nobody may close it again.
/// The payout moves the amount from the pool to the borrower, and the
/// borrower's repayment moves it back, so that every balance is what it was.
pub proof fn lemma_loan_lifecycle(
    state: PoolState,
    loan: LoanData,
    payer: String,
    anyone: Seq<char>,
    balances: Map<PartyView, int>,
)
    requires
        state.valid(),
        state.next_loan_id < u64::MAX,
        loan.loan_id == state.next_loan_id,
        loan.status == LoanStatus::Active,
        !state.deposit_in_use(loan.deposit_id),
        payer@ == loan.borrower@,
    ensures
        ({
            let id = loan.loan_id;
            let issued = state.issue(loan);
            let repaid = issued.close(id, LoanStatus::Repaid);
            let paid_out = carry_out(balances, payout_of(loan));
            let paid_back = carry_out(paid_out, repayment_of(loan, payer));
            &&& issued.valid()
            &&& issued.loans[id] == loan
            &&& issued.deposit_in_use(loan.deposit_id)
            &&& repay_decision(issued, payer@, id) == Ok::<LoanStatus, ShieldError>(
                LoanStatus::Repaid,
            )
            &&& repaid.valid()
            &&& repaid.loans[id].status == LoanStatus::Repaid
            &&& repay_decision(repaid, anyone, id) == Err::<LoanStatus, ShieldError>(
                ShieldError::AlreadyRepaid,
            )
            &&& balance(paid_out, PartyView::Account(loan.borrower@)) == balance(
                balances,
                PartyView::Account(loan.borrower@),
            ) + loan.amount
            &&& balance(paid_out, PartyView::Pool) == balance(balances, PartyView::Pool)
                - loan.amount
            &&& forall|who: PartyView| balance(paid_back, who) == balance(balances, who)
        }),
{
    let id = loan.loan_id;
    let issued = state.issue(loan);
    assert(issued.loans.contains_key(id) && issued.loans[id].deposit_id == loan.deposit_id);
    assert forall|a: u64, b: u64|
        issued.loans.contains_key(a) && issued.loans.contains_key(b) && (
        #[trigger] issued.loans[a]).status == LoanStatus::Active && (
        #[trigger] issued.loans[b]).status == LoanStatus::Active && issued.loans[a].deposit_id
            == issued.loans[b].deposit_id implies a == b by {
        if a != b {
            if a == id {
                assert(state.loans.contains_key(b) && state.loans[b].deposit_id == loan.deposit_id);
            } else if b == id {
                assert(state.loans.contains_key(a) && state.loans[a].deposit_id == loan.deposit_id);
            }
        }
    }
}

} // verus!
