//! Answering a request for the taxes of a list of tokens: which call to
//! simulate next, and what each simulated outcome makes of the answer.
//!
//! The caller runs the simulations. It starts with [`token_tax_setup`],
//! then repeatedly asks [`TokenTaxQuery::next_step`] what to run and reports
//! how it ended with [`TokenTaxQuery::record_outcome`], until the step is
//! [`TaxStep::Done`].

use vstd::prelude::*;

use crate::abi::{be_value, is_address_return, keccak256_digest};
use crate::hex::{prefixed_hex, prefixed_hex_string};
use crate::primitives::{u256_max_value, Address, U256};
use crate::simulator::simulator::SimulatorErrors;
use crate::simulator::tax_checker::{
    is_get_tax_result, inject_tax_checker_code, is_checker_account, is_controller_account,
    lemma_checker_accounts, TaxChecker,
};
use crate::utils::{
    get_pair_calldata, get_tax_calldata, lemma_pair_result_meaning, is_fake_approval, is_pair_result, pair_tokens,
    tax_field_update, uint_word, univ2_factory_bytes, insert_fake_approval,
    CallOutcome, ContractCall, StateOverlay, StorageWrite, TaxCallError, TaxCallResult, TaxInfo,
};

verus! {

/// A request that cannot be answered.
#[derive(Clone, Copy, Debug, PartialEq, Eq)]
pub enum TokenTaxError {
    /// The request names no token.
    NoTokenProvided,
}

impl TokenTaxError {
    /// The JSON-RPC error code of the refusal.
    pub fn code(&self) -> (r: i32)
        ensures
            r == -1,
    {
        -1
    }

    /// The JSON-RPC error message of the refusal.
    pub fn message(&self) -> (r: &'static str)
        ensures
            r@ == "No token provided"@,
    {
        "No token provided"
    }
}

/// The transaction settings of every simulated call.
#[derive(Clone, Copy, Debug)]
pub struct TxSettings {
    pub caller: Address,
    pub gas_limit: u64,
    pub gas_price: U256,
}

/// What the caller is to do next.
#[derive(Clone, Debug)]
pub enum TaxStep {
    /// Simulate this call (the pair lookup of the current token) and report how it ended.
    CallPair(ContractCall),
    /// Lay these storage writes over the simulated state, then simulate this
    /// call (the tax check of the current token) and report how it ended.
    CallTax(StateOverlay, ContractCall),
    /// Every token has its answer.
    Done,
}

/// The progress of a request: the tokens asked about, the answers so far (one
/// per token, in order), and the pair of the current token once it is known.
#[derive(Clone, Debug)]
pub struct TokenTaxQuery {
    pub tokens: Vec<Address>,
    pub results: Vec<TaxCallResult>,
    pub pair: Option<Address>,
    pub checker: Address,
}

/// The answer `r` is about token `t` (a halted pair lookup names no token).
pub open spec fn answers_token(r: TaxCallResult, t: Address) -> bool {
    match r {
        TaxCallResult::Success(info) => info.token == t,
        TaxCallResult::CallError(e) => match e {
            TaxCallError::PairAddressDoesNotExist(a) => a == t,
            TaxCallError::CallingPairReverts(a, _) => a == t,
            TaxCallError::CallingPairHalt => true,
            TaxCallError::CallingTaxError(a, _) => a == t,
        },
    }
}

/// What the tax check of token `t` gives for each way the call can end.
pub open spec fn is_tax_result(t: Address, outcome: CallOutcome, r: TaxCallResult) -> bool {
    match outcome {
        CallOutcome::Success(out) => r matches TaxCallResult::Success(info) && info.token == t
            && tax_field_update(None, be_value(out@.take(32)), info.buy) && tax_field_update(
            None,
            be_value(out@.skip(32)),
            info.sell,
        ),
        CallOutcome::Revert(out) => r matches TaxCallResult::CallError(
            TaxCallError::CallingTaxError(a, m),
        ) && a == t && m@ == prefixed_hex(out@),
        CallOutcome::Halt => r matches TaxCallResult::CallError(TaxCallError::CallingTaxError(a, m))
            && a == t && m@ == prefixed_hex(Seq::empty()),
    }
}

/// What [`token_tax_setup`] gives.
pub open spec fn is_token_tax_setup(checker: TaxChecker, setup: StateOverlay, settings: TxSettings) -> bool {
    &&& setup.storage@.len() == 0
    &&& setup.accounts@.len() == 2
    &&& is_checker_account(setup.accounts@[0], checker)
    &&& is_controller_account(setup.accounts@[1], checker)
    &&& settings.caller == checker.controller
    &&& settings.gas_limit == 7000000
    &&& settings.gas_price@ == 100000000000
}

/// The setup funds the account that sends every simulated call: the second
/// account written is the settings' caller (the checker's controller), with
/// 69 ether and no code, while the first is the checker with its code; calls
/// get a gas limit of 7000000 and a gas price of 100 gwei.
pub proof fn lemma_setup_funds_the_caller(checker: TaxChecker, setup: StateOverlay, settings: TxSettings)
    requires
        is_token_tax_setup(checker, setup, settings),
    ensures
        setup.accounts@.len() == 2,
        setup.accounts@[1].address == settings.caller,
        settings.caller == checker.controller,
        setup.accounts@[1].balance@ == 69000000000000000000,
        setup.accounts@[1].code@.len() == 0,
        setup.accounts@[0].address == checker.address,
        setup.accounts@[0].code@ == checker.code@,
        setup.accounts@[0].balance@ == 0,
        setup.accounts@[0].code_hash@ == keccak256_digest(checker.code@),
        setup.accounts@[1].code_hash@ == keccak256_digest(Seq::<u8>::empty()),
        setup.storage@.len() == 0,
        settings.gas_limit == 7000000,
        settings.gas_price@ == 100000000000,
{
    lemma_checker_accounts(setup.accounts@[0], setup.accounts@[1], checker);
}

/// The state changes and transaction settings shared by every simulated call:
/// the checker deployed and its controller funded, calls sent by the
/// controller with a gas limit of 7000000 and a gas price of 100 gwei.
pub fn token_tax_setup(checker: &TaxChecker) -> (r: (StateOverlay, TxSettings))
    ensures
        r.0.storage@.len() == 0,
        r.0.accounts@.len() == 2,
        is_checker_account(r.0.accounts@[0], *checker),
        is_controller_account(r.0.accounts@[1], *checker),
        r.1.caller == checker.controller,
        r.1.gas_limit == 7000000,
        r.1.gas_price@ == 100000000000,
        is_token_tax_setup(*checker, r.0, r.1),
{
    let mut db = StateOverlay::new();
    inject_tax_checker_code(checker, &mut db);
    let settings = TxSettings {
        caller: checker.controller,
        gas_limit: 7000000,
        gas_price: U256::from_u64(100000000000),
    };
    (db, settings)
}

/// What recording `outcome` makes of `before`: the token at the next place is
/// answered from its own calls' outcomes alone. A pair lookup either finds the
/// pair (kept for the tax check) or answers the token with its error; a tax
/// check answers the token.
pub open spec fn is_recorded(before: TokenTaxQuery, outcome: CallOutcome, after: TokenTaxQuery) -> bool {
    let k = before.results@.len() as int;
    let t = before.tokens@[k];
    &&& after.tokens@ == before.tokens@
    &&& after.checker == before.checker
    &&& match before.pair {
        None => match after.pair {
            Some(p) => after.results@ == before.results@ && is_pair_result(t, outcome, Ok(p)),
            None => {
                &&& after.results@.len() == k + 1
                &&& after.results@.take(k) == before.results@
                &&& after.results@[k] matches TaxCallResult::CallError(e) && is_pair_result(
                    t,
                    outcome,
                    Err(e),
                )
            },
        },
        Some(_) => after.pair is None && after.results@.len() == k + 1 && after.results@.take(k)
            == before.results@ && is_tax_result(t, outcome, after.results@[k]),
    }
}

/// Two optional taxes hold the same value, or are both absent.
pub open spec fn same_tax(a: Option<U256>, b: Option<U256>) -> bool {
    match (a, b) {
        (None, None) => true,
        (Some(x), Some(y)) => x@ == y@,
        _ => false,
    }
}

/// Two answers say the same: the same kind, token, taxes and text.
pub open spec fn answers_agree(r1: TaxCallResult, r2: TaxCallResult) -> bool {
    match (r1, r2) {
        (TaxCallResult::Success(a), TaxCallResult::Success(b)) => a.token == b.token && same_tax(
            a.buy,
            b.buy,
        ) && same_tax(a.sell, b.sell),
        (TaxCallResult::CallError(e1), TaxCallResult::CallError(e2)) => match (e1, e2) {
            (
                TaxCallError::PairAddressDoesNotExist(a),
                TaxCallError::PairAddressDoesNotExist(b),
            ) => a == b,
            (TaxCallError::CallingPairReverts(a, m), TaxCallError::CallingPairReverts(b, n)) => a
                == b && m@ == n@,
            (TaxCallError::CallingPairHalt, TaxCallError::CallingPairHalt) => true,
            (TaxCallError::CallingTaxError(a, m), TaxCallError::CallingTaxError(b, n)) => a == b
                && m@ == n@,
            _ => false,
        },
        _ => false,
    }
}

impl TokenTaxQuery {
    /// The request's progress is consistent: no more answers than tokens, a
    /// known pair only while its token is unanswered, and each answer about
    /// the token at its place.
    pub open spec fn wf(&self) -> bool {
        &&& self.results@.len() <= self.tokens@.len()
        &&& self.pair is Some ==> self.results@.len() < self.tokens@.len()
        &&& forall|i: int|
            0 <= i < self.results@.len() ==> answers_token(
                #[trigger] self.results@[i],
                self.tokens@[i],
            )
    }

    /// Every token has its answer.
    pub open spec fn done(&self) -> bool {
        self.results@.len() == self.tokens@.len()
    }

    /// The calls still to simulate, at most.
    pub open spec fn remaining(&self) -> int {
        2 * (self.tokens@.len() - self.results@.len()) - (if self.pair is Some {
            1int
        } else {
            0int
        })
    }

    /// The outcome can be reported now: the lookup of a pair must have
    /// returned one ABI-encoded address, and the tax check two words, where
    /// they succeeded (strict decoding of anything else fails).
    pub open spec fn accepts(&self, outcome: CallOutcome) -> bool {
        match self.pair {
            None => outcome matches CallOutcome::Success(out) ==> is_address_return(out@),
            Some(_) => outcome matches CallOutcome::Success(out) ==> out@.len() == 64,
        }
    }

    /// Starts a request; a request that names no token is refused.
    pub fn new(tokens: Vec<Address>, checker: Address) -> (r: Result<TokenTaxQuery, TokenTaxError>)
        ensures
            tokens@.len() == 0 <==> r is Err,
            r matches Ok(q) ==> {
                &&& q.wf()
                &&& q.tokens@ == tokens@
                &&& q.results@.len() == 0
                &&& q.pair is None
                &&& q.checker == checker
            },
    {
        if tokens.len() == 0 {
            return Err(TokenTaxError::NoTokenProvided);
        }
        Ok(TokenTaxQuery { tokens, results: Vec::new(), pair: None, checker })
    }

    /// Every token has its answer.
    pub fn is_done(&self) -> (r: bool)
        ensures
            r == self.done(),
    {
        self.results.len() == self.tokens.len()
    }

    /// Whether [`TokenTaxQuery::record_outcome`] takes this outcome now.
    pub fn accepts_outcome(&self, outcome: &CallOutcome) -> (r: bool)
        ensures
            r == self.accepts(*outcome),
    {
        match (&self.pair, outcome) {
            (None, CallOutcome::Success(out)) => crate::abi::decode_address_return(
                out.as_slice(),
            ).is_some(),
            (Some(_), CallOutcome::Success(out)) => out.len() == 64,
            _ => true,
        }
    }

    /// What to simulate next: the pair lookup of the first unanswered token,
    /// or its tax check once its pair is known (after the fake approval of the
    /// pair's tokens to the checker), or nothing.
    pub fn next_step(&self) -> (r: TaxStep)
        requires
            self.wf(),
        ensures
            self.done() <==> r is Done,
            r matches TaxStep::CallPair(call) ==> {
                let t = self.tokens@[self.results@.len() as int];
                &&& self.pair is None
                &&& call.to@ == univ2_factory_bytes()
                &&& call.data@ == get_pair_calldata(pair_tokens(t@).0, pair_tokens(t@).1)
                &&& call.data@.len() == 68
            },
            r matches TaxStep::CallTax(writes, call) ==> {
                let t = self.tokens@[self.results@.len() as int];
                &&& self.pair matches Some(p)
                &&& writes.accounts@.len() == 0
                &&& is_fake_approval(
                    Seq::empty(),
                    writes.storage@,
                    t,
                    p,
                    self.checker,
                    u256_max_value(),
                )
                &&& call.to == self.checker
                &&& call.data@ == get_tax_calldata(p@, t@, uint_word(997))
                &&& call.data@.len() == 100
            },
    {
        let k = self.results.len();
        if k == self.tokens.len() {
            return TaxStep::Done;
        }
        let token = self.tokens[k];
        let info = TaxInfo::new(token);
        match self.pair {
            None => TaxStep::CallPair(info.pair_call()),
            Some(pair) => {
                let mut writes = StateOverlay::new();
                assert(writes.storage@ =~= Seq::<StorageWrite>::empty());
                insert_fake_approval(token, pair, self.checker, &mut writes);
                let data = info.encode_call(pair);
                TaxStep::CallTax(writes, ContractCall { to: self.checker, data })
            },
        }
    }

    /// Records how the step from [`TokenTaxQuery::next_step`] ended. A pair
    /// lookup either finds the pair (the tax check comes next) or answers the
    /// token with its error; a tax check answers the token.
    pub fn record_outcome(&mut self, outcome: CallOutcome)
        requires
            old(self).wf(),
            !old(self).done(),
            old(self).accepts(outcome),
        ensures
            final(self).wf(),
            final(self).tokens@ == old(self).tokens@,
            final(self).checker == old(self).checker,
            final(self).remaining() < old(self).remaining(),
            is_recorded(*old(self), outcome, *final(self)),
    {
        let k = self.results.len();
        let token = self.tokens[k];
        let ghost before = self.results@;
        match self.pair {
            None => {
                let info = TaxInfo::new(token);
                match info.get_pair_address(&outcome) {
                    Ok(pair) => {
                        self.pair = Some(pair);
                    },
                    Err(e) => {
                        self.results.push(TaxCallResult::CallError(e));
                        assert(self.results@.take(k as int) =~= before);
                    },
                }
            },
            Some(_) => {
                let answer = match outcome {
                    CallOutcome::Success(output) => {
                        let mut info = TaxInfo::new(token);
                        info.decode_success_call(output.as_slice());
                        TaxCallResult::Success(info)
                    },
                    CallOutcome::Revert(output) => TaxCallResult::CallError(
                        TaxCallError::CallingTaxError(token, prefixed_hex_string(output.as_slice())),
                    ),
                    CallOutcome::Halt => {
                        let no_output: Vec<u8> = Vec::new();
                        assert(no_output@ =~= Seq::<u8>::empty());
                        TaxCallResult::CallError(
                            TaxCallError::CallingTaxError(
                                token,
                                prefixed_hex_string(no_output.as_slice()),
                            ),
                        )
                    },
                };
                self.pair = None;
                self.results.push(answer);
                assert(self.results@.take(k as int) =~= before);
            },
        }
        assert forall|i: int| 0 <= i < self.results@.len() implies answers_token(
            #[trigger] self.results@[i],
            self.tokens@[i],
        ) by {
            if i < k {
                assert(self.results@[i] == before[i]);
            }
        }
    }

    /// The answers, one per token.
    pub fn into_results(self) -> (r: Vec<TaxCallResult>)
        ensures
            r@ == self.results@,
    {
        self.results
    }
}

/// Once a request is done, it holds exactly one answer per token, in the
/// order of the tokens, each about its token.
pub proof fn lemma_done_answers_every_token(q: TokenTaxQuery)
    requires
        q.wf(),
        q.done(),
    ensures
        q.results@.len() == q.tokens@.len(),
        forall|i: int|
            0 <= i < q.tokens@.len() ==> answers_token(#[trigger] q.results@[i], q.tokens@[i]),
{
}

/// The tax check of a token in a request and the sandbox measurement agree on
/// the same two-word output: where `get_tax_result` reports `(b, s)`, the
/// request answers the token with buy `b / 100` if `b > 99` (else none) and
/// likewise for sell.
pub proof fn lemma_tax_check_agrees_with_get_tax(
    t: Address,
    out: Vec<u8>,
    b: U256,
    s: U256,
    r: TaxCallResult,
)
    requires
        is_get_tax_result(Ok::<Vec<u8>, SimulatorErrors>(out), Some((b, s))),
        out@.len() == 64,
        is_tax_result(t, CallOutcome::Success(out), r),
    ensures
        r matches TaxCallResult::Success(info) && info.token == t && tax_field_update(
            None,
            b@,
            info.buy,
        ) && tax_field_update(None, s@, info.sell),
{
    assert(out@.take(32) =~= out@.subrange(0, 32));
    assert(out@.skip(32) =~= out@.subrange(32, 64));
}

/// A token's answer does not depend on its request: whatever the other
/// tokens, their order or its own place, a token whose calls end the same way
/// gets the same next state (the same pair kept, or one answer added) and
/// answers that agree.
pub proof fn lemma_answer_independent_of_batch(
    q1: TokenTaxQuery,
    q2: TokenTaxQuery,
    n1: TokenTaxQuery,
    n2: TokenTaxQuery,
    outcome: CallOutcome,
)
    requires
        q1.wf(),
        q2.wf(),
        !q1.done(),
        !q2.done(),
        q1.tokens@[q1.results@.len() as int] == q2.tokens@[q2.results@.len() as int],
        q1.pair == q2.pair,
        is_recorded(q1, outcome, n1),
        is_recorded(q2, outcome, n2),
    ensures
        n1.pair == n2.pair,
        n1.results@.len() - q1.results@.len() == n2.results@.len() - q2.results@.len(),
        n1.results@.len() > q1.results@.len() ==> answers_agree(
            n1.results@[q1.results@.len() as int],
            n2.results@[q2.results@.len() as int],
        ),
{
    let k1 = q1.results@.len() as int;
    let k2 = q2.results@.len() as int;
    if q1.pair is None {
        match (n1.pair, n2.pair) {
            (Some(p1), Some(p2)) => {
                crate::abi::lemma_address_word_roundtrip(p1, p2);
            },
            _ => {},
        }
    } else {
        match outcome {
            CallOutcome::Success(out) => {
                let r1 = n1.results@[k1];
                let r2 = n2.results@[k2];
                if let (TaxCallResult::Success(a), TaxCallResult::Success(b)) = (r1, r2) {
                    assert(same_tax(a.buy, b.buy));
                    assert(same_tax(a.sell, b.sell));
                }
            },
            _ => {},
        }
    }
}

/// The answer a tax check records for its token: a success only when the
/// check succeeded, with each tax above 99 basis points in whole percent; a
/// reverted check is a `CallingTaxError` naming the token with the revert
/// output as hex text, a halted one the same with the text `0x`.
pub proof fn lemma_tax_check_answer(before: TokenTaxQuery, outcome: CallOutcome, after: TokenTaxQuery)
    requires
        before.wf(),
        !before.done(),
        before.pair is Some,
        is_recorded(before, outcome, after),
    ensures
        after.pair is None,
        after.results@.len() == before.results@.len() + 1,
        after.results@.take(before.results@.len() as int) == before.results@,
        (after.results@[before.results@.len() as int] is Success) <==> (outcome is Success),
        ({
            let k = before.results@.len() as int;
            let t = before.tokens@[k];
            let r = after.results@[k];
            match outcome {
                CallOutcome::Success(out) => {
                    &&& r matches TaxCallResult::Success(info) && info.token == t && (be_value(
                        out@.take(32),
                    ) > 99 ==> (info.buy matches Some(q) && q@ == be_value(out@.take(32)) / 100))
                        && (be_value(out@.take(32)) <= 99 ==> info.buy is None) && (be_value(
                        out@.skip(32),
                    ) > 99 ==> (info.sell matches Some(q) && q@ == be_value(out@.skip(32)) / 100))
                        && (be_value(out@.skip(32)) <= 99 ==> info.sell is None)
                },
                CallOutcome::Revert(out) => r matches TaxCallResult::CallError(
                    TaxCallError::CallingTaxError(a, m),
                ) && a == t && m@ == prefixed_hex(out@),
                CallOutcome::Halt => r matches TaxCallResult::CallError(
                    TaxCallError::CallingTaxError(a, m),
                ) && a == t && m@ == seq!['0', 'x'],
            }
        }),
{
    assert(prefixed_hex(Seq::empty()) =~= seq!['0', 'x']);
}

/// The answer a pair lookup records: the zero address (all twenty bytes
/// zero) answers the token with `PairAddressDoesNotExist`; any other address
/// is kept as the token's pair (no answer yet); a revert answers
/// `CallingPairReverts` with its output as hex text; a halt `CallingPairHalt`.
pub proof fn lemma_pair_lookup_answer(before: TokenTaxQuery, outcome: CallOutcome, after: TokenTaxQuery)
    requires
        before.wf(),
        !before.done(),
        before.pair is None,
        before.accepts(outcome),
        is_recorded(before, outcome, after),
    ensures
        ({
            let k = before.results@.len() as int;
            let t = before.tokens@[k];
            match outcome {
                CallOutcome::Success(out) => {
                    &&& (forall|i: int| 12 <= i < 32 ==> out@[i] == 0) ==> {
                        &&& after.pair is None
                        &&& after.results@.len() == k + 1
                        &&& after.results@.take(k) == before.results@
                        &&& after.results@[k] matches TaxCallResult::CallError(
                            TaxCallError::PairAddressDoesNotExist(a),
                        ) && a == t
                    }
                    &&& (exists|i: int| 12 <= i < 32 && out@[i] != 0) ==> {
                        &&& after.pair matches Some(p) && p@ == out@.subrange(12, 32)
                        &&& after.results@ == before.results@
                    }
                },
                CallOutcome::Revert(out) => {
                    &&& after.pair is None
                    &&& after.results@.len() == k + 1
                    &&& after.results@.take(k) == before.results@
                    &&& after.results@[k] matches TaxCallResult::CallError(
                        TaxCallError::CallingPairReverts(a, m),
                    ) && a == t && m@ == prefixed_hex(out@)
                },
                CallOutcome::Halt => {
                    &&& after.pair is None
                    &&& after.results@.len() == k + 1
                    &&& after.results@.take(k) == before.results@
                    &&& after.results@[k] matches TaxCallResult::CallError(
                        TaxCallError::CallingPairHalt,
                    )
                },
            }
        }),
{
    let k = before.results@.len() as int;
    let t = before.tokens@[k];
    match after.pair {
        Some(p) => {
            lemma_pair_result_meaning(t, outcome, Ok(p));
        },
        None => {
            if let TaxCallResult::CallError(e) = after.results@[k] {
                lemma_pair_result_meaning(t, outcome, Err(e));
            }
        },
    }
}

/// A request makes progress: every recorded outcome brings it closer to done,
/// and it is done exactly when no step is left.
pub proof fn lemma_request_terminates(q: TokenTaxQuery)
    requires
        q.wf(),
    ensures
        q.remaining() >= 0,
        q.remaining() == 0 <==> q.done(),
{
}

} // verus!
