//! The pool's persisted state and the handlers that change it: construction,
//! metadata completions, wallet requests and deposit notifications.

use crate::big::BigProduct;
use crate::decimal::{dec_of, from_decimal_string, parse_decimal, to_decimal_string};
use vstd::prelude::*;

verus! {

/// Why a handler refused a call. A refused call changes nothing.
#[derive(Clone, Copy, Debug, PartialEq, Eq, Structural)]
pub enum PoolError {
    /// The pool's state already exists.
    AlreadyInitialized,
    /// The caller may not make this call.
    Unauthorized,
    /// A metadata completion names an asset that is not part of the pool.
    UnknownAsset,
    /// A deposit was reported by a service that is not one of the pool's assets.
    UnknownCaller,
    /// The pool itself is named as the depositor.
    SelfDeposit,
    /// The stored invariant is not a decimal number.
    InvalidInvariant,
    /// The metadata of both assets has not arrived yet.
    NotReady,
    /// The pool has no price yet.
    ZeroInvariant,
    /// A reserve would exceed 128 bits.
    ReserveOverflow,
    /// The pool cannot pay out at this price.
    InsufficientLiquidity,
}

/// One asset of the pool: its service's account, its display name, the
/// pool's current holding of it, and its decimals.
#[derive(Debug)]
pub struct PoolTokenInfo {
    pub account_id: String,
    pub name: String,
    pub reserve: u128,
    pub decimals: u8,
}

impl PoolTokenInfo {
    /// A field-by-field copy.
    pub fn snapshot(&self) -> (r: PoolTokenInfo)
        ensures
            r == *self,
    {
        PoolTokenInfo {
            account_id: self.account_id.clone(),
            name: self.name.clone(),
            reserve: self.reserve,
            decimals: self.decimals,
        }
    }
}

/// The pool's whole state: governance account, both assets, readiness and
/// the invariant as decimal text.
#[derive(Debug)]
pub struct AMMContract {
    pub gov: String,
    pub token_a: PoolTokenInfo,
    pub token_b: PoolTokenInfo,
    pub ready: bool,
    pub k: String,
}

/// What the pool reports about itself.
#[derive(Debug)]
pub struct AMMMetaData {
    pub token_a: PoolTokenInfo,
    pub token_b: PoolTokenInfo,
    pub ratio: String,
}

/// A transfer that the pool asks an asset service to make.
#[derive(Debug)]
pub struct Payout {
    /// The asset service that moves the funds.
    pub token: String,
    pub receiver: String,
    pub amount: u128,
}

/// What a deposit notification answers: how much of the deposit is handed
/// back, and the payout to issue, if any.
#[derive(Debug)]
pub struct DepositOutcome {
    pub refund: u128,
    pub payout: Option<Payout>,
}

/// The tag that marks a governance reserve injection.
pub open spec fn change_k_tag() -> Seq<char> {
    seq!['C', 'H', 'A', 'N', 'G', 'E', '_', 'K']
}

/// Whether a deposit's message is the governance tag.
pub fn is_change_k(msg: &str) -> (r: bool)
    ensures
        r == (msg@ == change_k_tag()),
{
    let tag = "CHANGE_K";
    proof {
        reveal_strlit("CHANGE_K");
        assert(tag@ =~= change_k_tag());
    }
    if msg.unicode_len() != 8 {
        return false;
    }
    let mut i: usize = 0;
    while i < 8
        invariant
            i <= 8,
            msg@.len() == 8,
            tag@ == change_k_tag(),
            msg@.subrange(0, i as int) =~= tag@.subrange(0, i as int),
        decreases 8 - i,
    {
        if msg.get_char(i) != tag.get_char(i) {
            return false;
        }
        i = i + 1;
    }
    proof {
        assert(msg@ =~= msg@.subrange(0, 8));
        assert(tag@ =~= tag@.subrange(0, 8));
    }
    true
}

impl AMMContract {
    /// Readiness holds exactly when both assets have a display name.
    pub open spec fn wf(self) -> bool {
        self.ready == (self.token_a.name@.len() > 0 && self.token_b.name@.len() > 0)
    }

    /// Whether `id` is the account of one of the pool's assets.
    pub open spec fn knows(self, id: Seq<char>) -> bool {
        id == self.token_a.account_id@ || id == self.token_b.account_id@
    }

    /// The asset whose service is `id` (asset A where both match).
    pub open spec fn in_info(self, id: Seq<char>) -> PoolTokenInfo {
        if id == self.token_a.account_id@ {
            self.token_a
        } else {
            self.token_b
        }
    }

    /// The other asset.
    pub open spec fn out_info(self, id: Seq<char>) -> PoolTokenInfo {
        if id == self.token_a.account_id@ {
            self.token_b
        } else {
            self.token_a
        }
    }

    /// The invariant's value, where the stored text is a number.
    pub open spec fn stored_invariant(self) -> Option<nat> {
        parse_decimal(self.k@)
    }

    /// The state after the metadata of asset `id` has arrived.
    pub open spec fn with_metadata(self, id: Seq<char>, name: String, decimals: u8) -> AMMContract {
        let s = if id == self.token_a.account_id@ {
            AMMContract { token_a: PoolTokenInfo { name, decimals, ..self.token_a }, ..self }
        } else {
            AMMContract { token_b: PoolTokenInfo { name, decimals, ..self.token_b }, ..self }
        };
        AMMContract { ready: s.token_a.name@.len() > 0 && s.token_b.name@.len() > 0, ..s }
    }

    /// `t` has the same accounts, names, decimals and readiness as `self`.
    pub open spec fn same_setup(self, t: AMMContract) -> bool {
        &&& t.gov == self.gov
        &&& t.ready == self.ready
        &&& t.token_a.account_id == self.token_a.account_id
        &&& t.token_a.name == self.token_a.name
        &&& t.token_a.decimals == self.token_a.decimals
        &&& t.token_b.account_id == self.token_b.account_id
        &&& t.token_b.name == self.token_b.name
        &&& t.token_b.decimals == self.token_b.decimals
    }

    /// The deposited asset's reserve after adding `amount`.
    pub open spec fn in_after(self, caller: Seq<char>, amount: u128) -> nat {
        self.in_info(caller).reserve as nat + amount as nat
    }

    /// The other asset's reserve after a swap: `floor(K / in_after)`.
    pub open spec fn swap_out_after(self, caller: Seq<char>, amount: u128) -> nat {
        self.stored_invariant()->Some_0 / self.in_after(caller, amount)
    }

    /// The error with which a deposit notification is refused, if any, in
    /// the order in which the conditions are checked. A swap into an empty
    /// reserve with a zero deposit has no price and counts as insufficient
    /// liquidity.
    pub open spec fn deposit_error(
        self,
        caller: Seq<char>,
        current: Seq<char>,
        sender: Seq<char>,
        amount: u128,
        msg: Seq<char>,
    ) -> Option<PoolError> {
        if !self.knows(caller) {
            Some(PoolError::UnknownCaller)
        } else if sender == current {
            Some(PoolError::SelfDeposit)
        } else if self.stored_invariant() is None {
            Some(PoolError::InvalidInvariant)
        } else if !self.ready {
            Some(PoolError::NotReady)
        } else if msg == change_k_tag() {
            if sender != self.gov@ {
                Some(PoolError::Unauthorized)
            } else if self.in_after(caller, amount) > u128::MAX {
                Some(PoolError::ReserveOverflow)
            } else {
                None
            }
        } else if self.stored_invariant()->Some_0 == 0 {
            Some(PoolError::ZeroInvariant)
        } else if self.in_after(caller, amount) > u128::MAX {
            Some(PoolError::ReserveOverflow)
        } else if self.in_after(caller, amount) == 0 || self.swap_out_after(caller, amount)
            > self.out_info(caller).reserve {
            Some(PoolError::InsufficientLiquidity)
        } else {
            None
        }
    }

    /// A new pool for governance account `gov` and asset services `token_a`
    /// and `token_b`: no names, no reserves, not ready, invariant "0".
    /// Refused where the pool's state already exists.
    pub fn new(state_exists: bool, gov: String, token_a: String, token_b: String) -> (r: Result<
        AMMContract,
        PoolError,
    >)
        ensures
            state_exists ==> r == Err::<AMMContract, PoolError>(PoolError::AlreadyInitialized),
            !state_exists ==> r is Ok,
            r matches Ok(c) ==> {
                &&& c.wf()
                &&& c.gov == gov
                &&& c.token_a.account_id == token_a
                &&& c.token_b.account_id == token_b
                &&& c.token_a.name@.len() == 0
                &&& c.token_b.name@.len() == 0
                &&& c.token_a.reserve == 0
                &&& c.token_b.reserve == 0
                &&& c.token_a.decimals == 0
                &&& c.token_b.decimals == 0
                &&& !c.ready
                &&& c.k@ == dec_of(0)
                &&& c.stored_invariant() == Some(0nat)
            },
    {
        if state_exists {
            return Err(PoolError::AlreadyInitialized);
        }
        let k = to_decimal_string(&BigProduct::zero());
        proof {
            crate::decimal::lemma_dec_round_trip(0);
        }
        Ok(
            AMMContract {
                gov,
                token_a: PoolTokenInfo {
                    account_id: token_a,
                    name: String::new(),
                    reserve: 0,
                    decimals: 0,
                },
                token_b: PoolTokenInfo {
                    account_id: token_b,
                    name: String::new(),
                    reserve: 0,
                    decimals: 0,
                },
                ready: false,
                k,
            },
        )
    }

    /// Both asset descriptors and the invariant text.
    pub fn amm_metadata(&self) -> (r: AMMMetaData)
        ensures
            r.token_a == self.token_a,
            r.token_b == self.token_b,
            r.ratio == self.k,
    {
        AMMMetaData {
            token_a: self.token_a.snapshot(),
            token_b: self.token_b.snapshot(),
            ratio: self.k.clone(),
        }
    }

    /// The two asset services to ask for wallets; only governance may ask.
    pub fn create_wallet(&self, caller: &String) -> (r: Result<(String, String), PoolError>)
        ensures
            caller@ != self.gov@ ==> r == Err::<(String, String), PoolError>(
                PoolError::Unauthorized,
            ),
            caller@ == self.gov@ ==> r == Ok::<(String, String), PoolError>(
                (self.token_a.account_id, self.token_b.account_id),
            ),
    {
        if !(*caller == self.gov) {
            return Err(PoolError::Unauthorized);
        }
        Ok((self.token_a.account_id.clone(), self.token_b.account_id.clone()))
    }

    /// Records the metadata of asset `contract_id` and recomputes readiness.
    /// Only the pool itself (`caller == current`) may deliver it.
    pub fn cb_init(
        &mut self,
        caller: &String,
        current: &String,
        contract_id: &String,
        name: String,
        decimals: u8,
    ) -> (r: Result<(), PoolError>)
        ensures
            caller@ != current@ ==> r == Err::<(), PoolError>(PoolError::Unauthorized),
            caller@ == current@ && !old(self).knows(contract_id@) ==> r == Err::<(), PoolError>(
                PoolError::UnknownAsset,
            ),
            caller@ == current@ && old(self).knows(contract_id@) ==> r is Ok,
            r is Ok ==> *final(self) == old(self).with_metadata(contract_id@, name, decimals),
            r is Err ==> *final(self) == *old(self),
            final(self).wf() || *final(self) == *old(self),
    {
        if !(*caller == *current) {
            return Err(PoolError::Unauthorized);
        }
        if *contract_id == self.token_a.account_id {
            self.token_a.name = name;
            self.token_a.decimals = decimals;
        } else if *contract_id == self.token_b.account_id {
            self.token_b.name = name;
            self.token_b.decimals = decimals;
        } else {
            return Err(PoolError::UnknownAsset);
        }
        self.ready = self.token_a.name.as_str().unicode_len() > 0
            && self.token_b.name.as_str().unicode_len() > 0;
        Ok(())
    }

    /// Sets the invariant to the exact product of the two reserves.
    fn update_ratio(&mut self)
        ensures
            final(self).k@ == dec_of(old(self).token_a.reserve as nat * old(self).token_b.reserve as nat),
            final(self).gov == old(self).gov,
            final(self).token_a == old(self).token_a,
            final(self).token_b == old(self).token_b,
            final(self).ready == old(self).ready,
    {
        let p = BigProduct::multiply(self.token_a.reserve, self.token_b.reserve);
        self.k = to_decimal_string(&p);
    }

    /// Handles a report from asset service `caller` that `sender_id`
    /// deposited `amount` with message `msg`; `current` is the pool's own
    /// account. With the governance tag the deposit is added to its reserve
    /// and the invariant becomes the exact product of the reserves. Any other
    /// message swaps: the deposited reserve grows by `amount`, the other
    /// becomes `floor(K / in_after)`, and the difference is paid out to the
    /// sender. Nothing of the deposit is refunded.
    pub fn ft_on_transfer(
        &mut self,
        caller: &String,
        current: &String,
        sender_id: &String,
        amount: u128,
        msg: &str,
    ) -> (r: Result<DepositOutcome, PoolError>)
        ensures
            match old(self).deposit_error(caller@, current@, sender_id@, amount, msg@) {
                Some(e) => r == Err::<DepositOutcome, PoolError>(e) && *final(self) == *old(self),
                None => r is Ok,
            },
            r is Ok ==> old(self).same_setup(*final(self)) && r->Ok_0.refund == 0,
            r is Ok && msg@ == change_k_tag() ==> {
                &&& r->Ok_0.payout is None
                &&& final(self).in_info(caller@).reserve == old(self).in_after(caller@, amount)
                &&& final(self).out_info(caller@).reserve == old(self).out_info(caller@).reserve
                &&& final(self).k@ == dec_of(
                    final(self).token_a.reserve as nat * final(self).token_b.reserve as nat,
                )
            },
            r is Ok && msg@ != change_k_tag() ==> {
                let k = old(self).stored_invariant()->Some_0;
                let in_after = old(self).in_after(caller@, amount);
                let out_after = old(self).swap_out_after(caller@, amount);
                &&& final(self).k == old(self).k
                &&& final(self).in_info(caller@).reserve == in_after
                &&& final(self).out_info(caller@).reserve == out_after
                &&& final(self).out_info(caller@).reserve * in_after <= k
                &&& r->Ok_0.payout matches Some(p) && p.token == old(self).out_info(
                    caller@,
                ).account_id && p.receiver == *sender_id && p.amount == old(self).out_info(
                    caller@,
                ).reserve - out_after
            },
    {
        let is_a = *caller == self.token_a.account_id;
        if !is_a && !(*caller == self.token_b.account_id) {
            return Err(PoolError::UnknownCaller);
        }
        if *sender_id == *current {
            return Err(PoolError::SelfDeposit);
        }
        let k = match from_decimal_string(self.k.as_str()) {
            Some(k) => k,
            None => {
                return Err(PoolError::InvalidInvariant);
            },
        };
        if !self.ready {
            return Err(PoolError::NotReady);
        }
        if is_change_k(msg) {
            if !(*sender_id == self.gov) {
                return Err(PoolError::Unauthorized);
            }
            if is_a {
                if self.token_a.reserve > u128::MAX - amount {
                    return Err(PoolError::ReserveOverflow);
                }
                self.token_a.reserve = self.token_a.reserve + amount;
            } else {
                if self.token_b.reserve > u128::MAX - amount {
                    return Err(PoolError::ReserveOverflow);
                }
                self.token_b.reserve = self.token_b.reserve + amount;
            }
            self.update_ratio();
            return Ok(DepositOutcome { refund: 0, payout: None });
        }
        if k.is_zero() {
            return Err(PoolError::ZeroInvariant);
        }
        let (r_in, r_out) = if is_a {
            (self.token_a.reserve, self.token_b.reserve)
        } else {
            (self.token_b.reserve, self.token_a.reserve)
        };
        if r_in > u128::MAX - amount {
            return Err(PoolError::ReserveOverflow);
        }
        let in_after = r_in + amount;
        if in_after == 0 {
            return Err(PoolError::InsufficientLiquidity);
        }
        let out_after = match k.divide(in_after) {
            Some(q) => q,
            None => {
                proof {
                    assert(k@ / (in_after as nat) > r_out);
                }
                return Err(PoolError::InsufficientLiquidity);
            },
        };
        if out_after > r_out {
            return Err(PoolError::InsufficientLiquidity);
        }
        let pay = r_out - out_after;
        proof {
            vstd::arithmetic::div_mod::lemma_fundamental_div_mod(k@ as int, in_after as int);
            assert((out_after as int) * (in_after as int) <= k@) by (nonlinear_arith)
                requires
                    k@ as int == (in_after as int) * (out_after as int) + (k@ as int) % (
                    in_after as int),
                    (k@ as int) % (in_after as int) >= 0,
            ;
        }
        let token = if is_a {
            self.token_b.reserve = out_after;
            self.token_a.reserve = in_after;
            self.token_b.account_id.clone()
        } else {
            self.token_a.reserve = out_after;
            self.token_b.reserve = in_after;
            self.token_a.account_id.clone()
        };
        let payout = Payout { token, receiver: sender_id.clone(), amount: pay };
        Ok(DepositOutcome { refund: 0, payout: Some(payout) })
    }
}

/// The two metadata completions of a fresh pool commute and repeat harmlessly:
/// after either one alone the pool is not ready, after both it is, and both
/// orders end in the same state. The two assets have distinct accounts and
/// each completion carries a non-empty name.
pub proof fn metadata_completions_commute(
    s: AMMContract,
    name_a: String,
    decimals_a: u8,
    name_b: String,
    decimals_b: u8,
)
    requires
        s.token_a.account_id@ != s.token_b.account_id@,
        s.token_a.name@.len() == 0,
        s.token_b.name@.len() == 0,
        name_a@.len() > 0,
        name_b@.len() > 0,
    ensures
        ({
            let a = s.token_a.account_id@;
            let b = s.token_b.account_id@;
            let after_a = s.with_metadata(a, name_a, decimals_a);
            let after_b = s.with_metadata(b, name_b, decimals_b);
            &&& !after_a.ready
            &&& !after_b.ready
            &&& after_a.with_metadata(b, name_b, decimals_b).ready
            &&& after_b.with_metadata(a, name_a, decimals_a).ready
            &&& after_a.with_metadata(b, name_b, decimals_b) == after_b.with_metadata(
                a,
                name_a,
                decimals_a,
            )
            &&& after_a.with_metadata(a, name_a, decimals_a) == after_a
            &&& after_b.with_metadata(b, name_b, decimals_b) == after_b
        }),
{
}

/// A swap on a pool whose invariant is zero is refused with `ZeroInvariant`
/// (and a refused deposit changes nothing).
pub proof fn zero_invariant_blocks_swaps(
    s: AMMContract,
    caller: Seq<char>,
    current: Seq<char>,
    sender: Seq<char>,
    amount: u128,
    msg: Seq<char>,
)
    requires
        s.knows(caller),
        sender != current,
        s.ready,
        s.stored_invariant() == Some(0nat),
        msg != change_k_tag(),
    ensures
        s.deposit_error(caller, current, sender, amount, msg) == Some(PoolError::ZeroInvariant),
{
}

/// A deposit reported by a service that is not one of the pool's assets is
/// refused with `UnknownCaller`, whatever else it carries.
pub proof fn unknown_caller_is_refused(
    s: AMMContract,
    caller: Seq<char>,
    current: Seq<char>,
    sender: Seq<char>,
    amount: u128,
    msg: Seq<char>,
)
    requires
        !s.knows(caller),
    ensures
        s.deposit_error(caller, current, sender, amount, msg) == Some(PoolError::UnknownCaller),
{
}

/// A reserve injection from anyone but governance is refused with
/// `Unauthorized`.
pub proof fn injection_requires_governance(
    s: AMMContract,
    caller: Seq<char>,
    current: Seq<char>,
    sender: Seq<char>,
    amount: u128,
)
    requires
        s.knows(caller),
        sender != current,
        s.stored_invariant() is Some,
        s.ready,
        sender != s.gov@,
    ensures
        s.deposit_error(caller, current, sender, amount, change_k_tag()) == Some(
            PoolError::Unauthorized,
        ),
{
}

} // verus!
