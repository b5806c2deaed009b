//! Privacy modes of groups and the rules of gated admission.
use vstd::prelude::*;
use crate::model::{ApiError, ErrorCode};
use crate::principal::Principal;
use crate::store::Store;

verus! {

/// How a group admits new members.
#[derive(Debug, Clone)]
pub enum Privacy {
    Public,
    Private,
    InviteOnly,
    Gated(GatedType),
}

/// What a gated group asks of a caller: any one of the listed entries.
#[derive(Debug, Clone)]
pub enum GatedType {
    Token(Vec<TokenGated>),
    Neuron(Vec<NeuronGated>),
}

/// A token gate: a balance of at least `amount` on a token registry.
#[derive(Debug, Clone)]
pub struct TokenGated {
    pub name: String,
    pub description: String,
    pub standard: String,
    pub principal: Principal,
    pub amount: u64,
}

/// A neuron gate: a neuron on `governance_canister` that meets every rule.
#[derive(Debug, Clone)]
pub struct NeuronGated {
    pub name: String,
    pub description: String,
    pub governance_canister: Principal,
    pub ledger_canister: Principal,
    pub rules: Vec<NeuronGatedRules>,
}

/// One rule that a neuron must meet.
#[derive(Debug, Clone, Copy, PartialEq, Eq, Structural)]
pub enum NeuronGatedRules {
    MinAge(u64),
    MinStake(u64),
    MinDissolveDelay(u64),
    IsDisolving(bool),
}

/// What a new member is given.
#[derive(Debug, Clone, Copy, PartialEq, Eq, Structural)]
pub enum Admission {
    /// A join with the member role.
    Join,
    /// A user request awaiting the owner's approval.
    Invite,
}

/// How a caller is admitted to a group with this privacy, given whether each
/// gate entry that was checked passed.
pub open spec fn admission_spec(privacy: Privacy, gate_results: Seq<bool>) -> Result<Admission, ApiError> {
    match privacy {
        Privacy::Public => Ok(Admission::Join),
        Privacy::Private => Ok(Admission::Invite),
        Privacy::InviteOnly => Err(ApiError::BadRequest(ErrorCode::Unsupported)),
        Privacy::Gated(GatedType::Neuron(_)) => if gate_results.contains(true) {
            Ok(Admission::Join)
        } else {
            Err(ApiError::Unauthorized(ErrorCode::NotOwningNeuron))
        },
        Privacy::Gated(GatedType::Token(_)) => if gate_results.contains(true) {
            Ok(Admission::Join)
        } else {
            Err(ApiError::Unauthorized(ErrorCode::NotOwningNft))
        },
    }
}

/// Whether any gate entry passed.
pub fn any_passed(gate_results: &Vec<bool>) -> (r: bool)
    ensures
        r == gate_results@.contains(true),
{
    let mut i: usize = 0;
    while i < gate_results.len()
        invariant
            i <= gate_results@.len(),
            forall|j: int| 0 <= j < i ==> !(#[trigger] gate_results@[j]),
        decreases gate_results@.len() - i,
    {
        if gate_results[i] {
            assert(gate_results@[i as int]);
            return true;
        }
        i = i + 1;
    }
    false
}

/// Decides how a caller is admitted: public groups join, private groups
/// invite, invite-only groups refuse, gated groups join where any gate passed.
pub fn admission(privacy: &Privacy, gate_results: &Vec<bool>) -> (r: Result<Admission, ApiError>)
    ensures
        r == admission_spec(*privacy, gate_results@),
{
    match privacy {
        Privacy::Public => Ok(Admission::Join),
        Privacy::Private => Ok(Admission::Invite),
        Privacy::InviteOnly => Err(ApiError::BadRequest(ErrorCode::Unsupported)),
        Privacy::Gated(GatedType::Neuron(_)) => if any_passed(gate_results) {
            Ok(Admission::Join)
        } else {
            Err(ApiError::Unauthorized(ErrorCode::NotOwningNeuron))
        },
        Privacy::Gated(GatedType::Token(_)) => if any_passed(gate_results) {
            Ok(Admission::Join)
        } else {
            Err(ApiError::Unauthorized(ErrorCode::NotOwningNft))
        },
    }
}

/// Whether a neuron is locked with a dissolve delay, or already dissolving.
#[derive(Debug, Clone, Copy, PartialEq, Eq, Structural)]
pub enum DissolveState {
    DissolveDelaySeconds(u64),
    WhenDissolvedTimestampSeconds(u64),
}

/// What neuron rules read of a neuron.
#[derive(Debug, Clone, Copy, PartialEq, Eq, Structural)]
pub struct Neuron {
    pub cached_neuron_stake_e8s: u64,
    pub created_timestamp_seconds: u64,
    pub dissolve_state: Option<DissolveState>,
}

/// Units of the smallest denomination in one token.
pub const E8S_PER_TOKEN: u64 = 100_000_000;

/// Whole tokens in an amount of e8s, rounded up.
pub open spec fn whole_tokens(e8s: u64) -> int {
    (e8s as int + E8S_PER_TOKEN - 1) / E8S_PER_TOKEN as int
}

/// The neuron's age at `now`, in seconds (zero for a creation time ahead of `now`).
pub open spec fn age_at(n: Neuron, now: u64) -> int {
    if now >= n.created_timestamp_seconds {
        now - n.created_timestamp_seconds
    } else {
        0
    }
}

pub open spec fn meets_rule(n: Neuron, rule: NeuronGatedRules, now: u64) -> bool {
    match rule {
        NeuronGatedRules::IsDisolving(_) => n.dissolve_state matches Some(DissolveState::WhenDissolvedTimestampSeconds(_)),
        NeuronGatedRules::MinAge(min) => age_at(n, now) >= min,
        NeuronGatedRules::MinStake(min) => whole_tokens(n.cached_neuron_stake_e8s) >= whole_tokens(min),
        NeuronGatedRules::MinDissolveDelay(min) => n.dissolve_state matches Some(DissolveState::DissolveDelaySeconds(d)) && d >= min,
    }
}

pub open spec fn meets_all(n: Neuron, rules: Seq<NeuronGatedRules>, now: u64) -> bool {
    forall|i: int| 0 <= i < rules.len() ==> meets_rule(n, #[trigger] rules[i], now)
}

/// Some neuron meets every rule.
pub open spec fn neuron_gate_passes(neurons: Seq<Neuron>, rules: Seq<NeuronGatedRules>, now: u64) -> bool {
    exists|k: int| 0 <= k < neurons.len() && meets_all(#[trigger] neurons[k], rules, now)
}

fn whole_tokens_of(e8s: u64) -> (r: u64)
    ensures
        r == whole_tokens(e8s),
{
    let q = e8s / E8S_PER_TOKEN;
    if e8s % E8S_PER_TOKEN == 0 {
        q
    } else {
        q + 1
    }
}

/// Whether the neuron meets one rule at time `now`.
pub fn neuron_meets_rule(n: &Neuron, rule: NeuronGatedRules, now: u64) -> (r: bool)
    ensures
        r == meets_rule(*n, rule, now),
{
    match rule {
        NeuronGatedRules::IsDisolving(_) => match n.dissolve_state {
            Some(DissolveState::WhenDissolvedTimestampSeconds(_)) => true,
            _ => false,
        },
        NeuronGatedRules::MinAge(min) => {
            let age = if now >= n.created_timestamp_seconds {
                now - n.created_timestamp_seconds
            } else {
                0
            };
            age >= min
        },
        NeuronGatedRules::MinStake(min) => whole_tokens_of(n.cached_neuron_stake_e8s) >= whole_tokens_of(min),
        NeuronGatedRules::MinDissolveDelay(min) => match n.dissolve_state {
            Some(DissolveState::DissolveDelaySeconds(d)) => d >= min,
            _ => false,
        },
    }
}

/// Whether the neuron meets every rule at time `now`.
pub fn neuron_meets_rules(n: &Neuron, rules: &Vec<NeuronGatedRules>, now: u64) -> (r: bool)
    ensures
        r == meets_all(*n, rules@, now),
{
    let mut i: usize = 0;
    while i < rules.len()
        invariant
            i <= rules@.len(),
            forall|j: int| 0 <= j < i ==> meets_rule(*n, #[trigger] rules@[j], now),
        decreases rules@.len() - i,
    {
        if !neuron_meets_rule(n, rules[i], now) {
            return false;
        }
        i = i + 1;
    }
    true
}

/// The token standards whose balances can be checked.
#[derive(Debug, Clone, Copy, PartialEq, Eq, Structural)]
pub enum TokenStandard {
    Ext,
    Dip20,
    Dip721,
    Dip721Legacy,
}

pub open spec fn standard_of(s: Seq<char>) -> Option<TokenStandard> {
    if s == seq!['E', 'X', 'T'] {
        Some(TokenStandard::Ext)
    } else if s == seq!['D', 'I', 'P', '2', '0'] {
        Some(TokenStandard::Dip20)
    } else if s == seq!['D', 'I', 'P', '7', '2', '1'] {
        Some(TokenStandard::Dip721)
    } else if s == seq!['D', 'I', 'P', '7', '2', '1', '_', 'L', 'E', 'G', 'A', 'C', 'Y'] {
        Some(TokenStandard::Dip721Legacy)
    } else {
        None
    }
}

/// The standard a token registry is registered under, if it is known.
pub fn token_standard(s: &String) -> (r: Option<TokenStandard>)
    ensures
        r == standard_of(s@),
{
    proof {
        reveal_strlit("EXT");
        reveal_strlit("DIP20");
        reveal_strlit("DIP721");
        reveal_strlit("DIP721_LEGACY");
        assert("EXT"@ =~= seq!['E', 'X', 'T']);
        assert("DIP20"@ =~= seq!['D', 'I', 'P', '2', '0']);
        assert("DIP721"@ =~= seq!['D', 'I', 'P', '7', '2', '1']);
        assert("DIP721_LEGACY"@ =~= seq!['D', 'I', 'P', '7', '2', '1', '_', 'L', 'E', 'G', 'A', 'C', 'Y']);
    }
    if *s == String::from_str("EXT") {
        Some(TokenStandard::Ext)
    } else if *s == String::from_str("DIP20") {
        Some(TokenStandard::Dip20)
    } else if *s == String::from_str("DIP721") {
        Some(TokenStandard::Dip721)
    } else if *s == String::from_str("DIP721_LEGACY") {
        Some(TokenStandard::Dip721Legacy)
    } else {
        None
    }
}

/// The query that a token entry needs: its standard where it is known and,
/// for EXT, an account identifier was given.
pub open spec fn token_request_spec(standard: Seq<char>, has_account: bool) -> Option<TokenStandard> {
    match standard_of(standard) {
        Some(TokenStandard::Ext) => if has_account {
            Some(TokenStandard::Ext)
        } else {
            None
        },
        other => other,
    }
}

/// The balance to ask the token registry for: its standard, where it is known
/// and, for EXT, an account identifier was given. `None` means no admission by this entry.
pub fn token_balance_request(gate: &TokenGated, account_identifier: &Option<String>) -> (r: Option<TokenStandard>)
    ensures
        r == token_request_spec(gate.standard@, account_identifier is Some),
{
    match token_standard(&gate.standard) {
        None => None,
        Some(TokenStandard::Ext) => match account_identifier {
            Some(_) => Some(TokenStandard::Ext),
            None => None,
        },
        Some(t) => Some(t),
    }
}

/// Whether a balance meets the amount that a token entry requires.
pub fn token_gate_passes(gate: &TokenGated, balance: u64) -> (r: bool)
    ensures
        r == (balance >= gate.amount),
{
    balance >= gate.amount
}

impl Store {
    /// Whether any of the caller's neurons meets every rule of a neuron gate.
    pub fn validate_neuron_gated(neurons: &Vec<Neuron>, rules: &Vec<NeuronGatedRules>, now: u64) -> (r: bool)
        ensures
            r == neuron_gate_passes(neurons@, rules@, now),
    {
        let mut k: usize = 0;
        while k < neurons.len()
            invariant
                k <= neurons@.len(),
                forall|j: int| 0 <= j < k ==> !meets_all(#[trigger] neurons@[j], rules@, now),
            decreases neurons@.len() - k,
        {
            if neuron_meets_rules(&neurons[k], rules, now) {
                return true;
            }
            k = k + 1;
        }
        false
    }

    /// Whether a token entry admits the caller: its standard is known (and, for
    /// EXT, an account identifier was given) and `balance`, what the registry
    /// answered to the query that `token_balance_request` names, meets the amount.
    /// `balance` is `None` where no query was made.
    pub fn validate_nft_gated(gate: &TokenGated, account_identifier: &Option<String>, balance: Option<u64>) -> (r: bool)
        ensures
            r == (token_request_spec(gate.standard@, account_identifier is Some) is Some && (balance matches Some(b)
                && b >= gate.amount)),
    {
        match token_balance_request(gate, account_identifier) {
            None => false,
            Some(_) => match balance {
                None => false,
                Some(b) => token_gate_passes(gate, b),
            },
        }
    }
}

} // verus!
