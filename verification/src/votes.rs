//! Tallying validators' votes for pieces of data that are acted on only once
//! enough voting power stands behind them.

use crate::order::{ascending, is_ascending, lemma_key_walk, lemma_set_walk};
use crate::storage::Key;
use crate::voting_power::{
    lemma_le_transitive, lemma_plus_grows, lemma_plus_is_sum, lemma_view_is_one_to_one,
    FractionalVotingPower, Ratio,
};
use std::collections::{BTreeMap, BTreeSet};
use std::marker::PhantomData;
use vstd::pervasive::unreached;
use vstd::prelude::*;
use vstd::std_specs::iter::IteratorSpec;
use vstd::string::StringExecFns;

verus! {

/// A validator's address: the number that stands for it in the validator
/// set. Only its equality and its order are used.
pub type Address = u64;

/// The height of a block.
pub type BlockHeight = u64;

/// The validators that voted for something, each with the height of the block
/// in which its vote is counted. A validator votes at most once.
pub type Votes = BTreeMap<Address, BlockHeight>;

/// The keys whose values a validated update has changed, in the order `seen`,
/// `seen_by`, `voting_power`, each at most once.
pub type ChangedKeys = Vec<Key>;

/// All that is needed to tally a piece of data that may be voted for over
/// several epochs.
#[derive(Clone, Debug)]
pub struct Tally {
    /// The total voting power that has voted for the data.
    pub voting_power: FractionalVotingPower,
    /// The votes that were counted towards `voting_power`.
    pub seen_by: Votes,
    /// Whether the data has been acted on. It only ever goes from `false` to
    /// `true`.
    pub seen: bool,
}

/// A tally, as contracts speak of it.
pub struct TallyView {
    pub voting_power: Ratio,
    pub seen_by: Map<Address, BlockHeight>,
    pub seen: bool,
}

impl View for Tally {
    type V = TallyView;

    open spec fn view(&self) -> TallyView {
        TallyView { voting_power: self.voting_power@, seen_by: self.seen_by@, seen: self.seen }
    }
}

/// Why a tally could not be made or updated.
#[derive(Clone, Copy, Debug, PartialEq, Eq, Structural)]
pub enum TallyError {
    /// A vote names a validator and a height for which no voting power was
    /// given.
    MissingVotingPower { validator: Address },
    /// A validator that has voted before votes again.
    DuplicateVoters,
    /// The sum of the voting powers does not fit in the machine's numbers.
    VotingPowerOverflow,
    /// `seen` went from `true` back to `false`.
    SeenRegressed,
    /// A validator that had voted is no longer among the voters.
    VotersRemoved,
    /// The voting power changed without growing.
    VotingPowerNotIncreased,
    /// The voting power is a quorum and did not grow, yet `seen` did not
    /// change.
    QuorumNotSeen,
}

impl TallyError {
    /// The error in words.
    pub fn message(&self) -> (text: String)
        ensures
            text@ == match *self {
                TallyError::MissingVotingPower { .. } => "voting power was not provided for validator"@,
                TallyError::DuplicateVoters => "Duplicate voters found"@,
                TallyError::VotingPowerOverflow => "Tally voting_power is out of range"@,
                TallyError::SeenRegressed => "Tally seen changed from true to false"@,
                TallyError::VotersRemoved => "Tally seen_by lost a voter"@,
                TallyError::VotingPowerNotIncreased => "Tally voting_power changed without increasing"@,
                TallyError::QuorumNotSeen => "Tally is not seen even though new voting_power is enough"@,
            },
    {
        match self {
            TallyError::MissingVotingPower { .. } => String::from_str(
                "voting power was not provided for validator",
            ),
            TallyError::DuplicateVoters => String::from_str("Duplicate voters found"),
            TallyError::VotingPowerOverflow => String::from_str(
                "Tally voting_power is out of range",
            ),
            TallyError::SeenRegressed => String::from_str("Tally seen changed from true to false"),
            TallyError::VotersRemoved => String::from_str("Tally seen_by lost a voter"),
            TallyError::VotingPowerNotIncreased => String::from_str(
                "Tally voting_power changed without increasing",
            ),
            TallyError::QuorumNotSeen => String::from_str(
                "Tally is not seen even though new voting_power is enough",
            ),
        }
    }
}

/// The votes, each joined with the voting power that its validator had at the
/// height of the vote.
pub open spec fn joined(
    votes: Map<Address, BlockHeight>,
    powers: Map<(Address, BlockHeight), FractionalVotingPower>,
) -> Map<Address, (BlockHeight, Ratio)> {
    Map::new(
        |a: Address| votes.contains_key(a),
        |a: Address| (votes[a], powers[(a, votes[a])]@),
    )
}

/// A voting power was given for every vote.
pub open spec fn all_powers_given(
    votes: Map<Address, BlockHeight>,
    powers: Map<(Address, BlockHeight), FractionalVotingPower>,
) -> bool {
    forall|a: Address| votes.contains_key(a) ==> powers.contains_key((a, #[trigger] votes[a]))
}

/// `a` is the least address whose vote has no voting power.
pub open spec fn first_without_power(
    votes: Map<Address, BlockHeight>,
    powers: Map<(Address, BlockHeight), FractionalVotingPower>,
    a: Address,
) -> bool {
    &&& votes.contains_key(a)
    &&& !powers.contains_key((a, votes[a]))
    &&& forall|b: Address|
        votes.contains_key(b) && b < a ==> powers.contains_key((b, #[trigger] votes[b]))
}

/// The voting power reached from `start` once the first `n` validators of
/// `order` have been added, one after the other; `None` where one of these
/// sums does not fit.
pub open spec fn power_after(
    start: Ratio,
    order: Seq<Address>,
    info: Map<Address, (BlockHeight, Ratio)>,
    n: nat,
) -> Option<Ratio>
    decreases n,
{
    if n == 0 {
        Some(start)
    } else {
        match power_after(start, order, info, (n - 1) as nat) {
            Some(sum) => {
                let power = info[order[n - 1]].1;
                if sum.sum_fits(power) {
                    Some(sum.plus(power))
                } else {
                    None
                }
            },
            None => None,
        }
    }
}

/// The voting power reached from `start` once every validator of `info` has
/// been added, in ascending order of address; `None` where one of these sums
/// does not fit.
pub open spec fn added_power(start: Ratio, info: Map<Address, (BlockHeight, Ratio)>) -> Option<
    Ratio,
> {
    let order = ascending(info.dom());
    power_after(start, order, info, order.len())
}

/// Some vote of `info` comes with voting power.
pub open spec fn has_power(info: Map<Address, (BlockHeight, Ratio)>) -> bool {
    exists|a: Address| info.contains_key(a) && (#[trigger] info[a]).1.numer > 0
}

/// The votes of `seen_by` together with those of `info`.
pub open spec fn with_votes(
    seen_by: Map<Address, BlockHeight>,
    info: Map<Address, (BlockHeight, Ratio)>,
) -> Map<Address, BlockHeight> {
    Map::new(
        |a: Address| seen_by.contains_key(a) || info.contains_key(a),
        |a: Address|
            if info.contains_key(a) {
                info[a].0
            } else {
                seen_by[a]
            },
    )
}

/// The tally of a first set of votes.
pub open spec fn created(
    votes: Map<Address, BlockHeight>,
    powers: Map<(Address, BlockHeight), FractionalVotingPower>,
) -> Result<TallyView, TallyError> {
    if !all_powers_given(votes, powers) {
        Err(
            TallyError::MissingVotingPower {
                validator: choose|a: Address| first_without_power(votes, powers, a),
            },
        )
    } else {
        match added_power(Ratio { numer: 0, denom: 1 }, joined(votes, powers)) {
            Some(power) => Ok(
                TallyView {
                    voting_power: power,
                    seen_by: votes,
                    seen: power.exceeds_two_thirds(),
                },
            ),
            None => Err(TallyError::VotingPowerOverflow),
        }
    }
}

/// The tally that follows `pre` once the votes of `info` are counted.
pub open spec fn updated(pre: TallyView, info: Map<Address, (BlockHeight, Ratio)>) -> Result<
    TallyView,
    TallyError,
> {
    if exists|a: Address| pre.seen_by.contains_key(a) && info.contains_key(a) {
        Err(TallyError::DuplicateVoters)
    } else {
        match added_power(pre.voting_power, info) {
            Some(power) => Ok(
                TallyView {
                    voting_power: power,
                    seen_by: with_votes(pre.seen_by, info),
                    seen: power.exceeds_two_thirds(),
                },
            ),
            None => Err(TallyError::VotingPowerOverflow),
        }
    }
}

/// What forbids `post` as the successor of `pre`, if anything does.
pub open spec fn update_fault(pre: TallyView, post: TallyView) -> Option<TallyError> {
    if pre.seen && !post.seen {
        Some(TallyError::SeenRegressed)
    } else if !pre.seen_by.dom().subset_of(post.seen_by.dom()) {
        Some(TallyError::VotersRemoved)
    } else if pre.voting_power != post.voting_power && post.voting_power.le(pre.voting_power) {
        Some(TallyError::VotingPowerNotIncreased)
    } else if post.voting_power.exceeds_two_thirds() && pre.seen == post.seen
        && post.voting_power.le(pre.voting_power) {
        Some(TallyError::QuorumNotSeen)
    } else {
        None
    }
}

/// The keys, below `prefix`, of the parts in which `post` differs from `pre`.
pub open spec fn changed_keys(prefix: Seq<char>, pre: TallyView, post: TallyView) -> Seq<
    Seq<char>,
> {
    let seen = if pre.seen != post.seen {
        seq![prefix + "/seen"@]
    } else {
        Seq::empty()
    };
    let seen_by = if pre.seen_by.dom() != post.seen_by.dom() {
        seq![prefix + "/seen_by"@]
    } else {
        Seq::empty()
    };
    let voting_power = if pre.voting_power != post.voting_power {
        seq![prefix + "/voting_power"@]
    } else {
        Seq::empty()
    };
    seen + seen_by + voting_power
}

/// The outcome of counting the votes of `info` on top of `pre` and validating
/// the step.
pub open spec fn validated_update(
    prefix: Seq<char>,
    pre: TallyView,
    info: Map<Address, (BlockHeight, Ratio)>,
) -> Result<(TallyView, Seq<Seq<char>>), TallyError> {
    match updated(pre, info) {
        Ok(post) => match update_fault(pre, post) {
            None => Ok((post, changed_keys(prefix, pre, post))),
            Some(fault) => Err(fault),
        },
        Err(refusal) => Err(refusal),
    }
}

/// A validated step keeps every voter, never lowers the voting power, and
/// never takes `seen` back: once a tally is seen, it stays seen.
pub proof fn lemma_valid_update_is_monotone(pre: TallyView, post: TallyView)
    requires
        update_fault(pre, post) is None,
    ensures
        pre.seen_by.dom().subset_of(post.seen_by.dom()),
        pre.voting_power.le(post.voting_power),
        pre.seen ==> post.seen,
{
}

/// The plain sum of `start` and the voting powers of the first `n`
/// validators of `order`, over the product of all the denominators and not
/// reduced: `a/b + c/d = (ad + cb)/(bd)`, again and again.
pub open spec fn plain_sum(
    start: Ratio,
    order: Seq<Address>,
    info: Map<Address, (BlockHeight, Ratio)>,
    n: nat,
) -> Ratio
    decreases n,
{
    if n == 0 {
        start
    } else {
        let sum = plain_sum(start, order, info, (n - 1) as nat);
        let power = info[order[n - 1]].1;
        Ratio {
            numer: sum.numer * power.denom + power.numer * sum.denom,
            denom: sum.denom * power.denom,
        }
    }
}

/// The voting power that is reached by adding the powers one after the
/// other, each sum brought to lowest terms, has the value of their plain
/// sum.
pub proof fn lemma_power_after_is_the_sum(
    start: Ratio,
    order: Seq<Address>,
    info: Map<Address, (BlockHeight, Ratio)>,
    n: nat,
)
    requires
        start.denom > 0,
        forall|i: int| 0 <= i < n ==> (#[trigger] info[order[i]]).1.denom > 0,
        power_after(start, order, info, n) is Some,
    ensures
        plain_sum(start, order, info, n).denom > 0,
        power_after(start, order, info, n)->0.denom > 0,
        power_after(start, order, info, n)->0.numer * plain_sum(start, order, info, n).denom
            == plain_sum(start, order, info, n).numer * power_after(start, order, info, n)->0.denom,
    decreases n,
{
    if n > 0 {
        let before = (n - 1) as nat;
        lemma_power_after_is_the_sum(start, order, info, before);
        let reached = power_after(start, order, info, before)->0;
        let plain = plain_sum(start, order, info, before);
        let power = info[order[n - 1]].1;
        assert(power.denom > 0);
        lemma_plus_is_sum(reached, power);
        let sum = reached.plus(power);
        let next = plain_sum(start, order, info, n);
        assert(next.denom > 0) by (nonlinear_arith)
            requires
                next.denom == plain.denom * power.denom,
                plain.denom > 0,
                power.denom > 0,
        ;
        let mixed = reached.numer * power.denom + power.numer * reached.denom;
        assert(sum.numer * (reached.denom * power.denom) == mixed * sum.denom);
        assert(mixed * plain.denom == next.numer * reached.denom) by (nonlinear_arith)
            requires
                mixed == reached.numer * power.denom + power.numer * reached.denom,
                next.numer == plain.numer * power.denom + power.numer * plain.denom,
                reached.numer * plain.denom == plain.numer * reached.denom,
        ;
        assert(sum.numer * next.denom * reached.denom == sum.numer * (reached.denom
            * power.denom) * plain.denom) by (nonlinear_arith)
            requires
                next.denom == plain.denom * power.denom,
        ;
        assert(sum.numer * next.denom * reached.denom == next.numer * sum.denom * reached.denom)
            by (nonlinear_arith)
            requires
                sum.numer * next.denom * reached.denom == sum.numer * (reached.denom
                    * power.denom) * plain.denom,
                sum.numer * (reached.denom * power.denom) == mixed * sum.denom,
                mixed * plain.denom == next.numer * reached.denom,
        ;
        assert(sum.numer * next.denom == next.numer * sum.denom) by (nonlinear_arith)
            requires
                sum.numer * next.denom * reached.denom == next.numer * sum.denom * reached.denom,
                reached.denom > 0,
        ;
    }
}

/// Once a sum has failed to fit, the sums after it are not formed.
proof fn lemma_power_after_stays_none(
    start: Ratio,
    order: Seq<Address>,
    info: Map<Address, (BlockHeight, Ratio)>,
    n: nat,
    m: nat,
)
    requires
        power_after(start, order, info, n) is None,
        n <= m,
    ensures
        power_after(start, order, info, m) is None,
    decreases m,
{
    if n < m {
        lemma_power_after_stays_none(start, order, info, n, (m - 1) as nat);
    }
}

/// The names of the storage keys under which a tally is kept.
pub struct Keys<T> {
    /// The prefix under which the keys of one tally stand.
    pub prefix: Key,
    /// The kind of data that is voted for.
    pub body: PhantomData<T>,
}

impl<T> Keys<T> {
    /// The keys of the tally that is kept under `prefix`.
    pub fn new(prefix: Key) -> (keys: Self)
        ensures
            keys.prefix == prefix,
    {
        Keys { prefix, body: PhantomData }
    }

    /// The key of `seen`.
    pub fn seen(&self) -> (key: Key)
        ensures
            key@ == self.prefix@ + "/seen"@,
    {
        let key = self.prefix.push("seen");
        assert(key@ =~= self.prefix@ + "/seen"@) by {
            reveal_strlit("/");
            reveal_strlit("seen");
            reveal_strlit("/seen");
        }
        key
    }

    /// The key of `seen_by`.
    pub fn seen_by(&self) -> (key: Key)
        ensures
            key@ == self.prefix@ + "/seen_by"@,
    {
        let key = self.prefix.push("seen_by");
        assert(key@ =~= self.prefix@ + "/seen_by"@) by {
            reveal_strlit("/");
            reveal_strlit("seen_by");
            reveal_strlit("/seen_by");
        }
        key
    }

    /// The key of `voting_power`.
    pub fn voting_power(&self) -> (key: Key)
        ensures
            key@ == self.prefix@ + "/voting_power"@,
    {
        let key = self.prefix.push("voting_power");
        assert(key@ =~= self.prefix@ + "/voting_power"@) by {
            reveal_strlit("/");
            reveal_strlit("voting_power");
            reveal_strlit("/voting_power");
        }
        key
    }
}

/// A set of votes, each joined with the voting power that its validator had
/// at the height of the vote: what one step of a tally needs.
pub struct VoteInfo {
    inner: BTreeMap<Address, (BlockHeight, FractionalVotingPower)>,
}

impl View for VoteInfo {
    type V = Map<Address, (BlockHeight, Ratio)>;

    closed spec fn view(&self) -> Map<Address, (BlockHeight, Ratio)> {
        Map::new(
            |a: Address| self.inner@.contains_key(a),
            |a: Address| (self.inner@[a].0, self.inner@[a].1@),
        )
    }
}

/// Joins each vote with its voting power, or names the first validator for
/// whose vote none was given.
fn join_votes(
    votes: &Votes,
    voting_powers: &BTreeMap<(Address, BlockHeight), FractionalVotingPower>,
) -> (info: Result<VoteInfo, Address>)
    ensures
        match info {
            Ok(info) => all_powers_given(votes@, voting_powers@) && info@ == joined(
                votes@,
                voting_powers@,
            ),
            Err(validator) => first_without_power(votes@, voting_powers@, validator),
        },
{
    let mut inner: BTreeMap<Address, (BlockHeight, FractionalVotingPower)> = BTreeMap::new();
    let ghost order = ascending(votes@.dom());
    proof {
        lemma_key_walk(votes);
        assert(order.to_set() == votes@.dom());
        assert forall|i: int| 0 <= i < order.len() implies votes@.contains_key(
            #[trigger] order[i],
        ) by {
            assert(order.contains(order[i]));
            assert(order.to_set().contains(order[i]));
        }
    }
    for validator in it: votes.keys()
        invariant
            it.seq().unref() == order,
            order == ascending(votes@.dom()),
            order.to_set() == votes@.dom(),
            forall|i: int| 0 <= i < order.len() ==> votes@.contains_key(#[trigger] order[i]),
            is_ascending(order),
            forall|a: Address| #[trigger]
                inner@.contains_key(a) <==> exists|i: int|
                    0 <= i < it.index() && #[trigger] order[i] == a,
            forall|a: Address| #[trigger]
                inner@.contains_key(a) ==> voting_powers@.contains_key((a, votes@[a]))
                    && inner@[a] == (votes@[a], voting_powers@[(a, votes@[a])]),
    {
        let ghost at = it.index();
        assert(order[at] == *validator);
        let height = match votes.get(validator) {
            Some(height) => *height,
            None => {
                assert(false);
                unreached()
            },
        };
        match voting_powers.get(&(*validator, height)) {
            Some(power) => {
                inner.insert(*validator, (height, *power));
            },
            None => {
                proof {
                    assert forall|b: Address|
                        votes@.contains_key(b) && b < *validator
                        implies voting_powers@.contains_key((b, #[trigger] votes@[b])) by {
                        assert(order.to_set().contains(b));
                        assert(order.contains(b));
                        let j = choose|j: int| 0 <= j < order.len() && order[j] == b;
                        if j >= at {
                            assert(order[at] <= order[j]);
                        }
                        assert(inner@.contains_key(b));
                    }
                }
                return Err(*validator);
            },
        }
    }
    let info = VoteInfo { inner };
    proof {
        assert forall|a: Address| votes@.contains_key(a) implies inner@.contains_key(a) by {
            assert(order.to_set().contains(a));
            assert(order.contains(a));
        }
        assert(info@ =~= joined(votes@, voting_powers@));
    }
    Ok(info)
}

/// Adds the voting power of every vote of `info` to `start`, in ascending
/// order of address.
fn add_vote_powers(start: FractionalVotingPower, info: &VoteInfo) -> (total: Option<
    FractionalVotingPower,
>)
    ensures
        match total {
            Some(total) => added_power(start@, info@) == Some(total@) && start@.le(total@) && (
            has_power(info@) ==> start@.lt(total@)),
            None => added_power(start@, info@) is None,
        },
{
    let ghost order = ascending(info@.dom());
    proof {
        use_type_invariant(start);
        lemma_key_walk(&info.inner);
        assert(info@.dom() =~= info.inner@.dom());
        assert(order.to_set() == info@.dom());
        assert forall|i: int| 0 <= i < order.len() implies info.inner@.contains_key(
            #[trigger] order[i],
        ) by {
            assert(order.contains(order[i]));
            assert(order.to_set().contains(order[i]));
        }
    }
    let mut total = start;
    for validator in it: info.inner.keys()
        invariant
            it.seq().unref() == order,
            order == ascending(info@.dom()),
            forall|i: int| 0 <= i < order.len() ==> info.inner@.contains_key(#[trigger] order[i]),
            power_after(start@, order, info@, it.index() as nat) == Some(total@),
            start@.denom > 0,
            start@.le(total@),
            (exists|i: int| 0 <= i < it.index() && (#[trigger] info@[order[i]]).1.numer > 0)
                ==> start@.lt(total@),
    {
        let ghost at = it.index();
        assert(order[at] == *validator);
        let power = match info.inner.get(validator) {
            Some(entry) => entry.1,
            None => {
                assert(false);
                unreached()
            },
        };
        assert(power@ == info@[order[at]].1);
        proof {
            use_type_invariant(total);
            use_type_invariant(power);
            lemma_plus_grows(total@, power@);
            lemma_plus_is_sum(total@, power@);
        }
        match total.checked_add(&power) {
            Some(sum) => {
                proof {
                    lemma_le_transitive(start@, total@, sum@);
                }
                total = sum;
            },
            None => {
                proof {
                    assert(power_after(start@, order, info@, (at + 1) as nat) is None);
                    lemma_power_after_stays_none(
                        start@,
                        order,
                        info@,
                        (at + 1) as nat,
                        order.len(),
                    );
                }
                return None;
            },
        }
    }
    proof {
        if has_power(info@) {
            let a = choose|a: Address| info@.contains_key(a) && (#[trigger] info@[a]).1.numer > 0;
            assert(order.to_set().contains(a));
            assert(order.contains(a));
            let i = choose|i: int| 0 <= i < order.len() && order[i] == a;
            assert(info@[order[i]].1.numer > 0);
        }
    }
    Some(total)
}

/// Whether a voting power was given for every vote.
pub fn all_powers_are_given(
    votes: &Votes,
    voting_powers: &BTreeMap<(Address, BlockHeight), FractionalVotingPower>,
) -> (given: bool)
    ensures
        given == all_powers_given(votes@, voting_powers@),
{
    join_votes(votes, voting_powers).is_ok()
}

impl VoteInfo {
    /// Joins each vote with the voting power that its validator had at the
    /// height of the vote. A voting power must have been given for every
    /// vote.
    pub fn new(
        votes: Votes,
        voting_powers: &BTreeMap<(Address, BlockHeight), FractionalVotingPower>,
    ) -> (info: Self)
        requires
            all_powers_given(votes@, voting_powers@),
        ensures
            info@ == joined(votes@, voting_powers@),
    {
        match join_votes(&votes, voting_powers) {
            Ok(info) => info,
            Err(_) => {
                assert(false);
                unreached()
            },
        }
    }

    /// The validators that vote.
    pub fn voters(&self) -> (voters: BTreeSet<Address>)
        ensures
            voters@ == self@.dom(),
    {
        let mut voters: BTreeSet<Address> = BTreeSet::new();
        let ghost order = self.inner.keys().remaining().unref();
        proof {
            assert(order.to_set() == self.inner@.dom());
        }
        for validator in it: self.inner.keys()
            invariant
                it.seq().unref() == order,
                forall|a: Address| #[trigger]
                    voters@.contains(a) <==> exists|i: int|
                        0 <= i < it.index() && #[trigger] order[i] == a,
        {
            assert(order[it.index()] == *validator);
            voters.insert(*validator);
        }
        proof {
            assert forall|a: Address| voters@.contains(a) <==> self@.dom().contains(a) by {
                if voters@.contains(a) {
                    let i = choose|i: int| 0 <= i < order.len() && #[trigger] order[i] == a;
                    assert(order.contains(order[i]));
                    assert(order.to_set().contains(a));
                }
                if self@.dom().contains(a) {
                    assert(order.to_set().contains(a));
                    assert(order.contains(a));
                }
            }
            assert(voters@ =~= self@.dom());
        }
        voters
    }

    /// The height at which `validator` votes.
    pub fn get_vote_height(&self, validator: &Address) -> (height: BlockHeight)
        requires
            self@.contains_key(*validator),
        ensures
            height == self@[*validator].0,
    {
        match self.inner.get(validator) {
            Some(entry) => entry.0,
            None => {
                assert(false);
                unreached()
            },
        }
    }

    /// The voting power with which `validator` votes.
    pub fn get_vote_power(&self, validator: &Address) -> (power: FractionalVotingPower)
        requires
            self@.contains_key(*validator),
        ensures
            power@ == self@[*validator].1,
    {
        match self.inner.get(validator) {
            Some(entry) => entry.1,
            None => {
                assert(false);
                unreached()
            },
        }
    }
}

/// The paths of a list of keys.
pub open spec fn key_paths(keys: Seq<Key>) -> Seq<Seq<char>> {
    keys.map_values(|key: Key| key@)
}

/// Calculates the tally of a first set of votes from the voting power that
/// each validator had at the height of its vote. The tally is seen exactly
/// where the voting power behind it is a quorum.
pub fn calculate_new(
    seen_by: Votes,
    voting_powers: &BTreeMap<(Address, BlockHeight), FractionalVotingPower>,
) -> (tally: Result<Tally, TallyError>)
    ensures
        match tally {
            Ok(tally) => created(seen_by@, voting_powers@) == Ok::<TallyView, TallyError>(tally@),
            Err(refusal) => created(seen_by@, voting_powers@) == Err::<TallyView, TallyError>(
                refusal,
            ),
        },
        tally matches Ok(tally) ==> tally.seen == tally.voting_power@.exceeds_two_thirds(),
{
    let info = match join_votes(&seen_by, voting_powers) {
        Ok(info) => info,
        Err(validator) => {
            proof {
                let first = choose|a: Address|
                    first_without_power(seen_by@, voting_powers@, a);
                assert(first_without_power(seen_by@, voting_powers@, first));
                assert(first == validator);
            }
            return Err(TallyError::MissingVotingPower { validator });
        },
    };
    match add_vote_powers(FractionalVotingPower::default(), &info) {
        Some(voting_power) => {
            let seen = voting_power.exceeds_two_thirds();
            Ok(Tally { voting_power, seen_by, seen })
        },
        None => Err(TallyError::VotingPowerOverflow),
    }
}

/// Calculates the tally that follows `pre` once the votes of `vote_info` are
/// counted. No validator may vote that has voted before.
pub fn calculate_update(pre: &Tally, vote_info: &VoteInfo) -> (post: Result<Tally, TallyError>)
    ensures
        match post {
            Ok(post) => updated(pre@, vote_info@) == Ok::<TallyView, TallyError>(post@),
            Err(refusal) => updated(pre@, vote_info@) == Err::<TallyView, TallyError>(refusal),
        },
        post matches Ok(post) ==> pre@.voting_power.le(post@.voting_power)
            && pre@.seen_by.submap_of(post@.seen_by) && (has_power(vote_info@)
            ==> pre@.voting_power.lt(post@.voting_power)),
{
    let new_voters = vote_info.voters();
    let ghost order = ascending(new_voters@);
    proof {
        lemma_set_walk(&new_voters);
    }
    for validator in it: new_voters.iter()
        invariant
            it.seq().unref() == order,
            order.to_set() == vote_info@.dom(),
            forall|i: int|
                0 <= i < it.index() ==> !pre.seen_by@.contains_key(#[trigger] order[i]),
    {
        assert(order[it.index()] == *validator);
        if pre.seen_by.contains_key(validator) {
            proof {
                assert(order.contains(order[it.index()]));
                assert(order.to_set().contains(*validator));
            }
            return Err(TallyError::DuplicateVoters);
        }
    }
    proof {
        assert forall|a: Address| !(pre@.seen_by.contains_key(a) && vote_info@.contains_key(a)) by {
            if vote_info@.contains_key(a) {
                assert(order.to_set().contains(a));
                assert(order.contains(a));
            }
        }
    }
    let voting_power = match add_vote_powers(pre.voting_power, vote_info) {
        Some(voting_power) => voting_power,
        None => {
            return Err(TallyError::VotingPowerOverflow);
        },
    };
    let mut seen_by = pre.seen_by.clone();
    for validator in it: new_voters.iter()
        invariant
            it.seq().unref() == order,
            order.to_set() == vote_info@.dom(),
            forall|a: Address| #[trigger]
                seen_by@.contains_key(a) <==> pre.seen_by@.contains_key(a) || exists|i: int|
                    0 <= i < it.index() && #[trigger] order[i] == a,
            forall|a: Address| #[trigger]
                seen_by@.contains_key(a) ==> seen_by@[a] == with_votes(pre.seen_by@, vote_info@)[a],
            forall|a: Address| !(pre.seen_by@.contains_key(a) && vote_info@.contains_key(a)),
    {
        assert(order[it.index()] == *validator);
        proof {
            assert(order.contains(order[it.index()]));
            assert(order.to_set().contains(*validator));
        }
        let height = vote_info.get_vote_height(validator);
        seen_by.insert(*validator, height);
    }
    proof {
        assert forall|a: Address| vote_info@.contains_key(a) implies seen_by@.contains_key(a) by {
            assert(order.to_set().contains(a));
            assert(order.contains(a));
        }
        assert forall|a: Address| seen_by@.contains_key(a) implies with_votes(
            pre.seen_by@,
            vote_info@,
        ).contains_key(a) by {
            if !pre.seen_by@.contains_key(a) {
                let i = choose|i: int| 0 <= i < order.len() && #[trigger] order[i] == a;
                assert(order.contains(order[i]));
                assert(order.to_set().contains(a));
            }
        }
        assert(seen_by@ =~= with_votes(pre.seen_by@, vote_info@));
    }
    let seen = voting_power.exceeds_two_thirds();
    Ok(Tally { voting_power, seen_by, seen })
}

/// Whether every voter of `votes` is a voter of `others` too.
fn voters_within(votes: &Votes, others: &Votes) -> (within: bool)
    ensures
        within == votes@.dom().subset_of(others@.dom()),
{
    let ghost order = ascending(votes@.dom());
    proof {
        lemma_key_walk(votes);
    }
    for validator in it: votes.keys()
        invariant
            it.seq().unref() == order,
            order.to_set() == votes@.dom(),
            forall|i: int| 0 <= i < it.index() ==> others@.contains_key(#[trigger] order[i]),
    {
        assert(order[it.index()] == *validator);
        if !others.contains_key(validator) {
            proof {
                assert(order.contains(order[it.index()]));
                assert(order.to_set().contains(*validator));
            }
            return false;
        }
    }
    proof {
        assert forall|a: Address| votes@.dom().contains(a) implies others@.dom().contains(a) by {
            assert(order.to_set().contains(a));
            assert(order.contains(a));
        }
    }
    true
}

/// Validates that `post` may follow `pre`, and returns the keys of the parts
/// that changed. `seen` may only go from `false` to `true`, no voter may
/// leave, and the voting power may only grow.
pub fn validate_update<T>(keys: &Keys<T>, pre: &Tally, post: &Tally) -> (changed: Result<
    ChangedKeys,
    TallyError,
>)
    ensures
        match changed {
            Ok(changed) => update_fault(pre@, post@) is None && key_paths(changed@)
                == changed_keys(keys.prefix@, pre@, post@),
            Err(fault) => update_fault(pre@, post@) == Some(fault),
        },
        changed is Ok ==> pre@.seen_by.dom().subset_of(post@.seen_by.dom())
            && pre@.voting_power.le(post@.voting_power) && (pre.seen ==> post.seen),
{
    let mut keys_changed: Vec<Key> = Vec::new();
    let mut seen = false;
    if pre.seen != post.seen {
        if pre.seen || !post.seen {
            return Err(TallyError::SeenRegressed);
        }
        keys_changed.push(keys.seen());
        seen = true;
    }
    let kept = voters_within(&pre.seen_by, &post.seen_by);
    let same = kept && voters_within(&post.seen_by, &pre.seen_by);
    proof {
        if same {
            assert(pre@.seen_by.dom() =~= post@.seen_by.dom());
        }
    }
    if !same {
        if !kept {
            return Err(TallyError::VotersRemoved);
        }
        keys_changed.push(keys.seen_by());
    }
    proof {
        lemma_view_is_one_to_one(pre.voting_power, post.voting_power);
    }
    if pre.voting_power != post.voting_power {
        if pre.voting_power.ge(&post.voting_power) {
            return Err(TallyError::VotingPowerNotIncreased);
        }
        keys_changed.push(keys.voting_power());
    }
    if post.voting_power.exceeds_two_thirds() && !seen && pre.voting_power.ge(&post.voting_power) {
        return Err(TallyError::QuorumNotSeen);
    }
    proof {
        assert(key_paths(keys_changed@) =~= changed_keys(keys.prefix@, pre@, post@));
    }
    Ok(keys_changed)
}

/// Counts the votes of `vote_info` on top of the stored tally `tally_pre`,
/// validates the step, and returns the new tally with the keys, among `keys`,
/// of the parts that changed.
pub fn calculate_updated<T>(tally_pre: &Tally, keys: &Keys<T>, vote_info: &VoteInfo) -> (outcome:
    Result<(Tally, ChangedKeys), TallyError>)
    ensures
        match outcome {
            Ok((post, changed)) => validated_update(keys.prefix@, tally_pre@, vote_info@) == Ok::<
                (TallyView, Seq<Seq<char>>),
                TallyError,
            >((post@, key_paths(changed@))),
            Err(refusal) => validated_update(keys.prefix@, tally_pre@, vote_info@) == Err::<
                (TallyView, Seq<Seq<char>>),
                TallyError,
            >(refusal),
        },
        outcome matches Ok((post, _)) ==> tally_pre@.seen_by.submap_of(post@.seen_by)
            && tally_pre@.voting_power.le(post@.voting_power) && (tally_pre.seen ==> post.seen)
            && (has_power(vote_info@) ==> tally_pre@.voting_power.lt(post@.voting_power)),
{
    let tally_post = match calculate_update(tally_pre, vote_info) {
        Ok(tally_post) => tally_post,
        Err(refusal) => {
            return Err(refusal);
        },
    };
    let changed = match validate_update(keys, tally_pre, &tally_post) {
        Ok(changed) => changed,
        Err(fault) => {
            return Err(fault);
        },
    };
    Ok((tally_post, changed))
}

/// Builds a [`Votes`] map from a set of signatures, keeping for each validator
/// the earliest height at which it signed.
pub fn dedupe(signers: BTreeSet<(Address, BlockHeight)>) -> (votes: Votes)
    ensures
        forall|a: Address| #[trigger]
            votes@.contains_key(a) <==> exists|h: BlockHeight| signers@.contains((a, h)),
        forall|a: Address| #[trigger]
            votes@.contains_key(a) ==> signers@.contains((a, votes@[a])),
        forall|a: Address, h: BlockHeight| #[trigger]
            signers@.contains((a, h)) ==> votes@[a] <= h,
{
    let mut votes: Votes = BTreeMap::new();
    let ghost order = signers.iter().remaining().unref();
    proof {
        assert(order.to_set() == signers@);
        assert forall|p: (Address, BlockHeight)| signers@.contains(p) implies order.contains(p) by {
            assert(order.to_set().contains(p));
        }
        assert forall|i: int| 0 <= i < order.len() implies signers@.contains(#[trigger] order[i]) by {
            assert(order.contains(order[i]));
            assert(order.to_set().contains(order[i]));
        }
    }
    for signer in it: signers.iter()
        invariant
            it.seq().unref() == order,
            forall|a: Address| #[trigger]
                votes@.contains_key(a) <==> exists|i: int|
                    0 <= i < it.index() && (#[trigger] order[i]).0 == a,
            forall|a: Address| #[trigger]
                votes@.contains_key(a) ==> exists|i: int|
                    0 <= i < it.index() && #[trigger] order[i] == (a, votes@[a]),
            forall|i: int|
                0 <= i < it.index() ==> votes@[(#[trigger] order[i]).0] <= order[i].1,
    {
        let (address, height) = *signer;
        assert(order[it.index()] == (address, height));
        let earlier = match votes.get(&address) {
            Some(known) => *known <= height,
            None => false,
        };
        if !earlier {
            votes.insert(address, height);
        }
    }
    votes
}

} // verus!
