//! The mathematical rules of voting: which option a ballot counts for, what a
//! vote does to a poll's counts, and the laws that tie counts to ballots.
use vstd::prelude::*;
use vstd::set_lib::{lemma_len_subset, lemma_set_disjoint_lens};

verus! {

broadcast use vstd::set::group_set_axioms;

/// The labels of a poll's options, in order.
pub open spec fn labels(options: Seq<(Seq<char>, int)>) -> Seq<Seq<char>> {
    options.map_values(|o: (Seq<char>, int)| o.0)
}

/// The position of the first label equal to `label`, or -1 when there is none.
pub open spec fn first_index(ls: Seq<Seq<char>>, label: Seq<char>) -> int
    decreases ls.len(),
{
    if ls.len() == 0 {
        -1
    } else if ls[0] == label {
        0
    } else {
        let r = first_index(ls.drop_first(), label);
        if r < 0 {
            -1
        } else {
            r + 1
        }
    }
}

/// `first_index` is the least position holding `label`, and -1 exactly when
/// no position does.
pub proof fn lemma_first_index(ls: Seq<Seq<char>>, label: Seq<char>)
    ensures
        -1 <= first_index(ls, label) < ls.len(),
        first_index(ls, label) >= 0 ==> ls[first_index(ls, label)] == label,
        forall|j: int|
            0 <= j < ls.len() && #[trigger] ls[j] == label ==> 0 <= first_index(ls, label) <= j,
    decreases ls.len(),
{
    if ls.len() > 0 && ls[0] != label {
        lemma_first_index(ls.drop_first(), label);
        assert forall|j: int| 0 <= j < ls.len() && #[trigger] ls[j] == label implies 0 <= first_index(
            ls,
            label,
        ) <= j by {
            assert(ls.drop_first()[j - 1] == ls[j]);
        }
    }
}

/// The options with the count at `i` replaced by `c`.
pub open spec fn set_count(options: Seq<(Seq<char>, int)>, i: int, c: int) -> Seq<(Seq<char>, int)> {
    options.update(i, (options[i].0, c))
}

/// Changing a count keeps the labels.
pub proof fn lemma_set_count_labels(options: Seq<(Seq<char>, int)>, i: int, c: int)
    requires
        0 <= i < options.len(),
    ensures
        labels(set_count(options, i, c)) == labels(options),
{
    assert(labels(set_count(options, i, c)) =~= labels(options));
}

/// Whether a vote aborts: the voter's previous choice is not an option of the
/// poll or has no vote left to withdraw, or the chosen option's count is
/// already the largest a count can hold.
pub open spec fn vote_aborts(
    options: Seq<(Seq<char>, int)>,
    previous: Option<Seq<char>>,
    vote: Seq<char>,
) -> bool {
    let ls = labels(options);
    let j = first_index(ls, vote);
    match previous {
        Some(p) => {
            let i = first_index(ls, p);
            i < 0 || options[i].1 <= 0 || (j >= 0 && j != i && options[j].1 >= u64::MAX)
        },
        None => j >= 0 && options[j].1 >= u64::MAX,
    }
}

/// The options after the voter's previous choice, if any, lost its vote.
pub open spec fn withdraw(options: Seq<(Seq<char>, int)>, previous: Option<Seq<char>>) -> Seq<
    (Seq<char>, int),
> {
    match previous {
        Some(p) => {
            let i = first_index(labels(options), p);
            set_count(options, i, options[i].1 - 1)
        },
        None => options,
    }
}

/// The options after a vote for `vote` by a voter whose previous choice was
/// `previous`, or `None` when `vote` is not an option of the poll.
pub open spec fn cast_vote(
    options: Seq<(Seq<char>, int)>,
    previous: Option<Seq<char>>,
    vote: Seq<char>,
) -> Option<Seq<(Seq<char>, int)>> {
    let after = withdraw(options, previous);
    let j = first_index(labels(options), vote);
    if j < 0 {
        None
    } else {
        Some(set_count(after, j, after[j].1 + 1))
    }
}

/// The voters among `ballots` (voter to chosen label) whose ballot counts for
/// the option at position `i`.
pub open spec fn voters_for(ls: Seq<Seq<char>>, ballots: Map<Seq<char>, Seq<char>>, i: int) -> Set<
    Seq<char>,
> {
    ballots.dom().filter(|v: Seq<char>| first_index(ls, ballots[v]) == i)
}

/// The counts of a poll agree with its ballots: every ballot names an option,
/// and each option's count is the number of ballots that count for it.
pub open spec fn tally_matches(
    options: Seq<(Seq<char>, int)>,
    ballots: Map<Seq<char>, Seq<char>>,
) -> bool {
    let ls = labels(options);
    &&& ballots.dom().finite()
    &&& forall|v: Seq<char>| #[trigger] ballots.dom().contains(v) ==> first_index(ls, ballots[v]) >= 0
    &&& forall|i: int|
        #![trigger options[i]]
        0 <= i < options.len() ==> options[i].1 == voters_for(ls, ballots, i).len()
}

/// The choice that `voter` holds in `ballots`, if any.
pub open spec fn previous_choice(ballots: Map<Seq<char>, Seq<char>>, voter: Seq<char>) -> Option<
    Seq<char>,
> {
    if ballots.dom().contains(voter) {
        Some(ballots[voter])
    } else {
        None
    }
}

/// The options of a newly created poll: the given labels, each with no vote.
pub open spec fn fresh_options(ls: Seq<Seq<char>>) -> Seq<(Seq<char>, int)> {
    Seq::new(ls.len(), |i: int| (ls[i], 0int))
}

/// The sum of all counts.
pub open spec fn total_votes(options: Seq<(Seq<char>, int)>) -> int
    decreases options.len(),
{
    if options.len() == 0 {
        0
    } else {
        total_votes(options.drop_last()) + options.last().1
    }
}

/// Changing one count changes the total by the difference.
pub proof fn lemma_total_set_count(options: Seq<(Seq<char>, int)>, i: int, c: int)
    requires
        0 <= i < options.len(),
    ensures
        total_votes(set_count(options, i, c)) == total_votes(options) - options[i].1 + c,
    decreases options.len(),
{
    let s = set_count(options, i, c);
    if i < options.len() - 1 {
        assert(s.drop_last() =~= set_count(options.drop_last(), i, c));
        lemma_total_set_count(options.drop_last(), i, c);
    } else {
        assert(s.drop_last() =~= options.drop_last());
    }
}

/// A new poll's counts agree with the empty set of ballots.
pub proof fn lemma_fresh_poll_tally(ls: Seq<Seq<char>>)
    ensures
        labels(fresh_options(ls)) == ls,
        tally_matches(fresh_options(ls), Map::empty()),
        total_votes(fresh_options(ls)) == 0,
    decreases ls.len(),
{
    let opts = fresh_options(ls);
    assert(labels(opts) =~= ls);
    let empty = Map::<Seq<char>, Seq<char>>::empty();
    assert forall|i: int| #![trigger opts[i]] 0 <= i < opts.len() implies opts[i].1 == voters_for(
        ls,
        empty,
        i,
    ).len() by {
        assert(voters_for(ls, empty, i) =~= Set::empty());
    }
    if ls.len() > 0 {
        lemma_fresh_poll_tally(ls.drop_last());
        assert(opts.drop_last() =~= fresh_options(ls.drop_last()));
    }
}

/// While a poll's counts agree with its ballots and the poll has fewer
/// ballots than a count can hold, a vote never aborts.
pub proof fn lemma_tally_vote_never_aborts(
    options: Seq<(Seq<char>, int)>,
    ballots: Map<Seq<char>, Seq<char>>,
    voter: Seq<char>,
    vote: Seq<char>,
)
    requires
        tally_matches(options, ballots),
        ballots.dom().len() < u64::MAX,
    ensures
        !vote_aborts(options, previous_choice(ballots, voter), vote),
{
    let ls = labels(options);
    let j = first_index(ls, vote);
    lemma_first_index(ls, vote);
    let dom = ballots.dom();
    if dom.contains(voter) {
        let i = first_index(ls, ballots[voter]);
        lemma_first_index(ls, ballots[voter]);
        let vi = voters_for(ls, ballots, i);
        lemma_len_subset(vi, dom);
        assert(vi.contains(voter));
        assert(vi.remove(voter).len() + 1 == vi.len());
        if j >= 0 && j != i {
            let vj = voters_for(ls, ballots, j);
            assert(vj.subset_of(dom.remove(voter)));
            lemma_len_subset(vj, dom.remove(voter));
        }
    } else if j >= 0 {
        let vj = voters_for(ls, ballots, j);
        lemma_len_subset(vj, dom);
    }
}

/// While a poll's counts agree with its ballots, a vote is refused exactly
/// when the chosen label is not an option, and otherwise the new counts agree
/// with the ballots in which the voter's ballot is replaced by the new choice.
pub proof fn lemma_vote_keeps_tally(
    options: Seq<(Seq<char>, int)>,
    ballots: Map<Seq<char>, Seq<char>>,
    voter: Seq<char>,
    vote: Seq<char>,
)
    requires
        tally_matches(options, ballots),
    ensures
        cast_vote(options, previous_choice(ballots, voter), vote) is Some <==> first_index(
            labels(options),
            vote,
        ) >= 0,
        cast_vote(options, previous_choice(ballots, voter), vote) matches Some(new_options)
            ==> tally_matches(new_options, ballots.insert(voter, vote)),
{
    let ls = labels(options);
    let prev = previous_choice(ballots, voter);
    let j = first_index(ls, vote);
    lemma_first_index(ls, vote);
    let dom = ballots.dom();
    if dom.contains(voter) {
        lemma_first_index(ls, ballots[voter]);
    }
    if j >= 0 {
        let after = withdraw(options, prev);
        let new_options = set_count(after, j, after[j].1 + 1);
        if let Some(p) = prev {
            lemma_set_count_labels(options, first_index(ls, p), options[first_index(ls, p)].1 - 1);
        }
        lemma_set_count_labels(after, j, after[j].1 + 1);
        assert(labels(new_options) == ls);
        let nb = ballots.insert(voter, vote);
        assert(nb.dom() =~= dom.insert(voter));
        assert forall|v: Seq<char>| #[trigger] nb.dom().contains(v) implies first_index(
            ls,
            nb[v],
        ) >= 0 by {
            if v != voter {
                assert(dom.contains(v));
            }
        }
        assert forall|k: int| #![trigger new_options[k]] 0 <= k < new_options.len() implies new_options[k].1
            == voters_for(ls, nb, k).len() by {
            let old_set = voters_for(ls, ballots, k);
            let new_set = voters_for(ls, nb, k);
            let base = old_set.remove(voter);
            lemma_len_subset(old_set, dom);
            assert(options[k].1 == old_set.len());
            if j == k {
                assert(new_set =~= base.insert(voter));
            } else {
                assert(new_set =~= base);
            }
        }
    }
}

/// The voters whose ballot counts for one of the first `k` options.
spec fn voters_before(ls: Seq<Seq<char>>, ballots: Map<Seq<char>, Seq<char>>, k: int) -> Set<
    Seq<char>,
> {
    ballots.dom().filter(|v: Seq<char>| first_index(ls, ballots[v]) < k)
}

proof fn lemma_prefix_total(
    options: Seq<(Seq<char>, int)>,
    ballots: Map<Seq<char>, Seq<char>>,
    k: int,
)
    requires
        tally_matches(options, ballots),
        0 <= k <= options.len(),
    ensures
        total_votes(options.take(k)) == voters_before(labels(options), ballots, k).len(),
    decreases k,
{
    let ls = labels(options);
    let before = voters_before(ls, ballots, k);
    if k == 0 {
        assert(before =~= Set::empty());
        assert(options.take(0) =~= Seq::<(Seq<char>, int)>::empty());
    } else {
        lemma_prefix_total(options, ballots, k - 1);
        let earlier = voters_before(ls, ballots, k - 1);
        let at = voters_for(ls, ballots, k - 1);
        assert(options.take(k).drop_last() =~= options.take(k - 1));
        assert(options.take(k).last() == options[k - 1]);
        assert(before =~= earlier + at);
        assert(earlier.disjoint(at));
        lemma_len_subset(earlier, ballots.dom());
        lemma_len_subset(at, ballots.dom());
        lemma_set_disjoint_lens(earlier, at);
    }
}

/// While a poll's counts agree with its ballots, every ballot counts exactly
/// once: the total of the counts is the number of voters.
pub proof fn lemma_total_is_voters(
    options: Seq<(Seq<char>, int)>,
    ballots: Map<Seq<char>, Seq<char>>,
)
    requires
        tally_matches(options, ballots),
    ensures
        total_votes(options) == ballots.dom().len(),
{
    let ls = labels(options);
    lemma_prefix_total(options, ballots, options.len() as int);
    assert(options.take(options.len() as int) =~= options);
    assert forall|v: Seq<char>| #[trigger] ballots.dom().contains(v) implies first_index(ls, ballots[v])
        < options.len() by {
        lemma_first_index(ls, ballots[v]);
    }
    assert(voters_before(ls, ballots, options.len() as int) =~= ballots.dom());
}

/// How much a vote changes the count at position `k`: minus one where the
/// previous choice counted, plus one where the new choice counts.
pub open spec fn vote_delta(ls: Seq<Seq<char>>, previous: Option<Seq<char>>, vote: Seq<char>, k: int) -> int {
    (if previous matches Some(p) && first_index(ls, p) == k {
        -1int
    } else {
        0
    }) + (if first_index(ls, vote) == k {
        1int
    } else {
        0
    })
}

/// A vote keeps the labels and changes each count by `vote_delta`, provided
/// the previous choice, if any, is an option.
pub proof fn lemma_cast_vote_counts(
    options: Seq<(Seq<char>, int)>,
    previous: Option<Seq<char>>,
    vote: Seq<char>,
)
    requires
        previous matches Some(p) ==> first_index(labels(options), p) >= 0,
    ensures
        cast_vote(options, previous, vote) matches Some(new_options) ==> {
            &&& labels(new_options) == labels(options)
            &&& new_options.len() == options.len()
            &&& forall|k: int|
                #![trigger new_options[k]]
                0 <= k < options.len() ==> new_options[k].1 == options[k].1 + vote_delta(
                    labels(options),
                    previous,
                    vote,
                    k,
                )
        },
{
    let ls = labels(options);
    let j = first_index(ls, vote);
    lemma_first_index(ls, vote);
    if j >= 0 {
        let after = withdraw(options, previous);
        if let Some(p) = previous {
            let i = first_index(ls, p);
            lemma_first_index(ls, p);
            lemma_set_count_labels(options, i, options[i].1 - 1);
        }
        lemma_set_count_labels(after, j, after[j].1 + 1);
    }
}

/// A vote in plain terms: when option `j` is the first labelled `vote` and,
/// for a voter with a previous choice, option `i` is the first labelled with
/// that choice, the vote is accepted; every option keeps its label, option
/// `j` gains one vote, option `i` loses one, and every other count stays.
pub proof fn lemma_vote_moves_one(
    options: Seq<(Seq<char>, int)>,
    previous: Option<Seq<char>>,
    vote: Seq<char>,
    j: int,
    i: int,
)
    requires
        0 <= j < options.len(),
        options[j].0 == vote,
        forall|l: int| 0 <= l < j ==> #[trigger] options[l].0 != vote,
        previous matches Some(p) ==> {
            &&& 0 <= i < options.len()
            &&& options[i].0 == p
            &&& forall|l: int| 0 <= l < i ==> #[trigger] options[l].0 != p
        },
    ensures
        cast_vote(options, previous, vote) matches Some(new_options) && new_options.len()
            == options.len() && (forall|k: int|
            #![trigger new_options[k]]
            0 <= k < options.len() ==> new_options[k].0 == options[k].0 && new_options[k].1
                == options[k].1 + (if k == j {
                1int
            } else {
                0
            }) - (if previous is Some && k == i {
                1int
            } else {
                0
            })),
{
    let ls = labels(options);
    assert(ls[j] == options[j].0);
    assert forall|l: int| 0 <= l < j implies #[trigger] ls[l] != vote by {
        assert(ls[l] == options[l].0);
    }
    lemma_first_index(ls, vote);
    assert(ls[first_index(ls, vote)] == vote);
    assert(first_index(ls, vote) == j);
    if let Some(p) = previous {
        assert(ls[i] == options[i].0);
        assert forall|l: int| 0 <= l < i implies #[trigger] ls[l] != p by {
            assert(ls[l] == options[l].0);
        }
        lemma_first_index(ls, p);
        assert(ls[first_index(ls, p)] == p);
        assert(first_index(ls, p) == i);
    }
    lemma_cast_vote_counts(options, previous, vote);
    let new_options = cast_vote(options, previous, vote).unwrap();
    assert forall|k: int| #![trigger new_options[k]] 0 <= k < options.len() implies new_options[k].0
        == options[k].0 by {
        assert(labels(new_options)[k] == new_options[k].0);
        assert(ls[k] == options[k].0);
    }
}

/// A vote for a label that no option has is refused.
pub proof fn lemma_vote_unknown_option(
    options: Seq<(Seq<char>, int)>,
    previous: Option<Seq<char>>,
    vote: Seq<char>,
)
    requires
        forall|k: int| 0 <= k < options.len() ==> #[trigger] options[k].0 != vote,
    ensures
        cast_vote(options, previous, vote) is None,
{
    let ls = labels(options);
    lemma_first_index(ls, vote);
    if first_index(ls, vote) >= 0 {
        assert(ls[first_index(ls, vote)] == options[first_index(ls, vote)].0);
    }
}

/// A new poll in plain terms: one option per given label, in order, each
/// with no vote.
pub proof fn lemma_fresh_options(ls: Seq<Seq<char>>)
    ensures
        fresh_options(ls).len() == ls.len(),
        forall|i: int| 0 <= i < ls.len() ==> #[trigger] fresh_options(ls)[i] == (ls[i], 0int),
{
}

/// Two votes commute: when each voter's previous choice, if any, is an
/// option, and each vote is accepted on its own, then either order accepts
/// both and gives the same counts.
pub proof fn lemma_votes_commute(
    options: Seq<(Seq<char>, int)>,
    previous1: Option<Seq<char>>,
    vote1: Seq<char>,
    previous2: Option<Seq<char>>,
    vote2: Seq<char>,
)
    requires
        previous1 matches Some(p) ==> first_index(labels(options), p) >= 0,
        previous2 matches Some(p) ==> first_index(labels(options), p) >= 0,
    ensures
        match (cast_vote(options, previous1, vote1), cast_vote(options, previous2, vote2)) {
            (Some(first1), Some(first2)) => {
                &&& cast_vote(first1, previous2, vote2) is Some
                &&& cast_vote(first1, previous2, vote2) == cast_vote(first2, previous1, vote1)
            },
            _ => true,
        },
{
    let ls = labels(options);
    lemma_cast_vote_counts(options, previous1, vote1);
    lemma_cast_vote_counts(options, previous2, vote2);
    if let (Some(first1), Some(first2)) = (
        cast_vote(options, previous1, vote1),
        cast_vote(options, previous2, vote2),
    ) {
        lemma_cast_vote_counts(first1, previous2, vote2);
        lemma_cast_vote_counts(first2, previous1, vote1);
        let o12 = cast_vote(first1, previous2, vote2).unwrap();
        let o21 = cast_vote(first2, previous1, vote1).unwrap();
        assert forall|k: int| 0 <= k < options.len() implies o12[k] == o21[k] by {
            assert(labels(o12)[k] == o12[k].0);
            assert(labels(o21)[k] == o21[k].0);
        }
        assert(o12 =~= o21);
    }
}

/// Two different voters' votes in one poll commute: while the counts agree
/// with the ballots, when each vote is accepted on its own, both orders
/// accept both votes and end with the same counts and the same ballots.
pub proof fn lemma_voters_commute(
    options: Seq<(Seq<char>, int)>,
    ballots: Map<Seq<char>, Seq<char>>,
    voter1: Seq<char>,
    vote1: Seq<char>,
    voter2: Seq<char>,
    vote2: Seq<char>,
)
    requires
        tally_matches(options, ballots),
        voter1 != voter2,
    ensures
        match (
            cast_vote(options, previous_choice(ballots, voter1), vote1),
            cast_vote(options, previous_choice(ballots, voter2), vote2),
        ) {
            (Some(first1), Some(first2)) => {
                &&& cast_vote(first1, previous_choice(ballots.insert(voter1, vote1), voter2), vote2) is Some
                &&& cast_vote(first1, previous_choice(ballots.insert(voter1, vote1), voter2), vote2)
                    == cast_vote(first2, previous_choice(ballots.insert(voter2, vote2), voter1), vote1)
                &&& ballots.insert(voter1, vote1).insert(voter2, vote2) == ballots.insert(
                    voter2,
                    vote2,
                ).insert(voter1, vote1)
            },
            _ => true,
        },
{
    let ls = labels(options);
    assert(previous_choice(ballots.insert(voter1, vote1), voter2) == previous_choice(ballots, voter2));
    assert(previous_choice(ballots.insert(voter2, vote2), voter1) == previous_choice(ballots, voter1));
    if ballots.dom().contains(voter1) {
        assert(first_index(ls, ballots[voter1]) >= 0);
    }
    if ballots.dom().contains(voter2) {
        assert(first_index(ls, ballots[voter2]) >= 0);
    }
    lemma_votes_commute(
        options,
        previous_choice(ballots, voter1),
        vote1,
        previous_choice(ballots, voter2),
        vote2,
    );
    assert(ballots.insert(voter1, vote1).insert(voter2, vote2) =~= ballots.insert(voter2, vote2).insert(
        voter1,
        vote1,
    ));
}

/// A vote for the option that the voter already chose changes nothing.
pub proof fn lemma_revote_same_option(options: Seq<(Seq<char>, int)>, vote: Seq<char>)
    requires
        !vote_aborts(options, Some(vote), vote),
    ensures
        cast_vote(options, Some(vote), vote) == Some(options),
{
    let i = first_index(labels(options), vote);
    lemma_first_index(labels(options), vote);
    let after = withdraw(options, Some(vote));
    assert(set_count(after, i, after[i].1 + 1) =~= options);
}

/// A vote adds one to the total when it is the voter's first in the poll, and
/// leaves the total unchanged when it replaces an earlier ballot.
pub proof fn lemma_vote_total(
    options: Seq<(Seq<char>, int)>,
    previous: Option<Seq<char>>,
    vote: Seq<char>,
)
    requires
        !vote_aborts(options, previous, vote),
    ensures
        cast_vote(options, previous, vote) matches Some(new_options) ==> total_votes(new_options)
            == total_votes(options) + (if previous is None {
            1int
        } else {
            0
        }),
{
    let ls = labels(options);
    let j = first_index(ls, vote);
    lemma_first_index(ls, vote);
    if j >= 0 {
        let after = withdraw(options, previous);
        if let Some(p) = previous {
            let i = first_index(ls, p);
            lemma_first_index(ls, p);
            lemma_total_set_count(options, i, options[i].1 - 1);
        }
        lemma_total_set_count(after, j, after[j].1 + 1);
    }
}

} // verus!
