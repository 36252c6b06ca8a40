use ballot::storage::{
    get_candidate_votes_count, get_candidates, get_config, get_delegated_votes,
    get_voter_delegated_votes, get_votes, store_config, update_candidate_count, Store, VCounter,
};
use ballot::{Ballot, Error};

fn id(s: &str) -> String {
    s.to_string()
}

fn tally_of(count: &[(String, u32)], candidate: &str) -> Option<u32> {
    count.iter().find(|(name, _)| name == candidate).map(|(_, n)| *n)
}

#[test]
fn vote_test() {
    let mut store = Store::new();
    let now: u64 = 0;

    assert_eq!(Ballot::vote(&mut store, now, id("hyyt76"), id("Laborist")), Ok(true));
    assert_eq!(Ballot::vote(&mut store, now, id("ptft37"), id("Conserv")), Ok(true));
    assert_eq!(Ballot::vote(&mut store, now, id("oo9gt6"), id("Conserv")), Ok(true));

    let count = Ballot::count(&store);

    assert_eq!(tally_of(&count, "Laborist").unwrap(), 1);
    assert_eq!(tally_of(&count, "Conserv").unwrap(), 2);

    assert_eq!(Ballot::delegate(&mut store, now, id("ippcxs"), id("oonvv5")), Ok(true));
    assert_eq!(Ballot::vote(&mut store, now, id("oonvv5"), id("Conserv")), Ok(true));

    let count = Ballot::count(&store);

    assert_eq!(tally_of(&count, "Laborist").unwrap(), 1);
    assert_eq!(tally_of(&count, "Conserv").unwrap(), 4);
}

#[test]
fn vote_out_of_dates_test() {
    let mut store = Store::new();
    let now: u64 = 0;

    let ts_start: u64 = 1689238800; // 2023-07-13 09:00:00
    let ts_end: u64 = 1689551999; // 2023-07-16 23:59:59

    assert_eq!(Ballot::configure(&mut store, ts_start, ts_end), Ok(true));
    let refused = Ballot::vote(&mut store, now, id("hyyt76"), id("Laborist"));
    assert_eq!(refused, Err(Error::BallotOutOfDate));
    assert_eq!(refused.unwrap_err().code(), 6);
}

#[test]
fn vote_test_already_voted() {
    let mut store = Store::new();

    assert_eq!(Ballot::vote(&mut store, 0, id("hyyt76"), id("Laborist")), Ok(true));
    let refused = Ballot::vote(&mut store, 0, id("hyyt76"), id("Laborist"));
    assert_eq!(refused, Err(Error::VoterHasAlreadyVoted));
    assert_eq!(refused.unwrap_err().code(), 2);
}

#[test]
fn vote_test_delegated_vote() {
    let mut store = Store::new();

    assert_eq!(Ballot::delegate(&mut store, 0, id("ippcxs"), id("oonvv5")), Ok(true));
    let refused = Ballot::vote(&mut store, 0, id("ippcxs"), id("Laborist"));
    assert_eq!(refused, Err(Error::VoterHasHisVoteDelegated));
    assert_eq!(refused.unwrap_err().code(), 1);
}

#[test]
fn delegate_test_has_delegated_votes() {
    let mut store = Store::new();

    assert_eq!(Ballot::delegate(&mut store, 0, id("ippcxs"), id("oonvv5")), Ok(true));
    let refused = Ballot::delegate(&mut store, 0, id("oonvv5"), id("ppky55"));
    assert_eq!(refused, Err(Error::VoterHasDelegatedVotes));
    assert_eq!(refused.unwrap_err().code(), 3);
}

#[test]
fn delegate_test_has_delegated_his_vote() {
    let mut store = Store::new();

    assert_eq!(Ballot::delegate(&mut store, 0, id("ippcxs"), id("oonvv5")), Ok(true));
    let refused = Ballot::delegate(&mut store, 0, id("hhvftp"), id("ippcxs"));
    assert_eq!(refused, Err(Error::VoterHasHisVoteDelegated));
    assert_eq!(refused.unwrap_err().code(), 1);
}

#[test]
fn delegate_test_o_voter_has_voted() {
    let mut store = Store::new();

    assert_eq!(Ballot::vote(&mut store, 0, id("ippcxs"), id("Laborist")), Ok(true));
    let refused = Ballot::delegate(&mut store, 0, id("ippcxs"), id("hhcfrp"));
    assert_eq!(refused, Err(Error::VoterOriginHasAlreadyVotedAndCannotDelegate));
    assert_eq!(refused.unwrap_err().code(), 4);
}

#[test]
fn delegate_test_d_voter_has_voted() {
    let mut store = Store::new();

    assert_eq!(Ballot::vote(&mut store, 0, id("hhcfrp"), id("Laborist")), Ok(true));
    let refused = Ballot::delegate(&mut store, 0, id("ippcxs"), id("hhcfrp"));
    assert_eq!(refused, Err(Error::VoterTargetHasAlreadyVotedAndCannotDelegate));
    assert_eq!(refused.unwrap_err().code(), 5);
}

#[test]
fn scenario_three_votes_then_a_delegated_one() {
    let mut store = Store::new();
    assert_eq!(Ballot::vote(&mut store, 5, id("v1"), id("Laborist")), Ok(true));
    assert_eq!(Ballot::vote(&mut store, 5, id("v2"), id("Conserv")), Ok(true));
    assert_eq!(Ballot::vote(&mut store, 5, id("v3"), id("Conserv")), Ok(true));
    assert_eq!(
        Ballot::count(&store),
        vec![(id("Laborist"), 1u32), (id("Conserv"), 2u32)]
    );

    assert_eq!(Ballot::delegate(&mut store, 5, id("v4"), id("v5")), Ok(true));
    assert_eq!(Ballot::vote(&mut store, 5, id("v5"), id("Conserv")), Ok(true));
    assert_eq!(
        Ballot::count(&store),
        vec![(id("Laborist"), 1u32), (id("Conserv"), 4u32)]
    );
}

#[test]
fn second_vote_is_refused_and_changes_no_tally() {
    let mut store = Store::new();
    assert_eq!(Ballot::vote(&mut store, 1, id("ann"), id("Red")), Ok(true));
    assert_eq!(Ballot::vote(&mut store, 1, id("bob"), id("Blue")), Ok(true));
    let before = Ballot::count(&store);
    assert_eq!(
        Ballot::vote(&mut store, 2, id("ann"), id("Blue")),
        Err(Error::VoterHasAlreadyVoted)
    );
    assert_eq!(
        Ballot::vote(&mut store, 2, id("ann"), id("Green")),
        Err(Error::VoterHasAlreadyVoted)
    );
    assert_eq!(Ballot::count(&store), before);
    assert_eq!(get_candidates(&store), vec![id("Red"), id("Blue")]);
    assert_eq!(get_votes(&store), vec![id("ann"), id("bob")]);
}

#[test]
fn vote_then_delegate_is_refused_and_the_reverse() {
    let mut store = Store::new();
    assert_eq!(Ballot::vote(&mut store, 0, id("ann"), id("Red")), Ok(true));
    assert!(Ballot::delegate(&mut store, 0, id("ann"), id("bob")).is_err());

    assert_eq!(Ballot::delegate(&mut store, 0, id("cid"), id("bob")), Ok(true));
    assert!(Ballot::vote(&mut store, 0, id("cid"), id("Red")).is_err());
    assert_eq!(get_votes(&store), vec![id("ann")]);
    assert_eq!(get_delegated_votes(&store), vec![id("cid")]);
}

#[test]
fn delegation_folds_weight() {
    let mut store = Store::new();
    assert_eq!(Ballot::delegate(&mut store, 0, id("A"), id("B")), Ok(true));
    assert_eq!(Ballot::vote(&mut store, 0, id("B"), id("X")), Ok(true));
    assert_eq!(Ballot::count(&store), vec![(id("X"), 2u32)]);
}

#[test]
fn several_delegations_add_up() {
    let mut store = Store::new();
    assert_eq!(Ballot::delegate(&mut store, 0, id("a"), id("t")), Ok(true));
    assert_eq!(Ballot::delegate(&mut store, 0, id("b"), id("t")), Ok(true));
    assert_eq!(Ballot::delegate(&mut store, 0, id("c"), id("t")), Ok(true));
    assert_eq!(
        get_voter_delegated_votes(&store, &id("t")),
        vec![id("a"), id("b"), id("c")]
    );
    assert_eq!(get_delegated_votes(&store), vec![id("a"), id("b"), id("c")]);
    assert_eq!(Ballot::vote(&mut store, 0, id("u"), id("X")), Ok(true));
    assert_eq!(Ballot::vote(&mut store, 0, id("t"), id("X")), Ok(true));
    assert_eq!(Ballot::count(&store), vec![(id("X"), 5u32)]);
}

#[test]
fn delegation_depth_is_capped() {
    let mut store = Store::new();
    assert_eq!(Ballot::delegate(&mut store, 0, id("A"), id("B")), Ok(true));
    assert_eq!(
        Ballot::delegate(&mut store, 0, id("B"), id("C")),
        Err(Error::VoterHasDelegatedVotes)
    );
    assert_eq!(get_delegated_votes(&store), vec![id("A")]);
    assert_eq!(get_voter_delegated_votes(&store, &id("C")), Vec::<String>::new());
}

#[test]
fn delegation_back_to_the_origin_is_refused_as_delegated() {
    let mut store = Store::new();
    assert_eq!(Ballot::delegate(&mut store, 0, id("A"), id("B")), Ok(true));
    assert_eq!(
        Ballot::delegate(&mut store, 0, id("B"), id("A")),
        Err(Error::VoterHasHisVoteDelegated)
    );
}

#[test]
fn delegation_checks_come_in_order() {
    let mut store = Store::new();
    assert_eq!(Ballot::vote(&mut store, 0, id("o"), id("X")), Ok(true));
    assert_eq!(Ballot::vote(&mut store, 0, id("t"), id("X")), Ok(true));
    // both have voted: the origin's vote is reported
    assert_eq!(
        Ballot::delegate(&mut store, 0, id("o"), id("t")),
        Err(Error::VoterOriginHasAlreadyVotedAndCannotDelegate)
    );
    // the target has voted and the origin holds delegations: the vote is reported
    assert_eq!(Ballot::delegate(&mut store, 0, id("p"), id("q")), Ok(true));
    assert_eq!(
        Ballot::delegate(&mut store, 0, id("q"), id("t")),
        Err(Error::VoterTargetHasAlreadyVotedAndCannotDelegate)
    );
    // the window comes before everything else
    assert_eq!(Ballot::configure(&mut store, 10, 20), Ok(true));
    assert_eq!(
        Ballot::delegate(&mut store, 21, id("o"), id("t")),
        Err(Error::BallotOutOfDate)
    );
    assert_eq!(
        Ballot::vote(&mut store, 9, id("o"), id("X")),
        Err(Error::BallotOutOfDate)
    );
}

#[test]
fn window_is_enforced_on_both_sides() {
    let now: u64 = 1_000_000;

    let mut store = Store::new();
    assert_eq!(Ballot::configure(&mut store, now + 10000, now + 60000), Ok(true));
    assert_eq!(
        Ballot::vote(&mut store, now, id("ann"), id("Red")),
        Err(Error::BallotOutOfDate)
    );
    assert_eq!(
        Ballot::delegate(&mut store, now, id("ann"), id("bob")),
        Err(Error::BallotOutOfDate)
    );

    assert_eq!(Ballot::configure(&mut store, now - 60000, now - 10000), Ok(true));
    assert_eq!(
        Ballot::vote(&mut store, now, id("ann"), id("Red")),
        Err(Error::BallotOutOfDate)
    );
    assert_eq!(
        Ballot::delegate(&mut store, now, id("ann"), id("bob")),
        Err(Error::BallotOutOfDate)
    );
    assert!(get_votes(&store).is_empty());
    assert!(get_candidates(&store).is_empty());
    assert!(get_delegated_votes(&store).is_empty());
}

#[test]
fn window_bounds_are_included() {
    let mut store = Store::new();
    assert_eq!(Ballot::configure(&mut store, 100, 200), Ok(true));
    assert_eq!(Ballot::vote(&mut store, 100, id("a"), id("X")), Ok(true));
    assert_eq!(Ballot::vote(&mut store, 200, id("b"), id("X")), Ok(true));
    assert_eq!(Ballot::vote(&mut store, 150, id("c"), id("X")), Ok(true));
    assert_eq!(Ballot::vote(&mut store, 99, id("d"), id("X")), Err(Error::BallotOutOfDate));
    assert_eq!(Ballot::vote(&mut store, 201, id("d"), id("X")), Err(Error::BallotOutOfDate));
    assert_eq!(Ballot::count(&store), vec![(id("X"), 3u32)]);
}

#[test]
fn unconfigured_ballot_takes_votes_at_any_time() {
    let mut store = Store::new();
    assert_eq!(Ballot::vote(&mut store, 0, id("a"), id("X")), Ok(true));
    assert_eq!(Ballot::vote(&mut store, u64::MAX, id("b"), id("X")), Ok(true));
    // a window of zeros is no window
    assert_eq!(Ballot::configure(&mut store, 0, 0), Ok(true));
    assert_eq!(Ballot::vote(&mut store, 12345, id("c"), id("X")), Ok(true));
}

#[test]
fn window_with_one_zero_bound_is_a_window() {
    let mut store = Store::new();
    assert_eq!(Ballot::configure(&mut store, 0, 100), Ok(true));
    assert_eq!(Ballot::vote(&mut store, 0, id("a"), id("X")), Ok(true));
    assert_eq!(Ballot::vote(&mut store, 100, id("b"), id("X")), Ok(true));
    assert_eq!(Ballot::vote(&mut store, 101, id("c"), id("X")), Err(Error::BallotOutOfDate));
    // an inverted window takes nothing
    assert_eq!(Ballot::configure(&mut store, 100, 0), Ok(true));
    assert_eq!(Ballot::vote(&mut store, 50, id("c"), id("X")), Err(Error::BallotOutOfDate));
}

#[test]
fn configure_overwrites_the_window() {
    let mut store = Store::new();
    assert_eq!(get_config(&store).from, 0);
    assert_eq!(get_config(&store).to, 0);
    assert_eq!(Ballot::configure(&mut store, 7, 9), Ok(true));
    assert_eq!((get_config(&store).from, get_config(&store).to), (7, 9));
    assert_eq!(Ballot::configure(&mut store, 30, 40), Ok(true));
    assert_eq!((get_config(&store).from, get_config(&store).to), (30, 40));
    store_config(&mut store, 1, 2);
    assert_eq!((get_config(&store).from, get_config(&store).to), (1, 2));
}

#[test]
fn count_lists_candidates_in_order_of_registration() {
    let mut store = Store::new();
    assert_eq!(Ballot::count(&store), Vec::<(String, u32)>::new());
    assert_eq!(Ballot::vote(&mut store, 0, id("a"), id("Zeta")), Ok(true));
    assert_eq!(Ballot::vote(&mut store, 0, id("b"), id("Alpha")), Ok(true));
    assert_eq!(Ballot::vote(&mut store, 0, id("c"), id("Zeta")), Ok(true));
    assert_eq!(Ballot::vote(&mut store, 0, id("d"), id("Mid")), Ok(true));
    assert_eq!(
        Ballot::count(&store),
        vec![(id("Zeta"), 2u32), (id("Alpha"), 1u32), (id("Mid"), 1u32)]
    );
}

#[test]
fn self_delegation_is_accepted_and_bars_the_vote() {
    let mut store = Store::new();
    assert_eq!(Ballot::delegate(&mut store, 0, id("a"), id("a")), Ok(true));
    assert_eq!(get_voter_delegated_votes(&store, &id("a")), vec![id("a")]);
    assert_eq!(
        Ballot::vote(&mut store, 0, id("a"), id("X")),
        Err(Error::VoterHasHisVoteDelegated)
    );
    assert_eq!(
        Ballot::delegate(&mut store, 0, id("b"), id("a")),
        Err(Error::VoterHasHisVoteDelegated)
    );
}

#[test]
fn vote_fits_tells_when_the_counter_is_full() {
    let mut store = Store::new();
    assert!(Ballot::vote_fits(&store, 0, &id("t"), &id("X")));
    update_candidate_count(&mut store, VCounter::Counter(id("X")), u32::MAX - 2);
    assert!(Ballot::vote_fits(&store, 0, &id("t"), &id("X")));
    assert_eq!(Ballot::delegate(&mut store, 0, id("a"), id("t")), Ok(true));
    assert!(Ballot::vote_fits(&store, 0, &id("t"), &id("X")));
    assert_eq!(Ballot::delegate(&mut store, 0, id("b"), id("t")), Ok(true));
    // one and two delegations on top of a counter that has room for two
    assert!(!Ballot::vote_fits(&store, 0, &id("t"), &id("X")));
    assert!(Ballot::vote_fits(&store, 0, &id("t"), &id("Y")));
    assert!(Ballot::vote_fits(&store, 0, &id("u"), &id("X")));
    // a vote that is refused anyway fits
    assert!(Ballot::vote_fits(&store, 0, &id("a"), &id("X")));
    assert_eq!(Ballot::vote(&mut store, 0, id("u"), id("X")), Ok(true));
    assert_eq!(
        get_candidate_votes_count(&store, &VCounter::Counter(id("X"))),
        u32::MAX - 1
    );
    assert!(Ballot::vote_fits(&store, 0, &id("u"), &id("X")));
    assert!(Ballot::vote_fits(&store, 0, &id("w"), &id("X")));
    assert_eq!(Ballot::vote(&mut store, 0, id("w"), id("X")), Ok(true));
    assert_eq!(get_candidate_votes_count(&store, &VCounter::Counter(id("X"))), u32::MAX);
    assert!(!Ballot::vote_fits(&store, 0, &id("z"), &id("X")));
    assert_eq!(Ballot::configure(&mut store, 10, 20), Ok(true));
    assert!(Ballot::vote_fits(&store, 0, &id("z"), &id("X")));
    assert!(!Ballot::vote_fits(&store, 10, &id("z"), &id("X")));
}

#[test]
fn error_codes_are_one_to_six() {
    assert_eq!(Error::VoterHasHisVoteDelegated.code(), 1);
    assert_eq!(Error::VoterHasAlreadyVoted.code(), 2);
    assert_eq!(Error::VoterHasDelegatedVotes.code(), 3);
    assert_eq!(Error::VoterOriginHasAlreadyVotedAndCannotDelegate.code(), 4);
    assert_eq!(Error::VoterTargetHasAlreadyVotedAndCannotDelegate.code(), 5);
    assert_eq!(Error::BallotOutOfDate.code(), 6);
}

#[test]
fn tallies_add_up_to_the_ballots_cast() {
    let mut store = Store::new();
    assert_eq!(Ballot::delegate(&mut store, 0, id("d1"), id("t1")), Ok(true));
    assert_eq!(Ballot::delegate(&mut store, 0, id("d2"), id("t1")), Ok(true));
    assert_eq!(Ballot::delegate(&mut store, 0, id("d3"), id("t2")), Ok(true));
    assert_eq!(Ballot::delegate(&mut store, 0, id("d4"), id("t3")), Ok(true));
    assert_eq!(Ballot::vote(&mut store, 0, id("t1"), id("Red")), Ok(true));
    assert_eq!(Ballot::vote(&mut store, 0, id("t2"), id("Blue")), Ok(true));
    assert_eq!(Ballot::vote(&mut store, 0, id("solo"), id("Red")), Ok(true));
    assert!(Ballot::vote(&mut store, 0, id("d1"), id("Blue")).is_err());
    assert!(Ballot::vote(&mut store, 0, id("t1"), id("Blue")).is_err());

    let count = Ballot::count(&store);
    assert_eq!(count, vec![(id("Red"), 4u32), (id("Blue"), 2u32)]);
    let total: u32 = count.iter().map(|(_, n)| *n).sum();
    let cast: usize = get_votes(&store)
        .iter()
        .map(|voter| 1 + get_voter_delegated_votes(&store, voter).len())
        .sum();
    assert_eq!(total as usize, cast);
    assert_eq!(cast, 6);
}

#[test]
fn a_vote_closes_the_list_of_delegations() {
    let mut store = Store::new();
    assert_eq!(Ballot::delegate(&mut store, 0, id("a"), id("t")), Ok(true));
    assert_eq!(Ballot::vote(&mut store, 0, id("t"), id("X")), Ok(true));
    assert_eq!(
        Ballot::delegate(&mut store, 0, id("b"), id("t")),
        Err(Error::VoterTargetHasAlreadyVotedAndCannotDelegate)
    );
    assert_eq!(get_voter_delegated_votes(&store, &id("t")), vec![id("a")]);
    assert_eq!(get_delegated_votes(&store), vec![id("a")]);
    assert_eq!(Ballot::count(&store), vec![(id("X"), 2u32)]);
}

#[test]
fn a_refused_operation_leaves_the_store_as_it_was() {
    let mut store = Store::new();
    assert_eq!(Ballot::configure(&mut store, 10, 20), Ok(true));
    assert_eq!(Ballot::vote(&mut store, 10, id("a"), id("X")), Ok(true));
    assert_eq!(Ballot::delegate(&mut store, 11, id("b"), id("c")), Ok(true));

    assert!(Ballot::vote(&mut store, 12, id("a"), id("New")).is_err());
    assert!(Ballot::vote(&mut store, 12, id("b"), id("New")).is_err());
    assert!(Ballot::vote(&mut store, 21, id("z"), id("New")).is_err());
    assert!(Ballot::delegate(&mut store, 12, id("a"), id("z")).is_err());
    assert!(Ballot::delegate(&mut store, 12, id("z"), id("a")).is_err());
    assert!(Ballot::delegate(&mut store, 12, id("c"), id("z")).is_err());
    assert!(Ballot::delegate(&mut store, 9, id("y"), id("z")).is_err());

    assert_eq!(get_candidates(&store), vec![id("X")]);
    assert_eq!(get_votes(&store), vec![id("a")]);
    assert_eq!(get_delegated_votes(&store), vec![id("b")]);
    assert_eq!(get_voter_delegated_votes(&store, &id("c")), vec![id("b")]);
    assert!(get_voter_delegated_votes(&store, &id("z")).is_empty());
    assert!(get_voter_delegated_votes(&store, &id("a")).is_empty());
    assert_eq!(Ballot::count(&store), vec![(id("X"), 1u32)]);
    assert_eq!((get_config(&store).from, get_config(&store).to), (10, 20));
}
