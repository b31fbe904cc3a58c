//! The three draw strategies: uniform, pattern-based (hot/cold biased),
//! and criteria-filtered rejection sampling.

use vstd::prelude::*;
use crate::criteria::Criteria;
use crate::rng::random_below;
use crate::rng::shuffle_numbers;
use crate::sampler::draw;
use crate::ticket::PowerBallGame;
use crate::vecs::insert_sorted;
use crate::vecs::lemma_short_exclusion_leaves_candidate;
use crate::vecs::strictly_sorted;
use crate::vecs::vec_contains;
use crate::weights::WeightTable;
use crate::weights::cold_numbers;
use crate::weights::cold_seq;
use crate::weights::hot_numbers;
use crate::weights::hot_seq;
use crate::weights::is_cold;
use crate::weights::is_hot;
use crate::weights::lemma_total_weight_pos_iff_candidate;
use crate::weights::main_table;
use crate::weights::special_table;
use crate::weights::uniform_table;

verus! {

/// No ticket satisfying the criteria was found within the attempt budget.
#[derive(Clone, Copy, Debug, PartialEq, Eq, Structural)]
pub struct CriteriaUnsatisfiable;

/// The three ways a ticket can be requested.
#[derive(Clone, Copy, Debug, PartialEq, Eq, Structural)]
pub enum Mode {
    Uniform,
    Pattern,
    CriteriaFiltered,
}

/// The shape every pattern-based ticket has, whatever the random source
/// yields: at least two distinct hot main numbers and at least one cold
/// main number.
pub open spec fn has_pattern_mix(t: PowerBallGame) -> bool {
    &&& exists|a: u32, b: u32|
        a != b && is_hot(a) && is_hot(b) && t.main_numbers@.contains(a)
            && t.main_numbers@.contains(b)
    &&& exists|c: u32| is_cold(c) && t.main_numbers@.contains(c)
}

/// Sequences with equal multisets contain the same numbers.
proof fn lemma_multiset_eq_contains(a: Seq<u32>, b: Seq<u32>)
    requires
        a.to_multiset() == b.to_multiset(),
    ensures
        forall|n: u32| a.contains(n) <==> b.contains(n),
{
    assert forall|n: u32| a.contains(n) <==> b.contains(n) by {
        vstd::seq_lib::to_multiset_contains(a, n);
        vstd::seq_lib::to_multiset_contains(b, n);
    }
}

/// A permutation of a duplicate-free sequence is duplicate-free.
proof fn lemma_multiset_eq_no_dup(a: Seq<u32>, b: Seq<u32>)
    requires
        a.to_multiset() == b.to_multiset(),
        a.no_duplicates(),
    ensures
        b.no_duplicates(),
{
    a.lemma_multiset_has_no_duplicates();
    b.lemma_multiset_has_no_duplicates_conv();
}

/// Walks `source` in order, adding to `chosen` each number not already
/// chosen, until `want` numbers were added or the source is exhausted.
fn take_unexcluded_prefix(chosen: &mut Vec<u32>, source: &Vec<u32>, want: usize)
    requires
        strictly_sorted(old(chosen)@),
        old(chosen)@.len() + want <= usize::MAX,
    ensures
        strictly_sorted(final(chosen)@),
        old(chosen)@.len() <= final(chosen)@.len() <= old(chosen)@.len() + want,
        forall|n: u32| old(chosen)@.contains(n) ==> final(chosen)@.contains(n),
        forall|n: u32|
            final(chosen)@.contains(n) ==> old(chosen)@.contains(n) || source@.contains(n),
        ((forall|n: u32| source@.contains(n) ==> !old(chosen)@.contains(n))
            && source@.no_duplicates() && want <= source@.len()) ==> final(chosen)@.len() == old(
            chosen,
        )@.len() + want,
        (final(chosen)@.len() > old(chosen)@.len()) ==> exists|n: u32|
            source@.contains(n) && final(chosen)@.contains(n) && !old(chosen)@.contains(n),
{
    let ghost orig = chosen@;
    let mut added: usize = 0;
    let mut j: usize = 0;
    while j < source.len() && added < want
        invariant
            strictly_sorted(chosen@),
            0 <= added <= want,
            0 <= j <= source@.len(),
            orig.len() + want <= usize::MAX,
            chosen@.len() == orig.len() + added,
            forall|n: u32| orig.contains(n) ==> chosen@.contains(n),
            forall|n: u32|
                chosen@.contains(n) ==> orig.contains(n) || (exists|a: int|
                    0 <= a < j && source@[a] == n),
            added > 0 ==> exists|n: u32|
                source@.contains(n) && chosen@.contains(n) && !orig.contains(n),
            ((forall|n: u32| source@.contains(n) ==> !orig.contains(n))
                && source@.no_duplicates() && want <= source@.len()) ==> (added == j || added
                == want),
        decreases source@.len() - j,
    {
        let x = source[j];
        if !vec_contains(chosen, x) {
            proof {
                assert(!orig.contains(x));
            }
            insert_sorted(chosen, x);
            added += 1;
            proof {
                assert(source@.contains(x)) by {
                    assert(source@[j as int] == x);
                }
                assert(chosen@.contains(x));
            }
        } else {
            proof {
                // under the fresh-source hypothesis this branch cannot run:
                // x is not original, so it was added from an earlier source
                // index, contradicting freedom from duplicates
                if (forall|n: u32| source@.contains(n) ==> !orig.contains(n))
                    && source@.no_duplicates() && want <= source@.len() {
                    assert(source@.contains(x)) by {
                        assert(source@[j as int] == x);
                    }
                    assert(!orig.contains(x));
                    assert(exists|a: int| 0 <= a < j && source@[a] == x);
                    let a = choose|a: int| 0 <= a < j && source@[a] == x;
                    assert(source@[a] == source@[j as int]);
                    assert(false);
                }
            }
        }
        j += 1;
    }
    proof {
        assert forall|n: u32|
            chosen@.contains(n) implies orig.contains(n) || source@.contains(n) by {
            if !orig.contains(n) {
                let a = choose|a: int| 0 <= a < j && source@[a] == n;
            }
        }
    }
}

/// Draws from `table`, excluding the numbers already chosen, until
/// `chosen` holds `count` numbers. The draw can never run out of
/// candidates: fewer numbers are chosen than the domain holds.
fn fill_from_table(table: &WeightTable, chosen: &mut Vec<u32>, count: usize)
    requires
        table.wf(),
        strictly_sorted(old(chosen)@),
        old(chosen)@.len() <= count,
        count <= table.domain_size(),
    ensures
        strictly_sorted(final(chosen)@),
        final(chosen)@.len() == count,
        forall|n: u32| old(chosen)@.contains(n) ==> final(chosen)@.contains(n),
        forall|n: u32|
            final(chosen)@.contains(n) ==> old(chosen)@.contains(n) || table.in_domain(n),
{
    let ghost orig = chosen@;
    while chosen.len() < count
        invariant
            table.wf(),
            strictly_sorted(chosen@),
            chosen@.len() <= count,
            count <= table.domain_size(),
            forall|n: u32| orig.contains(n) ==> chosen@.contains(n),
            forall|n: u32| chosen@.contains(n) ==> orig.contains(n) || table.in_domain(n),
        decreases count - chosen@.len(),
    {
        proof {
            lemma_short_exclusion_leaves_candidate(
                chosen@,
                table.lo as int,
                table.hi as int,
            );
            lemma_total_weight_pos_iff_candidate(*table, chosen@);
        }
        let r = draw(table, chosen);
        match r {
            Ok(n) => {
                insert_sorted(chosen, n);
            },
            Err(_) => {
                proof {
                    assert(false);
                }
            },
        }
    }
}

/// Uniform draw: five distinct main numbers drawn without replacement
/// from an equal-weight table over `[1, 69]`, and a special number drawn
/// uniformly from `[1, 26]`.
pub fn uniform_ticket() -> (t: PowerBallGame)
    ensures
        t.wf(),
{
    let table = uniform_table(1, 69);
    let mut main_numbers: Vec<u32> = Vec::new();
    proof {
        assert(main_numbers@ =~= Seq::<u32>::empty());
    }
    fill_from_table(&table, &mut main_numbers, 5);
    proof {
        assert forall|i: int| 0 <= i < 5 implies 1 <= #[trigger] main_numbers@[i] <= 69 by {
            let n = main_numbers@[i];
            assert(main_numbers@.contains(n));
            assert(table.in_domain(n));
        }
    }
    let special = 1 + (random_below(26) as u32);
    PowerBallGame { main_numbers, special }
}

/// Hot and cold sets share no number.
proof fn lemma_hot_cold_disjoint(n: u32)
    ensures
        !(is_hot(n) && is_cold(n)),
{
    if is_hot(n) && is_cold(n) {
        let i = choose|i: int| 0 <= i < hot_seq().len() && hot_seq()[i] == n;
        let j = choose|j: int| 0 <= j < cold_seq().len() && cold_seq()[j] == n;
        assert(false);
    }
}

/// Pattern-based draw: two or three hot numbers, then one or two cold
/// numbers, then weighted draws to five main numbers, then a weighted
/// special number. Whatever the random source yields, the ticket holds at
/// least two hot numbers and at least one cold number.
pub fn pattern_ticket() -> (t: PowerBallGame)
    ensures
        t.wf(),
        has_pattern_mix(t),
{
    let mut chosen: Vec<u32> = Vec::new();
    proof {
        assert(chosen@ =~= Seq::<u32>::empty());
        assert(hot_seq().no_duplicates());
        assert(cold_seq().no_duplicates());
    }
    // two or three hot numbers from a shuffled copy of the hot set
    let hot_count = 2 + (random_below(2) as usize);
    let mut hot = hot_numbers();
    shuffle_numbers(&mut hot);
    proof {
        lemma_multiset_eq_no_dup(hot_seq(), hot@);
        lemma_multiset_eq_contains(hot_seq(), hot@);
    }
    take_unexcluded_prefix(&mut chosen, &hot, hot_count);
    let ghost after_hot = chosen@;
    let ghost hot_a = after_hot[0];
    let ghost hot_b = after_hot[1];
    proof {
        assert(after_hot.contains(hot_a) && after_hot.contains(hot_b)) by {
            assert(after_hot.len() == hot_count);
        }
        assert(is_hot(hot_a) && is_hot(hot_b) && hot_a != hot_b);
    }
    // one or two cold numbers from a shuffled copy of the cold set
    let cold_count = 1 + (random_below(2) as usize);
    let mut cold = cold_numbers();
    shuffle_numbers(&mut cold);
    proof {
        lemma_multiset_eq_no_dup(cold_seq(), cold@);
        lemma_multiset_eq_contains(cold_seq(), cold@);
        assert forall|n: u32| cold@.contains(n) implies !chosen@.contains(n) by {
            lemma_hot_cold_disjoint(n);
        }
    }
    take_unexcluded_prefix(&mut chosen, &cold, cold_count);
    let ghost cold_c = choose|n: u32|
        cold@.contains(n) && chosen@.contains(n) && !after_hot.contains(n);
    proof {
        assert(is_cold(cold_c) && chosen@.contains(cold_c));
        assert(chosen@.contains(hot_a) && chosen@.contains(hot_b));
    }
    // weighted draws fill the remaining main-number slots
    let table = main_table();
    proof {
        assert(forall|a: int| 0 <= a < 10 ==> 1 <= #[trigger] hot_seq()[a] <= 69);
        assert(forall|a: int| 0 <= a < 10 ==> 1 <= #[trigger] cold_seq()[a] <= 69);
        assert forall|n: u32| chosen@.contains(n) implies table.in_domain(n) by {
            if after_hot.contains(n) {
                assert(hot_seq().contains(n));
                let i = choose|i: int| 0 <= i < hot_seq().len() && hot_seq()[i] == n;
            } else {
                assert(cold@.contains(n));
                assert(cold_seq().contains(n));
                let j = choose|j: int| 0 <= j < cold_seq().len() && cold_seq()[j] == n;
            }
        }
    }
    fill_from_table(&table, &mut chosen, 5);
    proof {
        assert forall|i: int| 0 <= i < 5 implies 1 <= #[trigger] chosen@[i] <= 69 by {
            let n = chosen@[i];
            assert(chosen@.contains(n));
            assert(table.in_domain(n));
        }
    }
    // a weighted special number, with nothing excluded
    let stable = special_table();
    let no_exclusions: Vec<u32> = Vec::new();
    proof {
        assert(!no_exclusions@.contains(1u32));
        assert(stable.in_domain(1u32));
    }
    let special = match draw(&stable, &no_exclusions) {
        Ok(n) => n,
        Err(_) => vstd::pervasive::unreached(),
    };
    PowerBallGame { main_numbers: chosen, special }
}

/// Criteria-filtered draw: repeats pattern-based draws until one
/// satisfies the criteria, giving up after `max_attempts` attempts. On
/// success the attempt count comes back with the ticket.
pub fn criteria_filtered_ticket(criteria: &Criteria, max_attempts: u64) -> (r: Result<
    (PowerBallGame, u64),
    CriteriaUnsatisfiable,
>)
    ensures
        (r matches Ok(p) ==> {
            &&& p.0.wf()
            &&& has_pattern_mix(p.0)
            &&& criteria.spec_satisfied_by(p.0)
            &&& 1 <= p.1 <= max_attempts
        }),
        max_attempts == 0 ==> r is Err,
        (max_attempts >= 1 && (forall|t: PowerBallGame|
            t.wf() ==> criteria.spec_satisfied_by(t))) ==> r is Ok,
{
    let mut attempts: u64 = 0;
    while attempts < max_attempts
        invariant
            attempts <= max_attempts,
            attempts > 0 ==> !(forall|t: PowerBallGame|
                t.wf() ==> criteria.spec_satisfied_by(t)),
        decreases max_attempts - attempts,
    {
        attempts += 1;
        let t = pattern_ticket();
        if criteria.satisfies(&t) {
            return Ok((t, attempts));
        }
        proof {
            // this attempt's ticket is valid yet rejected, so the criteria
            // do not admit every valid ticket
            assert(t.wf() && !criteria.spec_satisfied_by(t));
        }
    }
    Err(CriteriaUnsatisfiable)
}

/// One ticket request, as the session loop issues it. For the
/// criteria-filtered mode the default criteria apply and the attempt
/// count is reported; the other modes take one attempt.
pub fn request_ticket(mode: Mode, max_attempts: u64) -> (r: Result<
    (PowerBallGame, u64),
    CriteriaUnsatisfiable,
>)
    ensures
        (r matches Ok(p) ==> p.0.wf() && 1 <= p.1),
        (mode == Mode::Uniform || mode == Mode::Pattern) ==> (r matches Ok(p) && p.1 == 1),
        mode == Mode::Pattern ==> (r matches Ok(p) ==> has_pattern_mix(p.0)),
        mode == Mode::CriteriaFiltered ==> {
            &&& (r matches Ok(p) ==> Criteria::spec_default().spec_satisfied_by(p.0)
                && has_pattern_mix(p.0) && p.1 <= max_attempts)
            &&& (max_attempts == 0 ==> r is Err)
            &&& ((max_attempts >= 1 && (forall|t: PowerBallGame|
                t.wf() ==> Criteria::spec_default().spec_satisfied_by(t))) ==> r is Ok)
        },
{
    match mode {
        Mode::Uniform => Ok((uniform_ticket(), 1)),
        Mode::Pattern => Ok((pattern_ticket(), 1)),
        Mode::CriteriaFiltered => {
            let c = Criteria::default();
            criteria_filtered_ticket(&c, max_attempts)
        },
    }
}

} // verus!
