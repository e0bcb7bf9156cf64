//! The title of the page, which changes from time to time and never into
//! itself.

use vstd::prelude::*;
use crate::model::same_text;

verus! {

/// The titles the page goes through.
pub const TITLES: [&'static str; 5] = [
    "DeepScan",
    "A Scanner Deeply",
    "DMV",
    "Twenty Thousand Leagues Under the Sea",
    "VESPA",
];

/// What a request for a title carries: the title shown now, if any.
#[derive(Debug)]
pub struct TitleQuery {
    pub previous: Option<String>,
}

/// The characters of the title shown now, if any.
pub open spec fn previous_of(query: TitleQuery) -> Option<Seq<char>> {
    match query.previous {
        Some(title) => Some(title@),
        None => None,
    }
}

/// Whether a title may follow the one shown now: any may where none is
/// shown, else any other.
pub open spec fn may_follow(title: Seq<char>, previous: Option<Seq<char>>) -> bool {
    match previous {
        Some(shown) => title != shown,
        None => true,
    }
}

/// The first `n` titles that may follow, in their order.
pub open spec fn choices_upto(previous: Option<Seq<char>>, n: nat) -> Seq<Seq<char>>
    decreases n,
{
    if n == 0 {
        Seq::empty()
    } else if may_follow(TITLES[n - 1]@, previous) {
        choices_upto(previous, (n - 1) as nat).push(TITLES[n - 1]@)
    } else {
        choices_upto(previous, (n - 1) as nat)
    }
}

/// The titles that may follow, in their order.
pub open spec fn choices(previous: Option<Seq<char>>) -> Seq<Seq<char>> {
    choices_upto(previous, 5)
}

/// The characters of each borrowed text of a list.
pub open spec fn views(list: Seq<&'static str>) -> Seq<Seq<char>> {
    Seq::new(list.len(), |i: int| list[i]@)
}

/// Whatever is shown now, some title may follow.
pub proof fn lemma_some_choice(previous: Option<Seq<char>>)
    ensures
        choices(previous).len() >= 1,
{
    reveal_strlit("DMV");
    reveal_strlit("VESPA");
    assert(TITLES[2]@.len() == 3);
    assert(TITLES[4]@.len() == 5);
    assert(may_follow(TITLES[2]@, previous) || may_follow(TITLES[4]@, previous));
    assert(choices_upto(previous, 3).len() >= choices_upto(previous, 2).len());
    assert(choices_upto(previous, 4).len() >= choices_upto(previous, 3).len());
    assert(choices_upto(previous, 5).len() >= choices_upto(previous, 4).len());
    assert(choices_upto(previous, 2).len() >= 0);
}

/// Calls `rand::Rng::gen_range` on `rand::thread_rng()` with the range
/// from 0 up to, but not including, `bound`. Trusted: the result lies in
/// that range. An empty range, on which the call panics, is kept out.
#[verifier::external_body]
fn random_below(bound: usize) -> (index: usize)
    requires
        bound > 0,
    ensures
        index < bound,
{
    rand::Rng::gen_range(&mut rand::thread_rng(), 0..bound)
}

/// The titles that may follow the one shown now.
pub fn title_choices(query: &TitleQuery) -> (list: Vec<&'static str>)
    ensures
        views(list@) == choices(previous_of(*query)),
{
    let mut list: Vec<&'static str> = Vec::new();
    let mut k: usize = 0;
    while k < 5
        invariant
            k <= 5,
            views(list@) == choices_upto(previous_of(*query), k as nat),
        decreases 5 - k,
    {
        let title: &'static str = TITLES[k];
        let repeats: bool = match &query.previous {
            Some(shown) => same_text(shown, title),
            None => false,
        };
        if !repeats {
            let ghost before = list@;
            list.push(title);
            proof {
                assert(views(list@) =~= views(before).push(title@));
            }
        }
        k = k + 1;
    }
    list
}

/// The title that follows for a given roll: the one at that place among
/// those that may follow, rolls beyond their number wrapping round.
pub fn title_at(query: &TitleQuery, roll: usize) -> (title: &'static str)
    ensures
        title@ == choices(previous_of(*query))[(roll as int) % (choices(
            previous_of(*query),
        ).len() as int)],
{
    let list: Vec<&'static str> = title_choices(query);
    proof {
        lemma_some_choice(previous_of(*query));
        assert(views(list@).len() == list@.len());
    }
    let at: usize = roll % list.len();
    proof {
        assert(views(list@)[at as int] == list@[at as int]@);
    }
    list[at]
}

/// The title that follows, picked at random among those that may.
pub fn get_title(query: &TitleQuery) -> (title: &'static str)
    ensures
        choices(previous_of(*query)).contains(title@),
        may_follow(title@, previous_of(*query)),
{
    let list: Vec<&'static str> = title_choices(query);
    proof {
        lemma_some_choice(previous_of(*query));
        assert(views(list@).len() == list@.len());
    }
    let roll: usize = random_below(list.len());
    let title: &'static str = title_at(query, roll);
    proof {
        let all = choices(previous_of(*query));
        assert(all.len() == list@.len());
        vstd::arithmetic::div_mod::lemma_small_mod(roll as nat, all.len());
        assert(all[roll as int] == title@);
        lemma_choices_follow(previous_of(*query), 5, roll as int);
    }
    title
}

/// Every title among the choices may follow.
pub proof fn lemma_choices_follow(previous: Option<Seq<char>>, n: nat, k: int)
    requires
        n <= 5,
        0 <= k < choices_upto(previous, n).len(),
    ensures
        may_follow(choices_upto(previous, n)[k], previous),
    decreases n,
{
    if n > 0 {
        if may_follow(TITLES[n - 1]@, previous) {
            if k < choices_upto(previous, (n - 1) as nat).len() {
                lemma_choices_follow(previous, (n - 1) as nat, k);
            }
        } else {
            lemma_choices_follow(previous, (n - 1) as nat, k);
        }
    }
}

} // verus!
