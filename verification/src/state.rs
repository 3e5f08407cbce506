//! The domain model: the configuration singleton, polls, and ballots,
//! together with the mathematical views the contracts are stated over.

use vstd::prelude::*;

verus! {

/// The configuration singleton: the identity recorded as admin at
/// initialization. Reserved for future access control; no operation of this
/// engine consults it after it is written.
#[derive(PartialEq, Eq, Debug)]
pub struct Config {
    pub admin: String,
}

/// Mathematical view of `Config`.
#[verifier::ext_equal]
pub struct ConfigV {
    pub admin: Seq<char>,
}

impl View for Config {
    type V = ConfigV;

    open spec fn view(&self) -> ConfigV {
        ConfigV { admin: self.admin@ }
    }
}

impl Clone for Config {
    fn clone(&self) -> (r: Self)
        ensures
            r@ == self@,
    {
        Config { admin: self.admin.clone() }
    }
}

/// A named question with an ordered list of (option label, vote count)
/// pairs. The list's labels and their order never change after creation;
/// only the counts move.
#[derive(PartialEq, Eq, Debug)]
pub struct Poll {
    pub creator: String,
    pub question: String,
    pub options: Vec<(String, u64)>,
}

/// Mathematical view of `Poll`.
#[verifier::ext_equal]
pub struct PollV {
    pub creator: Seq<char>,
    pub question: Seq<char>,
    pub options: Seq<(Seq<char>, u64)>,
}

/// The view of one (option label, vote count) pair.
pub open spec fn option_pair_view(p: (String, u64)) -> (Seq<char>, u64) {
    (p.0@, p.1)
}

/// The view of a whole option list.
pub open spec fn options_view(opts: Seq<(String, u64)>) -> Seq<(Seq<char>, u64)> {
    opts.map_values(|p: (String, u64)| option_pair_view(p))
}

impl View for Poll {
    type V = PollV;

    open spec fn view(&self) -> PollV {
        PollV {
            creator: self.creator@,
            question: self.question@,
            options: options_view(self.options@),
        }
    }
}

impl Clone for Poll {
    fn clone(&self) -> (r: Self)
        ensures
            r@ == self@,
    {
        let mut options: Vec<(String, u64)> = Vec::new();
        let mut i: usize = 0;
        while i < self.options.len()
            invariant
                i <= self.options.len(),
                options@.len() == i as int,
                forall|j: int| 0 <= j < i ==> option_pair_view(#[trigger] options@[j])
                    == option_pair_view(self.options@[j]),
            decreases self.options.len() - i,
        {
            let label = self.options[i].0.clone();
            let count = self.options[i].1;
            options.push((label, count));
            i = i + 1;
        }
        let r = Poll { creator: self.creator.clone(), question: self.question.clone(), options };
        proof {
            assert(r@.options =~= self@.options);
        }
        r
    }
}

/// One voter's current choice in one poll: the option label last cast.
#[derive(PartialEq, Eq, Debug)]
pub struct Ballot {
    pub option: String,
}

/// Mathematical view of `Ballot`.
#[verifier::ext_equal]
pub struct BallotV {
    pub option: Seq<char>,
}

impl View for Ballot {
    type V = BallotV;

    open spec fn view(&self) -> BallotV {
        BallotV { option: self.option@ }
    }
}

impl Clone for Ballot {
    fn clone(&self) -> (r: Self)
        ensures
            r@ == self@,
    {
        Ballot { option: self.option.clone() }
    }
}

} // verus!
