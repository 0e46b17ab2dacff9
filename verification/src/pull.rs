//! Tiers and entries.

use std::str::FromStr;
use vstd::prelude::*;

verus! {

/// What `str::to_lowercase` makes of a text: the text in lower case, by the
/// rules of Unicode.
pub uninterp spec fn lowercase(text: Seq<char>) -> Seq<char>;

/// The lower-case form of `text`, from `str::to_lowercase`. The result is
/// not spelled out here, only named: it is a function of the text alone.
#[verifier::external_body]
fn to_lowercase(text: &str) -> (r: String)
    ensures
        r@ == lowercase(text@),
{
    text.to_lowercase()
}

/// The tier of an entry.
#[derive(Debug, Clone, Copy, PartialEq, Eq, Structural)]
pub enum PullType {
    Common,
    Rare,
}

impl PullType {
    /// The tier that a lower-case word names: `common` or `rare`.
    pub open spec fn named(word: Seq<char>) -> Option<PullType> {
        if word == "common"@ {
            Some(PullType::Common)
        } else if word == "rare"@ {
            Some(PullType::Rare)
        } else {
            None
        }
    }

    /// What reading a word as a tier gives: the tier that it names, or the
    /// complaint that it names none.
    pub open spec fn read(word: Seq<char>, r: Result<PullType, &'static str>) -> bool {
        match Self::named(word) {
            Some(pull_type) => r == Ok::<PullType, &'static str>(pull_type),
            None => r matches Err(e) && e@ == "Invalid pull type"@,
        }
    }

    /// The tier that `word` names, where `word` is already in lower case.
    pub fn from_lowercase(word: &str) -> (r: Result<PullType, &'static str>)
        ensures
            Self::read(word@, r),
    {
        let word = word.to_owned();
        if word == "common".to_owned() {
            Ok(PullType::Common)
        } else if word == "rare".to_owned() {
            Ok(PullType::Rare)
        } else {
            Err("Invalid pull type")
        }
    }
}

impl FromStr for PullType {
    type Err = &'static str;

    /// The tier that `s` names, whatever the case of its letters.
    fn from_str(s: &str) -> (r: Result<Self, Self::Err>)
        ensures
            PullType::read(lowercase(s@), r),
    {
        let word = to_lowercase(s);
        Self::from_lowercase(word.as_str())
    }
}

/// One entry of a list: a name, a tier and a weight.
///
/// The weight is a whole number of units and is meant to be positive; how
/// likely an entry is within its tier is its weight over the tier's total.
#[derive(Debug)]
pub struct Pull {
    pub name: String,
    pub pull_type: PullType,
    pub chance: u64,
}

/// An entry as a mathematical value.
pub struct PullView {
    pub name: Seq<char>,
    pub pull_type: PullType,
    pub chance: nat,
}

impl View for Pull {
    type V = PullView;

    open spec fn view(&self) -> PullView {
        PullView { name: self.name@, pull_type: self.pull_type, chance: self.chance as nat }
    }
}

impl Clone for Pull {
    fn clone(&self) -> (r: Self)
        ensures
            r == *self,
    {
        Pull { name: self.name.clone(), pull_type: self.pull_type, chance: self.chance }
    }
}

impl Pull {
    /// An entry with the given name, tier and weight.
    pub fn new(name: String, pull_type: PullType, chance: u64) -> (r: Self)
        ensures
            r == (Pull { name, pull_type, chance }),
    {
        Self { name, pull_type, chance }
    }
}

} // verus!
