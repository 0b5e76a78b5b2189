//! A denomination of coin and the facts about tables of them.
use vstd::prelude::*;

verus! {

/// One denomination: its name, how many of the smallest unit one coin is
/// worth, the short alias that tags an amount of it, an optional plural
/// form, and whether the denomination is optional.
#[derive(Clone, Debug)]
pub struct Currency {
    pub name: String,
    pub rate: usize,
    pub alias: String,
    pub plural: Option<String>,
    pub optional: Option<bool>,
}

impl Currency {
    pub fn new(
        name: &str,
        rate: usize,
        alias: &str,
        plural: Option<String>,
        optional: Option<bool>,
    ) -> (c: Currency)
        ensures
            c.name@ == name@,
            c.rate == rate,
            c.alias@ == alias@,
            c.plural == plural,
            c.optional == optional,
    {
        Currency { name: name.to_owned(), rate, alias: alias.to_owned(), plural, optional }
    }

    /// Whether the denomination is left out of conversions unless asked for;
    /// a denomination without the flag is not optional.
    pub fn is_optional(&self) -> (r: bool)
        ensures
            r == (self.optional == Some(true)),
    {
        match self.optional {
            Some(optional) => optional,
            None => false,
        }
    }
}

} // verus!
