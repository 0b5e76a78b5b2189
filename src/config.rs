//! The built-in currency tables, and what becomes of a table read from a file.
use vstd::prelude::*;

use crate::convert::{alias_rates, rates_positive};
use crate::currency::Currency;

verus! {

/// Why a currency table could not be read.
#[derive(Clone, Copy, Debug, PartialEq, Eq, Structural)]
pub enum ConfigErrorKind {
    /// There is no file at the path.
    NotFound,
    /// The file could not be read, or its contents are not a table.
    Other,
}

/// A failure to read a currency table, with its description.
#[derive(Debug)]
pub struct ConfigError {
    pub desc: String,
    pub kind: ConfigErrorKind,
}

impl ConfigError {
    /// The one-line message shown for the failure.
    pub fn message(&self) -> (r: String)
        ensures
            r@ == "Sterling Error: "@ + self.desc@,
    {
        String::from_str("Sterling Error: ").concat(self.desc.as_str())
    }
}

/// `c` is the denomination with these fields and no plural form.
pub open spec fn is_denomination(
    c: Currency,
    name: Seq<char>,
    rate: usize,
    alias: Seq<char>,
    optional: Option<bool>,
) -> bool {
    &&& c.name@ == name
    &&& c.rate == rate
    &&& c.alias@ == alias
    &&& c.plural is None
    &&& c.optional == optional
}

/// The aliases and rates of the Player's Handbook coinage, in copper pieces.
pub open spec fn phb_rates() -> Seq<(Seq<char>, usize)> {
    seq![("p"@, 1000usize), ("g"@, 100usize), ("e"@, 50usize), ("s"@, 10usize), ("c"@, 1usize)]
}

/// The Player's Handbook coinage: platinum, gold, electrum (optional),
/// silver and copper.
pub fn phb_config() -> (r: Vec<Currency>)
    ensures
        r@.len() == 5,
        is_denomination(r@[0], "platinum"@, 1000, "p"@, None),
        is_denomination(r@[1], "gold"@, 100, "g"@, None),
        is_denomination(r@[2], "electrum"@, 50, "e"@, Some(true)),
        is_denomination(r@[3], "silver"@, 10, "s"@, None),
        is_denomination(r@[4], "copper"@, 1, "c"@, None),
        alias_rates(r@) == phb_rates(),
        table_valid(r@),
{
    let r = vec![
        Currency::new("platinum", 1000, "p", None, None),
        Currency::new("gold", 100, "g", None, None),
        Currency::new("electrum", 50, "e", None, Some(true)),
        Currency::new("silver", 10, "s", None, None),
        Currency::new("copper", 1, "c", None, None),
    ];
    assert(alias_rates(r@) =~= phb_rates());
    proof {
        reveal_strlit("p");
        reveal_strlit("g");
        reveal_strlit("e");
        reveal_strlit("s");
        reveal_strlit("c");
        let aliases = seq![seq!['p'], seq!['g'], seq!['e'], seq!['s'], seq!['c']];
        assert forall|i: int| 0 <= i < 5 implies (#[trigger] r@[i]).alias@ == aliases[i] by {
            assert(i == 0 || i == 1 || i == 2 || i == 3 || i == 4);
        }
        assert forall|i: int, j: int| 0 <= i < j < 5 implies (#[trigger] r@[i]).alias@ != (
        #[trigger] r@[j]).alias@ by {
            assert(aliases[i][0] != aliases[j][0]);
        }
        assert(r@[4].rate == 1);
    }
    r
}

/// The silver standard: platinum, gold, silver and copper, each worth a
/// hundred of the next.
pub fn silver_standard_config() -> (r: Vec<Currency>)
    ensures
        r@.len() == 4,
        is_denomination(r@[0], "platinum"@, 1_000_000, "p"@, None),
        is_denomination(r@[1], "gold"@, 10_000, "g"@, None),
        is_denomination(r@[2], "silver"@, 100, "s"@, None),
        is_denomination(r@[3], "copper"@, 1, "c"@, None),
        table_valid(r@),
{
    let r = vec![
        Currency::new("platinum", 1_000_000, "p", None, None),
        Currency::new("gold", 10_000, "g", None, None),
        Currency::new("silver", 100, "s", None, None),
        Currency::new("copper", 1, "c", None, None),
    ];
    proof {
        reveal_strlit("p");
        reveal_strlit("g");
        reveal_strlit("s");
        reveal_strlit("c");
        let aliases = seq![seq!['p'], seq!['g'], seq!['s'], seq!['c']];
        assert forall|i: int| 0 <= i < 4 implies (#[trigger] r@[i]).alias@ == aliases[i] by {
            assert(i == 0 || i == 1 || i == 2 || i == 3);
        }
        assert forall|i: int, j: int| 0 <= i < j < 4 implies (#[trigger] r@[i]).alias@ != (
        #[trigger] r@[j]).alias@ by {
            assert(aliases[i][0] != aliases[j][0]);
        }
        assert(r@[3].rate == 1);
    }
    r
}

/// A table that amounts can be read against and exchanged into without loss:
/// every rate at least one, every alias one character, no alias twice, and
/// one denomination of rate one.
pub open spec fn table_valid(table: Seq<Currency>) -> bool {
    &&& rates_positive(table)
    &&& forall|i: int| 0 <= i < table.len() ==> (#[trigger] table[i]).alias@.len() == 1
    &&& forall|i: int, j: int|
        0 <= i < j < table.len() ==> (#[trigger] table[i]).alias@ != (#[trigger] table[j]).alias@
    &&& exists|i: int| 0 <= i < table.len() && (#[trigger] table[i]).rate == 1
}

/// Whether the table is valid.
pub fn currencies_valid(currencies: &[Currency]) -> (r: bool)
    ensures
        r == table_valid(currencies@),
{
    let mut has_unit = false;
    let mut i: usize = 0;
    while i < currencies.len()
        invariant
            i <= currencies@.len(),
            forall|k: int| 0 <= k < i ==> (#[trigger] currencies@[k]).rate > 0,
            forall|k: int| 0 <= k < i ==> (#[trigger] currencies@[k]).alias@.len() == 1,
            forall|k: int, m: int|
                0 <= k < m < i ==> (#[trigger] currencies@[k]).alias@ != (#[trigger] currencies@[m]).alias@,
            has_unit == exists|k: int| 0 <= k < i && (#[trigger] currencies@[k]).rate == 1,
        decreases currencies@.len() - i,
    {
        let cur = &currencies[i];
        if cur.rate == 0 || cur.alias.as_str().unicode_len() != 1 {
            return false;
        }
        let mut j: usize = 0;
        while j < i
            invariant
                j <= i < currencies@.len(),
                cur == currencies@[i as int],
                forall|k: int| 0 <= k < j ==> (#[trigger] currencies@[k]).alias@ != cur.alias@,
            decreases i - j,
        {
            if currencies[j].alias == cur.alias {
                return false;
            }
            j = j + 1;
        }
        if cur.rate == 1 {
            has_unit = true;
        }
        i = i + 1;
    }
    assert(rates_positive(currencies@));
    has_unit
}

/// The table to work with, given what reading the configuration file gave:
/// the table read, where it is valid; the silver standard where no file was named and none was
/// found at the default path; otherwise the message to show.
pub fn parse_currency_config(
    config_result: Result<Vec<Currency>, ConfigError>,
    config_file_path: Option<&str>,
) -> (r: Result<Vec<Currency>, String>)
    ensures
        match config_result {
            Ok(values) => if table_valid(values@) {
                r == Ok::<Vec<Currency>, String>(values)
            } else {
                r matches Err(m) && m@ == "Sterling Error: Invalid currency table: every rate must be at least 1, every alias one character and different from the others, and one rate must be 1"@
            },
            Err(error) => match (error.kind, config_file_path) {
                (ConfigErrorKind::NotFound, Some(path)) => r matches Err(m) && m@
                    == "Sterling Error: Can't find configuration file: \""@ + path@ + "\""@,
                (ConfigErrorKind::NotFound, None) => r matches Ok(table) && table@.len() == 4
                    && is_denomination(table@[0], "platinum"@, 1_000_000, "p"@, None)
                    && is_denomination(table@[1], "gold"@, 10_000, "g"@, None)
                    && is_denomination(table@[2], "silver"@, 100, "s"@, None)
                    && is_denomination(table@[3], "copper"@, 1, "c"@, None) && table_valid(table@),
                (ConfigErrorKind::Other, _) => r matches Err(m) && m@ == "Sterling Error: "@
                    + error.desc@,
            },
        },
{
    match config_result {
        Ok(values) => if currencies_valid(values.as_slice()) {
            Ok(values)
        } else {
            Err(
                String::from_str(
                    "Sterling Error: Invalid currency table: every rate must be at least 1, every alias one character and different from the others, and one rate must be 1",
                ),
            )
        },
        Err(error) => match error.kind {
            ConfigErrorKind::NotFound => {
                match config_file_path {
                    Some(file_path) => Err(
                        String::from_str("Sterling Error: Can't find configuration file: \"").concat(
                            file_path,
                        ).concat("\""),
                    ),
                    None => Ok(silver_standard_config()),
                }
            },
            ConfigErrorKind::Other => Err(error.message()),
        },
    }
}

} // verus!
