//! Arithmetic on tabletop-game coinage.
//!
//! Amounts such as `"3p 5s 7c"` are read against a table of denominations,
//! reduced to a total in the smallest unit, and handed back in the fewest
//! coins the table allows.
use std::collections::HashMap;

use vstd::prelude::*;

pub mod config;
pub mod convert;
pub mod currency;

use crate::config::{phb_config, phb_rates};
use crate::convert::{
    base_units, calculate_total_copper_value, exchange_currencies, exchange_text, grouped_decimal,
    is_exchange, lemma_exchange_zero, ordered_by_rate, ordered_table, rates_positive, read_amount,
    read_result, separated, strings_view, SterlingError,
};
use crate::currency::Currency;

verus! {

/// The parts joined, with `sep` between each two.
pub open spec fn join_with(parts: Seq<Seq<char>>, sep: Seq<char>) -> Seq<char>
    decreases parts.len(),
{
    if parts.len() == 0 {
        Seq::empty()
    } else if parts.len() == 1 {
        parts[0]
    } else {
        join_with(parts.drop_last(), sep) + sep + parts.last()
    }
}

/// `text` is the exchange of `total` base units against the table, its
/// entries joined by `, `; the empty text where the total is zero.
pub open spec fn is_joined_exchange(total: nat, table: Seq<Currency>, full: bool, text: Seq<char>) -> bool {
    exists|parts: Seq<Seq<char>>|
        #[trigger] is_exchange(total, table, full, parts) && text == join_with(parts, ", "@)
}

/// What an operation owes for a combined total: its exchange where the total
/// fits in a `usize`, else `Overflow`.
pub open spec fn outcome(r: Result<String, SterlingError>, total: int, table: Seq<Currency>, full: bool) -> bool {
    if 0 <= total <= usize::MAX {
        r matches Ok(s) && is_joined_exchange(total as nat, table, full, s@)
    } else {
        r == Err::<String, SterlingError>(SterlingError::Overflow)
    }
}

/// A total of zero is shown as the empty line.
pub proof fn lemma_zero_total_text(table: Seq<Currency>, full: bool, text: Seq<char>)
    requires
        rates_positive(table),
        table.len() <= usize::MAX,
        is_joined_exchange(0, table, full, text),
    ensures
        text == Seq::<char>::empty(),
{
    let parts = choose|parts: Seq<Seq<char>>|
        #[trigger] is_exchange(0, table, full, parts) && text == join_with(parts, ", "@);
    let order = choose|order: Seq<(usize, usize)>|
        #[trigger] ordered_by_rate(table, order) && parts == exchange_text(
            0,
            ordered_table(table, order),
            full,
        );
    lemma_exchange_zero(table, order, full);
}

fn join_entries(parts: &Vec<String>) -> (r: String)
    ensures
        r@ == join_with(strings_view(parts@), ", "@),
{
    let mut r = String::new();
    let mut i: usize = 0;
    assert(strings_view(parts@).take(0) =~= Seq::<Seq<char>>::empty());
    while i < parts.len()
        invariant
            i <= parts@.len(),
            r@ == join_with(strings_view(parts@).take(i as int), ", "@),
        decreases parts@.len() - i,
    {
        let ghost next = strings_view(parts@).take(i + 1);
        assert(next.drop_last() =~= strings_view(parts@).take(i as int));
        assert(next.last() == parts@[i as int]@);
        if i > 0 {
            r = r.concat(", ");
        } else {
            assert(next =~= seq![parts@[0]@]);
        }
        r = r.concat(parts[i].as_str());
        i = i + 1;
    }
    assert(strings_view(parts@).take(i as int) =~= strings_view(parts@));
    r
}

/// The exchange of `total` against the table, joined into one line.
fn exchange_joined(total: usize, currencies: &[Currency], print_full: bool) -> (r: String)
    requires
        rates_positive(currencies@),
    ensures
        is_joined_exchange(total as nat, currencies@, print_full, r@),
{
    let parts = exchange_currencies(total, currencies, print_full);
    let r = join_entries(&parts);
    assert(is_exchange(total as nat, currencies@, print_full, strings_view(parts@)));
    r
}

/// The sum of two amounts, in the fewest coins.
pub fn add_operation(augend: &str, addend: &str, currencies: &[Currency], print_full: bool) -> (r:
    Result<String, SterlingError>)
    requires
        rates_positive(currencies@),
    ensures
        match (read_amount(augend@, currencies@), read_amount(addend@, currencies@)) {
            (Err(e), _) => r == Err::<String, SterlingError>(e),
            (Ok(_), Err(e)) => r == Err::<String, SterlingError>(e),
            (Ok(a), Ok(b)) => outcome(r, a + b, currencies@, print_full),
        },
{
    let lhs = match calculate_total_copper_value(augend, currencies) {
        Ok(v) => v,
        Err(e) => {
            return Err(e);
        },
    };
    let rhs = match calculate_total_copper_value(addend, currencies) {
        Ok(v) => v,
        Err(e) => {
            return Err(e);
        },
    };
    match lhs.checked_add(rhs) {
        Some(total) => Ok(exchange_joined(total, currencies, print_full)),
        None => Err(SterlingError::Overflow),
    }
}

/// The difference of two amounts, the smaller taken from the larger, in the
/// fewest coins.
pub fn sub_operation(minuend: &str, subtrahend: &str, currencies: &[Currency], print_full: bool) -> (r:
    Result<String, SterlingError>)
    requires
        rates_positive(currencies@),
    ensures
        match (read_amount(minuend@, currencies@), read_amount(subtrahend@, currencies@)) {
            (Err(e), _) => r == Err::<String, SterlingError>(e),
            (Ok(_), Err(e)) => r == Err::<String, SterlingError>(e),
            (Ok(a), Ok(b)) => outcome(
                r,
                if a >= b {
                    a - b
                } else {
                    b - a
                },
                currencies@,
                print_full,
            ),
        },
{
    let lhs = match calculate_total_copper_value(minuend, currencies) {
        Ok(v) => v,
        Err(e) => {
            return Err(e);
        },
    };
    let rhs = match calculate_total_copper_value(subtrahend, currencies) {
        Ok(v) => v,
        Err(e) => {
            return Err(e);
        },
    };
    let difference = if lhs > rhs {
        lhs - rhs
    } else {
        rhs - lhs
    };
    Ok(exchange_joined(difference, currencies, print_full))
}

/// An amount multiplied by a scalar, in the fewest coins.
pub fn mul_operation(multiplicand: &str, multiplier: usize, currencies: &[Currency], print_full: bool) -> (r:
    Result<String, SterlingError>)
    requires
        rates_positive(currencies@),
    ensures
        match read_amount(multiplicand@, currencies@) {
            Err(e) => r == Err::<String, SterlingError>(e),
            Ok(a) => outcome(r, a * multiplier, currencies@, print_full),
        },
{
    let lhs = match calculate_total_copper_value(multiplicand, currencies) {
        Ok(v) => v,
        Err(e) => {
            return Err(e);
        },
    };
    match lhs.checked_mul(multiplier) {
        Some(total) => Ok(exchange_joined(total, currencies, print_full)),
        None => Err(SterlingError::Overflow),
    }
}

/// An amount divided by a scalar, the remainder dropped, in the fewest coins.
pub fn div_operation(dividend: &str, divisor: usize, currencies: &[Currency], print_full: bool) -> (r:
    Result<String, SterlingError>)
    requires
        rates_positive(currencies@),
    ensures
        divisor == 0 ==> r == Err::<String, SterlingError>(SterlingError::DivisionByZero),
        divisor != 0 ==> match read_amount(dividend@, currencies@) {
            Err(e) => r == Err::<String, SterlingError>(e),
            Ok(a) => outcome(r, (a / divisor) as int, currencies@, print_full),
        },
{
    if divisor == 0 {
        return Err(SterlingError::DivisionByZero);
    }
    let lhs = match calculate_total_copper_value(dividend, currencies) {
        Ok(v) => v,
        Err(e) => {
            return Err(e);
        },
    };
    Ok(exchange_joined(lhs / divisor, currencies, print_full))
}

/// The worth of an amount in base units, written `<digits>c`.
pub fn copper_operation(values: &str, currencies: &[Currency]) -> (r: Result<String, SterlingError>)
    requires
        rates_positive(currencies@),
    ensures
        match read_amount(values@, currencies@) {
            Err(e) => r == Err::<String, SterlingError>(e),
            Ok(t) => r matches Ok(s) && s@ == grouped_decimal(t as nat) + "c"@,
        },
{
    let copper_value = match calculate_total_copper_value(values, currencies) {
        Ok(v) => v,
        Err(e) => {
            return Err(e);
        },
    };
    Ok(separated(copper_value).concat("c"))
}

/// An amount in Player's Handbook coinage, in the fewest coins of the table.
pub fn default_operation(values: &str, currencies: &[Currency], print_full: bool) -> (r: Result<
    String,
    SterlingError,
>)
    requires
        rates_positive(currencies@),
    ensures
        match read_result(base_units(values@, phb_rates())) {
            Err(e) => r == Err::<String, SterlingError>(e),
            Ok(t) => outcome(r, t as int, currencies@, print_full),
        },
{
    let phb = phb_config();
    let copper_value = match calculate_total_copper_value(values, phb.as_slice()) {
        Ok(v) => v,
        Err(e) => {
            return Err(e);
        },
    };
    Ok(exchange_joined(copper_value, currencies, print_full))
}

/// Each alias of the table with its rate; where two denominations share an
/// alias, the later one's rate.
pub open spec fn rates_map(table: Seq<Currency>) -> Map<String, usize>
    decreases table.len(),
{
    if table.len() == 0 {
        Map::empty()
    } else {
        rates_map(table.drop_last()).insert(table.last().alias, table.last().rate)
    }
}

/// The rate of each alias of the table, as a map. vstd describes a map keyed
/// by `String` only under its key model, and so does this contract.
pub fn get_rates(currencies: &[Currency]) -> (r: HashMap<String, usize>)
    ensures
        vstd::std_specs::hash::obeys_key_model::<String>() ==> r@ == rates_map(currencies@),
{
    broadcast use vstd::std_specs::hash::group_hash_axioms;

    let mut rates: HashMap<String, usize> = HashMap::new();
    let mut k: usize = 0;
    assert(currencies@.take(0) =~= Seq::<Currency>::empty());
    while k < currencies.len()
        invariant
            k <= currencies@.len(),
            vstd::std_specs::hash::obeys_key_model::<String>() ==> rates@ == rates_map(
                currencies@.take(k as int),
            ),
        decreases currencies@.len() - k,
    {
        let ghost next = currencies@.take(k + 1);
        assert(next.drop_last() =~= currencies@.take(k as int));
        assert(next.last() == currencies@[k as int]);
        rates.insert(currencies[k].alias.clone(), currencies[k].rate);
        k = k + 1;
    }
    assert(currencies@.take(k as int) =~= currencies@);
    rates
}

} // verus!
