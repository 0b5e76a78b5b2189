//! Reading amounts against a currency table, and handing totals back in coins.
use lazysort::Sorted;
use separator::Separatable;
use vstd::prelude::*;
use vstd::seq_lib::to_multiset_contains;

use crate::currency::Currency;

verus! {

/// What can go wrong while reading or combining amounts.
#[derive(Clone, Copy, Debug, PartialEq, Eq, Structural)]
pub enum SterlingError {
    /// A word of the input is not digits followed by a known alias.
    InvalidToken,
    /// A total does not fit in a `usize`.
    Overflow,
    /// An amount was divided by zero.
    DivisionByZero,
}

/// Every denomination of the table is worth at least one base unit.
pub open spec fn rates_positive(table: Seq<Currency>) -> bool {
    forall|i: int| 0 <= i < table.len() ==> #[trigger] table[i].rate > 0
}

/// The characters that separate the words of an amount.
pub open spec fn is_space(c: char) -> bool {
    c == ' ' || c == '\t' || c == '\n' || c == '\r'
}

/// An ASCII decimal digit.
pub open spec fn is_digit(c: char) -> bool {
    '0' <= c && c <= '9'
}

/// The value of a decimal digit.
pub open spec fn digit_value(c: char) -> nat {
    (c as int - '0' as int) as nat
}

/// The number of characters before the first separator.
pub open spec fn word_len(s: Seq<char>) -> nat
    decreases s.len(),
{
    if s.len() == 0 || is_space(s[0]) {
        0
    } else {
        1 + word_len(s.drop_first())
    }
}

/// A word fits in the text it starts, and is not empty where the text does
/// not start with a separator.
pub proof fn lemma_word_len_bounds(s: Seq<char>)
    ensures
        word_len(s) <= s.len(),
        s.len() > 0 && !is_space(s[0]) ==> word_len(s) >= 1,
    decreases s.len(),
{
    if s.len() > 0 && !is_space(s[0]) {
        lemma_word_len_bounds(s.drop_first());
    }
}

/// The digits of an amount: a digit first, then digits and grouping commas.
pub open spec fn amount_well_formed(w: Seq<char>) -> bool {
    &&& w.len() >= 1
    &&& is_digit(w[0])
    &&& forall|k: int| 0 <= k < w.len() ==> is_digit(#[trigger] w[k]) || w[k] == ','
}

/// The number that the digits of `w` spell, grouping commas skipped.
pub open spec fn amount_of(w: Seq<char>) -> nat
    decreases w.len(),
{
    if w.len() == 0 {
        0
    } else if w.last() == ',' {
        amount_of(w.drop_last())
    } else {
        amount_of(w.drop_last()) * 10 + digit_value(w.last())
    }
}

/// The alias and the rate of each denomination: all that reading an amount
/// looks at.
pub open spec fn alias_rates(table: Seq<Currency>) -> Seq<(Seq<char>, usize)> {
    table.map_values(|c: Currency| (c.alias@, c.rate))
}

/// The rate of the first entry whose alias is `c` alone.
pub open spec fn rate_for(rates: Seq<(Seq<char>, usize)>, c: char) -> Option<usize>
    decreases rates.len(),
{
    if rates.len() == 0 {
        None
    } else if rates[0].0 == seq![c] {
        Some(rates[0].1)
    } else {
        rate_for(rates.drop_first(), c)
    }
}

/// The worth in base units of one word `<digits><alias>`, or `None` where the
/// word has another shape or its alias is not in the table.
pub open spec fn token_amount(w: Seq<char>, rates: Seq<(Seq<char>, usize)>) -> Option<nat> {
    if w.len() >= 2 && amount_well_formed(w.drop_last()) {
        match rate_for(rates, w.last()) {
            Some(r) => Some(amount_of(w.drop_last()) * (r as nat)),
            None => None,
        }
    } else {
        None
    }
}

/// The worth in base units of all the words of `s`, or `None` where one of
/// them is not a valid amount.
pub open spec fn base_units(s: Seq<char>, rates: Seq<(Seq<char>, usize)>) -> Option<nat>
    decreases s.len(),
{
    if s.len() == 0 {
        Some(0)
    } else if is_space(s[0]) {
        base_units(s.drop_first(), rates)
    } else {
        proof {
            lemma_word_len_bounds(s);
        }
        let n = word_len(s) as int;
        sum_units(token_amount(s.take(n), rates), base_units(s.skip(n), rates))
    }
}

/// Two worths added, where both are known.
pub open spec fn sum_units(x: Option<nat>, y: Option<nat>) -> Option<nat> {
    match (x, y) {
        (Some(a), Some(b)) => Some(a + b),
        _ => None,
    }
}

/// What reading a total gives: the total where it is known and fits, else the
/// error.
pub open spec fn read_result(v: Option<nat>) -> Result<usize, SterlingError> {
    match v {
        None => Err(SterlingError::InvalidToken),
        Some(t) => if t <= usize::MAX {
            Ok(t as usize)
        } else {
            Err(SterlingError::Overflow)
        },
    }
}

/// A rate found in a table of positive rates is positive.
pub proof fn lemma_rate_for_positive(table: Seq<Currency>, c: char)
    requires
        rates_positive(table),
    ensures
        rate_for(alias_rates(table), c) matches Some(r) ==> r > 0,
    decreases table.len(),
{
    if table.len() > 0 && table[0].alias@ != seq![c] {
        assert(rates_positive(table.drop_first())) by {
            assert forall|i: int| 0 <= i < table.len() - 1 implies #[trigger] table.drop_first()[i].rate
                > 0 by {
                assert(table.drop_first()[i] == table[i + 1]);
            }
        }
        assert(alias_rates(table).drop_first() =~= alias_rates(table.drop_first()));
        lemma_rate_for_positive(table.drop_first(), c);
    }
}

fn is_space_char(c: char) -> (r: bool)
    ensures
        r == is_space(c),
{
    c == ' ' || c == '\t' || c == '\n' || c == '\r'
}

fn is_digit_char(c: char) -> (r: bool)
    ensures
        r == is_digit(c),
{
    '0' <= c && c <= '9'
}

/// Whether the alias of `cur` is the character `c` alone.
fn alias_is(cur: &Currency, c: char) -> (r: bool)
    ensures
        r == (cur.alias@ == seq![c]),
{
    let s = cur.alias.as_str();
    if s.unicode_len() == 1 {
        let first = s.get_char(0);
        if first == c {
            assert(s@ =~= seq![c]);
            true
        } else {
            false
        }
    } else {
        false
    }
}

/// The rate of the first denomination whose alias is `c`.
fn lookup_rate(currencies: &[Currency], c: char) -> (r: Option<usize>)
    ensures
        r == rate_for(alias_rates(currencies@), c),
{
    let mut k: usize = 0;
    assert(alias_rates(currencies@).skip(0) =~= alias_rates(currencies@));
    while k < currencies.len()
        invariant
            k <= currencies@.len(),
            rate_for(alias_rates(currencies@), c) == rate_for(alias_rates(currencies@).skip(k as int), c),
        decreases currencies@.len() - k,
    {
        let ghost rest = alias_rates(currencies@).skip(k as int);
        assert(rest[0] == (currencies@[k as int].alias@, currencies@[k as int].rate));
        assert(rest.drop_first() =~= alias_rates(currencies@).skip(k + 1));
        if alias_is(&currencies[k], c) {
            return Some(currencies[k].rate);
        }
        k = k + 1;
    }
    assert(alias_rates(currencies@).skip(k as int) =~= Seq::<(Seq<char>, usize)>::empty());
    None
}

/// The worth of the word `values[start..end]`.
fn eval_token(values: &str, start: usize, end: usize, currencies: &[Currency]) -> (r: Result<
    usize,
    SterlingError,
>)
    requires
        start < end <= values@.len(),
        rates_positive(currencies@),
    ensures
        r == read_result(token_amount(values@.subrange(start as int, end as int), alias_rates(currencies@))),
{
    let ghost w = values@.subrange(start as int, end as int);
    if end - start < 2 {
        return Err(SterlingError::InvalidToken);
    }
    let last = end - 1;
    let alias = values.get_char(last);
    assert(w.last() == alias);
    let rate = match lookup_rate(currencies, alias) {
        Some(rate) => rate,
        None => {
            return Err(SterlingError::InvalidToken);
        },
    };
    proof {
        lemma_rate_for_positive(currencies@, alias);
    }
    let ghost digits = w.drop_last();
    assert(digits =~= values@.subrange(start as int, last as int));
    let first = values.get_char(start);
    if !is_digit_char(first) {
        return Err(SterlingError::InvalidToken);
    }
    let mut k: usize = start;
    let mut amount: usize = 0;
    let mut big = false;
    while k < last
        invariant
            start <= k <= last,
            last < values@.len(),
            last == end - 1,
            w == values@.subrange(start as int, end as int),
            digits == w.drop_last(),
            digits == values@.subrange(start as int, last as int),
            rate_for(alias_rates(currencies@), alias) == Some(rate),
            rate > 0,
            w.last() == alias,
            values@[start as int] == first,
            is_digit(first),
            forall|m: int|
                start <= m < k ==> is_digit(#[trigger] values@[m]) || values@[m] == ',',
            !big ==> amount as nat == amount_of(values@.subrange(start as int, k as int)),
            big ==> amount_of(values@.subrange(start as int, k as int)) > usize::MAX,
        decreases last - k,
    {
        let c = values.get_char(k);
        let ghost before = values@.subrange(start as int, k as int);
        let ghost after = values@.subrange(start as int, k + 1);
        assert(after.drop_last() =~= before);
        assert(after.last() == c);
        if c == ',' {
        } else if is_digit_char(c) {
            let d = (c as u32 - '0' as u32) as usize;
            assert(d as nat == digit_value(c));
            if !big {
                match amount.checked_mul(10) {
                    Some(tens) => match tens.checked_add(d) {
                        Some(next) => {
                            amount = next;
                        },
                        None => {
                            big = true;
                        },
                    },
                    None => {
                        big = true;
                    },
                }
            }
        } else {
            assert(!amount_well_formed(digits)) by {
                assert(values@[k as int] == c);
                assert(digits[k - start] == values@[k as int]);
                assert(!is_digit(digits[k - start]) && digits[k - start] != ',');
            }
            assert(w.drop_last() == digits);
            assert(token_amount(w, alias_rates(currencies@)) is None);
            return Err(SterlingError::InvalidToken);
        }
        k = k + 1;
    }
    assert(amount_well_formed(digits)) by {
        assert forall|m: int| 0 <= m < digits.len() implies is_digit(#[trigger] digits[m])
            || digits[m] == ',' by {
            assert(digits[m] == values@[start + m]);
        }
        assert(digits[0] == first);
    }
    assert(values@.subrange(start as int, k as int) == digits);
    if big {
        assert(amount_of(digits) * (rate as nat) > usize::MAX) by (nonlinear_arith)
            requires
                amount_of(digits) > usize::MAX,
                rate >= 1,
        ;
        return Err(SterlingError::Overflow);
    }
    match amount.checked_mul(rate) {
        Some(worth) => Ok(worth),
        None => Err(SterlingError::Overflow),
    }
}

/// The total worth in base units of the amounts in `values`: words such as
/// `1,000g` or `3p`, separated by white space, each priced at the rate of the
/// first denomination with its alias.
pub fn calculate_total_copper_value(values: &str, currencies: &[Currency]) -> (r: Result<
    usize,
    SterlingError,
>)
    requires
        rates_positive(currencies@),
    ensures
        r == read_result(base_units(values@, alias_rates(currencies@))),
{
    let n = values.unicode_len();
    let mut i: usize = 0;
    let mut acc: usize = 0;
    let mut overflow = false;
    let ghost mut sum: nat = 0;
    assert(values@.skip(0) =~= values@);
    while i < n
        invariant
            n == values@.len(),
            i <= n,
            rates_positive(currencies@),
            base_units(values@, alias_rates(currencies@)) == match base_units(
                values@.skip(i as int),
                alias_rates(currencies@),
            ) {
                Some(b) => Some(sum + b),
                None => None,
            },
            !overflow ==> acc as nat == sum,
            overflow ==> sum > usize::MAX,
        decreases n - i,
    {
        let ghost rest = values@.skip(i as int);
        let c = values.get_char(i);
        assert(rest[0] == c);
        if is_space_char(c) {
            assert(rest.drop_first() =~= values@.skip(i + 1));
            i = i + 1;
        } else {
            let mut j: usize = i + 1;
            assert(rest.drop_first() =~= values@.skip(i + 1));
            while j < n && !is_space_char(values.get_char(j))
                invariant
                    n == values@.len(),
                    i < j <= n,
                    rest == values@.skip(i as int),
                    word_len(rest) == (j - i) + word_len(values@.skip(j as int)),
                decreases n - j,
            {
                let ghost tail = values@.skip(j as int);
                assert(tail[0] == values@[j as int]);
                assert(tail.drop_first() =~= values@.skip(j + 1));
                j = j + 1;
            }
            proof {
                let tail = values@.skip(j as int);
                if j < n {
                    assert(tail[0] == values@[j as int]);
                }
                assert(word_len(tail) == 0);
                assert(rest.take(j - i) =~= values@.subrange(i as int, j as int));
                assert(rest.skip(j - i) =~= values@.skip(j as int));
            }
            let worth = eval_token(values, i, j, currencies);
            let ghost token = token_amount(values@.subrange(i as int, j as int), alias_rates(currencies@));
            match worth {
                Err(SterlingError::InvalidToken) => {
                    return Err(SterlingError::InvalidToken);
                },
                Err(_) => {
                    proof {
                        sum = sum + token->Some_0;
                    }
                    overflow = true;
                },
                Ok(v) => {
                    proof {
                        sum = sum + v as nat;
                    }
                    if !overflow {
                        match acc.checked_add(v) {
                            Some(next) => {
                                acc = next;
                            },
                            None => {
                                overflow = true;
                            },
                        }
                    }
                },
            }
            i = j;
        }
    }
    assert(values@.skip(i as int) =~= Seq::<char>::empty());
    if overflow {
        Err(SterlingError::Overflow)
    } else {
        Ok(acc)
    }
}

/// The character of a decimal digit.
pub open spec fn decimal_digit(d: nat) -> char {
    seq!['0', '1', '2', '3', '4', '5', '6', '7', '8', '9'][d as int]
}

/// The decimal digits of `n`, without leading zeros.
pub open spec fn decimal(n: nat) -> Seq<char>
    decreases n,
{
    if n < 10 {
        seq![decimal_digit(n)]
    } else {
        decimal(n / 10).push(decimal_digit(n % 10))
    }
}

/// The decimal digits of `n`, with a comma before each group of three
/// counted from the right: `1,234,567`.
pub open spec fn grouped_decimal(n: nat) -> Seq<char>
    decreases n,
{
    if n < 1000 {
        decimal(n)
    } else {
        let m = n % 1000;
        grouped_decimal(n / 1000) + seq![
            ',',
            decimal_digit(m / 100),
            decimal_digit((m / 10) % 10),
            decimal_digit(m % 10),
        ]
    }
}

/// Relies on separator's `Separatable::separated_string` for `usize`: the
/// decimal digits of the number with a comma before each group of three
/// counted from the right.
#[verifier::external_body]
pub(crate) fn separated(n: usize) -> (r: String)
    ensures
        r@ == grouped_decimal(n as nat),
{
    n.separated_string()
}

/// The order of pairs that `Ord` on tuples gives: by the first field, then by
/// the second.
pub open spec fn pair_le(a: (usize, usize), b: (usize, usize)) -> bool {
    a.0 < b.0 || (a.0 == b.0 && a.1 <= b.1)
}

/// Each pair is at most every later one.
pub open spec fn pairs_sorted(s: Seq<(usize, usize)>) -> bool {
    forall|i: int, j: int| 0 <= i < j < s.len() ==> pair_le(#[trigger] s[i], #[trigger] s[j])
}

/// Relies on lazysort's `Sorted::sorted`: the same items, smallest first.
#[verifier::external_body]
fn sort_pairs(v: Vec<(usize, usize)>) -> (r: Vec<(usize, usize)>)
    ensures
        r@.to_multiset() == v@.to_multiset(),
        pairs_sorted(r@),
{
    v.into_iter().sorted().collect()
}

/// One key for each denomination: the denominations of higher rate have the
/// smaller key, and the position in the table breaks ties.
pub open spec fn rate_keys(table: Seq<Currency>) -> Seq<(usize, usize)> {
    Seq::new(table.len(), |i: int| ((usize::MAX - table[i].rate) as usize, i as usize))
}

/// `order` is the table's keys sorted: highest rate first, ties in table order.
pub open spec fn ordered_by_rate(table: Seq<Currency>, order: Seq<(usize, usize)>) -> bool {
    &&& order.to_multiset() == rate_keys(table).to_multiset()
    &&& pairs_sorted(order)
}

/// The denominations of the table in the order that `order` gives.
pub open spec fn ordered_table(table: Seq<Currency>, order: Seq<(usize, usize)>) -> Seq<Currency> {
    order.map_values(|p: (usize, usize)| table[p.1 as int])
}

/// The rate of each denomination, in order.
pub open spec fn rates_of(denoms: Seq<Currency>) -> Seq<nat> {
    denoms.map_values(|c: Currency| c.rate as nat)
}

/// Making change greedily: as many coins of the first rate as the total
/// allows, then the rest in the following rates.
pub open spec fn greedy_counts(total: nat, rates: Seq<nat>) -> Seq<nat>
    decreases rates.len(),
{
    if rates.len() == 0 {
        seq![]
    } else {
        seq![total / rates[0]] + greedy_counts(total % rates[0], rates.drop_first())
    }
}

/// What greedy change leaves over: nothing where a rate of one is among the
/// rates.
pub open spec fn leftover(total: nat, rates: Seq<nat>) -> nat
    decreases rates.len(),
{
    if rates.len() == 0 {
        total
    } else {
        leftover(total % rates[0], rates.drop_first())
    }
}

/// The worth of `counts[i]` coins of rate `rates[i]`, over all `i`.
pub open spec fn worth(counts: Seq<nat>, rates: Seq<nat>) -> nat
    decreases counts.len(),
{
    if counts.len() == 0 || rates.len() == 0 {
        0
    } else {
        counts[0] * rates[0] + worth(counts.drop_first(), rates.drop_first())
    }
}

/// How a count of a denomination is named: by its alias, or in full by its
/// name, in the plural (its own plural form, else the name and `s`) for more
/// than one coin.
pub open spec fn label_of(c: Currency, count: nat, full: bool) -> Seq<char> {
    if full {
        if count > 1 {
            match c.plural {
                Some(p) => p@,
                None => c.name@ + "s"@,
            }
        } else {
            c.name@
        }
    } else {
        c.alias@
    }
}

/// A count and its label: `3p`, or `3 pence` where the label is longer than
/// one character.
pub open spec fn entry_text(c: Currency, count: nat, full: bool) -> Seq<char> {
    let label = label_of(c, count, full);
    grouped_decimal(count) + (if label.len() > 1 {
        " "@
    } else {
        Seq::<char>::empty()
    }) + label
}

/// The entries for the counts that are not zero, in order.
pub open spec fn render(denoms: Seq<Currency>, counts: Seq<nat>, full: bool) -> Seq<Seq<char>>
    decreases counts.len(),
{
    if counts.len() == 0 || denoms.len() == 0 {
        seq![]
    } else {
        (if counts[0] > 0 {
            seq![entry_text(denoms[0], counts[0], full)]
        } else {
            seq![]
        }) + render(denoms.drop_first(), counts.drop_first(), full)
    }
}

/// A total in base units in the fewest coins of the ordered denominations.
pub open spec fn exchange_text(total: nat, denoms: Seq<Currency>, full: bool) -> Seq<Seq<char>> {
    render(denoms, greedy_counts(total, rates_of(denoms)), full)
}

/// The characters of each string, in order.
pub open spec fn strings_view(v: Seq<String>) -> Seq<Seq<char>> {
    v.map_values(|s: String| s@)
}

/// The entry for `count` coins of `cur`.
fn entry_string(cur: &Currency, count: usize, full: bool) -> (r: String)
    ensures
        r@ == entry_text(*cur, count as nat, full),
{
    let label: String = if full {
        if count > 1 {
            match &cur.plural {
                Some(plural) => plural.clone(),
                None => cur.name.clone().concat("s"),
            }
        } else {
            cur.name.clone()
        }
    } else {
        cur.alias.clone()
    };
    assert(label@ == label_of(*cur, count as nat, full));
    let mut text = separated(count);
    if label.as_str().unicode_len() > 1 {
        text = text.concat(" ");
    }
    text.concat(label.as_str())
}

/// The keys of the table, sorted: the order in which change is made.
fn rate_order(currencies: &[Currency]) -> (order: Vec<(usize, usize)>)
    ensures
        ordered_by_rate(currencies@, order@),
        order@.len() == currencies@.len(),
{
    let mut keys: Vec<(usize, usize)> = Vec::new();
    let mut k: usize = 0;
    while k < currencies.len()
        invariant
            k <= currencies@.len(),
            keys@ =~= rate_keys(currencies@).take(k as int),
        decreases currencies@.len() - k,
    {
        keys.push((usize::MAX - currencies[k].rate, k));
        k = k + 1;
    }
    assert(keys@ =~= rate_keys(currencies@));
    let order = sort_pairs(keys);
    proof {
        vstd::seq_lib::to_multiset_len(keys@);
        vstd::seq_lib::to_multiset_len(order@);
    }
    order
}

/// The position in the table of each key of an order.
proof fn lemma_order_in_table(table: Seq<Currency>, order: Seq<(usize, usize)>)
    requires
        ordered_by_rate(table, order),
        table.len() <= usize::MAX,
    ensures
        forall|m: int| 0 <= m < order.len() ==> (#[trigger] order[m]).1 < table.len(),
{
    assert forall|m: int| 0 <= m < order.len() implies (#[trigger] order[m]).1 < table.len() by {
        let keys = rate_keys(table);
        to_multiset_contains(order, order[m]);
        to_multiset_contains(keys, order[m]);
        assert(order.contains(order[m]));
        let j = choose|j: int| 0 <= j < keys.len() && keys[j] == order[m];
        assert(keys[j].1 == j);
    }
}

/// The counts of a total in base units, highest rate first, each count with
/// its label, the zero counts left out.
pub fn exchange_currencies(copper_value: usize, currencies: &[Currency], print_full_name: bool) -> (r:
    Vec<String>)
    requires
        rates_positive(currencies@),
    ensures
        exists|order: Seq<(usize, usize)>|
            #[trigger] ordered_by_rate(currencies@, order) && strings_view(r@) == exchange_text(
                copper_value as nat,
                ordered_table(currencies@, order),
                print_full_name,
            ),
{
    let order = rate_order(currencies);
    let n_denoms = order.len();
    proof {
        lemma_order_in_table(currencies@, order@);
    }
    let ghost denoms = ordered_table(currencies@, order@);
    let ghost rates = rates_of(denoms);
    let mut out: Vec<String> = Vec::new();
    let mut rem: usize = copper_value;
    let mut k: usize = 0;
    assert(denoms.skip(0) =~= denoms);
    assert(rates.skip(0) =~= rates);
    while k < n_denoms
        invariant
            n_denoms == order@.len(),
            k <= order@.len(),
            rates_positive(currencies@),
            forall|m: int| 0 <= m < order@.len() ==> (#[trigger] order@[m]).1 < currencies@.len(),
            denoms == ordered_table(currencies@, order@),
            rates == rates_of(denoms),
            exchange_text(copper_value as nat, denoms, print_full_name) == strings_view(out@)
                + render(denoms.skip(k as int), greedy_counts(rem as nat, rates.skip(k as int)), print_full_name),
        decreases order@.len() - k,
    {
        let idx = order[k].1;
        let cur = &currencies[idx];
        let ghost ds = denoms.skip(k as int);
        let ghost rs = rates.skip(k as int);
        assert(ds[0] == *cur);
        assert(rs[0] == cur.rate as nat);
        assert(ds.drop_first() =~= denoms.skip(k + 1));
        assert(rs.drop_first() =~= rates.skip(k + 1));
        let count = rem / cur.rate;
        let ghost old_out = out@;
        let ghost g = greedy_counts(rem as nat, rs);
        assert(g[0] == count as nat);
        assert(g.drop_first() =~= greedy_counts((rem % cur.rate) as nat, rates.skip(k + 1)));
        let ghost later = render(denoms.skip(k + 1), g.drop_first(), print_full_name);
        if count > 0 {
            let text = entry_string(cur, count, print_full_name);
            out.push(text);
            assert(strings_view(out@) =~= strings_view(old_out).push(text@));
            assert(render(ds, g, print_full_name) == seq![text@] + later);
            assert(strings_view(old_out) + (seq![text@] + later) =~= strings_view(out@) + later);
        } else {
            assert(render(ds, g, print_full_name) =~= later);
        }
        rem = rem % cur.rate;
        k = k + 1;
    }
    assert(denoms.skip(k as int) =~= Seq::<Currency>::empty());
    out
}

/// `parts` are the entries of `total` base units exchanged against the table.
pub open spec fn is_exchange(total: nat, table: Seq<Currency>, full: bool, parts: Seq<Seq<char>>) -> bool {
    exists|order: Seq<(usize, usize)>|
        #[trigger] ordered_by_rate(table, order) && parts == exchange_text(
            total,
            ordered_table(table, order),
            full,
        )
}

/// What an amount reads as against the table.
pub open spec fn read_amount(s: Seq<char>, table: Seq<Currency>) -> Result<usize, SterlingError> {
    read_result(base_units(s, alias_rates(table)))
}

/// A word ends where a space is put after it.
proof fn lemma_word_len_concat(a: Seq<char>, b: Seq<char>)
    ensures
        word_len(a + seq![' '] + b) == word_len(a),
    decreases a.len(),
{
    let s = a + seq![' '] + b;
    if a.len() == 0 {
        assert(s[0] == ' ');
    } else {
        assert(s[0] == a[0]);
        if !is_space(a[0]) {
            assert(s.drop_first() =~= a.drop_first() + seq![' '] + b);
            lemma_word_len_concat(a.drop_first(), b);
        }
    }
}

/// Amounts separated by a space are worth the sum of what each is worth.
pub proof fn lemma_base_units_concat(a: Seq<char>, b: Seq<char>, rates: Seq<(Seq<char>, usize)>)
    ensures
        base_units(a + seq![' '] + b, rates) == sum_units(base_units(a, rates), base_units(b, rates)),
    decreases a.len(),
{
    let s = a + seq![' '] + b;
    if a.len() == 0 {
        assert(s[0] == ' ');
        assert(s.drop_first() =~= b);
    } else if is_space(a[0]) {
        assert(s[0] == a[0]);
        assert(s.drop_first() =~= a.drop_first() + seq![' '] + b);
        lemma_base_units_concat(a.drop_first(), b, rates);
    } else {
        assert(s[0] == a[0]);
        lemma_word_len_concat(a, b);
        lemma_word_len_bounds(a);
        let n = word_len(a) as int;
        assert(s.take(n) =~= a.take(n));
        assert(s.skip(n) =~= a.skip(n) + seq![' '] + b);
        lemma_base_units_concat(a.skip(n), b, rates);
    }
}

/// The total of amounts does not depend on the order of their words: two
/// amounts read the same in either order.
pub proof fn lemma_read_amount_commutes(a: Seq<char>, b: Seq<char>, table: Seq<Currency>)
    ensures
        read_amount(a + seq![' '] + b, table) == read_amount(b + seq![' '] + a, table),
{
    lemma_base_units_concat(a, b, alias_rates(table));
    lemma_base_units_concat(b, a, alias_rates(table));
}

/// Grouping does not change a total: three amounts read the same however
/// the first two and the last two are taken together.
pub proof fn lemma_base_units_associates(
    a: Seq<char>,
    b: Seq<char>,
    c: Seq<char>,
    rates: Seq<(Seq<char>, usize)>,
)
    ensures
        sum_units(sum_units(base_units(a, rates), base_units(b, rates)), base_units(c, rates))
            == base_units(a + seq![' '] + b + seq![' '] + c, rates),
        sum_units(base_units(a, rates), sum_units(base_units(b, rates), base_units(c, rates)))
            == base_units(a + seq![' '] + b + seq![' '] + c, rates),
{
    lemma_base_units_concat(a, b, rates);
    lemma_base_units_concat(a + seq![' '] + b, c, rates);
    lemma_base_units_concat(b, c, rates);
    lemma_base_units_concat(a, b + seq![' '] + c, rates);
    assert(a + seq![' '] + b + seq![' '] + c =~= a + seq![' '] + (b + seq![' '] + c));
}

/// The coins of greedy change and what it leaves over make up the total.
proof fn lemma_greedy_worth(total: nat, rates: Seq<nat>)
    requires
        forall|i: int| 0 <= i < rates.len() ==> #[trigger] rates[i] > 0,
    ensures
        worth(greedy_counts(total, rates), rates) + leftover(total, rates) == total,
    decreases rates.len(),
{
    if rates.len() > 0 {
        let r = rates[0];
        let counts = greedy_counts(total, rates);
        assert(counts.drop_first() =~= greedy_counts(total % r, rates.drop_first()));
        lemma_greedy_worth(total % r, rates.drop_first());
        vstd::arithmetic::div_mod::lemma_fundamental_div_mod(total as int, r as int);
        assert(counts[0] * r + (total % r) == total) by (nonlinear_arith)
            requires
                counts[0] == total / r,
                total == r * (total / r) + total % r,
        ;
    }
}

/// Greedy change leaves nothing over once it has passed a rate of one.
proof fn lemma_leftover_none(total: nat, rates: Seq<nat>)
    requires
        forall|i: int| 0 <= i < rates.len() ==> #[trigger] rates[i] > 0,
        rates.contains(1),
    ensures
        leftover(total, rates) == 0,
    decreases rates.len(),
{
    let r = rates[0];
    if r == 1 {
        lemma_leftover_of_zero(rates.drop_first());
    } else {
        let i = choose|i: int| 0 <= i < rates.len() && rates[i] == 1;
        assert(rates.drop_first()[i - 1] == 1);
        lemma_leftover_none(total % r, rates.drop_first());
    }
}

/// Change for nothing is no coins.
proof fn lemma_leftover_of_zero(rates: Seq<nat>)
    requires
        forall|i: int| 0 <= i < rates.len() ==> #[trigger] rates[i] > 0,
    ensures
        leftover(0, rates) == 0,
        greedy_counts(0, rates) =~= Seq::new(rates.len(), |i: int| 0nat),
    decreases rates.len(),
{
    if rates.len() > 0 {
        lemma_leftover_of_zero(rates.drop_first());
    }
}

/// Exchange loses nothing where the table has a denomination of rate one:
/// the counts of the exchange, each at its denomination's rate, are worth
/// the total.
pub proof fn lemma_exchange_round_trip(total: nat, table: Seq<Currency>, order: Seq<(usize, usize)>)
    requires
        rates_positive(table),
        table.len() <= usize::MAX,
        exists|i: int| 0 <= i < table.len() && #[trigger] table[i].rate == 1,
        ordered_by_rate(table, order),
    ensures
        worth(
            greedy_counts(total, rates_of(ordered_table(table, order))),
            rates_of(ordered_table(table, order)),
        ) == total,
{
    lemma_order_in_table(table, order);
    let rates = rates_of(ordered_table(table, order));
    assert forall|m: int| 0 <= m < rates.len() implies #[trigger] rates[m] > 0 by {
        assert(table[order[m].1 as int].rate > 0);
    }
    let i = choose|i: int| 0 <= i < table.len() && #[trigger] table[i].rate == 1;
    let keys = rate_keys(table);
    assert(keys.contains(keys[i]));
    to_multiset_contains(keys, keys[i]);
    to_multiset_contains(order, keys[i]);
    let m = choose|m: int| 0 <= m < order.len() && order[m] == keys[i];
    assert(rates[m] == 1);
    lemma_greedy_worth(total, rates);
    lemma_leftover_none(total, rates);
}

/// A total of zero exchanges to no coins at all: every count is zero and no
/// entry is shown.
pub proof fn lemma_exchange_zero(table: Seq<Currency>, order: Seq<(usize, usize)>, full: bool)
    requires
        rates_positive(table),
        table.len() <= usize::MAX,
        ordered_by_rate(table, order),
    ensures
        greedy_counts(0, rates_of(ordered_table(table, order))) =~= Seq::new(order.len(), |i: int| 0nat),
        exchange_text(0, ordered_table(table, order), full) == Seq::<Seq<char>>::empty(),
{
    lemma_order_in_table(table, order);
    let denoms = ordered_table(table, order);
    let rates = rates_of(denoms);
    assert forall|m: int| 0 <= m < rates.len() implies #[trigger] rates[m] > 0 by {
        assert(table[order[m].1 as int].rate > 0);
    }
    lemma_leftover_of_zero(rates);
    lemma_render_zeros(denoms, order.len() as nat, full);
}

/// Counts that are all zero show no entry.
proof fn lemma_render_zeros(denoms: Seq<Currency>, n: nat, full: bool)
    ensures
        render(denoms, Seq::new(n, |i: int| 0nat), full) == Seq::<Seq<char>>::empty(),
    decreases n,
{
    if n > 0 && denoms.len() > 0 {
        assert(Seq::new(n, |i: int| 0nat).drop_first() =~= Seq::new((n - 1) as nat, |i: int| 0nat));
        lemma_render_zeros(denoms.drop_first(), (n - 1) as nat, full);
    }
}

} // verus!
