//! The laws the generator obeys, proved over the model in [`crate::model`].
//!
//! The central device is the closed form of a positive advance
//! ([`lemma_advance_rolls`]): a positive offset only ever rewrites the
//! trailing digit and appends copies of the table's last symbol, so the result
//! is `rolled` of the units absorbed. From it follow the enumeration order
//! from the empty identifier, composition of forward advances, and the
//! round trip back to empty.

use vstd::prelude::*;
use vstd::arithmetic::div_mod::{
    lemma_fundamental_div_mod, lemma_fundamental_div_mod_converse, lemma_mod_bound,
    lemma_div_pos_is_pos,
};
use crate::model::{
    spec_advance, symbol_index, rolled, nth_ident, valid_table, lemma_symbol_index_below,
    lemma_symbol_index_of_entry,
};

verus! {

/// A run of `q` copies of the table's last symbol.
pub open spec fn last_run(table: Seq<char>, q: int) -> Seq<char> {
    Seq::new(q as nat, |k: int| table.last())
}

/// Pushing `q` copies of the table's last symbol onto the prefix is the same
/// as rolling `q` more whole tables through the trailing digit.
proof fn lemma_rolled_absorb(table: Seq<char>, prefix: Seq<char>, q: int, s: int)
    requires
        table.len() > 0,
        q >= 0,
        s >= 0,
    ensures
        rolled(table, prefix + last_run(table, q), s) == rolled(
            table,
            prefix,
            q * table.len() + s,
        ),
{
    let n = table.len() as int;
    lemma_fundamental_div_mod(s, n);
    lemma_mod_bound(s, n);
    lemma_div_pos_is_pos(s, n);
    let qs = s / n;
    let rs = s % n;
    assert(q * n + s == (q + qs) * n + rs) by (nonlinear_arith)
        requires
            s == n * qs + rs,
    ;
    lemma_fundamental_div_mod_converse(q * n + s, n, q + qs, rs);
    assert(q * n + s >= s);
    assert((prefix + last_run(table, q)) + last_run(table, qs) + seq![table[rs]] =~= prefix
        + last_run(table, q + qs) + seq![table[rs]]);
}

/// The closed form of a positive advance on a non-empty identifier: every
/// unit the trailing digit absorbs beyond the table's length parks one copy
/// of the last symbol, and the leftover picks the final symbol.
pub proof fn lemma_advance_rolls(table: Seq<char>, ident: Seq<char>, i: int)
    requires
        table.len() > 0,
        ident.len() > 0,
        i > 0,
    ensures
        spec_advance(table, ident, i) == rolled(
            table,
            ident.drop_last(),
            symbol_index(table, ident.last()) + i,
        ),
    decreases i,
{
    reveal_with_fuel(spec_advance, 2);
    let n = table.len() as int;
    let x = symbol_index(table, ident.last()) as int;
    lemma_symbol_index_below(table, ident.last());
    let y = i + x;
    if y < n {
        assert(spec_advance(table, ident, i) == ident.update(ident.len() - 1, table[y]));
        lemma_fundamental_div_mod_converse(y, n, 0, y);
        assert(ident.update(ident.len() - 1, table[y]) =~= rolled(table, ident.drop_last(), y));
    } else {
        let ident2 = ident.update(ident.len() - 1, table.last()).push(table[0]);
        let i2 = y - n;
        assert(spec_advance(table, ident, i) == spec_advance(table, ident2, i2));
        assert(ident2.drop_last() =~= ident.drop_last().push(table.last()));
        assert(ident.drop_last().push(table.last()) =~= ident.drop_last() + last_run(table, 1));
        if i2 == 0 {
            assert(spec_advance(table, ident2, 0) == ident2);
            lemma_fundamental_div_mod_converse(y, n, 1, 0);
            assert(ident2 =~= rolled(table, ident.drop_last(), y));
        } else {
            assert(ident2.last() == table[0]);
            assert(symbol_index(table, table[0]) == 0);
            lemma_advance_rolls(table, ident2, i2);
            lemma_rolled_absorb(table, ident.drop_last(), 1, i2);
            assert(1 * n + i2 == y);
        }
    }
}

/// Advancing the empty identifier by `i` reaches the identifier standing at
/// position `i` of the enumeration order.
pub proof fn lemma_advance_from_empty(table: Seq<char>, i: int)
    requires
        table.len() > 0,
        i >= 0,
    ensures
        spec_advance(table, Seq::<char>::empty(), i) == nth_ident(table, i),
{
    reveal_with_fuel(spec_advance, 3);
    let n = table.len() as int;
    if i > 0 {
        let first = seq![table[0]];
        assert(spec_advance(table, Seq::<char>::empty(), i) == spec_advance(table, first, i - 1));
        assert(first.drop_last() =~= Seq::<char>::empty());
        if i == 1 {
            assert(spec_advance(table, first, 0) == first);
            lemma_fundamental_div_mod_converse(0, n, 0, 0);
            assert(first =~= rolled(table, Seq::<char>::empty(), 0));
        } else {
            assert(symbol_index(table, table[0]) == 0);
            lemma_advance_rolls(table, first, i - 1);
        }
    }
}

/// A run of last symbols is itself a canonical identifier: the one at the
/// position of as many whole tables.
proof fn lemma_last_run_is_nth(table: Seq<char>, q: int)
    requires
        table.len() > 0,
        q >= 0,
    ensures
        last_run(table, q) == nth_ident(table, q * table.len()),
{
    let n = table.len() as int;
    if q == 0 {
        assert(last_run(table, 0) =~= Seq::<char>::empty());
    } else {
        assert(q * n >= 1 && q * n - 1 == (q - 1) * n + (n - 1)) by (nonlinear_arith)
            requires
                q >= 1,
                n >= 1,
        ;
        lemma_fundamental_div_mod_converse(q * n - 1, n, q - 1, n - 1);
        assert(last_run(table, q) =~= Seq::<char>::empty() + last_run(table, q - 1) + seq![
            table[n - 1],
        ]);
    }
}

/// Advancing the identifier at position `v` by `i` positions forward lands on
/// the identifier at position `v + i`: forward advances walk the enumeration
/// order exactly.
pub proof fn lemma_nth_advances(table: Seq<char>, v: int, i: int)
    requires
        valid_table(table),
        v >= 0,
        i >= 0,
    ensures
        spec_advance(table, nth_ident(table, v), i) == nth_ident(table, v + i),
{
    let n = table.len() as int;
    if v == 0 {
        lemma_advance_from_empty(table, i);
    } else if i > 0 {
        lemma_fundamental_div_mod(v - 1, n);
        lemma_mod_bound(v - 1, n);
        lemma_div_pos_is_pos(v - 1, n);
        let q = (v - 1) / n;
        let r = (v - 1) % n;
        let id = nth_ident(table, v);
        assert(id.last() == table[r]);
        lemma_symbol_index_of_entry(table, r);
        lemma_advance_rolls(table, id, i);
        assert(id.drop_last() =~= Seq::<char>::empty() + last_run(table, q));
        lemma_rolled_absorb(table, Seq::<char>::empty(), q, r + i);
        assert(q * n + (r + i) == v + i - 1);
    }
}

/// Regressing by at least the identifier's own position empties it: each
/// removed digit costs one unit, the leftover keeps regressing, and the empty
/// identifier absorbs the rest by saturation.
pub proof fn lemma_regress_saturates(table: Seq<char>, v: int, m: int)
    requires
        valid_table(table),
        0 <= v <= m,
    ensures
        spec_advance(table, nth_ident(table, v), -m) == Seq::<char>::empty(),
    decreases m,
{
    let n = table.len() as int;
    if v > 0 {
        lemma_fundamental_div_mod(v - 1, n);
        lemma_mod_bound(v - 1, n);
        lemma_div_pos_is_pos(v - 1, n);
        let q = (v - 1) / n;
        let r = (v - 1) % n;
        let id = nth_ident(table, v);
        assert(id.last() == table[r]);
        lemma_symbol_index_of_entry(table, r);
        lemma_symbol_index_below(table, table[r]);
        assert(q * n >= 0) by (nonlinear_arith)
            requires
                q >= 0,
                n > 0,
        ;
        assert(id.drop_last() =~= last_run(table, q));
        lemma_last_run_is_nth(table, q);
        lemma_regress_saturates(table, q * n, m - 1);
    }
}

/// Advancing from the empty identifier by `i` and then regressing by `i`
/// returns to the empty identifier.
pub proof fn lemma_round_trip(table: Seq<char>, i: int)
    requires
        valid_table(table),
        i >= 0,
    ensures
        spec_advance(table, spec_advance(table, Seq::<char>::empty(), i), -i) == Seq::<
            char,
        >::empty(),
{
    lemma_advance_from_empty(table, i);
    lemma_regress_saturates(table, i, i);
}

/// Two forward advances compose: advancing any identifier by `i` and then by
/// `j` is one advance by `i + j`. (With a negative leg this fails: over the
/// table `a b c`, advancing the empty identifier by 5 and then by -3 differs
/// from advancing it by 2, because removing a digit repays only one unit.)
pub proof fn lemma_advance_composes(table: Seq<char>, ident: Seq<char>, i: int, j: int)
    requires
        valid_table(table),
        i >= 0,
        j >= 0,
    ensures
        spec_advance(table, spec_advance(table, ident, i), j) == spec_advance(
            table,
            ident,
            i + j,
        ),
{
    let n = table.len() as int;
    if i == 0 || j == 0 {
    } else if ident.len() == 0 {
        lemma_advance_from_empty(table, i);
        lemma_nth_advances(table, i, j);
        lemma_advance_from_empty(table, i + j);
    } else {
        let x = symbol_index(table, ident.last()) as int;
        let a = x + i;
        lemma_advance_rolls(table, ident, i);
        lemma_fundamental_div_mod(a, n);
        lemma_mod_bound(a, n);
        lemma_div_pos_is_pos(a, n);
        let inner = spec_advance(table, ident, i);
        assert(inner.last() == table[a % n]);
        lemma_symbol_index_of_entry(table, a % n);
        lemma_advance_rolls(table, inner, j);
        assert(inner.drop_last() =~= ident.drop_last() + last_run(table, a / n));
        lemma_rolled_absorb(table, ident.drop_last(), a / n, a % n + j);
        assert((a / n) * n + (a % n + j) == a + j) by (nonlinear_arith)
            requires
                a == n * (a / n) + a % n,
        ;
        lemma_advance_rolls(table, ident, i + j);
    }
}

/// Regressing from the empty identifier by any amount leaves it empty:
/// position 0 has no predecessor, so negative offsets saturate there.
pub proof fn lemma_regress_from_empty_saturates(table: Seq<char>, i: int)
    requires
        i <= 0,
    ensures
        spec_advance(table, Seq::<char>::empty(), i) == Seq::<char>::empty(),
{
}

} // verus!
