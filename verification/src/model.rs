//! The mathematical model of identifier generation: tables and identifiers as
//! sequences of characters, the position of a symbol within a table, and the
//! transition taken by a signed advance.

use vstd::prelude::*;
use vstd::math::{abs, min};

verus! {

/// First index of `c` in `table`, scanning from the front, or `None` when absent.
pub open spec fn find_symbol(table: Seq<char>, c: char) -> Option<nat>
    decreases table.len(),
{
    if table.len() == 0 {
        None
    } else if table[0] == c {
        Some(0 as nat)
    } else {
        match find_symbol(table.drop_first(), c) {
            Some(j) => Some((j + 1) as nat),
            None => None,
        }
    }
}

/// The position a table ascribes to a symbol: its first index, or 0 when the
/// symbol is absent (the permissive fallback used after a table replacement).
pub open spec fn symbol_index(table: Seq<char>, c: char) -> nat {
    match find_symbol(table, c) {
        Some(j) => j,
        None => 0,
    }
}

/// A usable table: at least one symbol, no symbol twice.
pub open spec fn valid_table(table: Seq<char>) -> bool {
    &&& table.len() > 0
    &&& forall|p: int, q: int| 0 <= p < q < table.len() ==> table[p] != table[q]
}

/// The identifier that one signed advance by `i` turns `ident` into, digit
/// positions read against `table`.
///
/// A positive offset is absorbed by the trailing digit; when it overflows the
/// table, that digit parks at the table's last symbol, a fresh first symbol is
/// appended, and the surplus is applied again. A negative offset below the
/// trailing digit's position removes that digit, one unit of the offset being
/// spent on the removal; an empty identifier absorbs nothing further, so
/// regressing saturates there. The position of the trailing symbol is clamped
/// to the table's length so that the recursion is visibly well-founded; the
/// clamp never bites, since a symbol's position is below the table's length.
pub open spec fn spec_advance(table: Seq<char>, ident: Seq<char>, i: int) -> Seq<char>
    decreases abs(i),
{
    if table.len() == 0 || i == 0 {
        ident
    } else if ident.len() == 0 {
        if i > 0 {
            spec_advance(table, seq![table[0]], i - 1)
        } else {
            ident
        }
    } else {
        let x = min(symbol_index(table, ident.last()) as int, table.len() - 1);
        let y = i + x;
        if i < 0 {
            if y < 0 {
                spec_advance(table, ident.drop_last(), i + 1)
            } else {
                ident.update(ident.len() - 1, table[y])
            }
        } else if y >= table.len() {
            spec_advance(
                table,
                ident.update(ident.len() - 1, table.last()).push(table[0]),
                y - table.len(),
            )
        } else {
            ident.update(ident.len() - 1, table[y])
        }
    }
}

/// What a run of positive advances leaves behind `prefix`: as many copies of
/// the table's last symbol as whole tables fit into `units`, then the symbol
/// at the leftover position.
pub open spec fn rolled(table: Seq<char>, prefix: Seq<char>, units: int) -> Seq<char>
    recommends
        table.len() > 0,
        units >= 0,
{
    prefix + Seq::new((units / table.len() as int) as nat, |k: int| table.last()) + seq![
        table[units % table.len() as int],
    ]
}

/// The identifier standing at position `n` of the enumeration order: the empty
/// identifier at position 0, then the single symbols in table order, and so on.
pub open spec fn nth_ident(table: Seq<char>, n: int) -> Seq<char>
    recommends
        table.len() > 0,
        n >= 0,
{
    if n <= 0 {
        Seq::<char>::empty()
    } else {
        rolled(table, Seq::<char>::empty(), n - 1)
    }
}

/// What `find_symbol` finds: an in-range first occurrence, or nothing exactly
/// when the symbol is absent.
pub proof fn lemma_find_symbol(table: Seq<char>, c: char)
    ensures
        match find_symbol(table, c) {
            Some(j) => j < table.len() && table[j as int] == c && (forall|k: int|
                0 <= k < j ==> table[k] != c),
            None => !table.contains(c),
        },
    decreases table.len(),
{
    if table.len() == 0 {
    } else if table[0] == c {
    } else {
        lemma_find_symbol(table.drop_first(), c);
        match find_symbol(table.drop_first(), c) {
            Some(j) => {
                assert(table.drop_first()[j as int] == table[j as int + 1]);
                assert(forall|k: int|
                    1 <= k < j + 1 ==> table[k] == table.drop_first()[k - 1] && table[k] != c);
            },
            None => {
                assert forall|k: int| 0 <= k < table.len() implies table[k] != c by {
                    if k >= 1 {
                        assert(table[k] == table.drop_first()[k - 1]);
                    }
                }
            },
        }
    }
}

/// A symbol's position is always below the table's length.
pub proof fn lemma_symbol_index_below(table: Seq<char>, c: char)
    requires
        table.len() > 0,
    ensures
        symbol_index(table, c) < table.len(),
        min(symbol_index(table, c) as int, table.len() - 1) == symbol_index(table, c) as int,
{
    lemma_find_symbol(table, c);
}

/// In a table without repeated symbols, the position of the symbol stored at
/// `r` is `r` itself.
pub proof fn lemma_symbol_index_of_entry(table: Seq<char>, r: int)
    requires
        valid_table(table),
        0 <= r < table.len(),
    ensures
        symbol_index(table, table[r]) == r,
{
    lemma_find_symbol(table, table[r]);
    assert(table.contains(table[r]));
    let j = find_symbol(table, table[r]).unwrap();
    if j < r {
        assert(table[j as int] != table[r]);
    }
    if j > r {
        assert(table[r] != table[r]) by {
            assert(forall|k: int| 0 <= k < j ==> table[k] != table[r]);
        }
    }
}

} // verus!
