//! The counter engine: one signed advance over the identifier, and the two
//! generator types wrapping it.

use vstd::prelude::*;
use vstd::math::abs;
use vstd::std_specs::iter::IteratorSpec;
use crate::model::{
    spec_advance, symbol_index, find_symbol, lemma_find_symbol, lemma_symbol_index_below,
};
use crate::tables::DEFAULT_TABLE;

verus! {

broadcast use vstd::string::axiom_spec_iter, vstd::string::next_postcondition;

/// First index of `c` in `table`, or 0 when `c` does not occur.
fn position_of(table: &[char], c: char) -> (x: usize)
    ensures
        x as nat == symbol_index(table@, c),
{
    let mut j: usize = 0;
    while j < table.len()
        invariant
            j <= table@.len(),
            forall|k: int| 0 <= k < j ==> table@[k] != c,
        decreases table@.len() - j,
    {
        if table[j] == c {
            proof {
                lemma_find_symbol(table@, c);
                match find_symbol(table@, c) {
                    Some(f) => {
                        if f < j as nat {
                            assert(table@[f as int] != c);
                        }
                        if f > j as nat {
                            assert(table@[j as int] != c);
                        }
                    },
                    None => {
                        assert(table@.contains(c)) by {
                            assert(table@[j as int] == c);
                        }
                    },
                }
            }
            return j;
        }
        j = j + 1;
    }
    proof {
        lemma_find_symbol(table@, c);
        if find_symbol(table@, c) is Some {
            let f = find_symbol(table@, c).unwrap();
            assert(table@[f as int] != c);
        }
    }
    0
}

/// Moves `ident` by `i` positions in the enumeration order over `table`:
/// forward for positive `i`, backward for negative, saturating at the empty
/// identifier.
pub fn advance(table: &[char], ident: &mut String, i: isize)
    requires
        table@.len() > 0,
    ensures
        final(ident)@ == spec_advance(table@, old(ident)@, i as int),
{
    let ghost t = table@;
    let ghost start = ident@;
    let mut k: i128 = i as i128;
    while k != 0
        invariant
            table@ == t,
            t.len() > 0,
            -0x8000_0000_0000_0000 <= k <= 0x7fff_ffff_ffff_ffff,
            spec_advance(t, start, i as int) == spec_advance(t, ident@, k as int),
        decreases abs(k as int),
    {
        let ghost pre = ident@;
        let popped = ident.pop();
        match popped {
            Option::None => {
                if k > 0 {
                    ident.push(table[0]);
                    proof {
                        assert(ident@ =~= seq![t[0]]);
                    }
                    k = k - 1;
                } else {
                    proof {
                        assert(spec_advance(t, pre, k as int) == pre);
                    }
                    k = 0;
                }
            },
            Option::Some(a) => {
                proof {
                    assert(pre.len() > 0 && pre.last() == a);
                    lemma_symbol_index_below(t, a);
                }
                let x = position_of(table, a);
                let y: i128 = k + x as i128;
                if k < 0 {
                    if y < 0 {
                        proof {
                            assert(ident@ == pre.drop_last());
                        }
                        k = k + 1;
                    } else {
                        ident.push(table[y as usize]);
                        proof {
                            assert(ident@ =~= pre.update(pre.len() - 1, t[y as int]));
                            assert(spec_advance(t, pre, k as int) == ident@);
                        }
                        k = 0;
                    }
                } else {
                    if y >= table.len() as i128 {
                        ident.push(table[table.len() - 1]);
                        ident.push(table[0]);
                        proof {
                            assert(ident@ =~= pre.update(pre.len() - 1, t.last()).push(t[0]));
                        }
                        k = y - table.len() as i128;
                    } else {
                        ident.push(table[y as usize]);
                        proof {
                            assert(ident@ =~= pre.update(pre.len() - 1, t[y as int]));
                            assert(spec_advance(t, pre, k as int) == ident@);
                        }
                        k = 0;
                    }
                }
            },
        }
    }
    proof {
        assert(spec_advance(t, ident@, 0) == ident@);
    }
}

/// The characters of `x`, in order.
fn chars_of(x: &str) -> (v: Vec<char>)
    ensures
        v@ == x@,
{
    let mut v: Vec<char> = Vec::new();
    let mut it = x.chars();
    loop
        invariant
            it.decrease() is Some,
            v@ + it.remaining() =~= x@,
        ensures
            v@ == x@,
        decreases it.decrease()->0,
    {
        match it.next() {
            Option::Some(c) => {
                v.push(c);
            },
            Option::None => {
                proof {
                    assert(v@ =~= x@);
                }
                break ;
            },
        }
    }
    v
}

/// Identifier generator: it can generate all possible combinations for a
/// table for all possible lengths in order. The default table is
/// [`DEFAULT_TABLE`]. Its view is the current identifier's text.
pub struct IdentGen<'a> {
    pub ident: String,
    table: &'a [char],
}

impl<'a> View for IdentGen<'a> {
    type V = Seq<char>;

    closed spec fn view(&self) -> Seq<char> {
        self.ident@
    }
}

impl<'a> IdentGen<'a> {
    /// The character table, as contracts see it.
    pub closed spec fn table_spec(&self) -> Seq<char> {
        self.table@
    }

    /// A generator is usable as long as its table is non-empty; construction
    /// and table replacement both maintain this.
    pub open spec fn wf(&self) -> bool {
        self.table_spec().len() > 0
    }

    /// Creates a new instance with the specified table, using the default one if empty.
    pub fn new(table: &'a [char]) -> (r: Self)
        ensures
            r@ == Seq::<char>::empty(),
            table@.len() > 0 ==> r.table_spec() == table@,
            table@.len() == 0 ==> r.table_spec() == DEFAULT_TABLE@,
            r.wf(),
    {
        Self {
            ident: String::new(),
            table: if table.len() == 0 {
                DEFAULT_TABLE.as_slice()
            } else {
                table
            },
        }
    }

    /// Sets a new table; if the new contents do not contain the identifier's
    /// trailing character, the first position is assumed when advancing.
    ///
    /// An empty table is rejected: nothing changes and `false` is returned.
    pub fn set_table(&mut self, table: &'a [char]) -> (ok: bool)
        ensures
            ok == (table@.len() > 0),
            final(self)@ == old(self)@,
            ok ==> final(self).table_spec() == table@,
            !ok ==> final(self).table_spec() == old(self).table_spec(),
    {
        if table.len() == 0 {
            false
        } else {
            self.table = table;
            true
        }
    }

    /// Convenience for `self.advance(1)`.
    pub fn next(&mut self) -> (r: &str)
        requires
            old(self).wf(),
        ensures
            final(self)@ == spec_advance(old(self).table_spec(), old(self)@, 1),
            r@ == final(self)@,
            final(self).table_spec() == old(self).table_spec(),
    {
        self.advance(1)
    }

    /// Convenience for `self.advance(-1)`.
    pub fn prev(&mut self) -> (r: &str)
        requires
            old(self).wf(),
        ensures
            final(self)@ == spec_advance(old(self).table_spec(), old(self)@, -1),
            r@ == final(self)@,
            final(self).table_spec() == old(self).table_spec(),
    {
        self.advance(-1)
    }

    /// Returns the underlying character table used in [`Self::advance`].
    pub fn table(&self) -> (r: &[char])
        ensures
            r@ == self.table_spec(),
    {
        self.table
    }

    /// When `i` is positive, moves to the `i`th possible combination after
    /// the current one; when negative, to the `i`th combination before it,
    /// saturating at the empty identifier. Modifies the underlying `String`
    /// and returns it as a `&str`.
    pub fn advance(&mut self, i: isize) -> (r: &str)
        requires
            old(self).wf(),
        ensures
            final(self)@ == spec_advance(old(self).table_spec(), old(self)@, i as int),
            r@ == final(self)@,
            final(self).table_spec() == old(self).table_spec(),
    {
        advance(self.table, &mut self.ident, i);
        self.ident.as_str()
    }

    /// Resets the identifier to empty.
    pub fn clear(&mut self)
        ensures
            final(self)@ == Seq::<char>::empty(),
            final(self).table_spec() == old(self).table_spec(),
    {
        self.ident.clear()
    }
}

impl<'a> Default for IdentGen<'a> {
    /// Equivalent to [`IdentGen::new`] with an empty table: the default
    /// table and an empty identifier.
    fn default() -> (r: Self)
        ensures
            r@ == Seq::<char>::empty(),
            r.table_spec() == DEFAULT_TABLE@,
            r.wf(),
    {
        Self::new(&[])
    }
}

/// Identifier generator owning its character table; otherwise it behaves as
/// [`IdentGen`] does. Its view is the current identifier's text.
pub struct IdentGenOwned {
    table: Vec<char>,
    pub ident: String,
}

impl View for IdentGenOwned {
    type V = Seq<char>;

    closed spec fn view(&self) -> Seq<char> {
        self.ident@
    }
}

impl IdentGenOwned {
    /// The character table, as contracts see it.
    pub closed spec fn table_spec(&self) -> Seq<char> {
        self.table@
    }

    /// A generator is usable as long as its table is non-empty; construction
    /// maintains this.
    pub open spec fn wf(&self) -> bool {
        self.table_spec().len() > 0
    }

    /// Creates a new instance with the specified table, populating the vec
    /// with the default one if empty.
    pub fn new(table: Vec<char>) -> (r: Self)
        ensures
            r@ == Seq::<char>::empty(),
            table@.len() > 0 ==> r.table_spec() == table@,
            table@.len() == 0 ==> r.table_spec() == DEFAULT_TABLE@,
            r.wf(),
    {
        let mut table = table;
        if table.len() == 0 {
            let defaults: &[char] = DEFAULT_TABLE.as_slice();
            let mut j: usize = 0;
            while j < defaults.len()
                invariant
                    j <= defaults@.len(),
                    defaults@ == DEFAULT_TABLE@,
                    table@ =~= defaults@.subrange(0, j as int),
                decreases defaults@.len() - j,
            {
                table.push(defaults[j]);
                j = j + 1;
            }
            proof {
                assert(table@ =~= DEFAULT_TABLE@);
            }
        }
        Self { ident: String::new(), table }
    }

    /// Creates a new instance with the characters of `x` as table.
    pub fn from_str_table(x: &str) -> (r: Self)
        ensures
            r@ == Seq::<char>::empty(),
            x@.len() > 0 ==> r.table_spec() == x@,
            x@.len() == 0 ==> r.table_spec() == DEFAULT_TABLE@,
            r.wf(),
    {
        Self::new(chars_of(x))
    }

    /// Returns the underlying character table used in [`Self::advance`].
    pub fn table(&self) -> (r: &[char])
        ensures
            r@ == self.table_spec(),
    {
        self.table.as_slice()
    }

    /// Convenience for `self.advance(1)`.
    pub fn next(&mut self) -> (r: &str)
        requires
            old(self).wf(),
        ensures
            final(self)@ == spec_advance(old(self).table_spec(), old(self)@, 1),
            r@ == final(self)@,
            final(self).table_spec() == old(self).table_spec(),
    {
        self.advance(1)
    }

    /// Convenience for `self.advance(-1)`.
    pub fn prev(&mut self) -> (r: &str)
        requires
            old(self).wf(),
        ensures
            final(self)@ == spec_advance(old(self).table_spec(), old(self)@, -1),
            r@ == final(self)@,
            final(self).table_spec() == old(self).table_spec(),
    {
        self.advance(-1)
    }

    /// When `i` is positive, moves to the `i`th possible combination after
    /// the current one; when negative, to the `i`th combination before it,
    /// saturating at the empty identifier. Modifies the underlying `String`
    /// and returns it as a `&str`.
    pub fn advance(&mut self, i: isize) -> (r: &str)
        requires
            old(self).wf(),
        ensures
            final(self)@ == spec_advance(old(self).table_spec(), old(self)@, i as int),
            r@ == final(self)@,
            final(self).table_spec() == old(self).table_spec(),
    {
        advance(self.table.as_slice(), &mut self.ident, i);
        self.ident.as_str()
    }

    /// Resets the identifier to empty.
    pub fn clear(&mut self)
        ensures
            final(self)@ == Seq::<char>::empty(),
            final(self).table_spec() == old(self).table_spec(),
    {
        self.ident.clear()
    }
}

impl Default for IdentGenOwned {
    /// Equivalent to [`IdentGenOwned::new`] with an empty vec: the default
    /// table and an empty identifier.
    fn default() -> (r: Self)
        ensures
            r@ == Seq::<char>::empty(),
            r.table_spec() == DEFAULT_TABLE@,
            r.wf(),
    {
        Self::new(Vec::new())
    }
}

} // verus!
