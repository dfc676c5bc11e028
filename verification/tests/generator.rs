use ident_gen::{advance, IdentGen, IdentGenOwned, DEFAULT_TABLE, UPPER_SNAKE};

#[test]
fn a() {
    let mut ident_gen = IdentGen::new(&['a', 'b', 'c']);

    assert_eq!(ident_gen.next(), "a");
    assert_eq!(ident_gen.next(), "b");
    assert_eq!(ident_gen.next(), "c");
    assert_eq!(ident_gen.next(), "ca");
    assert_eq!(ident_gen.advance(-2), "b");
}

#[test]
fn b() {
    let mut ident_gen = IdentGenOwned::from_str_table("abc");

    assert_eq!(ident_gen.next(), "a");
    assert_eq!(ident_gen.next(), "b");
    assert_eq!(ident_gen.next(), "c");
    assert_eq!(ident_gen.next(), "ca");
    assert_eq!(ident_gen.advance(-2), "b");
}

#[test]
fn default_table_walks_in_order() {
    let mut gen = IdentGen::new(&[]);
    for &c in DEFAULT_TABLE.iter() {
        assert_eq!(gen.next(), c.to_string());
    }
    assert_eq!(gen.next(), "_a");
}

#[test]
fn owned_default_table_walks_in_order() {
    let mut gen = IdentGenOwned::new(Vec::new());
    for &c in DEFAULT_TABLE.iter() {
        assert_eq!(gen.next(), c.to_string());
    }
    assert_eq!(gen.next(), "_a");
}

#[test]
fn upper_table_starts_upper() {
    let mut gen = IdentGen::new(UPPER_SNAKE.as_slice());
    assert_eq!(gen.next(), "A");
    assert_eq!(gen.next(), "B");
    assert_eq!(gen.table(), UPPER_SNAKE.as_slice());
}

#[test]
fn advance_then_regress_returns_to_empty() {
    let mut gen = IdentGen::new(&['a', 'b', 'c']);
    assert_eq!(gen.advance(10), "ccca");
    assert_eq!(gen.advance(-10), "");

    let mut gen = IdentGen::new(&[]);
    assert_eq!(gen.advance(53), "__a");
    assert_eq!(gen.advance(-53), "");
}

#[test]
fn forward_advances_compose() {
    let mut one_hop = IdentGen::new(&['a', 'b', 'c']);
    let mut two_hops = IdentGen::new(&['a', 'b', 'c']);
    two_hops.advance(4);
    two_hops.advance(5);
    assert_eq!(one_hop.advance(9), two_hops.ident.as_str());

    let mut one_hop = IdentGenOwned::from_str_table("xyz");
    let mut two_hops = IdentGenOwned::from_str_table("xyz");
    two_hops.advance(7);
    two_hops.advance(2);
    assert_eq!(one_hop.advance(9), two_hops.ident.as_str());
}

#[test]
fn regress_from_empty_saturates() {
    let mut gen = IdentGen::new(&['a', 'b', 'c']);
    assert_eq!(gen.prev(), "");
    assert_eq!(gen.advance(-7), "");

    let mut gen = IdentGenOwned::from_str_table("abc");
    assert_eq!(gen.prev(), "");
    assert_eq!(gen.advance(-1000), "");
}

#[test]
fn zero_offset_is_a_no_op() {
    let mut gen = IdentGen::new(&['a', 'b', 'c']);
    gen.advance(2);
    assert_eq!(gen.advance(0), "b");
}

#[test]
fn table_replacement_keeps_ident_text() {
    let mut gen = IdentGen::new(&['a', 'b', 'c']);
    gen.advance(3);
    assert_eq!(gen.ident, "c");

    assert!(gen.set_table(&['x', 'y', 'z']));
    // The stored text is untouched by the replacement...
    assert_eq!(gen.ident, "c");
    assert_eq!(gen.table(), &['x', 'y', 'z']);
    // ...and the next advance reads the trailing symbol against the new
    // table, falling back to position 0 since 'c' is absent from it.
    assert_eq!(gen.next(), "y");
}

#[test]
fn empty_table_replacement_is_rejected() {
    let mut gen = IdentGen::new(&['a', 'b', 'c']);
    gen.next();
    assert!(!gen.set_table(&[]));
    assert_eq!(gen.table(), &['a', 'b', 'c']);
    assert_eq!(gen.next(), "b");
}

#[test]
fn clear_resets_to_empty() {
    let mut gen = IdentGen::new(&['a', 'b', 'c']);
    gen.advance(5);
    gen.clear();
    assert_eq!(gen.ident, "");
    assert_eq!(gen.next(), "a");

    let mut owned = IdentGenOwned::from_str_table("abc");
    owned.advance(5);
    owned.clear();
    assert_eq!(owned.ident, "");
    assert_eq!(owned.next(), "a");
}

#[test]
fn multibyte_symbols_are_replaced_whole() {
    let mut gen = IdentGenOwned::from_str_table("é£✓");
    assert_eq!(gen.next(), "é");
    assert_eq!(gen.next(), "£");
    assert_eq!(gen.next(), "✓");
    assert_eq!(gen.next(), "✓é");
    assert_eq!(gen.prev(), "✓");
    assert_eq!(gen.ident.len(), '✓'.len_utf8());
}

#[test]
fn free_advance_matches_the_methods() {
    let table = ['a', 'b', 'c'];
    let mut ident = String::new();
    advance(&table, &mut ident, 4);
    assert_eq!(ident, "ca");
    advance(&table, &mut ident, -2);
    assert_eq!(ident, "b");
    advance(&table, &mut ident, 0);
    assert_eq!(ident, "b");
}

#[test]
fn owned_table_getter_reports_the_table() {
    let gen = IdentGenOwned::from_str_table("abc");
    assert_eq!(gen.table(), &['a', 'b', 'c']);

    let gen = IdentGenOwned::new(vec!['q', 'r']);
    assert_eq!(gen.table(), &['q', 'r']);
}

#[test]
fn ident_field_is_the_text_buffer() {
    let mut gen = IdentGen::new(&['a', 'b', 'c']);
    gen.advance(4);
    assert_eq!(gen.ident, "ca");
    gen.ident = String::from("bb");
    assert_eq!(gen.next(), "bc");
}

#[test]
fn default_uses_the_default_table() {
    let mut gen = IdentGen::default();
    assert_eq!(gen.advance(1), "a");
    assert_eq!(gen.advance(2), "c");
    assert_eq!(gen.advance(-1), "b");

    let mut owned = IdentGenOwned::default();
    assert_eq!(owned.advance(1), "a");
    assert_eq!(owned.advance(2), "c");
    assert_eq!(owned.advance(-1), "b");
}
