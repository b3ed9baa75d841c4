use cursed_collections::{Symbol, SymbolTable, LARGE_SYMBOL_THRESHOLD, PAGE_CAPACITY};
use std::collections::HashSet;
use std::iter;

#[test]
fn two_symbols_are_different() {
    let mut table = SymbolTable::new();
    assert_ne!(table.intern("laura"), table.intern("maddy"));
}

#[test]
fn empty_symbol_is_different_from_other_symbols() {
    {
        let mut table = SymbolTable::new();
        assert_ne!(table.intern(""), table.intern("laura"));
    }
    {
        let mut table = SymbolTable::new();
        assert_ne!(table.intern("laura"), table.intern(""));
    }
}

#[test]
fn interning_a_single_null_byte_works() {
    let mut table = SymbolTable::new();
    assert_eq!(table.intern("\0"), table.intern("\0"));
}

#[test]
fn interning_a_large_string() {
    let text = iter::repeat('a')
        .take(2 * LARGE_SYMBOL_THRESHOLD + 7)
        .collect::<String>();
    let mut table = SymbolTable::new();
    assert_eq!(table.intern(&text), table.intern(text.as_str()));
}

#[test]
fn interning_can_refer_to_previous_segment() {
    let mut table = SymbolTable::new();
    let symbol = table.intern("laura");
    for c in 'a'..'z' {
        table.intern(&iter::repeat(c).take(234).collect::<String>());
    }
    assert_eq!(symbol, table.intern("laura"));
}

#[test]
fn interning_twice_returns_same_symbol() {
    let texts = ["", "a", "\0", "laura", "maddy", "laura", "", "ünïcödé"];
    let mut table = SymbolTable::new();
    let symbols: Vec<Symbol> = texts.iter().map(|t| table.intern(t)).collect();
    for (text, symbol) in texts.iter().zip(symbols.iter()) {
        assert_eq!(*symbol, table.intern(text));
        assert_eq!(table.text(*symbol), *text);
    }
}

#[test]
fn distinct_texts_get_distinct_symbols() {
    let mut table = SymbolTable::new();
    let a = table.intern("ab");
    let b = table.intern("a");
    let c = table.intern("b");
    assert_ne!(a, b);
    assert_ne!(a, c);
    assert_ne!(b, c);
}

#[test]
fn gensym_is_never_equal_to_intern() {
    let mut table = SymbolTable::new();
    let interned = table.intern("my symbol");
    let fresh = table.gensym("my symbol");
    assert_ne!(interned, fresh);
    assert_ne!(fresh, table.intern("my symbol"));
    assert_eq!(interned, table.intern("my symbol"));
}

#[test]
fn gensym_twice_gives_two_symbols() {
    let mut table = SymbolTable::new();
    let a = table.gensym("x");
    let b = table.gensym("x");
    assert_ne!(a, b);
    let e1 = table.gensym("");
    let e2 = table.gensym("");
    assert_ne!(e1, e2);
    assert_eq!(table.text(a), "x");
    assert_eq!(table.text(e2), "");
}

#[test]
fn gensym_before_intern_stays_apart() {
    let mut table = SymbolTable::new();
    let fresh = table.gensym("same");
    let interned = table.intern("same");
    assert_ne!(fresh, interned);
    assert_eq!(table.text(fresh), table.text(interned));
}

#[test]
fn large_string_round_trips() {
    let mut text = String::from("\0");
    text.push_str(&"xy\0z".repeat(LARGE_SYMBOL_THRESHOLD / 2 + 2));
    assert_eq!(text.len(), 2 * LARGE_SYMBOL_THRESHOLD + 9);
    let mut table = SymbolTable::new();
    let symbol = table.intern(&text);
    assert_eq!(table.text(symbol), text.as_str());
    let fresh = table.gensym(&text);
    assert_eq!(table.text(fresh), text.as_str());
    assert_ne!(symbol, fresh);
}

#[test]
fn large_string_of_exact_size_round_trips() {
    let text = iter::repeat('a')
        .take(2 * LARGE_SYMBOL_THRESHOLD + 7)
        .collect::<String>();
    let mut table = SymbolTable::new();
    let symbol = table.intern(&text);
    assert_eq!(table.text(symbol).len(), 2 * LARGE_SYMBOL_THRESHOLD + 7);
    assert_eq!(table.text(symbol), text);
}

#[test]
fn empty_and_null_texts_round_trip() {
    let mut table = SymbolTable::new();
    let empty = table.intern("");
    let null = table.intern("\0");
    let mixed = table.intern("a\0b");
    assert_eq!(table.text(empty), "");
    assert_eq!(table.text(null), "\0");
    assert_eq!(table.text(mixed), "a\0b");
}

#[test]
fn threshold_boundary_texts_round_trip() {
    let mut table = SymbolTable::new();
    let below = "b".repeat(LARGE_SYMBOL_THRESHOLD - 1);
    let at = "c".repeat(LARGE_SYMBOL_THRESHOLD);
    let s_below = table.intern(&below);
    let s_at = table.intern(&at);
    assert_eq!(table.text(s_below), below);
    assert_eq!(table.text(s_at), at);
    assert_eq!(s_below, table.intern(&below));
    assert_eq!(s_at, table.intern(&at));
}

#[test]
fn texts_stay_readable_across_page_rotations() {
    let mut table = SymbolTable::new();
    let mut symbols = Vec::new();
    let mut expected = Vec::new();
    for i in 0..(3 * PAGE_CAPACITY / 100) {
        let text = format!("{:0>100}", i);
        symbols.push(table.intern(&text));
        expected.push(text);
    }
    for (symbol, text) in symbols.iter().zip(expected.iter()) {
        assert_eq!(table.text(*symbol), text.as_str());
        assert_eq!(*symbol, table.intern(text));
    }
    let unique: HashSet<Symbol> = symbols.iter().copied().collect();
    assert_eq!(unique.len(), symbols.len());
}

#[test]
fn a_text_filling_a_page_exactly_fits() {
    let mut table = SymbolTable::new();
    let mut symbols = Vec::new();
    for i in 0..8 {
        let text = format!("{}", i).repeat(LARGE_SYMBOL_THRESHOLD - 1);
        symbols.push((table.intern(&text), text));
    }
    let tail = "t".repeat(PAGE_CAPACITY - 8 * (LARGE_SYMBOL_THRESHOLD - 1));
    let t = table.intern(&tail);
    let next = table.intern("next");
    assert_eq!(table.text(t), tail);
    assert_eq!(table.text(next), "next");
    for (symbol, text) in symbols {
        assert_eq!(table.text(symbol), text);
    }
}

#[test]
fn symbol_new_names_a_number() {
    assert_eq!(Symbol::new(3), Symbol::new(3));
    assert_ne!(Symbol::new(3), Symbol::new(4));
    let mut table = SymbolTable::default();
    let first = table.intern("first");
    assert_eq!(first, Symbol::new(0));
    assert_eq!(table.text(Symbol::new(0)), "first");
}
