use reacto::ast::N;
use reacto::chars::Chars;
use reacto::node_id::IdGen;
use reacto::span::{Span, S};
use std::collections::hash_map::DefaultHasher;
use std::hash::{Hash, Hasher};

fn hash_of<T: Hash>(t: &T) -> u64 {
    let mut h = DefaultHasher::new();
    t.hash(&mut h);
    h.finish()
}

#[test]
fn span_may_be_empty() {
    let a = Span::new(3, 3);
    assert_eq!(a.start(), 3);
    assert_eq!(a.end(), 3);
    assert_eq!(a.len(), 0);
}

#[test]
fn span_len_is_end_minus_start() {
    assert_eq!(Span::new(2, 9).len(), 7);
    assert_eq!(Span::new(0, usize::MAX).len(), usize::MAX);
}

#[test]
fn merge_is_commutative() {
    let a = Span::new(1, 3);
    let b = Span::new(2, 7);
    let c = Span::new(10, 12);
    assert_eq!(a.merge(b), b.merge(a));
    assert_eq!(a.merge(c), c.merge(a));
    assert_eq!(a.merge(c), Span::new(1, 12));
}

#[test]
fn merge_is_associative() {
    let a = Span::new(4, 6);
    let b = Span::new(0, 5);
    let c = Span::new(5, 9);
    assert_eq!(a.merge(b).merge(c), a.merge(b.merge(c)));
    assert_eq!(a.merge(b).merge(c), Span::new(0, 9));
}

#[test]
fn merge_is_idempotent() {
    let a = Span::new(4, 6);
    assert_eq!(a.merge(a), a);
    let e = Span::new(5, 5);
    assert_eq!(e.merge(e), e);
}

#[test]
fn merge_contains_both() {
    let a = Span::new(4, 6);
    let b = Span::new(1, 2);
    let m = a.merge(b);
    assert!(m.start() <= a.start() && a.end() <= m.end());
    assert!(m.start() <= b.start() && b.end() <= m.end());
    assert!(m.start() <= m.end());
    assert_eq!(m, Span::new(1, 6));
}

#[test]
fn merge_with_empty_span() {
    let a = Span::new(4, 6);
    let e = Span::new(9, 9);
    assert_eq!(a.merge(e), Span::new(4, 9));
    assert_eq!(e.merge(a), Span::new(4, 9));
}

#[test]
fn positioned_token_clone_keeps_span_and_token() {
    let s = S { span: Span::new(1, 4), tok: String::from("id") };
    let c = s.clone();
    assert_eq!(c.span, Span::new(1, 4));
    assert_eq!(c.tok, "id");
}

#[test]
fn chars_len_and_get() {
    let a = Chars::new("a+b");
    assert_eq!(a.len(), 3);
    assert_eq!(a.get(0), 'a');
    assert_eq!(a.get(1), '+');
    assert_eq!(a.get(2), 'b');
    let e = Chars::new("");
    assert_eq!(e.len(), 0);
}

#[test]
fn chars_are_code_points() {
    let a = Chars::new("h\u{e9}llo \u{1F600}!");
    assert_eq!(a.len(), 8);
    assert_eq!(a.get(1), '\u{e9}');
    assert_eq!(a.get(6), '\u{1F600}');
    assert_eq!(a.get_string(Span::new(1, 3)).unwrap(), "\u{e9}l");
    assert_eq!(a.get_string(Span::new(6, 8)).unwrap(), "\u{1F600}!");
}

#[test]
fn chars_deref_is_the_text() {
    let a = Chars::new("ab");
    let s: &[char] = &a;
    assert_eq!(s, &['a', 'b']);
}

#[test]
fn get_string_of_empty_span_is_empty() {
    let a = Chars::new("a+");
    assert_eq!(a.get_string(Span::new(0, 0)).unwrap(), "");
    assert_eq!(a.get_string(Span::new(1, 1)).unwrap(), "");
    assert_eq!(a.get_string(Span::new(2, 2)).unwrap(), "");
    assert_eq!(Chars::new("").get_string(Span::new(0, 0)).unwrap(), "");
}

#[test]
fn get_string_fails_only_past_the_end() {
    let a = Chars::new("abc");
    assert_eq!(a.get_string(Span::new(0, 3)).unwrap(), "abc");
    assert_eq!(a.get_string(Span::new(3, 3)).unwrap(), "");
    assert_eq!(a.get_string(Span::new(1, 2)).unwrap(), "b");
    assert_eq!(a.get_string(Span::new(3, 4)), None);
    assert_eq!(a.get_string(Span::new(4, 4)), None);
    assert_eq!(a.get_string(Span::new(0, 4)), None);
}

#[test]
fn chars_equality_is_by_content() {
    let a = Chars::new("123");
    assert_ne!(a, Chars::new("124"));
    assert_ne!(a, Chars::new("12"));
    assert_ne!(a, Chars::new("1234"));
    assert_ne!(a, "12");
    assert_ne!(a, "124".to_string());
    assert_eq!(Chars::new(""), "");
    let b = a.clone();
    assert_eq!(b.len(), 3);
    assert_eq!(b.get_string(Span::new(0, 3)).unwrap(), "123");
}

#[test]
fn ids_are_distinct_and_increase() {
    let mut gen = IdGen::new();
    let mut last = gen.next();
    assert_eq!(last.get(), 0);
    for expected in 1..100usize {
        let id = gen.next();
        assert_eq!(id.get(), expected);
        assert!(id.get() > last.get());
        assert_ne!(id, last);
        last = id;
    }
}

#[test]
fn node_equality_is_by_data() {
    let mut gen = IdGen::new();
    let a = N { span: Span::new(0, 1), id: gen.next(), data: 7u32 };
    let b = N { span: Span::new(5, 9), id: gen.next(), data: 7u32 };
    let c = N { span: Span::new(0, 1), id: a.id, data: 8u32 };
    assert!(a == b);
    assert!(a != c);
}

#[test]
fn node_hash_is_the_hash_of_its_data() {
    let mut gen = IdGen::new();
    let a = N { span: Span::new(0, 1), id: gen.next(), data: String::from("x") };
    let b = N { span: Span::new(5, 9), id: gen.next(), data: String::from("x") };
    let c = N { span: Span::new(0, 1), id: gen.next(), data: String::from("y") };
    assert_eq!(hash_of(&a), hash_of(&b));
    assert_eq!(hash_of(&a), hash_of(&String::from("x")));
    assert_ne!(hash_of(&a), hash_of(&c));
}

#[test]
fn node_derefs_to_its_data() {
    let mut gen = IdGen::new();
    let mut a = N { span: Span::new(0, 1), id: gen.next(), data: String::from("x") };
    assert_eq!(a.len(), 1);
    a.push('y');
    assert_eq!(a.data, "xy");
    assert_eq!(a.span, Span::new(0, 1));
    assert_eq!(a.id.get(), 0);
}

#[test]
fn node_clone_keeps_id_and_span() {
    let mut gen = IdGen::new();
    let a = N { span: Span::new(2, 3), id: gen.next(), data: vec![1u8, 2] };
    let b = a.clone();
    assert_eq!(b.id, a.id);
    assert_eq!(b.span, a.span);
    assert_eq!(b.data, vec![1u8, 2]);
}
