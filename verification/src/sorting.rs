//! Stable sorting by keys made of numbers and texts, as the lists of the
//! application are sorted: each list builds one key per row and gets back
//! the order of its rows.

use vstd::prelude::*;
use crate::text::{codes, codes_lt, lemma_codes_lt_irreflexive, lemma_codes_lt_total, lemma_codes_lt_transitive};

verus! {

/// One part of a sort key.
#[derive(Clone, Debug)]
pub enum KeyPart {
    /// A number, smaller first.
    Num(i128),
    /// A text as code points, in code point order.
    Text(Vec<u32>),
    /// A text as code points, in reverse code point order.
    TextDesc(Vec<u32>),
}

pub open spec fn sign(x: int) -> int {
    if x < 0 {
        -1
    } else if x > 0 {
        1
    } else {
        0
    }
}

/// Code point order of two texts: -1, 0 or 1.
pub open spec fn text_rel(x: Seq<u32>, y: Seq<u32>) -> int {
    if codes_lt(x, y) {
        -1
    } else if codes_lt(y, x) {
        1
    } else {
        0
    }
}

pub open spec fn part_rank(p: KeyPart) -> int {
    match p {
        KeyPart::Num(_) => 0,
        KeyPart::Text(_) => 1,
        KeyPart::TextDesc(_) => 2,
    }
}

pub open spec fn part_rel(a: KeyPart, b: KeyPart) -> int {
    match (a, b) {
        (KeyPart::Num(x), KeyPart::Num(y)) => sign(x - y),
        (KeyPart::Text(x), KeyPart::Text(y)) => text_rel(x@, y@),
        (KeyPart::TextDesc(x), KeyPart::TextDesc(y)) => text_rel(y@, x@),
        _ => sign(part_rank(a) - part_rank(b)),
    }
}

/// Lexicographic order of keys: -1, 0 or 1.
pub open spec fn key_rel(a: Seq<KeyPart>, b: Seq<KeyPart>) -> int
    decreases a.len(),
{
    if a.len() == 0 && b.len() == 0 {
        0
    } else if a.len() == 0 {
        -1
    } else if b.len() == 0 {
        1
    } else if part_rel(a[0], b[0]) != 0 {
        part_rel(a[0], b[0])
    } else {
        key_rel(a.drop_first(), b.drop_first())
    }
}

pub proof fn lemma_text_rel(x: Seq<u32>, y: Seq<u32>, z: Seq<u32>)
    ensures
        text_rel(x, y) == -text_rel(y, x),
        -1 <= text_rel(x, y) <= 1,
        text_rel(x, y) == 0 ==> x == y,
        text_rel(x, y) <= 0 && text_rel(y, z) <= 0 ==> text_rel(x, z) <= 0,
        text_rel(x, y) < 0 && text_rel(y, z) <= 0 ==> text_rel(x, z) < 0,
        text_rel(x, y) <= 0 && text_rel(y, z) < 0 ==> text_rel(x, z) < 0,
{
    lemma_codes_lt_total(x, y);
    lemma_codes_lt_total(y, z);
    lemma_codes_lt_total(x, z);
    lemma_codes_lt_irreflexive(x);
    if codes_lt(x, y) && codes_lt(y, z) {
        lemma_codes_lt_transitive(x, y, z);
    }
    if codes_lt(z, x) && codes_lt(x, y) {
        lemma_codes_lt_transitive(z, x, y);
    }
    if codes_lt(y, z) && codes_lt(z, x) {
        lemma_codes_lt_transitive(y, z, x);
    }
}

proof fn lemma_part_rel(a: KeyPart, b: KeyPart, c: KeyPart)
    ensures
        part_rel(a, b) == -part_rel(b, a),
        -1 <= part_rel(a, b) <= 1,
        part_rel(a, b) == 0 ==> part_rel(a, c) == part_rel(b, c),
        part_rel(a, b) <= 0 && part_rel(b, c) <= 0 ==> part_rel(a, c) <= 0,
        part_rel(a, b) < 0 && part_rel(b, c) <= 0 ==> part_rel(a, c) < 0,
        part_rel(a, b) <= 0 && part_rel(b, c) < 0 ==> part_rel(a, c) < 0,
{
    match (a, b, c) {
        (KeyPart::Text(x), KeyPart::Text(y), KeyPart::Text(z)) => {
            lemma_text_rel(x@, y@, z@);
        },
        (KeyPart::TextDesc(x), KeyPart::TextDesc(y), KeyPart::TextDesc(z)) => {
            lemma_text_rel(z@, y@, x@);
            lemma_text_rel(y@, x@, z@);
        },
        (KeyPart::Text(x), KeyPart::Text(y), _) => {
            lemma_text_rel(x@, y@, x@);
        },
        (KeyPart::TextDesc(x), KeyPart::TextDesc(y), _) => {
            lemma_text_rel(x@, y@, x@);
        },
        _ => {},
    }
}

/// `key_rel` is a total preorder.
pub proof fn lemma_key_rel(a: Seq<KeyPart>, b: Seq<KeyPart>, c: Seq<KeyPart>)
    ensures
        key_rel(a, b) == -key_rel(b, a),
        -1 <= key_rel(a, b) <= 1,
        key_rel(a, b) == 0 ==> key_rel(a, c) == key_rel(b, c),
        key_rel(a, b) <= 0 && key_rel(b, c) <= 0 ==> key_rel(a, c) <= 0,
        key_rel(a, b) < 0 && key_rel(b, c) <= 0 ==> key_rel(a, c) < 0,
        key_rel(a, b) <= 0 && key_rel(b, c) < 0 ==> key_rel(a, c) < 0,
    decreases a.len() + b.len() + c.len(),
{
    if a.len() > 0 && b.len() > 0 && c.len() > 0 {
        lemma_part_rel(a[0], b[0], c[0]);
        lemma_part_rel(b[0], c[0], a[0]);
        lemma_part_rel(a[0], c[0], b[0]);
        lemma_key_rel(a.drop_first(), b.drop_first(), c.drop_first());
    } else if a.len() > 0 && b.len() > 0 {
        lemma_part_rel(a[0], b[0], a[0]);
        lemma_key_rel(a.drop_first(), b.drop_first(), c);
    } else if a.len() > 0 && c.len() > 0 {
        lemma_part_rel(a[0], c[0], a[0]);
    } else if b.len() > 0 && c.len() > 0 {
        lemma_part_rel(b[0], c[0], b[0]);
    }
}

/// Row `i` comes before row `j`: a smaller key, or an equal key and an
/// earlier row.
pub open spec fn before(keys: Seq<Vec<KeyPart>>, i: int, j: int) -> bool {
    key_rel(keys[i]@, keys[j]@) < 0 || (key_rel(keys[i]@, keys[j]@) == 0 && i < j)
}

/// `order` lists each of the rows `0..n` exactly once.
pub open spec fn is_order_of(order: Seq<usize>, n: int) -> bool {
    &&& order.len() == n
    &&& order.no_duplicates()
    &&& forall|i: int| 0 <= i < order.len() ==> (#[trigger] order[i]) < n
}

/// `order` sorts the rows by key, equal keys in their input order.
pub open spec fn sorted_by_key(keys: Seq<Vec<KeyPart>>, order: Seq<usize>) -> bool {
    forall|p: int, q: int| 0 <= p < q < order.len() ==> before(keys, #[trigger] order[p] as int, #[trigger] order[q] as int)
}

fn part_compare(a: &KeyPart, b: &KeyPart) -> (r: i8)
    ensures
        r as int == part_rel(*a, *b),
{
    proof {
        lemma_part_rel(*a, *b, *a);
    }
    match (a, b) {
        (KeyPart::Num(x), KeyPart::Num(y)) => {
            if *x < *y {
                -1
            } else if *x > *y {
                1
            } else {
                0
            }
        },
        (KeyPart::Text(x), KeyPart::Text(y)) => text_compare(x, y),
        (KeyPart::TextDesc(x), KeyPart::TextDesc(y)) => text_compare(y, x),
        _ => {
            let ra: i8 = match a {
                KeyPart::Num(_) => 0,
                KeyPart::Text(_) => 1,
                KeyPart::TextDesc(_) => 2,
            };
            let rb: i8 = match b {
                KeyPart::Num(_) => 0,
                KeyPart::Text(_) => 1,
                KeyPart::TextDesc(_) => 2,
            };
            if ra < rb {
                -1
            } else if ra > rb {
                1
            } else {
                0
            }
        },
    }
}

fn codes_less(a: &Vec<u32>, b: &Vec<u32>) -> (r: bool)
    ensures
        r == codes_lt(a@, b@),
{
    let mut i: usize = 0;
    assert(a@.skip(0) =~= a@ && b@.skip(0) =~= b@);
    while i < a.len() && i < b.len() && a[i] == b[i]
        invariant
            i <= a.len(),
            i <= b.len(),
            codes_lt(a@, b@) == codes_lt(a@.skip(i as int), b@.skip(i as int)),
        decreases a.len() - i,
    {
        assert(a@.skip(i as int).drop_first() =~= a@.skip(i + 1));
        assert(b@.skip(i as int).drop_first() =~= b@.skip(i + 1));
        i = i + 1;
    }
    if i == a.len() {
        return i < b.len();
    }
    if i == b.len() {
        return false;
    }
    a[i] < b[i]
}

fn text_compare(x: &Vec<u32>, y: &Vec<u32>) -> (r: i8)
    ensures
        r as int == text_rel(x@, y@),
{
    if codes_less(x, y) {
        -1
    } else if codes_less(y, x) {
        1
    } else {
        0
    }
}

/// Compares two keys: -1, 0 or 1.
pub fn key_compare(a: &Vec<KeyPart>, b: &Vec<KeyPart>) -> (r: i8)
    ensures
        r as int == key_rel(a@, b@),
{
    let mut i: usize = 0;
    assert(a@.skip(0) =~= a@ && b@.skip(0) =~= b@);
    while i < a.len() && i < b.len()
        invariant
            i <= a.len(),
            i <= b.len(),
            key_rel(a@, b@) == key_rel(a@.skip(i as int), b@.skip(i as int)),
        decreases a.len() - i,
    {
        let c = part_compare(&a[i], &b[i]);
        assert(a@.skip(i as int)[0] == a@[i as int] && b@.skip(i as int)[0] == b@[i as int]);
        if c != 0 {
            return c;
        }
        assert(a@.skip(i as int).drop_first() =~= a@.skip(i + 1));
        assert(b@.skip(i as int).drop_first() =~= b@.skip(i + 1));
        i = i + 1;
    }
    if i == a.len() && i == b.len() {
        0
    } else if i == a.len() {
        -1
    } else {
        1
    }
}

/// The order that sorts rows by their keys, keeping rows with equal keys
/// in their input order (as a stable sort does).
pub fn sort_order(keys: &Vec<Vec<KeyPart>>) -> (r: Vec<usize>)
    ensures
        is_order_of(r@, keys.len() as int),
        sorted_by_key(keys@, r@),
{
    let mut order: Vec<usize> = Vec::new();
    let mut j: usize = 0;
    while j < keys.len()
        invariant
            j <= keys.len(),
            order.len() == j,
            order@.no_duplicates(),
            forall|i: int| 0 <= i < order.len() ==> (#[trigger] order@[i]) < j,
            sorted_by_key(keys@, order@),
        decreases keys.len() - j,
    {
        // find where row j goes: after every row whose key is not larger
        let mut pos: usize = order.len();
        while pos > 0 && key_compare(&keys[order[pos - 1]], &keys[j]) > 0
            invariant
                pos <= order.len(),
                j < keys.len(),
                forall|i: int| 0 <= i < order.len() ==> (#[trigger] order@[i]) < j,
                forall|q: int| pos <= q < order.len() ==> key_rel(keys@[order@[q] as int]@, keys@[j as int]@) > 0,
            decreases pos,
        {
            pos = pos - 1;
        }
        let ghost before_insert = order@;
        order.insert(pos, j);
        proof {
            assert(order@ =~= before_insert.subrange(0, pos as int).push(j) + before_insert.subrange(
                pos as int,
                before_insert.len() as int,
            ));
            assert forall|i: int| 0 <= i < order.len() implies (#[trigger] order@[i]) < j + 1 by {
                if i < pos {
                    assert(order@[i] == before_insert[i]);
                } else if i > pos {
                    assert(order@[i] == before_insert[i - 1]);
                }
            }
            assert forall|a: int, b: int| 0 <= a < order.len() && 0 <= b < order.len() && a != b implies order@[a]
                != order@[b] by {
                if a != pos && b != pos {
                    let a0 = if a < pos { a } else { a - 1 };
                    let b0 = if b < pos { b } else { b - 1 };
                    assert(order@[a] == before_insert[a0] && order@[b] == before_insert[b0]);
                } else if a == pos {
                    let b0 = if b < pos { b } else { b - 1 };
                    assert(order@[b] == before_insert[b0]);
                } else {
                    let a0 = if a < pos { a } else { a - 1 };
                    assert(order@[a] == before_insert[a0]);
                }
            }
            assert forall|p: int, q: int| 0 <= p < q < order.len() implies before(
                keys@,
                #[trigger] order@[p] as int,
                #[trigger] order@[q] as int,
            ) by {
                let kj = keys@[j as int]@;
                if q < pos {
                    assert(order@[p] == before_insert[p] && order@[q] == before_insert[q]);
                } else if q == pos {
                    // order[p] is a row kept before the new one
                    assert(order@[p] == before_insert[p]);
                    let kp = keys@[before_insert[p] as int]@;
                    if pos > 0 {
                        let kl = keys@[before_insert[pos - 1] as int]@;
                        assert(key_rel(kl, kj) <= 0);
                        if p < pos - 1 {
                            assert(before(keys@, before_insert[p] as int, before_insert[pos - 1] as int));
                            lemma_key_rel(kp, kl, kj);
                        }
                    }
                    lemma_key_rel(kp, kj, kp);
                } else if p == pos {
                    assert(order@[q] == before_insert[q - 1]);
                    let kq = keys@[before_insert[q - 1] as int]@;
                    assert(key_rel(kq, kj) > 0);
                    lemma_key_rel(kj, kq, kj);
                } else if p > pos {
                    assert(order@[p] == before_insert[p - 1] && order@[q] == before_insert[q - 1]);
                } else {
                    assert(order@[p] == before_insert[p] && order@[q] == before_insert[q - 1]);
                }
            }
        }
        j = j + 1;
    }
    order
}

/// The code points of a text.
pub fn codes_of(s: &str) -> (r: Vec<u32>)
    ensures
        r@ == codes(s@),
{
    let chars = crate::text::chars_of(s);
    let mut r: Vec<u32> = Vec::new();
    let mut i: usize = 0;
    while i < chars.len()
        invariant
            i <= chars.len(),
            r@ == codes(chars@.take(i as int)),
        decreases chars.len() - i,
    {
        r.push(chars[i] as u32);
        assert(codes(chars@.take(i + 1)) =~= codes(chars@.take(i as int)).push(chars@[i as int] as u32));
        i = i + 1;
    }
    assert(chars@.take(chars.len() as int) =~= chars@);
    r
}


/// A key of two parts compares part by part.
pub proof fn lemma_key_rel_two(a: Seq<KeyPart>, b: Seq<KeyPart>)
    requires
        a.len() == 2,
        b.len() == 2,
    ensures
        key_rel(a, b) == (if part_rel(a[0], b[0]) != 0 {
            part_rel(a[0], b[0])
        } else {
            part_rel(a[1], b[1])
        }),
{
    let a1 = a.drop_first();
    let b1 = b.drop_first();
    assert(a1[0] == a[1] && b1[0] == b[1]);
    assert(a1.drop_first().len() == 0 && b1.drop_first().len() == 0);
    assert(key_rel(a1.drop_first(), b1.drop_first()) == 0);
    assert(key_rel(a1, b1) == (if part_rel(a1[0], b1[0]) != 0 {
        part_rel(a1[0], b1[0])
    } else {
        0
    }));
}

/// A key of three parts compares part by part.
pub proof fn lemma_key_rel_three(a: Seq<KeyPart>, b: Seq<KeyPart>)
    requires
        a.len() == 3,
        b.len() == 3,
    ensures
        key_rel(a, b) == (if part_rel(a[0], b[0]) != 0 {
            part_rel(a[0], b[0])
        } else if part_rel(a[1], b[1]) != 0 {
            part_rel(a[1], b[1])
        } else {
            part_rel(a[2], b[2])
        }),
{
    let a1 = a.drop_first();
    let b1 = b.drop_first();
    assert(a1[0] == a[1] && b1[0] == b[1] && a1[1] == a[2] && b1[1] == b[2]);
    lemma_key_rel_two(a1, b1);
}

} // verus!
