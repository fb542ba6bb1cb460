//! Three-way comparisons used throughout the crate: integers, optional
//! integers, and character sequences (lexicographic by code point, the same
//! order `str` has in Rust).

use vstd::prelude::*;

verus! {

/// Result of a three-way comparison.
#[derive(Clone, Copy, PartialEq, Eq, Structural, Debug)]
pub enum Cmp {
    Lt,
    Eq,
    Gt,
}

pub open spec fn flip(c: Cmp) -> Cmp {
    match c {
        Cmp::Lt => Cmp::Gt,
        Cmp::Eq => Cmp::Eq,
        Cmp::Gt => Cmp::Lt,
    }
}

/// Lexicographic composition: the first comparison decides unless it is a tie.
pub open spec fn lex2(a: Cmp, b: Cmp) -> Cmp {
    if a == Cmp::Eq {
        b
    } else {
        a
    }
}

pub open spec fn u32_cmp(a: u32, b: u32) -> Cmp {
    if a < b {
        Cmp::Lt
    } else if a > b {
        Cmp::Gt
    } else {
        Cmp::Eq
    }
}

pub open spec fn int_cmp(a: int, b: int) -> Cmp {
    if a < b {
        Cmp::Lt
    } else if a > b {
        Cmp::Gt
    } else {
        Cmp::Eq
    }
}

/// `Option<u32>` ordered as Rust orders it: `None` before every `Some`.
pub open spec fn opt_u32_cmp(a: Option<u32>, b: Option<u32>) -> Cmp {
    match (a, b) {
        (Option::None, Option::None) => Cmp::Eq,
        (Option::None, Option::Some(_)) => Cmp::Lt,
        (Option::Some(_), Option::None) => Cmp::Gt,
        (Option::Some(x), Option::Some(y)) => u32_cmp(x, y),
    }
}

pub fn u32_compare(a: u32, b: u32) -> (r: Cmp)
    ensures
        r == u32_cmp(a, b),
{
    if a < b {
        Cmp::Lt
    } else if a > b {
        Cmp::Gt
    } else {
        Cmp::Eq
    }
}

pub fn opt_u32_compare(a: &Option<u32>, b: &Option<u32>) -> (r: Cmp)
    ensures
        r == opt_u32_cmp(*a, *b),
{
    match (a, b) {
        (Option::None, Option::None) => Cmp::Eq,
        (Option::None, Option::Some(_)) => Cmp::Lt,
        (Option::Some(_), Option::None) => Cmp::Gt,
        (Option::Some(x), Option::Some(y)) => u32_compare(*x, *y),
    }
}

/// Two characters with the same code point are the same character.
pub proof fn lemma_char_eq(x: char, y: char)
    requires
        x as u32 == y as u32,
    ensures
        x == y,
{
    vstd::utf8::char_u32_cast(x, x as u32);
    vstd::utf8::char_u32_cast(y, y as u32);
}

/// Lexicographic comparison of the suffixes of `a` and `b` that start at `i`.
pub open spec fn str_cmp_at(a: Seq<char>, b: Seq<char>, i: int) -> Cmp
    decreases a.len() - i,
{
    if i >= a.len() && i >= b.len() {
        Cmp::Eq
    } else if i >= a.len() {
        Cmp::Lt
    } else if i >= b.len() {
        Cmp::Gt
    } else if (a[i] as u32) < (b[i] as u32) {
        Cmp::Lt
    } else if (a[i] as u32) > (b[i] as u32) {
        Cmp::Gt
    } else {
        str_cmp_at(a, b, i + 1)
    }
}

/// Lexicographic comparison of two character sequences by code point.
pub open spec fn str_cmp(a: Seq<char>, b: Seq<char>) -> Cmp {
    str_cmp_at(a, b, 0)
}

pub proof fn lemma_str_cmp_at_eq(a: Seq<char>, b: Seq<char>, i: int)
    requires
        0 <= i <= a.len(),
        i <= b.len(),
    ensures
        (str_cmp_at(a, b, i) == Cmp::Eq) <==> (a.len() == b.len() && forall|j: int|
            i <= j < a.len() ==> a[j] == b[j]),
    decreases a.len() - i,
{
    if i >= a.len() && i >= b.len() {
    } else if i >= a.len() {
    } else if i >= b.len() {
    } else if (a[i] as u32) < (b[i] as u32) {
        assert(a[i] != b[i]);
        assert(!(forall|j: int| i <= j < a.len() ==> a[j] == b[j])) by {
            if forall|j: int| i <= j < a.len() ==> a[j] == b[j] {
                assert(a[i] == b[i]);
            }
        }
    } else if (a[i] as u32) > (b[i] as u32) {
        assert(a[i] != b[i]);
        assert(!(forall|j: int| i <= j < a.len() ==> a[j] == b[j])) by {
            if forall|j: int| i <= j < a.len() ==> a[j] == b[j] {
                assert(a[i] == b[i]);
            }
        }
    } else {
        lemma_char_eq(a[i], b[i]);
        lemma_str_cmp_at_eq(a, b, i + 1);
    }
}

/// Ties are symmetric: comparing in the other direction flips the result.
pub proof fn lemma_str_cmp_at_flip(a: Seq<char>, b: Seq<char>, i: int)
    ensures
        str_cmp_at(b, a, i) == flip(str_cmp_at(a, b, i)),
    decreases a.len() + b.len() - i,
{
    if i < a.len() && i < b.len() && (a[i] as u32) == (b[i] as u32) {
        lemma_str_cmp_at_flip(a, b, i + 1);
    }
}

pub proof fn lemma_str_cmp_at_trans(a: Seq<char>, b: Seq<char>, c: Seq<char>, i: int)
    requires
        str_cmp_at(a, b, i) == Cmp::Lt,
        str_cmp_at(b, c, i) == Cmp::Lt,
    ensures
        str_cmp_at(a, c, i) == Cmp::Lt,
    decreases a.len() + b.len() + c.len() - i,
{
    if i < a.len() && i < b.len() && i < c.len() && (a[i] as u32) == (b[i] as u32) && (b[i] as u32)
        == (c[i] as u32) {
        lemma_str_cmp_at_trans(a, b, c, i + 1);
    }
}

pub proof fn lemma_str_cmp_eq(a: Seq<char>, b: Seq<char>)
    ensures
        (str_cmp(a, b) == Cmp::Eq) <==> (a == b),
{
    lemma_str_cmp_at_eq(a, b, 0);
    if str_cmp(a, b) == Cmp::Eq {
        assert(a =~= b);
    }
}

pub proof fn lemma_str_cmp_flip(a: Seq<char>, b: Seq<char>)
    ensures
        str_cmp(b, a) == flip(str_cmp(a, b)),
{
    lemma_str_cmp_at_flip(a, b, 0);
}

pub proof fn lemma_str_cmp_trans(a: Seq<char>, b: Seq<char>, c: Seq<char>)
    requires
        str_cmp(a, b) == Cmp::Lt,
        str_cmp(b, c) == Cmp::Lt,
    ensures
        str_cmp(a, c) == Cmp::Lt,
{
    lemma_str_cmp_at_trans(a, b, c, 0);
}

fn str_compare_at(a: &str, b: &str, i: usize, an: usize, bn: usize) -> (r: Cmp)
    requires
        an == a@.len(),
        bn == b@.len(),
        i <= an,
        i <= bn,
    ensures
        r == str_cmp_at(a@, b@, i as int),
    decreases an - i,
{
    if i >= an && i >= bn {
        Cmp::Eq
    } else if i >= an {
        Cmp::Lt
    } else if i >= bn {
        Cmp::Gt
    } else {
        let ca = a.get_char(i) as u32;
        let cb = b.get_char(i) as u32;
        if ca < cb {
            Cmp::Lt
        } else if ca > cb {
            Cmp::Gt
        } else {
            str_compare_at(a, b, i + 1, an, bn)
        }
    }
}

/// Compare two strings in the order Rust's `Ord` on `str` uses
/// (byte-lexicographic equals code-point-lexicographic for UTF-8).
pub fn str_compare(a: &str, b: &str) -> (r: Cmp)
    ensures
        r == str_cmp(a@, b@),
{
    let an = a.unicode_len();
    let bn = b.unicode_len();
    str_compare_at(a, b, 0, an, bn)
}

/// Copy the characters of a string into a vector for constant-time indexing.
pub fn chars_of(s: &str) -> (v: Vec<char>)
    ensures
        v@ == s@,
{
    let n = s.unicode_len();
    let mut v: Vec<char> = Vec::new();
    let mut i: usize = 0;
    while i < n
        invariant
            n == s@.len(),
            i <= n,
            v@.len() == i,
            forall|j: int| 0 <= j < i ==> v@[j] == s@[j],
        decreases n - i,
    {
        v.push(s.get_char(i));
        i += 1;
    }
    assert(v@ =~= s@);
    v
}

} // verus!
