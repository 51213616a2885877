//! The constants of the BM25F ranking, as exact ratios `(numerator, denominator)`.
use vstd::prelude::*;
use vstd::string::*;

verus! {

/// The saturation constant k1, 1.5.
pub const K1: (u32, u32) = (3, 2);

/// The weight of field `f`: 2 for `name`, 1 for `content`, 1/2 for
/// `extension`, 1 for any other field.
pub open spec fn weight_of(f: Seq<char>) -> (u32, u32) {
    if f == "name"@ {
        (2, 1)
    } else if f == "content"@ {
        (1, 1)
    } else if f == "extension"@ {
        (1, 2)
    } else {
        (1, 1)
    }
}

/// Whether `a` and `b` hold the same characters.
pub fn same_text(a: &str, b: &str) -> (r: bool)
    ensures
        r == (a@ == b@),
{
    let n = a.unicode_len();
    if n != b.unicode_len() {
        return false;
    }
    let mut i: usize = 0;
    while i < n
        invariant
            n == a@.len(),
            n == b@.len(),
            i <= n,
            forall|j: int| 0 <= j < i ==> a@[j] == b@[j],
        decreases n - i,
    {
        if a.get_char(i) != b.get_char(i) {
            return false;
        }
        i = i + 1;
    }
    assert(a@ =~= b@);
    true
}

/// The weight of field `field` in a document's score.
pub fn weights_for_fields(field: &str) -> (r: (u32, u32))
    ensures
        r == weight_of(field@),
{
    if same_text(field, "name") {
        (2, 1)
    } else if same_text(field, "content") {
        (1, 1)
    } else if same_text(field, "extension") {
        (1, 2)
    } else {
        (1, 1)
    }
}

/// How strongly the length of field `field` normalises its term counts: 3/4 for
/// every field.
pub fn b_for_field(field: &str) -> (r: (u32, u32))
    ensures
        r == (3u32, 4u32),
{
    (3, 4)
}

} // verus!
