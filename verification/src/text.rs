//! Comparison of texts.

use vstd::prelude::*;

verus! {

/// Whether the two texts are equal.
pub fn same_text(one: &str, two: &str) -> (r: bool)
    ensures
        r == (one@ == two@),
{
    let n: usize = one.unicode_len();
    if n != two.unicode_len() {
        return false;
    }
    let mut i: usize = 0;
    while i < n
        invariant
            i <= n == one@.len() == two@.len(),
            forall|j: int| 0 <= j < i ==> one@[j] == two@[j],
        decreases n - i,
    {
        if one.get_char(i) != two.get_char(i) {
            return false;
        }
        i = i + 1;
    }
    assert(one@ == two@);
    true
}

/// The texts of a list.
pub open spec fn texts(list: Seq<String>) -> Seq<Seq<char>> {
    Seq::new(list.len(), |i: int| list[i]@)
}

/// Whether `text` is in the list.
pub fn contains_text(list: &Vec<String>, text: &str) -> (r: bool)
    ensures
        r == texts(list@).contains(text@),
{
    let mut i: usize = 0;
    while i < list.len()
        invariant
            i <= list@.len(),
            forall|j: int| 0 <= j < i ==> list@[j]@ != text@,
        decreases list@.len() - i,
    {
        if same_text(list[i].as_str(), text) {
            assert(texts(list@)[i as int] == text@);
            return true;
        }
        i = i + 1;
    }
    false
}

} // verus!
