//! Strings as character sequences.

use vstd::prelude::*;
use vstd::hash_set::StringHashSet;

verus! {

/// The character sequences of a list of strings, in order.
pub open spec fn texts(s: Seq<String>) -> Seq<Seq<char>> {
    s.map_values(|t: String| t@)
}

/// The character sequences of a list of string slices, in order.
pub open spec fn slice_texts(s: Seq<&str>) -> Seq<Seq<char>> {
    s.map_values(|t: &str| t@)
}

/// Whether two string slices hold the same characters.
///
/// Trusted: this is `==` on `str`, which the standard library documents as
/// equality of the two slices' contents.
#[verifier::external_body]
pub(crate) fn same_text(a: &str, b: &str) -> (same: bool)
    ensures
        same == (a@ == b@),
{
    a == b
}

/// Whether `list` holds a string with the characters of `needle`.
pub fn holds_text(list: &Vec<String>, needle: &str) -> (held: bool)
    ensures
        held == texts(list@).contains(needle@),
{
    let mut i: usize = 0;
    while i < list.len()
        invariant
            i <= list.len(),
            forall|j: int| 0 <= j < i ==> texts(list@)[j] != needle@,
        decreases list.len() - i,
    {
        if same_text(list[i].as_str(), needle) {
            assert(texts(list@)[i as int] == needle@);
            return true;
        }
        i += 1;
    }
    false
}

/// The strings of a list as a set.
pub fn text_set(list: &Vec<String>) -> (set: StringHashSet)
    ensures
        forall|address: Seq<char>| set@.contains(address) <==> texts(list@).contains(address),
{
    let mut set = StringHashSet::new();
    let mut i: usize = 0;
    while i < list.len()
        invariant
            i <= list.len(),
            forall|address: Seq<char>|
                set@.contains(address) <==> texts(list@).take(i as int).contains(address),
        decreases list.len() - i,
    {
        let ghost before = texts(list@).take(i as int);
        set.insert(list[i].clone());
        i += 1;
        assert(texts(list@).take(i as int) =~= before.push(list@[i - 1]@));
        assert forall|address: Seq<char>| set@.contains(address) <==> texts(list@).take(
            i as int,
        ).contains(address) by {
            let after = texts(list@).take(i as int);
            if before.contains(address) {
                let j = choose|j: int| 0 <= j < before.len() && before[j] == address;
                assert(after[j] == address);
            }
            if address == list@[i - 1]@ {
                assert(after[i - 1] == address);
            }
            if after.contains(address) {
                let j = choose|j: int| 0 <= j < after.len() && after[j] == address;
                if j < i - 1 {
                    assert(before[j] == address);
                }
            }
        }
    }
    assert(texts(list@).take(i as int) =~= texts(list@));
    set
}

/// The first occurrence is at `i` when `needle` stands there and nowhere
/// before.
pub proof fn lemma_first_at(s: Seq<Seq<char>>, needle: Seq<char>, i: int)
    requires
        0 <= i < s.len(),
        s[i] == needle,
        forall|j: int| 0 <= j < i ==> s[j] != needle,
    ensures
        s.index_of_first(needle) == Some(i),
{
    s.index_of_first_ensures(needle);
}

/// There is no first occurrence when `needle` stands nowhere.
pub proof fn lemma_first_none(s: Seq<Seq<char>>, needle: Seq<char>)
    requires
        forall|j: int| 0 <= j < s.len() ==> s[j] != needle,
    ensures
        s.index_of_first(needle) is None,
{
    s.index_of_first_ensures(needle);
}

/// What a first occurrence is: the needle stands there and nowhere before;
/// and there is none exactly when the needle stands nowhere.
pub proof fn lemma_first(s: Seq<Seq<char>>, needle: Seq<char>)
    ensures
        match s.index_of_first(needle) {
            Some(i) => {
                &&& 0 <= i < s.len()
                &&& s[i] == needle
                &&& forall|j: int| 0 <= j < i ==> s[j] != needle
            },
            None => forall|j: int| 0 <= j < s.len() ==> s[j] != needle,
        },
        s.index_of_first(needle) is Some <==> s.contains(needle),
{
    s.index_of_first_ensures(needle);
}

/// The first occurrence after a push: where it was, or at the new last
/// place when the needle was pushed and stood nowhere before.
pub proof fn lemma_first_push(s: Seq<Seq<char>>, pushed: Seq<char>, needle: Seq<char>)
    ensures
        s.push(pushed).index_of_first(needle) == if s.contains(needle) {
            s.index_of_first(needle)
        } else if pushed == needle {
            Some(s.len() as int)
        } else {
            None
        },
{
    lemma_first(s, needle);
    let t = s.push(pushed);
    match s.index_of_first(needle) {
        Some(i) => {
            assert(t[i] == needle);
            assert forall|j: int| 0 <= j < i implies t[j] != needle by {
                assert(t[j] == s[j]);
            }
            lemma_first_at(t, needle, i);
        },
        None => {
            assert forall|j: int| 0 <= j < s.len() implies t[j] != needle by {
                assert(t[j] == s[j]);
            }
            if pushed == needle {
                lemma_first_at(t, needle, s.len() as int);
            } else {
                lemma_first_none(t, needle);
            }
        },
    }
}

/// A concatenation holds a value exactly when one of its two parts does.
pub proof fn lemma_concat_contains<A>(x: Seq<A>, y: Seq<A>, needle: A)
    ensures
        (x + y).contains(needle) <==> x.contains(needle) || y.contains(needle),
{
    if x.contains(needle) {
        let i = choose|i: int| 0 <= i < x.len() && x[i] == needle;
        assert((x + y)[i] == needle);
    }
    if y.contains(needle) {
        let i = choose|i: int| 0 <= i < y.len() && y[i] == needle;
        assert((x + y)[x.len() + i] == needle);
    }
    if (x + y).contains(needle) {
        let i = choose|i: int| 0 <= i < (x + y).len() && (x + y)[i] == needle;
        if i < x.len() {
            assert(x[i] == needle);
        } else {
            assert(y[i - x.len()] == needle);
        }
    }
}

} // verus!
