//! String comparison and name-keyed association lists.
//!
//! Names (of SSA values, blocks and functions) are held as `String` and
//! compared by their character sequences; bindings from names to values are
//! kept in association lists whose mathematical content is a `Map` from
//! character sequences to values, with later entries shadowing earlier ones.

use vstd::prelude::*;

verus! {

broadcast use vstd::seq::group_seq_axioms;

/// Byte-slice equality, decided element by element.
pub fn bytes_eq(a: &[u8], b: &[u8]) -> (r: bool)
    ensures
        r == (a@ == b@),
{
    if a.len() != b.len() {
        return false;
    }
    let n = a.len();
    let mut i: usize = 0;
    while i < n
        invariant
            n == a@.len() == b@.len(),
            0 <= i <= n,
            forall|j: int| 0 <= j < i ==> a@[j] == b@[j],
        decreases n - i,
    {
        if a[i] != b[i] {
            return false;
        }
        i = i + 1;
    }
    proof {
        assert(a@ =~= b@);
    }
    true
}

/// String-slice equality over the character sequences the two views hold.
pub fn str_eq(a: &str, b: &str) -> (r: bool)
    ensures
        r == (a@ == b@),
{
    let r = bytes_eq(a.as_bytes(), b.as_bytes());
    proof {
        if r {
            vstd::utf8::encode_utf8_decode_utf8(a@);
            vstd::utf8::encode_utf8_decode_utf8(b@);
        }
    }
    r
}

/// The map that an association list denotes: later entries shadow earlier
/// ones with the same name.
pub open spec fn assoc_view<V>(entries: Seq<(String, V)>) -> Map<Seq<char>, V>
    decreases entries.len(),
{
    if entries.len() == 0 {
        Map::empty()
    } else {
        assoc_view(entries.drop_last()).insert(entries.last().0@, entries.last().1)
    }
}

/// Entries from position `i` on that never mention `name` leave the denoted
/// map unchanged at `name`.
proof fn lemma_assoc_view_frame<V>(entries: Seq<(String, V)>, i: int, name: Seq<char>)
    requires
        0 <= i <= entries.len(),
        forall|j: int| i <= j < entries.len() ==> #[trigger] entries[j].0@ != name,
    ensures
        assoc_view(entries).dom().contains(name) == assoc_view(entries.subrange(0, i))
            .dom()
            .contains(name),
        assoc_view(entries).dom().contains(name) ==> assoc_view(entries)[name] == assoc_view(
            entries.subrange(0, i),
        )[name],
    decreases entries.len() - i,
{
    if i == entries.len() {
        assert(entries.subrange(0, i) =~= entries);
    } else {
        lemma_assoc_view_frame(entries, i + 1, name);
        let p = entries.subrange(0, i + 1);
        assert(p.drop_last() =~= entries.subrange(0, i));
        assert(p.last() == entries[i]);
    }
}

/// Looks a name up in an association list; the latest binding wins.
pub fn assoc_get<'a, V>(entries: &'a Vec<(String, V)>, name: &str) -> (r: Option<&'a V>)
    ensures
        match r {
            Some(v) => assoc_view(entries@).dom().contains(name@) && *v == assoc_view(
                entries@,
            )[name@],
            None => !assoc_view(entries@).dom().contains(name@),
        },
{
    let mut i: usize = entries.len();
    while i > 0
        invariant
            0 <= i <= entries@.len(),
            forall|j: int| i <= j < entries@.len() ==> #[trigger] entries@[j].0@ != name@,
        decreases i,
    {
        i = i - 1;
        if str_eq(entries[i].0.as_str(), name) {
            proof {
                let p = entries@.subrange(0, i + 1);
                assert(p.drop_last() =~= entries@.subrange(0, i as int));
                assert(p.last() == entries@[i as int]);
                lemma_assoc_view_frame(entries@, i + 1, name@);
            }
            return Some(&entries[i].1);
        }
    }
    proof {
        lemma_assoc_view_frame(entries@, 0, name@);
        assert(entries@.subrange(0, 0) =~= Seq::<(String, V)>::empty());
    }
    None
}

/// Pushing a binding updates the denoted map at exactly that name.
pub proof fn lemma_assoc_view_push<V>(entries: Seq<(String, V)>, name: String, v: V)
    ensures
        assoc_view(entries.push((name, v))) == assoc_view(entries).insert(name@, v),
{
    let pushed = entries.push((name, v));
    assert(pushed.drop_last() =~= entries);
    assert(pushed.last() == (name, v));
}

} // verus!
