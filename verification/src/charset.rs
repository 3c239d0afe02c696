//! The set of characters a text needs glyphs for.

use vstd::prelude::*;

verus! {

/// Whether `c` occurs among `chars`.
fn contains_char(chars: &Vec<char>, c: char) -> (found: bool)
    ensures
        found == chars@.contains(c),
{
    let mut i: usize = 0;
    while i < chars.len()
        invariant
            0 <= i <= chars@.len(),
            forall|j: int| 0 <= j < i ==> chars@[j] != c,
        decreases chars@.len() - i,
    {
        if chars[i] == c {
            return true;
        }
        i = i + 1;
    }
    false
}

/// The distinct characters of a text, each once.
pub fn distinct_chars(text: &Vec<char>) -> (chars: Vec<char>)
    ensures
        chars@.no_duplicates(),
        chars@.to_set() == text@.to_set(),
        forall|c: char| chars@.contains(c) <==> text@.contains(c),
{
    let mut chars: Vec<char> = Vec::new();
    let mut i: usize = 0;
    while i < text.len()
        invariant
            0 <= i <= text@.len(),
            chars@.no_duplicates(),
            forall|c: char| chars@.contains(c) <==> text@.take(i as int).contains(c),
        decreases text@.len() - i,
    {
        let c = text[i];
        let ghost before = chars@;
        if !contains_char(&chars, c) {
            chars.push(c);
            assert forall|c2: char| chars@.contains(c2) <==> (before.contains(c2) || c2 == c) by {
                if c2 == c {
                    assert(chars@[chars@.len() - 1] == c);
                }
                if before.contains(c2) {
                    let j = choose|j: int| 0 <= j < before.len() && before[j] == c2;
                    assert(chars@[j] == c2);
                }
            }
        }
        assert(forall|c2: char| chars@.contains(c2) <==> (before.contains(c2) || c2 == c));
        let ghost prefix = text@.take(i as int);
        let ghost next = text@.take(i + 1);
        assert(next =~= prefix.push(c));
        assert forall|c2: char| #[trigger] chars@.contains(c2) <==> next.contains(c2) by {
            assert(before.contains(c2) <==> prefix.contains(c2));
            if prefix.contains(c2) {
                let j = choose|j: int| 0 <= j < prefix.len() && prefix[j] == c2;
                assert(next[j] == c2);
            }
            if c2 == c {
                assert(next[prefix.len() as int] == c);
            }
            if next.contains(c2) {
                let j = choose|j: int| 0 <= j < next.len() && next[j] == c2;
                if j < prefix.len() {
                    assert(prefix[j] == c2);
                }
            }
        }
        i = i + 1;
    }
    assert(text@.take(text@.len() as int) =~= text@);
    assert(chars@.to_set() =~= text@.to_set()) by {
        assert forall|c: char| chars@.to_set().contains(c) <==> text@.to_set().contains(c) by {}
    }
    chars
}

} // verus!
