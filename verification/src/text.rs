//! Texts and lists of texts.

use vstd::prelude::*;

verus! {

/// What a list of strings says.
pub open spec fn texts(list: Seq<String>) -> Seq<Seq<char>> {
    list.map_values(|text: String| text@)
}

/// The characters of a text, in order.
pub fn chars_of(text: &str) -> (chars: Vec<char>)
    ensures
        chars@ == text@,
{
    let mut chars: Vec<char> = Vec::new();
    for c in it: text.chars()
        invariant
            chars@ == it.seq().take(it.index()),
            it.seq() == text@,
    {
        chars.push(c);
    }
    chars
}

/// Whether two texts are the same.
pub fn same_text(one: &str, two: &str) -> (same: bool)
    ensures
        same == (one@ == two@),
{
    let one: String = one.to_owned();
    let two: String = two.to_owned();
    one == two
}

/// One text behind the other.
pub fn joined(one: &str, two: &str) -> (text: String)
    ensures
        text@ == one@ + two@,
{
    let mut text = one.to_owned();
    text.append(two);
    text
}

/// Whether a list of strings holds a text.
pub fn holds_text(list: &Vec<String>, text: &str) -> (held: bool)
    ensures
        held == texts(list@).contains(text@),
{
    let mut i: usize = 0;
    while i < list.len()
        invariant
            i <= list@.len(),
            forall|j: int| 0 <= j < i ==> (#[trigger] list@[j])@ != text@,
        decreases list@.len() - i,
    {
        if same_text(list[i].as_str(), text) {
            assert(texts(list@)[i as int] == text@);
            return true;
        }
        i += 1;
    }
    assert forall|j: int| 0 <= j < texts(list@).len() implies texts(list@)[j] != text@ by {
        assert(list@[j]@ != text@);
    }
    false
}

/// What a list says after one more string.
pub broadcast proof fn lemma_texts_push(list: Seq<String>, text: String)
    ensures
        #[trigger] texts(list.push(text)) == texts(list).push(text@),
{
    assert(texts(list.push(text)) =~= texts(list).push(text@));
}

/// Whether two lists say the same, item by item.
pub fn same_texts(one: &Vec<String>, two: &Vec<String>) -> (same: bool)
    ensures
        same == (texts(one@) == texts(two@)),
{
    if one.len() != two.len() {
        assert(texts(one@).len() != texts(two@).len());
        return false;
    }
    let mut i: usize = 0;
    while i < one.len()
        invariant
            i <= one@.len(),
            one@.len() == two@.len(),
            forall|j: int| 0 <= j < i ==> (#[trigger] one@[j])@ == two@[j]@,
        decreases one@.len() - i,
    {
        if one[i] != two[i] {
            assert(texts(one@)[i as int] != texts(two@)[i as int]);
            return false;
        }
        i += 1;
    }
    assert(texts(one@) =~= texts(two@));
    true
}

/// A second list that says the same.
pub fn copy_texts(list: &Vec<String>) -> (copy: Vec<String>)
    ensures
        texts(copy@) == texts(list@),
{
    let mut copy: Vec<String> = Vec::new();
    let mut i: usize = 0;
    while i < list.len()
        invariant
            i <= list@.len(),
            copy@.len() == i,
            forall|j: int| 0 <= j < i ==> (#[trigger] copy@[j])@ == list@[j]@,
        decreases list@.len() - i,
    {
        copy.push(list[i].clone());
        i += 1;
    }
    assert(texts(copy@) =~= texts(list@));
    copy
}

/// Two lists say the same exactly where they are equally long and have the same
/// text at every place.
pub proof fn lists_say_every_text(one: Seq<String>, two: Seq<String>)
    ensures
        texts(one) == texts(two) <==> one.len() == two.len() && forall|i: int|
            0 <= i < one.len() ==> (#[trigger] one[i])@ == two[i]@,
{
    assert(texts(one).len() == one.len() && texts(two).len() == two.len());
    if texts(one) == texts(two) {
        assert forall|i: int| 0 <= i < one.len() implies (#[trigger] one[i])@ == two[i]@ by {
            assert(texts(one)[i] == one[i]@);
            assert(texts(two)[i] == two[i]@);
        }
    }
    if one.len() == two.len() && forall|i: int|
        0 <= i < one.len() ==> (#[trigger] one[i])@ == two[i]@ {
        assert(texts(one) =~= texts(two));
    }
}

} // verus!
