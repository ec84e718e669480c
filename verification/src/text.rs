//! The few string operations of `std` that the generator needs and `vstd`
//! does not describe.

use vstd::prelude::*;
use vstd::std_specs::iter::IteratorSpec;

verus! {

/// The views of a list of strings.
pub open spec fn views(strings: Seq<String>) -> Seq<Seq<char>> {
    strings.map_values(|s: String| s@)
}

/// `text` without any occurrence of `unwanted`.
pub open spec fn without(text: Seq<char>, unwanted: char) -> Seq<char> {
    text.filter(|c: char| c != unwanted)
}

/// Taking a character out of two texts in a row is taking it out of each.
pub proof fn lemma_without_joined(first: Seq<char>, second: Seq<char>, unwanted: char)
    ensures
        without(first + second, unwanted) == without(first, unwanted) + without(second, unwanted),
{
    broadcast use Seq::filter_distributes_over_add;

}

/// One more character at the end is kept unless it is the unwanted one.
pub proof fn lemma_without_push(text: Seq<char>, c: char, unwanted: char)
    ensures
        without(text.push(c), unwanted) == if c == unwanted {
            without(text, unwanted)
        } else {
            without(text, unwanted).push(c)
        },
{
    broadcast use Seq::lemma_filter_push;

}

/// A text of one character loses it or keeps it.
pub proof fn lemma_without_single(c: char, unwanted: char)
    ensures
        without(seq![c], unwanted) == if c == unwanted {
            Seq::<char>::empty()
        } else {
            seq![c]
        },
{
    reveal(Seq::filter);
    assert(Seq::<char>::empty().push(c) =~= seq![c]);
    assert(without(Seq::<char>::empty(), unwanted) =~= Seq::<char>::empty());
    lemma_without_push(Seq::empty(), c, unwanted);
}

/// `text` without any occurrence of `unwanted`.
pub fn remove_char(text: &str, unwanted: char) -> (r: String)
    ensures
        r@ == without(text@, unwanted),
{
    let mut rest = String::new();
    assert(without(text@.take(0), unwanted) =~= Seq::<char>::empty()) by {
        reveal(Seq::filter);
    }
    for c in it: text.chars()
        invariant
            it.seq() == text@,
            rest@ == without(text@.take(it.index() as int), unwanted),
    {
        proof {
            let before = text@.take(it.index() as int);
            assert(text@.take(it.index() + 1) =~= before.push(c));
            lemma_without_push(before, c, unwanted);
        }
        if c != unwanted {
            rest.push(c);
        }
    }
    assert(text@.take(text@.len() as int) =~= text@);
    rest
}

/// Whether `c` has the Unicode property `White_Space`: the controls from
/// tab to carriage return, the space, next line, the no-break spaces, the
/// Ogham space mark, the spaces of fixed width, the line and paragraph
/// separators, the medium mathematical space and the ideographic space.
pub open spec fn white_space(c: char) -> bool {
    let code = c as int;
    ||| 0x09 <= code <= 0x0D
    ||| code == 0x20
    ||| code == 0x85
    ||| code == 0xA0
    ||| code == 0x1680
    ||| 0x2000 <= code <= 0x200A
    ||| code == 0x2028
    ||| code == 0x2029
    ||| code == 0x202F
    ||| code == 0x205F
    ||| code == 0x3000
}

/// `rest` is `text` without the white space at its two ends.
pub open spec fn is_trim_of(rest: Seq<char>, text: Seq<char>) -> bool {
    exists|start: int, end: int|
        #![trigger text.subrange(start, end)]
        {
            &&& 0 <= start <= end <= text.len()
            &&& rest == text.subrange(start, end)
            &&& forall|i: int| 0 <= i < start ==> white_space(#[trigger] text[i])
            &&& forall|i: int| end <= i < text.len() ==> white_space(#[trigger] text[i])
            &&& start < end ==> !white_space(text[start]) && !white_space(text[end - 1])
        }
}

/// A text of white space only, the empty text among them.
pub open spec fn blank(text: Seq<char>) -> bool {
    forall|i: int| 0 <= i < text.len() ==> white_space(#[trigger] text[i])
}

/// `part` stands somewhere in `text`, character for character.
pub open spec fn occurs_in(part: Seq<char>, text: Seq<char>) -> bool {
    exists|i: int|
        0 <= i <= text.len() - part.len() && #[trigger] text.subrange(i, i + part.len()) == part
}

/// `str::trim` returns the slice that is left when leading and trailing
/// white space, in the sense of the Unicode property `White_Space`, is
/// taken off.
pub assume_specification[ str::trim ](text: &str) -> (rest: &str)
    ensures
        is_trim_of(rest@, text@),
;

/// `str::contains` with a string slice as the pattern tells whether the
/// pattern matches a sub-slice of the text.
#[verifier::external_body]
pub(crate) fn contains_text(text: &str, part: &str) -> (found: bool)
    ensures
        found == occurs_in(part@, text@),
{
    text.contains(part)
}

/// Whether `text` holds nothing but white space.
pub fn is_blank(text: &str) -> (b: bool)
    ensures
        b == blank(text@),
{
    let rest = text.trim();
    proof {
        let (start, end) = choose|start: int, end: int|
            #![trigger text@.subrange(start, end)]
            {
                &&& 0 <= start <= end <= text@.len()
                &&& rest@ == text@.subrange(start, end)
                &&& forall|i: int| 0 <= i < start ==> white_space(#[trigger] text@[i])
                &&& forall|i: int| end <= i < text@.len() ==> white_space(#[trigger] text@[i])
                &&& start < end ==> !white_space(text@[start]) && !white_space(text@[end - 1])
            };
        if start < end {
            assert(!white_space(text@[start]));
        }
    }
    rest.is_empty()
}

/// `String::push` appends one character.
pub assume_specification[ String::push ](s: &mut String, c: char)
    ensures
        final(s)@ == old(s)@.push(c),
;

} // verus!
