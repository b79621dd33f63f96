//! The values that a condition is written as and read from: integers, texts,
//! lists and tagged values, as a document format such as JSON or YAML holds
//! them.

use vstd::prelude::*;
use vstd::string::StrSliceExecFns;

verus! {

/// A value of the wire form. A tagged value stands for a map with one
/// entry, the tag being its key.
#[derive(Debug, PartialEq, Eq)]
pub enum Wire {
    Int(i64),
    Text(String),
    List(Vec<Wire>),
    Tagged(String, Box<Wire>),
}

/// What a value of the wire form holds.
pub enum WireForm {
    Int(int),
    Text(Seq<char>),
    List(Seq<WireForm>),
    Tagged(Seq<char>, Box<WireForm>),
}

impl View for Wire {
    type V = WireForm;

    open spec fn view(&self) -> WireForm {
        self.form()
    }
}

impl Wire {
    /// What the value holds.
    pub open spec fn form(&self) -> WireForm
        decreases self,
    {
        match self {
            Wire::Int(n) => WireForm::Int(*n as int),
            Wire::Text(text) => WireForm::Text(text@),
            Wire::List(items) => WireForm::List(Self::forms(items@)),
            Wire::Tagged(tag, payload) => WireForm::Tagged(tag@, Box::new(payload.form())),
        }
    }

    /// What the values of a list hold, in order.
    pub open spec fn forms(items: Seq<Wire>) -> Seq<WireForm>
        decreases items,
    {
        Seq::new(
            items.len(),
            |i: int| if 0 <= i < items.len() { items[i].form() } else { WireForm::Int(0) },
        )
    }

    /// What a list holds grows with the list.
    proof fn lemma_forms_push(items: Seq<Wire>, last: Wire)
        ensures
            Self::forms(items.push(last)) == Self::forms(items).push(last@),
    {
        assert(Self::forms(items.push(last)) =~= Self::forms(items).push(last@));
    }
}

impl Wire {
    fn clone_list(items: &Vec<Wire>) -> (copies: Vec<Wire>)
        ensures
            Self::forms(copies@) == Self::forms(items@),
        decreases items,
    {
        let mut copies: Vec<Wire> = Vec::new();
        let mut at: usize = 0;
        while at < items.len()
            invariant
                at <= items.len(),
                copies.len() == at,
                Self::forms(copies@) == Self::forms(items@.take(at as int)),
            decreases items.len() - at,
        {
            let copy = items[at].clone();
            proof {
                Self::lemma_forms_push(copies@, copy);
                Self::lemma_forms_push(items@.take(at as int), items[at as int]);
                assert(items@.take(at as int).push(items[at as int]) =~= items@.take(at + 1));
            }
            copies.push(copy);
            at += 1;
        }
        assert(items@.take(at as int) =~= items@);
        copies
    }
}

impl Clone for Wire {
    /// A value that holds the same.
    fn clone(&self) -> (copy: Wire)
        ensures
            copy@ == self@,
        decreases self,
    {
        match self {
            Wire::Int(n) => Wire::Int(*n),
            Wire::Text(text) => Wire::Text(text.clone()),
            Wire::List(items) => Wire::List(Self::clone_list(items)),
            Wire::Tagged(tag, payload) => Wire::Tagged(tag.clone(), Box::new((&**payload).clone())),
        }
    }
}

/// Why a wire value is not read as a condition.
#[derive(Debug, PartialEq, Eq, Clone, Copy)]
pub enum DecodeError {
    /// A tag is known, and what it holds has not the form that it asks for;
    /// or a word or tag is asked for, and the value is none that is known.
    MalformedTag,
    /// An `in_range` tag holds a list that has not two members.
    WrongArity,
    /// No tag is known, and the value is none of the leaf type.
    LeafMismatch,
    /// The value is nested deeper than the ceiling allows.
    TooDeep,
}

/// The lower-case form of an upper-case ASCII letter; any other character
/// as it is.
pub open spec fn folded(c: char) -> char {
    if 'A' <= c <= 'Z' {
        ((c as u32) + 32) as char
    } else {
        c
    }
}

/// Whether `text` is `word` when the case of ASCII letters is left aside.
/// The words that this library compares with are in lower case.
pub open spec fn is_word(text: Seq<char>, word: Seq<char>) -> bool {
    text.map_values(|c: char| folded(c)) == word
}

/// A word in lower case is itself.
pub proof fn lemma_lower_is_word(word: Seq<char>)
    requires
        forall|i: int| 0 <= i < word.len() ==> !('A' <= #[trigger] word[i] <= 'Z'),
    ensures
        is_word(word, word),
{
    assert(word.map_values(|c: char| folded(c)) =~= word);
}

/// The lower-case form of a character.
pub fn fold(c: char) -> (lower: char)
    ensures
        lower == folded(c),
{
    match c {
        'A' => 'a',
        'B' => 'b',
        'C' => 'c',
        'D' => 'd',
        'E' => 'e',
        'F' => 'f',
        'G' => 'g',
        'H' => 'h',
        'I' => 'i',
        'J' => 'j',
        'K' => 'k',
        'L' => 'l',
        'M' => 'm',
        'N' => 'n',
        'O' => 'o',
        'P' => 'p',
        'Q' => 'q',
        'R' => 'r',
        'S' => 's',
        'T' => 't',
        'U' => 'u',
        'V' => 'v',
        'W' => 'w',
        'X' => 'x',
        'Y' => 'y',
        'Z' => 'z',
        _ => c,
    }
}

/// Whether `text` is `word` when the case of ASCII letters is left aside.
pub fn reads_as(text: &str, word: &str) -> (same: bool)
    ensures
        same == is_word(text@, word@),
{
    let n = text.unicode_len();
    if n != word.unicode_len() {
        return false;
    }
    let mut at: usize = 0;
    while at < n
        invariant
            at <= n,
            n == text@.len(),
            n == word@.len(),
            forall|i: int| 0 <= i < at ==> folded(#[trigger] text@[i]) == word@[i],
        decreases n - at,
    {
        if fold(text.get_char(at)) != word.get_char(at) {
            assert(text@.map_values(|c: char| folded(c))[at as int] != word@[at as int]);
            return false;
        }
        at += 1;
    }
    assert(text@.map_values(|c: char| folded(c)) =~= word@);
    true
}

} // verus!
