use crate::model::error::{AddError, AddErrorView};
use crate::text::{
    all_digits, chars_of, decimal, digits_value, is_digit, is_space, is_whitespace,
    lemma_digits_value_grows, push_decimal, push_range,
};
use vstd::prelude::*;

verus! {

/// The name of a technology: a plain label, or a label that ends in a rank.
#[derive(Clone, Debug, PartialEq, Hash)]
pub enum TechnologyName {
    Simple(String),
    Ranked { base: String, rank: u8, full: String },
}

/// The mathematical content of a [`TechnologyName`].
pub enum NameView {
    Simple(Seq<char>),
    Ranked { base: Seq<char>, rank: u8, full: Seq<char> },
}

impl NameView {
    /// The text under which the name is displayed.
    pub open spec fn full(self) -> Seq<char> {
        match self {
            NameView::Simple(name) => name,
            NameView::Ranked { full, .. } => full,
        }
    }
}

impl View for TechnologyName {
    type V = NameView;

    open spec fn view(&self) -> NameView {
        match self {
            TechnologyName::Simple(name) => NameView::Simple(name@),
            TechnologyName::Ranked { base, rank, full } => NameView::Ranked {
                base: base@,
                rank: *rank,
                full: full@,
            },
        }
    }
}

/// The index of the first character at or after `from` that is no whitespace;
/// the length of `s` if there is none.
pub open spec fn solid_start(s: Seq<char>, from: int) -> int
    decreases s.len() - from,
{
    if from >= s.len() || !is_space(s[from]) {
        from
    } else {
        solid_start(s, from + 1)
    }
}

/// The index behind the last character before `to` that is no whitespace;
/// zero if there is none.
pub open spec fn solid_end(s: Seq<char>, to: int) -> int
    decreases to,
{
    if to <= 0 || !is_space(s[to - 1]) {
        to
    } else {
        solid_end(s, to - 1)
    }
}

/// `s` without the whitespace at its start and at its end.
pub open spec fn trimmed(s: Seq<char>) -> Seq<char> {
    let from = solid_start(s, 0);
    let to = solid_end(s, s.len() as int);
    if from < to {
        s.subrange(from, to)
    } else {
        Seq::empty()
    }
}

/// Reads `s` from left to right: the words that whitespace has closed, and
/// the characters of the word that is still running.
pub open spec fn scan(s: Seq<char>) -> (Seq<Seq<char>>, Seq<char>)
    decreases s.len(),
{
    if s.len() == 0 {
        (Seq::empty(), Seq::empty())
    } else {
        let before = scan(s.drop_last());
        if !is_space(s.last()) {
            (before.0, before.1.push(s.last()))
        } else if before.1.len() > 0 {
            (before.0.push(before.1), Seq::empty())
        } else {
            before
        }
    }
}

/// The maximal runs of characters of `s` that hold no whitespace, in order.
pub open spec fn words(s: Seq<char>) -> Seq<Seq<char>> {
    let state = scan(s);
    if state.1.len() > 0 {
        state.0.push(state.1)
    } else {
        state.0
    }
}

/// The words joined by one blank each.
pub open spec fn joined(words: Seq<Seq<char>>) -> Seq<char>
    decreases words.len(),
{
    if words.len() == 0 {
        Seq::empty()
    } else if words.len() == 1 {
        words[0]
    } else {
        joined(words.drop_last()).push(' ') + words.last()
    }
}

/// The rank that a run of characters denotes: at least one ASCII digit, the
/// number not above 255.
pub open spec fn digits_rank(digits: Seq<char>) -> Option<u8> {
    if digits.len() > 0 && all_digits(digits) && digits_value(digits) <= 255 {
        Some(digits_value(digits) as u8)
    } else {
        None
    }
}

/// The rank that a word denotes: an optional `+`, then the digits of a rank.
pub open spec fn rank_of(word: Seq<char>) -> Option<u8> {
    if word.len() > 0 && word[0] == '+' {
        digits_rank(word.drop_first())
    } else {
        digits_rank(word)
    }
}

/// What a raw text stands for as a name. Text that is blank after trimming is
/// no name. Where the last of several words is a rank, the name is ranked:
/// its base is the words before, joined by single blanks. Any other text
/// names itself, trimmed.
pub open spec fn name_of(raw: Seq<char>) -> Result<NameView, AddErrorView> {
    let parts = words(raw);
    if trimmed(raw).len() == 0 {
        Err(AddErrorView::InvalidName(raw))
    } else if parts.len() > 1 && rank_of(parts.last()) is Some {
        let base = joined(parts.drop_last());
        let rank = rank_of(parts.last())->Some_0;
        Ok(NameView::Ranked { base, rank, full: base.push(' ') + decimal(rank as nat) })
    } else {
        Ok(NameView::Simple(trimmed(raw)))
    }
}

/// The views of the words of a list.
pub open spec fn word_views(list: Seq<Vec<char>>) -> Seq<Seq<char>> {
    Seq::new(list.len(), |i: int| list[i]@)
}

fn split_words(chars: &Vec<char>) -> (list: Vec<Vec<char>>)
    ensures
        word_views(list@) == words(chars@),
{
    let mut done: Vec<Vec<char>> = Vec::new();
    let mut current: Vec<char> = Vec::new();
    let mut i: usize = 0;
    while i < chars.len()
        invariant
            i <= chars.len(),
            (word_views(done@), current@) == scan(chars@.take(i as int)),
        decreases chars.len() - i,
    {
        let c = chars[i];
        proof {
            let next = chars@.take(i + 1);
            assert(next.drop_last() == chars@.take(i as int));
        }
        if !is_whitespace(c) {
            current.push(c);
        } else if current.len() > 0 {
            done.push(current);
            current = Vec::new();
        }
        i = i + 1;
    }
    assert(chars@.take(i as int) == chars@);
    if current.len() > 0 {
        done.push(current);
    }
    done
}

fn parse_rank(word: &Vec<char>) -> (rank: Option<u8>)
    ensures
        rank == rank_of(word@),
{
    let start: usize = if word.len() > 0 && word[0] == '+' {
        1
    } else {
        0
    };
    let ghost digits = word@.subrange(start as int, word.len() as int);
    assert(start == 0 ==> digits == word@);
    if start == word.len() {
        return None;
    }
    let mut value: u32 = 0;
    let mut i: usize = start;
    while i < word.len()
        invariant
            start <= i <= word.len(),
            digits == word@.subrange(start as int, word.len() as int),
            rank_of(word@) == digits_rank(digits),
            all_digits(digits.take(i - start)),
            value == digits_value(digits.take(i - start)),
            value <= 255,
        decreases word.len() - i,
    {
        let n: u32 = word[i] as u32;
        let ghost k = i - start;
        proof {
            assert(digits[k] == word@[i as int]);
            assert(digits.take(k + 1).drop_last() == digits.take(k));
        }
        if n < 0x30 || n > 0x39 {
            return None;
        }
        let next: u32 = value * 10 + (n - 0x30);
        if next > 255 {
            proof {
                lemma_digits_value_grows(digits, k + 1);
            }
            return None;
        }
        value = next;
        i = i + 1;
    }
    assert(digits.take(i - start) == digits);
    Some(value as u8)
}

fn join_words(list: &Vec<Vec<char>>, count: usize) -> (text: String)
    requires
        count <= list.len(),
    ensures
        text@ == joined(word_views(list@).take(count as int)),
{
    let mut text = String::new();
    let mut i: usize = 0;
    while i < count
        invariant
            i <= count <= list.len(),
            text@ == joined(word_views(list@).take(i as int)),
        decreases count - i,
    {
        if i > 0 {
            text.push(' ');
        }
        push_range(&mut text, &list[i], 0, list[i].len());
        proof {
            let next = word_views(list@).take(i + 1);
            assert(next.drop_last() == word_views(list@).take(i as int));
        }
        i = i + 1;
    }
    text
}

impl TechnologyName {
    /// Reads a name from raw text.
    pub fn new(base: &str) -> (result: Result<Self, AddError>)
        ensures
            match result {
                Ok(name) => name_of(base@) == Ok::<NameView, AddErrorView>(name@),
                Err(error) => name_of(base@) == Err::<NameView, AddErrorView>(error@),
            },
            result matches Ok(name) ==> name@.full().len() > 0,
    {
        let chars = chars_of(base);
        let mut from: usize = 0;
        while from < chars.len() && is_whitespace(chars[from])
            invariant
                from <= chars.len(),
                solid_start(chars@, 0) == solid_start(chars@, from as int),
            decreases chars.len() - from,
        {
            from = from + 1;
        }
        let mut to: usize = chars.len();
        while to > 0 && is_whitespace(chars[to - 1])
            invariant
                to <= chars.len(),
                solid_end(chars@, chars.len() as int) == solid_end(chars@, to as int),
            decreases to,
        {
            to = to - 1;
        }
        if from >= to {
            return Err(AddError::InvalidName(base.to_owned()));
        }
        let parts = split_words(&chars);
        if parts.len() > 1 {
            let last = parts.len() - 1;
            if let Some(rank) = parse_rank(&parts[last]) {
                let base = join_words(&parts, last);
                let mut full = base.clone();
                full.push(' ');
                push_decimal(&mut full, rank as usize);
                return Ok(TechnologyName::Ranked { base, rank, full });
            }
        }
        let mut name = String::new();
        push_range(&mut name, &chars, from, to);
        Ok(TechnologyName::Simple(name))
    }

    /// The text under which the name is displayed.
    pub fn get_full(&self) -> (full: &str)
        ensures
            full@ == self@.full(),
    {
        match self {
            TechnologyName::Simple(name) => name.as_str(),
            TechnologyName::Ranked { full, .. } => full.as_str(),
        }
    }
}

} // verus!
