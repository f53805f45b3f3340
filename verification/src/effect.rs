//! What a session does to the outside world, as values.
//!
//! Commands and the interpreter write nothing themselves. They append
//! [`Effect`]s to a list, in the order in which they are to happen, and the
//! caller carries them out.

use vstd::prelude::*;
use vstd::string::*;

verus! {

/// One thing to do on the terminal.
#[derive(Debug, PartialEq, Eq)]
pub enum Effect {
    /// Write the text to the output, exactly as it stands.
    Print(String),
    /// Push everything written so far out to the terminal.
    Flush,
    /// Read one line of input and drop it. At the end of the input there is
    /// nothing to read, and nothing happens.
    SkipLine,
}

/// An [`Effect`] as contracts speak of it: the same, with the text as a
/// sequence of characters.
pub enum EffectView {
    Print(Seq<char>),
    Flush,
    SkipLine,
}

impl View for Effect {
    type V = EffectView;

    open spec fn view(&self) -> EffectView {
        match *self {
            Effect::Print(text) => EffectView::Print(text@),
            Effect::Flush => EffectView::Flush,
            Effect::SkipLine => EffectView::SkipLine,
        }
    }
}

/// The views of a list of effects, in order.
pub open spec fn views(effects: Seq<Effect>) -> Seq<EffectView> {
    effects.map_values(|e: Effect| e@)
}

/// All the text that `effects` write, in order.
pub open spec fn printed(effects: Seq<EffectView>) -> Seq<char>
    decreases effects.len(),
{
    if effects.len() == 0 {
        Seq::empty()
    } else {
        printed(effects.drop_last()) + match effects.last() {
            EffectView::Print(text) => text,
            _ => Seq::empty(),
        }
    }
}

/// How many lines of input `effects` read and drop.
pub open spec fn skipped(effects: Seq<EffectView>) -> nat
    decreases effects.len(),
{
    if effects.len() == 0 {
        0
    } else {
        skipped(effects.drop_last()) + if effects.last() is SkipLine {
            1nat
        } else {
            0nat
        }
    }
}

/// Appends `effect` to the list.
pub fn emit(out: &mut Vec<Effect>, effect: Effect)
    ensures
        views(final(out)@) == views(old(out)@).push(effect@),
{
    out.push(effect);
}

/// Appends the effect of writing `text`.
pub fn print(out: &mut Vec<Effect>, text: String)
    ensures
        views(final(out)@) == views(old(out)@).push(EffectView::Print(text@)),
{
    emit(out, Effect::Print(text));
}

/// The text that a list of effects writes, in one string.
pub fn transcript(effects: &Vec<Effect>) -> (text: String)
    ensures
        text@ == printed(views(effects@)),
{
    let mut text = String::new();
    let mut i: usize = 0;
    while i < effects.len()
        invariant
            i <= effects@.len(),
            text@ == printed(views(effects@.take(i as int))),
        decreases effects@.len() - i,
    {
        assert(views(effects@.take(i + 1)).drop_last() =~= views(effects@.take(i as int)));
        match &effects[i] {
            Effect::Print(piece) => {
                text.append(piece.as_str());
            },
            _ => {},
        }
        i = i + 1;
    }
    assert(effects@.take(i as int) =~= effects@);
    text
}

/// Counts the lines of input that the effects from index `from` on read
/// and drop. Where the list is shorter than that, there are none.
pub fn count_skipped(effects: &Vec<Effect>, from: usize) -> (n: usize)
    ensures
        from <= effects@.len() ==> n == skipped(views(effects@.skip(from as int))),
        from > effects@.len() ==> n == 0,
{
    if from > effects.len() {
        return 0;
    }
    let mut n: usize = 0;
    let mut i: usize = from;
    while i < effects.len()
        invariant
            from <= i <= effects@.len(),
            n <= i - from,
            n == skipped(views(effects@.subrange(from as int, i as int))),
        decreases effects@.len() - i,
    {
        assert(views(effects@.subrange(from as int, i + 1)).drop_last() =~= views(
            effects@.subrange(from as int, i as int),
        ));
        match &effects[i] {
            Effect::SkipLine => {
                n = n + 1;
            },
            _ => {},
        }
        i = i + 1;
    }
    n
}

} // verus!
