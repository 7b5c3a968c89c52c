//! An error together with its causes.

use vstd::prelude::*;

verus! {

/// An error message and the messages of what caused it, the immediate cause
/// first.
#[derive(Clone, Debug, PartialEq, Eq)]
pub struct ErrorChain {
    pub message: String,
    pub causes: Vec<String>,
}

/// What a list of strings holds.
pub open spec fn strings(list: Seq<String>) -> Seq<Seq<char>> {
    list.map_values(|text: String| text@)
}

impl View for ErrorChain {
    type V = Seq<Seq<char>>;

    /// The messages, from the outermost to the root cause.
    open spec fn view(&self) -> Seq<Seq<char>> {
        seq![self.message@] + strings(self.causes@)
    }
}

/// The messages of a chain of errors on one line, separated by `: `.
pub open spec fn report_of(messages: Seq<Seq<char>>) -> Seq<char>
    decreases messages.len(),
{
    if messages.len() == 0 {
        Seq::empty()
    } else if messages.len() == 1 {
        messages[0]
    } else {
        report_of(messages.drop_last()) + ": "@ + messages.last()
    }
}

impl ErrorChain {
    /// An error without a cause.
    pub fn new(message: &str) -> (chain: Self)
        ensures
            chain@ == seq![message@],
    {
        let chain = ErrorChain { message: message.to_owned(), causes: Vec::new() };
        assert(chain@ == seq![message@]);
        chain
    }

    /// The error whose messages are `messages`, the outermost first.
    pub fn from_messages(messages: Vec<String>) -> (chain: Self)
        requires
            messages.len() > 0,
        ensures
            chain@ == strings(messages@),
    {
        let mut causes = messages;
        let message = causes.remove(0);
        let chain = ErrorChain { message, causes };
        assert(chain@ == strings(messages@));
        chain
    }

    /// The error with this one as its cause.
    pub fn context(self, message: &str) -> (chain: Self)
        ensures
            chain@ == seq![message@] + self@,
    {
        let mut causes = self.causes;
        causes.insert(0, self.message);
        let chain = ErrorChain { message: message.to_owned(), causes };
        assert(strings(chain.causes@) == self@);
        chain
    }

    /// The outermost message.
    pub fn summary(&self) -> (text: String)
        ensures
            text@ == self@[0],
    {
        self.message.clone()
    }

    /// All messages on one line, the outermost first.
    pub fn report(&self) -> (text: String)
        ensures
            text@ == report_of(self@),
    {
        let mut text = self.message.clone();
        let mut i: usize = 0;
        assert(self@.take(1) == seq![self.message@]);
        while i < self.causes.len()
            invariant
                i <= self.causes.len(),
                text@ == report_of(self@.take(i + 1)),
            decreases self.causes.len() - i,
        {
            assert(self@.take(i + 2).drop_last() == self@.take(i + 1));
            assert(self@.take(i + 2).last() == self.causes@[i as int]@);
            text.append(": ");
            text.append(self.causes[i].as_str());
            i = i + 1;
        }
        assert(self@.take(i + 1) == self@);
        text
    }
}

/// The report of an error without a cause is its message. That of an error with causes
/// says the outer messages, then the inner ones, and leaves none out.
pub proof fn report_says_all_messages(outer: Seq<Seq<char>>, inner: Seq<Seq<char>>)
    requires
        outer.len() > 0,
        inner.len() > 0,
    ensures
        outer.len() == 1 ==> report_of(outer) == outer[0],
        report_of(outer + inner) == report_of(outer) + ": "@ + report_of(inner),
    decreases inner.len(),
{
    let whole = outer + inner;
    assert(whole.last() == inner.last());
    if inner.len() == 1 {
        assert(whole.drop_last() =~= outer);
    } else {
        report_says_all_messages(outer, inner.drop_last());
        assert(whole.drop_last() =~= outer + inner.drop_last());
        assert(report_of(whole) =~= report_of(outer) + ": "@ + report_of(inner));
    }
}

} // verus!
