//! The diagnostic chain: a failure carried as an ordered list of context
//! frames, outermost first, with an optional captured trace, and a formatter
//! that renders the chain with consecutive duplicate messages collapsed.

use vstd::prelude::*;

use crate::text::{str_eq, strs_view};
use vstd::string::StringExecFns;

verus! {

/// A layered failure: context frames, outermost first, and an optional trace.
#[derive(Debug, PartialEq)]
pub struct Error {
    pub frames: Vec<String>,
    pub trace: Option<String>,
}

/// The trace's character sequence, if one was captured.
pub open spec fn opt_trace_view(o: Option<String>) -> Option<Seq<char>> {
    match o {
        Option::Some(s) => Option::Some(s@),
        Option::None => Option::None,
    }
}

/// The rendering of the frames after the first: each frame that differs from
/// the one before it is printed behind a cause marker.
pub open spec fn render_tail(frames: Seq<Seq<char>>, i: int, last: Seq<char>) -> Seq<char>
    decreases frames.len() - i,
{
    if i < 0 || i >= frames.len() {
        Seq::empty()
    } else {
        (if frames[i] == last {
            Seq::<char>::empty()
        } else {
            " [due to]:\n     ➥ "@ + frames[i]
        }) + render_tail(frames, i + 1, frames[i])
    }
}

/// The full rendering: the outermost message, the deduplicated causes, and
/// the trace last, if any.
pub open spec fn render_chain(frames: Seq<Seq<char>>, trace: Option<Seq<char>>) -> Seq<char> {
    let head = if frames.len() == 0 {
        Seq::<char>::empty()
    } else {
        frames[0] + render_tail(frames, 1, frames[0])
    };
    match trace {
        Option::Some(t) => head + "\n   =>: "@ + t + "\n"@,
        Option::None => head,
    }
}

/// A rendered diagnostic chain.
#[derive(Debug, PartialEq)]
pub struct FormattedError {
    pub text: String,
}

impl FormattedError {
    /// The rendered text.
    pub fn as_text(&self) -> (s: &str)
        ensures
            s@ == self.text@,
    {
        self.text.as_str()
    }
}

fn render_from(frames: &Vec<String>, i: usize, last: &String) -> (s: String)
    ensures
        s@ == render_tail(strs_view(frames@), i as int, last@),
    decreases frames@.len() - i,
{
    if i >= frames.len() {
        String::new()
    } else {
        let piece: String = if !str_eq(frames[i].as_str(), last.as_str()) {
            String::from_str(" [due to]:\n     ➥ ").concat(frames[i].as_str())
        } else {
            String::new()
        };
        let rest = render_from(frames, i + 1, &frames[i]);
        proof {
            assert(strs_view(frames@)[i as int] == frames@[i as int]@);
        }
        piece.concat(rest.as_str())
    }
}

impl Error {
    /// A fresh chain with one frame and no trace.
    pub fn new(message: String) -> (e: Error)
        ensures
            strs_view(e.frames@) == seq![message@],
            e.trace is None,
    {
        let mut frames: Vec<String> = Vec::new();
        frames.push(message);
        proof {
            assert(strs_view(frames@) =~= seq![message@]);
        }
        Error { frames, trace: Option::None }
    }

    /// Prepends a context frame; no frame and no trace is lost.
    pub fn wrap(self, context: String) -> (e: Error)
        ensures
            strs_view(e.frames@) == seq![context@] + strs_view(self.frames@),
            opt_trace_view(e.trace) == opt_trace_view(self.trace),
    {
        let ghost f0 = self.frames@;
        let mut frames = self.frames;
        frames.insert(0, context);
        proof {
            assert forall|j: int| 0 <= j < strs_view(frames@).len() implies strs_view(frames@)[j]
                == (seq![context@] + strs_view(f0))[j] by {
                if j > 0 {
                    assert(frames@[j] == f0[j - 1]);
                }
            }
            assert(strs_view(frames@) =~= seq![context@] + strs_view(f0));
        }
        Error { frames, trace: self.trace }
    }

    /// Attaches a captured trace, keeping every frame.
    pub fn with_trace(self, trace: String) -> (e: Error)
        ensures
            strs_view(e.frames@) == strs_view(self.frames@),
            opt_trace_view(e.trace) == Option::Some(trace@),
    {
        Error { frames: self.frames, trace: Option::Some(trace) }
    }

    /// Renders the chain: outermost message first, each following distinct
    /// message behind a cause marker, the trace last.
    pub fn format(&self) -> (r: FormattedError)
        ensures
            r.text@ == render_chain(strs_view(self.frames@), opt_trace_view(self.trace)),
    {
        let head: String = if self.frames.len() == 0 {
            String::new()
        } else {
            proof {
                assert(strs_view(self.frames@)[0] == self.frames@[0]@);
            }
            String::from_str(self.frames[0].as_str()).concat(
                render_from(&self.frames, 1, &self.frames[0]).as_str(),
            )
        };
        let text: String = match &self.trace {
            Option::Some(t) => head.concat("\n   =>: ").concat(t.as_str()).concat("\n"),
            Option::None => head,
        };
        FormattedError { text }
    }
}

} // verus!
