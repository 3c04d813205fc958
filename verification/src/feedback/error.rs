//! An earlier shape of the diagnostic value, kept alongside the current one:
//! the same message structure with a shorter method name.

use vstd::prelude::*;

use crate::feedback::loc::Loc;

verus! {

/// A structured error: an ordered sequence of messages.
pub struct Error {
    message_vec: Vec<Message>,
}

/// One message of a diagnostic: text plus ordered source references.
pub struct Message {
    text: String,
    source_refs: Vec<SourceRef>,
}

struct SourceRef {
    desc: String,
    loc: Loc,
}

impl Error {
    /// The messages, in attachment order.
    pub closed spec fn messages(&self) -> Seq<Message> {
        self.message_vec@
    }

    pub fn new() -> (e: Error)
        ensures
            e.messages() == Seq::<Message>::empty(),
    {
        Error { message_vec: Vec::new() }
    }

    /// Returns a new diagnostic with the message appended.
    pub fn with_msg(self, message: Message) -> (e: Error)
        ensures
            e.messages() == self.messages().push(message),
    {
        let mut message_vec = self.message_vec;
        message_vec.push(message);
        Error { message_vec }
    }
}

impl Message {
    /// The message text.
    pub closed spec fn text_view(&self) -> Seq<char> {
        self.text@
    }

    /// The (description, location) references, in attachment order.
    pub closed spec fn refs(&self) -> Seq<(Seq<char>, Loc)> {
        self.source_refs@.map(|i: int, r: SourceRef| (r.desc@, r.loc))
    }

    pub fn new(text: String) -> (m: Message)
        ensures
            m.text_view() == text@,
            m.refs() == Seq::<(Seq<char>, Loc)>::empty(),
    {
        let m = Message { text, source_refs: Vec::new() };
        proof {
            assert(m.refs() =~= Seq::<(Seq<char>, Loc)>::empty());
        }
        m
    }

    /// Returns a new message with one more source reference appended.
    pub fn with_ref(self, desc: String, loc: Loc) -> (m: Message)
        ensures
            m.text_view() == self.text_view(),
            m.refs() == self.refs().push((desc@, loc)),
    {
        let ghost prev = self.refs();
        let ghost d = desc@;
        let mut source_refs = self.source_refs;
        source_refs.push(SourceRef { desc, loc });
        let m = Message { text: self.text, source_refs };
        proof {
            assert(m.refs() =~= prev.push((d, loc)));
        }
        m
    }
}

impl Message {
    /// How many source references this message carries.
    pub fn ref_count(&self) -> (n: usize)
        ensures
            n == self.refs().len(),
    {
        self.source_refs.len()
    }

    /// The message text.
    pub fn text(&self) -> (t: &String)
        ensures
            t@ == self.text_view(),
    {
        &self.text
    }

    /// The description of the reference at `i`.
    pub fn ref_desc(&self, i: usize) -> (d: &String)
        requires
            i < self.refs().len(),
        ensures
            d@ == self.refs()[i as int].0,
    {
        &self.source_refs[i].desc
    }

    /// The location of the reference at `i`.
    pub fn ref_loc(&self, i: usize) -> (l: Loc)
        ensures
            i < self.refs().len() ==> l == self.refs()[i as int].1,
    {
        if i < self.source_refs.len() {
            self.source_refs[i].loc
        } else {
            Loc::FilePos(
                crate::source::SourceID { idx: 0 },
                crate::feedback::loc::Cursor { line_index: 0, column_index: 0 },
            )
        }
    }
}

impl Error {
    /// How many messages this diagnostic carries.
    pub fn message_count(&self) -> (n: usize)
        ensures
            n == self.messages().len(),
    {
        self.message_vec.len()
    }

    /// The message at `i`, in attachment order.
    pub fn message(&self, i: usize) -> (m: &Message)
        requires
            i < self.messages().len(),
        ensures
            *m == self.messages()[i as int],
    {
        &self.message_vec[i]
    }
}

} // verus!
