//! What the embedding application decides: how text is made safe to show, and
//! how much of a session is kept.
use vstd::prelude::*;

verus! {

/// Why a text is changed before it is shown.
pub enum TextUse {
    Terminal,
    Secrets,
}

/// Which list of a session is bounded.
pub enum ListUse {
    Chat,
    Files,
}

/// The decisions of the embedding application. What is shown of a text depends
/// on the text alone; how, an implementation says where it can. One that does
/// not say stands for some function of the text, and for some number.
pub trait HostPolicy: Sized {
    /// What is shown of a text on a terminal.
    closed spec fn sanitized(&self, text: Seq<char>) -> Seq<char> {
        arbitrary::<spec_fn(Self, TextUse, Seq<char>) -> Seq<char>>()(
            *self,
            TextUse::Terminal,
            text,
        )
    }

    /// What is shown of a text that may hold secrets.
    closed spec fn redacted(&self, text: Seq<char>) -> Seq<char> {
        arbitrary::<spec_fn(Self, TextUse, Seq<char>) -> Seq<char>>()(
            *self,
            TextUse::Secrets,
            text,
        )
    }

    /// How many chat messages of a session are kept.
    closed spec fn chat_limit(&self) -> nat {
        arbitrary::<spec_fn(Self, ListUse) -> nat>()(*self, ListUse::Chat)
    }

    /// How many file accesses of a session are kept.
    closed spec fn file_limit(&self) -> nat {
        arbitrary::<spec_fn(Self, ListUse) -> nat>()(*self, ListUse::Files)
    }

    /// Removes what a terminal would interpret.
    fn sanitize_terminal_text(&self, text: &str) -> (r: String)
        ensures
            r@ == self.sanitized(text@),
    ;

    /// Hides secrets.
    fn redact_secrets(&self, text: &str) -> (r: String)
        ensures
            r@ == self.redacted(text@),
    ;

    /// The number of chat messages that are kept.
    fn max_chat_messages(&self) -> (r: usize)
        ensures
            r == self.chat_limit(),
    ;

    /// The number of file accesses that are kept.
    fn max_file_accesses(&self) -> (r: usize)
        ensures
            r == self.file_limit(),
    ;
}

/// Shows every text as it is: for input that is known to be clean.
#[derive(Clone, Copy, Debug)]
pub struct Verbatim {
    pub max_chat_messages: usize,
    pub max_file_accesses: usize,
}

impl HostPolicy for Verbatim {
    open spec fn sanitized(&self, text: Seq<char>) -> Seq<char> {
        text
    }

    open spec fn redacted(&self, text: Seq<char>) -> Seq<char> {
        text
    }

    open spec fn chat_limit(&self) -> nat {
        self.max_chat_messages as nat
    }

    open spec fn file_limit(&self) -> nat {
        self.max_file_accesses as nat
    }

    fn sanitize_terminal_text(&self, text: &str) -> (r: String) {
        text.to_owned()
    }

    fn redact_secrets(&self, text: &str) -> (r: String) {
        text.to_owned()
    }

    fn max_chat_messages(&self) -> (r: usize) {
        self.max_chat_messages
    }

    fn max_file_accesses(&self) -> (r: usize) {
        self.max_file_accesses
    }
}

} // verus!
