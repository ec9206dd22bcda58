//! Errors whose context is a chain of messages, one wrapped around the next.

use vstd::prelude::*;

use crate::error::description_text;
use crate::error::message_text;
use crate::error::Tag;

verus! {

/// A message, and the error that it explains.
#[derive(Debug)]
pub struct GenericError {
    pub msg: String,
    pub cause: Option<Box<GenericError>>,
}

impl GenericError {
    /// The messages of the chain, this one first.
    pub open spec fn messages(self) -> Seq<Seq<char>>
        decreases self,
    {
        match self.cause {
            Some(inner) => seq![self.msg@] + inner.messages(),
            None => seq![self.msg@],
        }
    }

    /// The message, which is also how the error is described and shown.
    pub fn description(&self) -> (text: &str)
        ensures
            text@ == self.msg@,
    {
        self.msg.as_str()
    }

    /// The message.
    pub fn to_string(&self) -> (text: String)
        ensures
            text@ == self.msg@,
    {
        self.msg.clone()
    }

    /// The error that this one explains, if there is one.
    pub fn cause(&self) -> (inner: Option<&GenericError>)
        ensures
            match inner {
                Some(e) => self.cause matches Some(boxed) && *boxed == *e,
                None => self.cause is None,
            },
    {
        match &self.cause {
            Some(boxed) => Some(&**boxed),
            None => None,
        }
    }
}

/// A tag, and the chain of messages that explain it, the latest first.
#[derive(Debug)]
pub struct LookupError {
    pub tag: Tag,
    pub cause: Option<Box<GenericError>>,
}

impl LookupError {
    /// The messages that explain the error, the one added last first.
    pub open spec fn messages(self) -> Seq<Seq<char>> {
        match self.cause {
            Some(inner) => inner.messages(),
            None => Seq::empty(),
        }
    }

    /// The tag of the error.
    pub fn tag(&self) -> (tag: Tag)
        ensures
            tag == self.tag,
    {
        self.tag
    }

    /// An error with the tag `tag` and no explanation.
    pub fn root(tag: Tag) -> (e: LookupError)
        ensures
            e.tag == tag,
            e.messages() == Seq::<Seq<char>>::empty(),
    {
        LookupError { tag, cause: None }
    }

    /// The same error, explained by `msg` before everything that explained
    /// it so far.
    pub fn context(self, msg: String) -> (e: LookupError)
        ensures
            e.tag == self.tag,
            e.messages() == seq![msg@] + self.messages(),
    {
        let LookupError { tag, cause } = self;
        let e = LookupError { tag, cause: Some(Box::new(GenericError { msg, cause })) };
        proof {
            if cause is None {
                assert(seq![msg@] + Seq::<Seq<char>>::empty() =~= seq![msg@]);
            }
        }
        e
    }

    /// The latest explanation, if there is one.
    pub fn cause(&self) -> (inner: Option<&GenericError>)
        ensures
            match inner {
                Some(e) => self.cause matches Some(boxed) && *boxed == *e,
                None => self.cause is None,
            },
    {
        match &self.cause {
            Some(boxed) => Some(&**boxed),
            None => None,
        }
    }

    /// The one-line message of the error.
    pub fn to_string(&self) -> (text: String)
        ensures
            text@ == message_text(self.tag),
    {
        self.tag.as_error().to_string()
    }

    /// The terse lower-case description of the error.
    pub fn description(&self) -> (text: &'static str)
        ensures
            text@ == description_text(self.tag),
    {
        self.tag.as_error().description()
    }
}

} // verus!
