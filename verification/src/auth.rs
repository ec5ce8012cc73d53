//! Authentication: the methods, and the answers to a request.
use std::borrow::Cow;
use vstd::prelude::*;

verus! {

/// A set of authentication methods.
#[derive(Clone, Copy, Debug, PartialEq, Eq, Structural)]
pub struct MethodSet {
    pub none: bool,
    pub password: bool,
    pub publickey: bool,
    pub hostbased: bool,
    pub keyboard_interactive: bool,
}

impl MethodSet {
    /// The set of all methods.
    pub fn all() -> (methods: MethodSet)
        ensures
            methods == (MethodSet {
                none: true,
                password: true,
                publickey: true,
                hostbased: true,
                keyboard_interactive: true,
            }),
    {
        MethodSet {
            none: true,
            password: true,
            publickey: true,
            hostbased: true,
            keyboard_interactive: true,
        }
    }
}

/// An authentication result, in a challenge-response authentication.
#[derive(Debug, PartialEq, Eq)]
pub enum Auth {
    /// Reject the authentication request.
    Reject { proceed_with_methods: Option<MethodSet> },
    /// Accept the authentication request.
    Accept,
    /// Method was not accepted, but no other check was performed.
    UnsupportedMethod,
    /// Partially accept the challenge-response authentication
    /// request, providing more instructions for the client to follow.
    Partial {
        /// Name of this challenge.
        name: Cow<'static, str>,
        /// Instructions for this challenge.
        instructions: Cow<'static, str>,
        /// A number of prompts to the user. Each prompt has a `bool`
        /// indicating whether the terminal must echo the characters
        /// typed by the user.
        prompts: Cow<'static, [(Cow<'static, str>, bool)]>,
    },
}

} // verus!
