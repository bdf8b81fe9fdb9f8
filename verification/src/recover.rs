//! Error recovery: which tokens end the skipping of text after an error.
use vstd::prelude::*;
use crate::error::lexer::RecoverError;
use vstd::std_specs::cmp::PartialEqSpec;

verus! {

/// A recovery state: it is handed each following token in turn and says
/// when parsing can resume.
#[derive(Debug, Clone)]
pub enum Recover<T> {
    /// Resume after one of the tokens: the token after it ends recovery.
    After {
        /// The tokens to recover after.
        tokens: Vec<T>,
        /// Whether one of the tokens has been seen.
        found: bool,
    },
    /// Resume before one of the tokens: that token ends recovery.
    Before {
        /// The tokens to recover before.
        tokens: Vec<T>,
    },
}

/// Whether `t` equals one of `tokens`, as `PartialEq` says.
pub open spec fn contains_token<T: PartialEq>(tokens: Seq<T>, t: T) -> bool {
    exists|i: int| 0 <= i < tokens.len() && tokens[i].eq_spec(&t)
}

/// Returns whether `t` equals one of `tokens`.
pub fn tokens_contain<T: PartialEq>(tokens: &Vec<T>, t: &T) -> (r: bool)
    ensures
        T::obeys_eq_spec() ==> (r == contains_token(tokens@, *t)),
{
    let mut i: usize = 0;
    while i < tokens.len()
        invariant
            i <= tokens@.len(),
            T::obeys_eq_spec() ==> forall|j: int| 0 <= j < i ==> !tokens@[j].eq_spec(t),
        decreases tokens@.len() - i,
    {
        if tokens[i] == *t {
            return true;
        }
        i = i + 1;
    }
    false
}

/// Whether the recovery state, handed `t`, says that parsing can resume:
/// after one of its tokens has been seen, or before one of its tokens.
pub open spec fn accepts<T: PartialEq>(rec: Recover<T>, t: T) -> bool {
    match rec {
        Recover::After { found, .. } => found,
        Recover::Before { tokens } => contains_token(tokens@, t),
    }
}

impl<T: PartialEq> Recover<T> {
    /// Hands the next token to the recovery state: returns `Ok(true)` when
    /// parsing can resume, `Ok(false)` to keep advancing.
    pub fn call(&mut self, next_token: T) -> (r: Result<bool, RecoverError>)
        ensures
            r is Ok,
            T::obeys_eq_spec() ==> match *old(self) {
                Recover::After { tokens, found } => {
                    &&& r == Ok::<bool, RecoverError>(found)
                    &&& *final(self) == Recover::After {
                        tokens,
                        found: found || contains_token(tokens@, next_token),
                    }
                },
                Recover::Before { tokens } => {
                    &&& r == Ok::<bool, RecoverError>(contains_token(tokens@, next_token))
                    &&& *final(self) == *old(self)
                },
            },
    {
        match self {
            Recover::After { tokens, found } => {
                if *found {
                    Ok(true)
                } else {
                    *found = tokens_contain(tokens, &next_token);
                    Ok(false)
                }
            },
            Recover::Before { tokens } => Ok(tokens_contain(tokens, &next_token)),
        }
    }
}

/// Returns a recovery state that resumes after the given token.
pub fn recover_after<T>(token: T) -> (r: Recover<T>)
    ensures
        r matches Recover::After { tokens, found } && tokens@ == seq![token] && !found,
{
    Recover::After { tokens: vec![token], found: false }
}

/// Returns a recovery state that resumes before the given token.
pub fn recover_before<T>(token: T) -> (r: Recover<T>)
    ensures
        r matches Recover::Before { tokens } && tokens@ == seq![token],
{
    Recover::Before { tokens: vec![token] }
}

/// Returns a recovery state that resumes after any of the given tokens.
pub fn recover_after_any<T>(tokens: Vec<T>) -> (r: Recover<T>)
    ensures
        r == (Recover::After { tokens, found: false }),
{
    Recover::After { tokens, found: false }
}

/// Returns a recovery state that resumes before any of the given tokens.
pub fn recover_before_any<T>(tokens: Vec<T>) -> (r: Recover<T>)
    ensures
        r == (Recover::Before { tokens }),
{
    Recover::Before { tokens }
}

} // verus!
