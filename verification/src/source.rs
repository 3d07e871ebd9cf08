//! The pull side of the parser: a cursor over tokens.

use crate::syntax_kind::SyntaxKind;
use vstd::prelude::*;
use vstd::slice::slice_subrange;

verus! {

/// The kind at the cursor of a source that has `tokens` ahead of it: the
/// first of them, or the end-of-input sentinel when none is left.
pub open spec fn current_kind(tokens: Seq<SyntaxKind>) -> SyntaxKind {
    if tokens.len() > 0 {
        tokens[0]
    } else {
        SyntaxKind::EOF
    }
}

/// The cursor stands at the end of input, as far as a reader of the current
/// kind can tell: no token is ahead, or the one ahead is of the sentinel's
/// kind, which is reserved for the end.
pub open spec fn at_end(tokens: Seq<SyntaxKind>) -> bool {
    current_kind(tokens) == SyntaxKind::EOF
}

/// What is left of `tokens` after the cursor advanced once: all but the
/// first. At the end of input nothing changes.
pub open spec fn advance(tokens: Seq<SyntaxKind>) -> Seq<SyntaxKind> {
    if tokens.len() > 0 {
        tokens.skip(1)
    } else {
        tokens
    }
}

/// What is left of `tokens` after the cursor advanced `times` times.
pub open spec fn advance_by(tokens: Seq<SyntaxKind>, times: nat) -> Seq<SyntaxKind>
    decreases times,
{
    if times == 0 {
        tokens
    } else {
        advance(advance_by(tokens, (times - 1) as nat))
    }
}

/// A pull cursor over a sequence of tokens.
///
/// The parser reads the kind under the cursor and moves the cursor forward.
/// It never looks further ahead and never goes back, so all that it can tell
/// of a source are the tokens that lie ahead of the cursor.
pub trait TokenSource {
    /// The tokens from the cursor to the end of input.
    spec fn remaining(&self) -> Seq<SyntaxKind>;

    /// The kind of the token at the cursor, which stays where it is: asked
    /// again, the source gives the same answer. Past the last token the
    /// answer is `EOF`, however often it is asked. That kind is reserved for
    /// the end: the parser consumes nothing where a source reports it.
    fn current(&self) -> (kind: SyntaxKind)
        ensures
            kind == current_kind(self.remaining()),
    ;

    /// Moves the cursor past exactly one token. At the end of input the
    /// cursor stays there.
    fn bump(&mut self)
        ensures
            final(self).remaining() == advance(old(self).remaining()),
    ;
}

/// A token source over tokens held in memory.
pub struct TokenCursor {
    tokens: Vec<SyntaxKind>,
    position: usize,
}

impl TokenCursor {
    #[verifier::type_invariant]
    spec fn in_bounds(&self) -> bool {
        self.position <= self.tokens.len()
    }

    /// A cursor at the first of `tokens`.
    pub fn new(tokens: Vec<SyntaxKind>) -> (cursor: TokenCursor)
        ensures
            cursor.remaining() == tokens@,
    {
        let cursor = TokenCursor { tokens, position: 0 };
        assert(cursor.remaining() =~= cursor.tokens@);
        cursor
    }

    /// The tokens that lie ahead of the cursor.
    pub fn rest(&self) -> (rest: &[SyntaxKind])
        ensures
            rest@ == self.remaining(),
    {
        proof {
            use_type_invariant(self);
        }
        slice_subrange(self.tokens.as_slice(), self.position, self.tokens.len())
    }
}

impl TokenSource for TokenCursor {
    closed spec fn remaining(&self) -> Seq<SyntaxKind> {
        self.tokens@.skip(self.position as int)
    }

    fn current(&self) -> (kind: SyntaxKind) {
        proof {
            use_type_invariant(self);
        }
        if self.position < self.tokens.len() {
            self.tokens[self.position]
        } else {
            SyntaxKind::EOF
        }
    }

    fn bump(&mut self) {
        proof {
            use_type_invariant(&*self);
        }
        if self.position < self.tokens.len() {
            self.position = self.position + 1;
            assert(self.tokens@.skip(self.position as int) =~= self.tokens@.skip(
                self.position - 1,
            ).skip(1));
        }
    }
}

} // verus!
