//! Pieces shared by several declarations.
use crate::ast::{ClassFlags, QualifiedName};
use crate::parser::{next_position, Parser};
use crate::token::TokenKind;
use vstd::prelude::*;

verus! {

impl<'src> Parser<'src> {
    /// Skips the rest of a `{ ... }` body whose `{` ends at
    /// `first_lbrace_end`, nested braces included, and returns the end of
    /// the last token consumed.
    pub(crate) fn consume_brace_body(&mut self, first_lbrace_end: u32) -> (end: u32)
        requires
            old(self).wf(),
        ensures
            final(self).wf(),
            old(self).same_but_cursor(final(self)),
            old(self).evolves_to(final(self)),
            old(self).cur_kind() == TokenKind::Eof ==> *final(self) == *old(self) && end
                == first_lbrace_end,
            old(self).cur_kind() != TokenKind::Eof ==> old(self).advances_to(final(self)),
            old(self).cur_kind() == TokenKind::RBrace ==> end == old(self).cur_token().span.end
                && final(self).position() == next_position(old(self).toks(), old(self).position()),
    {
        let mut depth: usize = 1;
        let mut body_end = first_lbrace_end;
        while !self.eof() && depth > 0
            invariant
                self.wf(),
                old(self).same_but_cursor(self),
                old(self).evolves_to(self),
                depth <= self.position() - old(self).position() + 1,
                old(self).cur_kind() == TokenKind::Eof ==> self.position() == old(self).position(),
                self.position() == old(self).position() ==> *self == *old(self) && depth == 1
                    && body_end == first_lbrace_end,
                self.position() != old(self).position() ==> old(self).advances_to(self),
                old(self).cur_kind() == TokenKind::RBrace && self.position() != old(self).position()
                    ==> depth == 0 && body_end == old(self).cur_token().span.end && self.position()
                    == next_position(old(self).toks(), old(self).position()),
            decreases self.rem(),
        {
            let ghost it = *self;
            proof {
                self.lemma_not_eof_room();
            }
            if self.at(TokenKind::LBrace) {
                let t = self.bump();
                depth = depth + 1;
                body_end = t.span.end;
            } else if self.at(TokenKind::RBrace) {
                let t = self.bump();
                depth = depth - 1;
                body_end = t.span.end;
            } else {
                self.bump();
            }
            proof {
                Self::lemma_evolves_trans(old(self), &it, self);
            }
        }
        body_end
    }

    /// The modifiers `abstract`, `final` and `readonly` before `class`, in
    /// any order.
    pub(crate) fn parse_class_flags(&mut self) -> (flags: ClassFlags)
        requires
            old(self).wf(),
        ensures
            final(self).wf(),
            old(self).same_but_cursor(final(self)),
            old(self).evolves_to(final(self)),
            final(self).cur_kind() != TokenKind::KwAbstract,
            final(self).cur_kind() != TokenKind::KwFinal,
            final(self).cur_kind() != TokenKind::KwReadonly,
            old(self).cur_kind() == TokenKind::KwAbstract ==> flags.is_abstract,
            old(self).cur_kind() == TokenKind::KwFinal ==> flags.is_final,
            old(self).cur_kind() == TokenKind::KwReadonly ==> flags.is_readonly,
            !(old(self).cur_kind() == TokenKind::KwAbstract || old(self).cur_kind()
                == TokenKind::KwFinal || old(self).cur_kind() == TokenKind::KwReadonly) ==> flags
                == ClassFlags::empty_spec() && *final(self) == *old(self),
    {
        let mut flags = ClassFlags::empty();
        let ghost first = self.cur_kind();
        let ghost in_set = first == TokenKind::KwAbstract || first == TokenKind::KwFinal || first
            == TokenKind::KwReadonly;
        while self.at(TokenKind::KwAbstract) || self.at(TokenKind::KwFinal) || self.at(
            TokenKind::KwReadonly,
        )
            invariant
                self.wf(),
                old(self).same_but_cursor(self),
                old(self).evolves_to(self),
                first == old(self).cur_kind(),
                in_set == (first == TokenKind::KwAbstract || first == TokenKind::KwFinal || first
                    == TokenKind::KwReadonly),
                !in_set ==> *self == *old(self),
                first == TokenKind::KwAbstract && *self != *old(self) ==> flags.is_abstract,
                first == TokenKind::KwFinal && *self != *old(self) ==> flags.is_final,
                first == TokenKind::KwReadonly && *self != *old(self) ==> flags.is_readonly,
                *self == *old(self) ==> flags == ClassFlags::empty_spec(),
            decreases self.rem(),
        {
            let ghost it = *self;
            if self.at(TokenKind::KwAbstract) {
                self.bump();
                flags.is_abstract = true;
            } else if self.at(TokenKind::KwFinal) {
                self.bump();
                flags.is_final = true;
            } else {
                self.bump();
                flags.is_readonly = true;
            }
            proof {
                Self::lemma_evolves_trans(old(self), &it, self);
                assert(it.advances_to(self));
            }
        }
        flags
    }

    /// `implements A, B, ...`: the names, and the end of the last one.
    pub(crate) fn parse_implements_clause(&mut self) -> (r: (Vec<QualifiedName>, Option<u32>))
        requires
            old(self).wf(),
        ensures
            final(self).wf(),
            old(self).evolves_to(final(self)),
            old(self).cur_kind() != TokenKind::KwImplements ==> *final(self) == *old(self)
                && r.0@.len() == 0 && r.1 is None,
            old(self).cur_kind() == TokenKind::KwImplements ==> old(self).advances_to(final(self)),
            r.1 is None <==> r.0@.len() == 0,
    {
        let mut interfaces: Vec<QualifiedName> = Vec::new();
        let mut last_end: Option<u32> = None;
        if self.at(TokenKind::KwImplements) {
            self.bump();
            loop
                invariant
                    self.wf(),
                    old(self).advances_to(self),
                    last_end is None <==> interfaces@.len() == 0,
                decreases self.rem(),
            {
                let ghost it = *self;
                match self.parse_qualified_name() {
                    Some(iface_qn) => {
                        last_end = Some(iface_qn.span.end);
                        interfaces.push(iface_qn);
                    },
                    None => {
                        proof {
                            Self::lemma_evolves_trans(old(self), &it, self);
                        }
                        break;
                    },
                }
                let ghost it2 = *self;
                if self.eat(TokenKind::Comma) {
                    proof {
                        Self::lemma_evolves_trans(&it, &it2, self);
                        Self::lemma_evolves_trans(old(self), &it, self);
                    }
                    continue;
                }
                proof {
                    Self::lemma_evolves_trans(old(self), &it, self);
                }
                break;
            }
        }
        (interfaces, last_end)
    }
}

} // verus!
