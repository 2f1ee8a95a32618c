//! The tokeniser: a left-to-right, one-byte-lookahead, non-backtracking
//! lexer over a string view.
//!
//! [`Tokeniser::next_token`] is proved to return exactly the token that
//! [`crate::grammar::spec_next_token`] describes at the current position,
//! to land exactly where that token ends, and to report a syntax error on
//! exactly the inputs the grammar refuses.

use vstd::prelude::*;

use crate::grammar::{
    alnum_end, find_byte, find_close, is_alnum, is_arg_start, is_inline_start, is_special_at,
    is_tag_start, is_ws, spec_next_token, spec_parse_args, text_end, ws_end, SArgsResult, SToken,
    STokenResult,
};
use crate::grammar::{
    is_alnum_byte, is_alpha_byte, is_upper_byte, lemma_alnum_end_unique, lemma_find_byte_bounds,
    lemma_find_byte_unique, lemma_find_close_bounds, lemma_find_close_unique, lemma_text_end_unique,
    lemma_ws_end_unique,
};
use crate::strview::{is_ws_byte, vbytes, view_ok, Store, StrView};
use crate::table::{nva_model, nva_ok, NameValue, NameValueArray};
use crate::Error;

verus! {

/// The four kinds of token the lexer recognises.
#[derive(Clone, Copy, Debug, PartialEq, Eq, Structural)]
pub enum TokenType {
    /// Plain text.
    Text,
    /// A self-closing component tag.
    ComponentTag,
    /// An argument reference.
    Argument,
    /// An inline component definition.
    InlineComponent,
}

/// A component tag as read from the input: its name and its attribute
/// pairs, in order.
pub struct ComponentTag {
    pub name: StrView,
    pub args: NameValueArray,
}

/// One token, carrying views into the tokenised text.
pub enum Token {
    Text(StrView),
    ComponentTag(ComponentTag),
    Argument(StrView),
    InlineComponent(NameValue),
}

/// Every view a token carries lies within the store.
pub open spec fn token_ok(t: Seq<Seq<u8>>, tok: Token) -> bool {
    match tok {
        Token::Text(v) => view_ok(t, v),
        Token::ComponentTag(tag) => view_ok(t, tag.name) && nva_ok(t, tag.args.entries_seq()),
        Token::Argument(v) => view_ok(t, v),
        Token::InlineComponent(nv) => view_ok(t, nv.name) && view_ok(t, nv.value),
    }
}

/// The plain-value token a view-carrying token stands for.
pub open spec fn token_abs(t: Seq<Seq<u8>>, tok: Token) -> SToken {
    match tok {
        Token::Text(v) => SToken::SText { bytes: vbytes(t, v) },
        Token::ComponentTag(tag) => SToken::STag {
            name: vbytes(t, tag.name),
            args: nva_model(t, tag.args.entries_seq()),
        },
        Token::Argument(v) => SToken::SArg { name: vbytes(t, v) },
        Token::InlineComponent(nv) => SToken::SInline {
            name: vbytes(t, nv.name),
            body: vbytes(t, nv.value),
        },
    }
}

/// The lexer's whole state: the view being read and the position in it.
pub struct Tokeniser {
    /// The text being tokenised.
    pub view: StrView,
    /// The current position, relative to the view; `view.len` once the
    /// input is exhausted.
    pub pos: usize,
}

impl Tokeniser {
    /// The view is in the store and the position within bounds.
    pub open spec fn wf(&self, t: Seq<Seq<u8>>) -> bool {
        &&& view_ok(t, self.view)
        &&& self.pos <= self.view.len
    }

    /// The bytes being tokenised.
    pub open spec fn text(&self, t: Seq<Seq<u8>>) -> Seq<u8> {
        vbytes(t, self.view)
    }

    /// Start at the beginning of a view.
    pub fn new(v: StrView) -> (tk: Tokeniser)
        ensures
            tk.view == v,
            tk.pos == 0,
    {
        Tokeniser { view: v, pos: 0 }
    }

    /// The byte `offset` places ahead of the current position, if the
    /// view still holds one there.
    pub fn peek(&self, store: &Store, offset: usize) -> (r: Option<u8>)
        requires
            self.wf(store.texts()),
        ensures
            match r {
                Some(b) => {
                    &&& self.pos + offset < self.view.len
                    &&& b == self.text(store.texts())[self.pos + offset]
                },
                None => self.pos + offset >= self.view.len,
            },
    {
        if offset < self.view.len - self.pos {
            Some(store.byte_at(self.view, self.pos + offset))
        } else {
            None
        }
    }

    /// Step one byte forward; at the last byte the position moves past
    /// the end, after which nothing more can be peeked. Returns whether a
    /// current byte remains.
    pub fn advance(&mut self) -> (more: bool)
        requires
            old(self).pos <= old(self).view.len,
        ensures
            final(self).view == old(self).view,
            final(self).pos == if old(self).pos < old(self).view.len {
                old(self).pos + 1
            } else {
                old(self).pos as int
            },
            more == (final(self).pos < final(self).view.len),
    {
        if self.pos < self.view.len {
            self.pos = self.pos + 1;
        }
        self.pos < self.view.len
    }

    /// Skip letters and digits.
    pub fn advance_until_not_alphanumeric(&mut self, store: &Store)
        requires
            old(self).wf(store.texts()),
        ensures
            final(self).view == old(self).view,
            final(self).wf(store.texts()),
            final(self).pos == alnum_end(
                old(self).text(store.texts()),
                old(self).pos as int,
            ),
    {
        let ghost s = vbytes(store.texts(), self.view);
        let ghost start = self.pos as int;
        while self.pos < self.view.len && is_alnum_byte(store.byte_at(self.view, self.pos))
            invariant
                self.view == old(self).view,
                view_ok(store.texts(), self.view),
                start <= self.pos as int <= self.view.len,
                s == vbytes(store.texts(), self.view),
                forall|k: int| start <= k < self.pos as int ==> is_alnum(s[k]),
            decreases self.view.len - self.pos,
        {
            self.pos = self.pos + 1;
        }
        proof {
            lemma_alnum_end_unique(s, start, self.pos as int);
        }
    }

    /// Skip ASCII whitespace.
    pub fn advance_until_not_whitespace(&mut self, store: &Store)
        requires
            old(self).wf(store.texts()),
        ensures
            final(self).view == old(self).view,
            final(self).wf(store.texts()),
            final(self).pos == ws_end(old(self).text(store.texts()), old(self).pos as int),
    {
        let ghost s = vbytes(store.texts(), self.view);
        let ghost start = self.pos as int;
        while self.pos < self.view.len && is_ws_byte(store.byte_at(self.view, self.pos))
            invariant
                self.view == old(self).view,
                view_ok(store.texts(), self.view),
                start <= self.pos as int <= self.view.len,
                s == vbytes(store.texts(), self.view),
                forall|k: int| start <= k < self.pos as int ==> is_ws(s[k]),
            decreases self.view.len - self.pos,
        {
            self.pos = self.pos + 1;
        }
        proof {
            lemma_ws_end_unique(s, start, self.pos as int);
        }
    }

    /// Run forward until the given byte (or the end).
    pub fn advance_until_byte(&mut self, store: &Store, b: u8)
        requires
            old(self).wf(store.texts()),
        ensures
            final(self).view == old(self).view,
            final(self).wf(store.texts()),
            final(self).pos == find_byte(
                old(self).text(store.texts()),
                old(self).pos as int,
                b,
            ),
    {
        let ghost s = vbytes(store.texts(), self.view);
        let ghost start = self.pos as int;
        while self.pos < self.view.len && store.byte_at(self.view, self.pos) != b
            invariant
                self.view == old(self).view,
                view_ok(store.texts(), self.view),
                start <= self.pos as int <= self.view.len,
                s == vbytes(store.texts(), self.view),
                forall|k: int| start <= k < self.pos as int ==> s[k] != b,
            decreases self.view.len - self.pos,
        {
            self.pos = self.pos + 1;
        }
        proof {
            lemma_find_byte_unique(s, start, self.pos as int, b);
        }
    }

    /// Whether the current byte closes an inline definition: a `}` right
    /// after another `}`.
    fn at_inline_close(&self, store: &Store) -> (r: bool)
        requires
            self.wf(store.texts()),
        ensures
            r == {
                let s = self.text(store.texts());
                let i = self.pos as int;
                i < s.len() && i >= 1 && s[i] == 125 && s[i - 1] == 125
            },
    {
        self.pos < self.view.len && self.pos >= 1 && store.byte_at(self.view, self.pos) == 125
            && store.byte_at(self.view, self.pos - 1) == 125
    }

    /// Run forward until a `}}` close (the position lands on its second
    /// byte), or the end when there is none.
    pub fn advance_until_inline_close(&mut self, store: &Store)
        requires
            old(self).wf(store.texts()),
        ensures
            final(self).view == old(self).view,
            final(self).wf(store.texts()),
            final(self).pos == find_close(old(self).text(store.texts()), old(self).pos as int),
    {
        let ghost s = vbytes(store.texts(), self.view);
        let ghost start = self.pos as int;
        while self.pos < self.view.len && !self.at_inline_close(store)
            invariant
                self.view == old(self).view,
                view_ok(store.texts(), self.view),
                start <= self.pos as int <= self.view.len,
                s == vbytes(store.texts(), self.view),
                forall|k: int|
                    start <= k < self.pos as int ==> !(k >= 1 && #[trigger] s[k] == 125 && s[k - 1]
                        == 125),
            decreases self.view.len - self.pos,
        {
            self.pos = self.pos + 1;
        }
        proof {
            lemma_find_close_unique(s, start, self.pos as int);
        }
    }

    /// Whether a special construct opens at the current position.
    fn at_special(&self, store: &Store) -> (r: bool)
        requires
            self.wf(store.texts()),
        ensures
            r == is_special_at(self.text(store.texts()), self.pos as int),
    {
        if self.pos >= self.view.len || self.pos + 1 >= self.view.len {
            return false;
        }
        let b0 = store.byte_at(self.view, self.pos);
        let b1 = store.byte_at(self.view, self.pos + 1);
        (b0 == 60 && is_upper_byte(b1)) || (b0 == 36 && is_alpha_byte(b1)) || (b0 == 123 && b1
            == 123)
    }

    /// Run forward over plain text, to the next special construct or the
    /// end.
    pub fn advance_until_special(&mut self, store: &Store)
        requires
            old(self).wf(store.texts()),
        ensures
            final(self).view == old(self).view,
            final(self).wf(store.texts()),
            final(self).pos == text_end(old(self).text(store.texts()), old(self).pos as int),
    {
        let ghost s = vbytes(store.texts(), self.view);
        let ghost start = self.pos as int;
        while self.pos < self.view.len && !self.at_special(store)
            invariant
                self.view == old(self).view,
                view_ok(store.texts(), self.view),
                start <= self.pos as int <= self.view.len,
                s == vbytes(store.texts(), self.view),
                forall|k: int| start <= k < self.pos as int ==> !is_special_at(s, k),
            decreases self.view.len - self.pos,
        {
            self.pos = self.pos + 1;
        }
        proof {
            lemma_text_end_unique(s, start, self.pos as int);
        }
    }

    /// Classify what opens at the current position, or nothing once the
    /// input is exhausted.
    pub fn current_token(&self, store: &Store) -> (r: Option<TokenType>)
        requires
            self.wf(store.texts()),
        ensures
            ({
                let s = self.text(store.texts());
                let i = self.pos as int;
                match r {
                    None => i >= s.len(),
                    Some(tt) => {
                        &&& i < s.len()
                        &&& (tt == TokenType::ComponentTag) == is_tag_start(s, i)
                        &&& (tt == TokenType::Argument) == is_arg_start(s, i)
                        &&& (tt == TokenType::InlineComponent) == is_inline_start(s, i)
                        &&& (tt == TokenType::Text) == !is_special_at(s, i)
                    },
                }
            }),
    {
        if self.pos >= self.view.len {
            return None;
        }
        let b0 = store.byte_at(self.view, self.pos);
        if self.pos + 1 < self.view.len {
            let b1 = store.byte_at(self.view, self.pos + 1);
            if b0 == 60 && is_upper_byte(b1) {
                Some(TokenType::ComponentTag)
            } else if b0 == 36 && is_alpha_byte(b1) {
                Some(TokenType::Argument)
            } else if b0 == 123 && b1 == 123 {
                Some(TokenType::InlineComponent)
            } else {
                Some(TokenType::Text)
            }
        } else {
            Some(TokenType::Text)
        }
    }

    /// Read the next token. Returns exactly what the grammar says stands
    /// at the current position: the token and nothing else on good input,
    /// a syntax error where the grammar refuses, nothing at the end.
    pub fn next_token(&mut self, store: &Store) -> (r: Option<Result<Token, Error>>)
        requires
            old(self).wf(store.texts()),
        ensures
            final(self).view == old(self).view,
            final(self).wf(store.texts()),
            ({
                let s = old(self).text(store.texts());
                let i = old(self).pos as int;
                match spec_next_token(s, i) {
                    STokenResult::SEnd => r is None && final(self).pos == old(self).pos,
                    STokenResult::SSyntaxErr => r matches Some(rr) && rr matches Err(e) && e
                        == Error::SyntaxError,
                    STokenResult::STok { tok, end } => {
                        &&& r matches Some(rr) && rr matches Ok(tk) && token_ok(store.texts(), tk)
                            && token_abs(store.texts(), tk) == tok
                        &&& final(self).pos == end
                    },
                }
            }),
    {
        let ghost t = store.texts();
        let ghost s = vbytes(t, self.view);
        let ghost i0 = self.pos as int;
        let tt = match self.current_token(store) {
            None => {
                return None;
            },
            Some(tt) => tt,
        };
        match tt {
            TokenType::Text => {
                let start = self.pos;
                self.advance_until_special(store);
                proof {
                    crate::grammar::lemma_text_end_bounds(s, start as int);
                }
                let v = store.subview(self.view, start, self.pos);
                Some(Ok(Token::Text(v)))
            },
            TokenType::Argument => {
                self.pos = self.pos + 1;
                let nstart = self.pos;
                self.advance_until_not_alphanumeric(store);
                proof {
                    crate::grammar::lemma_alnum_end_bounds(s, nstart as int);
                }
                let v = store.subview(self.view, nstart, self.pos);
                Some(Ok(Token::Argument(v)))
            },
            TokenType::InlineComponent => {
                self.pos = self.pos + 2;
                let nstart = self.pos;
                self.advance_until_not_alphanumeric(store);
                proof {
                    crate::grammar::lemma_alnum_end_bounds(s, nstart as int);
                }
                let name = store.subview(self.view, nstart, self.pos);
                self.advance_until_byte(store, 10);
                proof {
                    lemma_find_byte_bounds(s, alnum_end(s, nstart as int), 10);
                }
                if self.pos >= self.view.len {
                    return Some(Err(Error::SyntaxError));
                }
                self.pos = self.pos + 1;
                let vstart = self.pos;
                self.advance_until_inline_close(store);
                proof {
                    lemma_find_close_bounds(s, vstart as int);
                }
                if self.pos >= self.view.len {
                    return Some(Err(Error::SyntaxError));
                }
                proof {
                    // The close cannot sit at the very start of the body:
                    // the byte before the body is the discarded line's
                    // newline, not a brace.
                    assert(s[vstart - 1] == 10);
                    assert(self.pos as int > vstart as int);
                }
                let body_raw = store.subview(self.view, vstart, self.pos - 1);
                let body = store.trim(body_raw);
                self.pos = self.pos + 1;
                Some(Ok(Token::InlineComponent(NameValue { name, value: body })))
            },
            TokenType::ComponentTag => {
                self.pos = self.pos + 1;
                let nstart = self.pos;
                self.advance_until_not_alphanumeric(store);
                proof {
                    crate::grammar::lemma_alnum_end_bounds(s, nstart as int);
                }
                let name = store.subview(self.view, nstart, self.pos);
                let ghost ne = self.pos as int;
                let mut args = NameValueArray::new();
                proof {
                    assert(args.model(t) =~= Seq::<(Seq<u8>, Seq<u8>)>::empty());
                }
                loop
                    invariant
                        self.view == old(self).view,
                        view_ok(t, self.view),
                        t == store.texts(),
                        s == vbytes(t, self.view),
                        i0 == old(self).pos as int,
                        ne <= self.pos as int <= self.view.len,
                        args.ok(t),
                        view_ok(t, name),
                        vbytes(t, name) == s.subrange(i0 + 1, ne),
                        0 <= i0 && i0 + 1 <= ne,
                        is_tag_start(s, i0),
                        ne == alnum_end(s, i0 + 1),
                        spec_parse_args(s, ne, Seq::<(Seq<u8>, Seq<u8>)>::empty())
                            == spec_parse_args(s, self.pos as int, args.model(t)),
                    decreases self.view.len - self.pos,
                {
                    let ghost p0 = self.pos as int;
                    let ghost acc = args.model(t);
                    self.advance_until_not_whitespace(store);
                    let ghost j = self.pos as int;
                    proof {
                        crate::grammar::lemma_ws_end_bounds(s, p0);
                    }
                    let in_range = self.pos < self.view.len;
                    let head_alpha = if in_range {
                        is_alpha_byte(store.byte_at(self.view, self.pos))
                    } else {
                        false
                    };
                    if !head_alpha {
                        // End of the attribute list: the tag must close
                        // with `/>` and nothing else.
                        proof {
                            assert(spec_parse_args(s, p0, acc) == SArgsResult::SArgsOk {
                                args: acc,
                                end: j,
                            });
                        }
                        if in_range && store.byte_at(self.view, self.pos) == 47 {
                            if self.pos + 1 < self.view.len && store.byte_at(
                                self.view,
                                self.pos + 1,
                            ) == 62 {
                                self.pos = self.pos + 2;
                                proof {
                                    assert(spec_next_token(s, i0) == STokenResult::STok {
                                        tok: SToken::STag { name: s.subrange(i0 + 1, ne), args: acc },
                                        end: j + 2,
                                    });
                                }
                                return Some(Ok(Token::ComponentTag(ComponentTag { name, args })));
                            } else {
                                proof {
                                    assert(spec_next_token(s, i0) is SSyntaxErr);
                                }
                                return Some(Err(Error::SyntaxError));
                            }
                        } else {
                            proof {
                                assert(spec_next_token(s, i0) is SSyntaxErr);
                            }
                            return Some(Err(Error::SyntaxError));
                        }
                    }
                    let astart = self.pos;
                    self.advance_until_not_alphanumeric(store);
                    proof {
                        crate::grammar::lemma_alnum_end_bounds(s, astart as int);
                    }
                    let aname = store.subview(self.view, astart, self.pos);
                    let ghost ane = self.pos as int;
                    self.advance_until_not_whitespace(store);
                    let ghost k = self.pos as int;
                    proof {
                        crate::grammar::lemma_ws_end_bounds(s, ane);
                    }
                    if !(self.pos < self.view.len && store.byte_at(self.view, self.pos) == 61) {
                        proof {
                            assert(spec_parse_args(s, p0, acc) is SArgsFail);
                        }
                        return Some(Err(Error::SyntaxError));
                    }
                    self.pos = self.pos + 1;
                    self.advance_until_not_whitespace(store);
                    let ghost m = self.pos as int;
                    proof {
                        crate::grammar::lemma_ws_end_bounds(s, k + 1);
                    }
                    if !(self.pos < self.view.len && store.byte_at(self.view, self.pos) == 34) {
                        proof {
                            assert(spec_parse_args(s, p0, acc) is SArgsFail);
                        }
                        return Some(Err(Error::SyntaxError));
                    }
                    self.pos = self.pos + 1;
                    let vstart = self.pos;
                    self.advance_until_byte(store, 34);
                    proof {
                        lemma_find_byte_bounds(s, vstart as int, 34);
                    }
                    if self.pos >= self.view.len {
                        proof {
                            assert(spec_parse_args(s, p0, acc) is SArgsFail);
                        }
                        return Some(Err(Error::SyntaxError));
                    }
                    let aval = store.subview(self.view, vstart, self.pos);
                    self.pos = self.pos + 1;
                    args.push_entry(NameValue { name: aname, value: aval });
                    proof {
                        assert(args.model(t) =~= acc.push(
                            (vbytes(t, aname), vbytes(t, aval)),
                        ));
                        assert(spec_parse_args(s, p0, acc) == spec_parse_args(
                            s,
                            self.pos as int,
                            args.model(t),
                        ));
                    }
                }
            },
        }
    }
}

} // verus!
