//! Tokens and the handlers that track a replacement for each of them.
use crate::text::get_chars_len;
use vstd::prelude::*;

verus! {

/// Three token types.
///
/// `WordToken`: a maximal run of alphanumeric characters.
/// `SpaceToken`: one whitespace character.
/// `SpecSymbolToken`: one character that is neither.
#[derive(Clone, Copy, Debug, PartialEq, Eq, Structural)]
pub enum TokenType {
    WordToken,
    SpecSymbolToken,
    SpaceToken,
}

/// A piece of text, its kind and its length in characters.
#[derive(Debug)]
pub struct Token {
    kind: TokenType,
    token: String,
    token_len: usize,
}

impl Token {
    pub closed spec fn kind_spec(&self) -> TokenType {
        self.kind
    }

    pub closed spec fn text(&self) -> Seq<char> {
        self.token@
    }

    pub closed spec fn wf(&self) -> bool {
        self.token_len == self.token@.len()
    }

    pub fn new(kind: TokenType, token: String) -> (r: Self)
        ensures
            r.wf(),
            r.kind_spec() == kind,
            r.text() == token@,
    {
        let token_len = get_chars_len(token.as_str());
        Token { kind, token, token_len }
    }

    pub fn kind(&self) -> (r: &TokenType)
        ensures
            *r == self.kind_spec(),
    {
        &self.kind
    }

    pub fn token(&self) -> (r: &String)
        ensures
            r@ == self.text(),
    {
        &self.token
    }

    /// Length in characters.
    pub fn utf8_len(&self) -> (r: usize)
        requires
            self.wf(),
        ensures
            r == self.text().len(),
    {
        self.token_len
    }

    /// Length in bytes.
    pub fn byte_len(&self) -> (r: usize)
        ensures
            r == vstd::utf8::encode_utf8(self.text()).len() as usize,
    {
        self.token.as_str().len()
    }

    /// An equal copy.
    pub fn copy(&self) -> (r: Token)
        ensures
            r.kind_spec() == self.kind_spec(),
            r.text() == self.text(),
            r.wf() == self.wf(),
    {
        Token { kind: self.kind, token: self.token.clone(), token_len: self.token_len }
    }
}

impl PartialEq for Token {
    fn eq(&self, other: &Token) -> (r: bool) {
        self.kind == other.kind && self.token == other.token && self.token_len == other.token_len
    }
}

impl vstd::std_specs::cmp::PartialEqSpecImpl for Token {
    open spec fn obeys_eq_spec() -> bool {
        true
    }

    open spec fn eq_spec(&self, other: &Token) -> bool {
        self.same_as(other)
    }
}

impl Token {
    /// Equal kind, text and recorded length.
    pub closed spec fn same_as(&self, other: &Token) -> bool {
        self.kind == other.kind && self.token@ == other.token@ && self.token_len == other.token_len
    }
}

/// An original token and at most one replacement for it.
#[derive(Debug)]
pub struct TokenHandler {
    original_token: Token,
    changed_token: Option<Token>,
}

impl TokenHandler {
    pub closed spec fn original(&self) -> Token {
        self.original_token
    }

    pub closed spec fn changed(&self) -> Option<Token> {
        self.changed_token
    }

    /// The token that currently stands in this slot.
    pub open spec fn latest(&self) -> Token {
        match self.changed() {
            Some(t) => t,
            None => self.original(),
        }
    }

    pub open spec fn wf(&self) -> bool {
        &&& self.original().wf()
        &&& self.changed() matches Some(t) ==> t.wf()
    }

    pub fn new(kind: TokenType, token_str: String) -> (r: Self)
        ensures
            r.wf(),
            r.original().kind_spec() == kind,
            r.original().text() == token_str@,
            r.changed() is None,
    {
        TokenHandler { original_token: Token::new(kind, token_str), changed_token: None }
    }

    /// Set a new replacement for this token.
    pub fn change(&mut self, kind: TokenType, new_token_str: String)
        ensures
            final(self).original() == old(self).original(),
            final(self).changed() matches Some(t) && t.wf() && t.kind_spec() == kind && t.text()
                == new_token_str@,
    {
        self.changed_token = Some(Token::new(kind, new_token_str));
    }

    pub fn is_changed(&self) -> (r: bool)
        ensures
            r == self.changed() is Some,
    {
        if let Some(_) = &self.changed_token {
            return true;
        }
        false
    }

    pub fn get_original(&self) -> (r: &Token)
        ensures
            *r == self.original(),
    {
        &self.original_token
    }

    /// The replacement if there is one, else the original.
    pub fn get_latest(&self) -> (r: &Token)
        ensures
            *r == self.latest(),
    {
        if let Some(token) = &self.changed_token {
            return token;
        }
        &self.original_token
    }

    /// Drop the replacement.
    pub fn set_to_original(&mut self)
        ensures
            final(self).original() == old(self).original(),
            final(self).changed() is None,
    {
        self.changed_token = None
    }
}

impl PartialEq for TokenHandler {
    fn eq(&self, other: &TokenHandler) -> (r: bool) {
        let same_original = self.original_token == other.original_token;
        let same_changed = match (&self.changed_token, &other.changed_token) {
            (None, None) => true,
            (Some(a), Some(b)) => *a == *b,
            _ => false,
        };
        same_original && same_changed
    }
}

impl vstd::std_specs::cmp::PartialEqSpecImpl for TokenHandler {
    open spec fn obeys_eq_spec() -> bool {
        true
    }

    open spec fn eq_spec(&self, other: &TokenHandler) -> bool {
        self.original().same_as(&other.original()) && match (self.changed(), other.changed()) {
            (None, None) => true,
            (Some(a), Some(b)) => a.same_as(&b),
            _ => false,
        }
    }
}

/// An original token with the full history of its changes, each with the
/// sequence number of the change.
#[derive(Debug)]
pub struct ChangeLog {
    original_token: Token,
    original_seq: usize,
    change_logs: Vec<Token>,
    change_seqs: Vec<usize>,
    is_changed: bool,
}

impl ChangeLog {
    pub closed spec fn original(&self) -> Token {
        self.original_token
    }

    pub closed spec fn logs(&self) -> Seq<Token> {
        self.change_logs@
    }

    pub closed spec fn seqs(&self) -> Seq<usize> {
        self.change_seqs@
    }

    pub closed spec fn changed_flag(&self) -> bool {
        self.is_changed
    }

    /// The last change if there is one, else the original.
    pub open spec fn latest(&self) -> Token {
        if self.logs().len() > 0 {
            self.logs().last()
        } else {
            self.original()
        }
    }

    /// A log with no change yet; the original gets sequence number `change_seq`, or 0.
    pub fn new(kind: TokenType, token_str: String, change_seq: Option<usize>) -> (r: Self)
        ensures
            r.original().kind_spec() == kind,
            r.original().text() == token_str@,
            r.logs().len() == 0,
            !r.changed_flag(),
    {
        let original_seq = match change_seq {
            Some(val) => val,
            None => 0,
        };
        ChangeLog {
            original_token: Token::new(kind, token_str),
            original_seq,
            change_logs: Vec::new(),
            change_seqs: Vec::new(),
            is_changed: false,
        }
    }

    /// Record a change.
    pub fn add_change(&mut self, kind: TokenType, new_token_str: String, change_seq: usize)
        ensures
            final(self).original() == old(self).original(),
            final(self).logs().len() == old(self).logs().len() + 1,
            final(self).logs().drop_last() == old(self).logs(),
            final(self).logs().last().kind_spec() == kind,
            final(self).logs().last().text() == new_token_str@,
            final(self).seqs() == old(self).seqs().push(change_seq),
            final(self).changed_flag(),
    {
        let ghost before = self.change_logs@;
        self.change_logs.push(Token::new(kind, new_token_str));
        assert(self.change_logs@.drop_last() =~= before);
        self.change_seqs.push(change_seq);
        self.is_changed = true;
    }

    pub fn is_changed(&self) -> (r: bool)
        ensures
            r == self.changed_flag(),
    {
        self.is_changed
    }

    pub fn get_original(&self) -> (r: &Token)
        ensures
            *r == self.original(),
    {
        &self.original_token
    }

    pub fn get_logs(&self) -> (r: &Vec<Token>)
        ensures
            r@ == self.logs(),
    {
        &self.change_logs
    }

    /// The last change if there is one, else the original.
    pub fn get_latest(&self) -> (r: &Token)
        ensures
            *r == self.latest(),
    {
        let n = self.change_logs.len();
        if n > 0 {
            return &self.change_logs[n - 1];
        }
        &self.original_token
    }
}

} // verus!
